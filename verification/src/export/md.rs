//! Markdown export.

use vstd::prelude::*;
use crate::text::push_char;
use crate::document::Document;
use crate::document::block::{AttrV, BlockKind, BlockV, InlineAttr, InlineRun, KindV, RunV};
use crate::document::runs::runs_view;
use crate::text::{decimal, push_decimal};
use crate::export::{first_link, find_link, prefixed, trim_end, trim_end_ws, wrap};

verus! {

/// One run as Markdown: its text, wrapped in `**` when bold, then in `*`
/// when italic, then in `~~` when struck through, then made the text of a
/// link to the URL of its first link.
pub open spec fn run_md(r: RunV) -> Seq<char> {
    let s0 = r.text;
    let s1 = if r.attrs.contains(AttrV::Bold) {
        "**"@ + s0 + "**"@
    } else {
        s0
    };
    let s2 = if r.attrs.contains(AttrV::Italic) {
        "*"@ + s1 + "*"@
    } else {
        s1
    };
    let s3 = if r.attrs.contains(AttrV::Strikethrough) {
        "~~"@ + s2 + "~~"@
    } else {
        s2
    };
    match first_link(r.attrs) {
        Some(u) => "["@ + s3 + "]("@ + u + ")"@,
        None => s3,
    }
}

/// Runs as Markdown, one after the other.
pub open spec fn inline_md(runs: Seq<RunV>) -> Seq<char>
    decreases runs.len(),
{
    if runs.len() == 0 {
        Seq::empty()
    } else {
        inline_md(runs.drop_last()) + run_md(runs.last())
    }
}

/// The Markdown line of a block of kind `k` with inline text `inline`.
pub open spec fn md_line(k: KindV, inline: Seq<char>) -> Seq<char> {
    match k {
        KindV::Title => "# "@ + inline,
        KindV::Heading1 => "## "@ + inline,
        KindV::Heading2 => "### "@ + inline,
        KindV::Caption => "#### "@ + inline,
        KindV::Quote => "> "@ + inline,
        KindV::Code => "```\n"@ + inline + "\n```"@,
        KindV::BulletItem => "- "@ + inline,
        KindV::OrderedItem { index } => decimal(index as nat) + ". "@ + inline,
        KindV::CheckItem { checked } => "- ["@ + (if checked {
            "x"@
        } else {
            " "@
        }) + "] "@ + inline,
        KindV::Divider => "---"@,
        KindV::Image { alt, .. } => "!["@ + alt + "]()"@,
        KindV::Paragraph => inline,
    }
}

/// One block as Markdown: its line with a newline when the line is not
/// empty, then a blank line.
pub open spec fn md_block(b: BlockV) -> Seq<char> {
    let line = md_line(b.kind, inline_md(b.content));
    (if line.len() > 0 {
        line + seq!['\n']
    } else {
        Seq::empty()
    }) + seq!['\n']
}

/// The blocks as Markdown, one after the other.
pub open spec fn md_blocks(blocks: Seq<BlockV>) -> Seq<char>
    decreases blocks.len(),
{
    if blocks.len() == 0 {
        Seq::empty()
    } else {
        md_blocks(blocks.drop_last()) + md_block(blocks.last())
    }
}

/// The title as a level-one heading, the subtitle in italics, and a blank
/// line after them when either is there.
pub open spec fn md_header(title: Seq<char>, subtitle: Seq<char>) -> Seq<char> {
    (if title.len() > 0 {
        "# "@ + title + seq!['\n']
    } else {
        Seq::empty()
    }) + (if subtitle.len() > 0 {
        "*"@ + subtitle + "*"@ + seq!['\n']
    } else {
        Seq::empty()
    }) + (if title.len() > 0 || subtitle.len() > 0 {
        seq!['\n']
    } else {
        Seq::empty()
    })
}

/// The Markdown export: header and blocks, without trailing whitespace.
pub open spec fn md_document(title: Seq<char>, subtitle: Seq<char>, blocks: Seq<BlockV>) -> Seq<
    char,
> {
    trim_end_ws(md_header(title, subtitle) + md_blocks(blocks))
}

/// Whether `attrs` holds `x`.
fn has(attrs: &Vec<InlineAttr>, x: InlineAttr) -> (r: bool)
    ensures
        r == crate::document::block::attrs_view(attrs@).contains(x@),
{
    crate::document::block::attrs_contain(attrs, &x)
}

/// One run as Markdown.
fn render_run_md(r: &InlineRun) -> (s: String)
    ensures
        s@ == run_md(r@),
{
    let mut s = r.text.clone();
    if has(&r.attrs, InlineAttr::Bold) {
        s = wrap("**", &s, "**");
    }
    if has(&r.attrs, InlineAttr::Italic) {
        s = wrap("*", &s, "*");
    }
    if has(&r.attrs, InlineAttr::Strikethrough) {
        s = wrap("~~", &s, "~~");
    }
    match find_link(&r.attrs) {
        Some(url) => {
            let mut t = String::new();
            t.append("[");
            t.append(s.as_str());
            t.append("](");
            t.append(url.as_str());
            t.append(")");
            s = t;
        },
        None => {},
    }
    s
}

/// Runs as Markdown, one after the other.
pub fn render_inline_md(runs: &[InlineRun]) -> (s: String)
    ensures
        s@ == inline_md(runs_view(runs@)),
{
    let ghost rv = runs_view(runs@);
    let mut out = String::new();
    let mut i: usize = 0;
    while i < runs.len()
        invariant
            rv == runs_view(runs@),
            i <= rv.len(),
            out@ == inline_md(rv.take(i as int)),
        decreases rv.len() - i,
    {
        let piece = render_run_md(&runs[i]);
        out.append(piece.as_str());
        proof {
            assert(rv.take(i as int + 1).drop_last() =~= rv.take(i as int));
            assert(rv[i as int] == runs@[i as int]@);
        }
        i = i + 1;
    }
    proof {
        assert(rv.take(rv.len() as int) =~= rv);
    }
    out
}

/// The Markdown line of a block.
fn block_line(kind: &BlockKind, inline: String) -> (line: String)
    ensures
        line@ == md_line(kind@, inline@),
{
    match kind {
        BlockKind::Title => prefixed("# ", &inline),
        BlockKind::Heading1 => prefixed("## ", &inline),
        BlockKind::Heading2 => prefixed("### ", &inline),
        BlockKind::Caption => prefixed("#### ", &inline),
        BlockKind::Quote => prefixed("> ", &inline),
        BlockKind::Code => wrap("```\n", &inline, "\n```"),
        BlockKind::BulletItem => prefixed("- ", &inline),
        BlockKind::OrderedItem { index } => {
            let mut s = String::new();
            push_decimal(&mut s, *index as u64);
            s.append(". ");
            s.append(inline.as_str());
            s
        },
        BlockKind::CheckItem { checked } => {
            let mut s = String::new();
            s.append("- [");
            if *checked {
                s.append("x");
            } else {
                s.append(" ");
            }
            s.append("] ");
            s.append(inline.as_str());
            s
        },
        BlockKind::Divider => {
            let mut s = String::new();
            s.append("---");
            s
        },
        BlockKind::Image { alt, .. } => wrap("![", alt, "]()"),
        BlockKind::Paragraph => inline,
    }
}

/// Export document as Markdown.
pub fn export_md(doc: &Document) -> (s: String)
    ensures
        s@ == md_document(doc.title@, doc.subtitle@, doc.blocks_view()),
{
    let mut out = String::new();
    if !doc.title.as_str().is_empty() {
        out.append("# ");
        out.append(doc.title.as_str());
        push_char(&mut out, '\n');
    }
    if !doc.subtitle.as_str().is_empty() {
        out.append("*");
        out.append(doc.subtitle.as_str());
        out.append("*");
        push_char(&mut out, '\n');
    }
    if !doc.title.as_str().is_empty() || !doc.subtitle.as_str().is_empty() {
        push_char(&mut out, '\n');
    }
    let ghost header = out@;
    proof {
        assert(header =~= md_header(doc.title@, doc.subtitle@));
    }
    let ghost bv = doc.blocks_view();
    let mut i: usize = 0;
    while i < doc.blocks.len()
        invariant
            bv == doc.blocks_view(),
            i <= bv.len(),
            out@ == header + md_blocks(bv.take(i as int)),
        decreases bv.len() - i,
    {
        let block = &doc.blocks[i];
        proof {
            assert(bv[i as int] == block@);
            assert(bv.take(i as int + 1).drop_last() =~= bv.take(i as int));
        }
        let ghost before = out@;
        let inline = render_inline_md(block.content.as_slice());
        let line = block_line(&block.kind, inline);
        if !line.as_str().is_empty() {
            out.append(line.as_str());
            push_char(&mut out, '\n');
        }
        push_char(&mut out, '\n');
        proof {
            assert(out@ =~= before + md_block(block@));
            assert(out@ =~= header + md_blocks(bv.take(i as int + 1)));
        }
        i = i + 1;
    }
    proof {
        assert(bv.take(bv.len() as int) =~= bv);
    }
    trim_end(&out)
}

} // verus!
