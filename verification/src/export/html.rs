//! HTML export: a self-contained page with its own style sheet.

use vstd::prelude::*;
use crate::text::{chars_of, push_char};
use crate::document::Document;
use crate::document::block::{AttrV, BlockKind, BlockV, InlineAttr, InlineRun, KindV, RunV, block_text};
use crate::document::runs::runs_view;
use crate::export::{
    first_color, first_highlight, first_link, find_color, find_highlight, find_link, hex6,
    push_hex6, wrap,
};

verus! {

// ── Escaping ─────────────────────────────────────────────────────────────────

/// One character with `&`, `<` and `>` escaped as entities.
pub open spec fn esc_char(c: char) -> Seq<char> {
    if c == '&' {
        "&amp;"@
    } else if c == '<' {
        "&lt;"@
    } else if c == '>' {
        "&gt;"@
    } else {
        seq![c]
    }
}

/// `s` with `&`, `<` and `>` escaped as entities.
pub open spec fn esc_spec(s: Seq<char>) -> Seq<char>
    decreases s.len(),
{
    if s.len() == 0 {
        Seq::empty()
    } else {
        esc_spec(s.drop_last()) + esc_char(s.last())
    }
}

/// Escape `&`, `<` and `>` in `s`.
pub fn esc(s: &str) -> (r: String)
    ensures
        r@ == esc_spec(s@),
{
    let v = chars_of(s);
    let mut out = String::new();
    let mut i: usize = 0;
    while i < v.len()
        invariant
            v@ == s@,
            i <= v@.len(),
            out@ == esc_spec(v@.take(i as int)),
        decreases v@.len() - i,
    {
        let c = v[i];
        if c == '&' {
            out.append("&amp;");
        } else if c == '<' {
            out.append("&lt;");
        } else if c == '>' {
            out.append("&gt;");
        } else {
            push_char(&mut out, c);
        }
        proof {
            assert(v@.take(i as int + 1).drop_last() =~= v@.take(i as int));
        }
        i = i + 1;
    }
    proof {
        assert(v@.take(v@.len() as int) =~= v@);
    }
    out
}

// ── Inline runs ───────────────────────────────────────────────────────────────

/// `s` wrapped in `open` and `close` when `attrs` holds `x`.
pub open spec fn wrap_if(attrs: Seq<AttrV>, x: AttrV, open: Seq<char>, s: Seq<char>, close: Seq<char>) -> Seq<
    char,
> {
    if attrs.contains(x) {
        open + s + close
    } else {
        s
    }
}

/// One run as HTML: its escaped text wrapped in `strong`, `em`, `u`, `s`,
/// `sup` and `sub` for the attributes it has, in that order, then in a
/// coloured span for its first text colour, a highlighted span for its
/// first highlight, and a link for its first link.
pub open spec fn run_html(r: RunV) -> Seq<char> {
    let a = r.attrs;
    let s1 = wrap_if(a, AttrV::Bold, "<strong>"@, esc_spec(r.text), "</strong>"@);
    let s2 = wrap_if(a, AttrV::Italic, "<em>"@, s1, "</em>"@);
    let s3 = wrap_if(a, AttrV::Underline, "<u>"@, s2, "</u>"@);
    let s4 = wrap_if(a, AttrV::Strikethrough, "<s>"@, s3, "</s>"@);
    let s5 = wrap_if(a, AttrV::Superscript, "<sup>"@, s4, "</sup>"@);
    let s6 = wrap_if(a, AttrV::Subscript, "<sub>"@, s5, "</sub>"@);
    let s7 = match first_color(a) {
        Some(c) => "<span style=\"color:#"@ + hex6(c as nat) + "\">"@ + s6 + "</span>"@,
        None => s6,
    };
    let s8 = match first_highlight(a) {
        Some(c) => "<span style=\"background:#"@ + hex6(c as nat) + "\">"@ + s7 + "</span>"@,
        None => s7,
    };
    match first_link(a) {
        Some(u) => "<a href=\""@ + u + "\">"@ + s8 + "</a>"@,
        None => s8,
    }
}

/// Runs as HTML, one after the other.
pub open spec fn inline_html(runs: Seq<RunV>) -> Seq<char>
    decreases runs.len(),
{
    if runs.len() == 0 {
        Seq::empty()
    } else {
        inline_html(runs.drop_last()) + run_html(runs.last())
    }
}

/// `s` wrapped in `open` and `close` when `attrs` holds `x`.
fn wrap_when(attrs: &Vec<InlineAttr>, x: InlineAttr, open: &str, s: String, close: &str) -> (r: String)
    ensures
        r@ == wrap_if(crate::document::block::attrs_view(attrs@), x@, open@, s@, close@),
{
    if crate::document::block::attrs_contain(attrs, &x) {
        wrap(open, &s, close)
    } else {
        s
    }
}

/// `s` in a span whose style sets `property` to colour `c`.
fn colour_span(property: &str, c: u32, s: &String) -> (r: String)
    ensures
        r@ == property@ + hex6(c as nat) + "\">"@ + s@ + "</span>"@,
{
    let mut r = String::new();
    r.append(property);
    push_hex6(&mut r, c);
    r.append("\">");
    r.append(s.as_str());
    r.append("</span>");
    proof {
        assert(r@ =~= property@ + hex6(c as nat) + "\">"@ + s@ + "</span>"@);
    }
    r
}

/// One run as HTML.
fn render_run_html(r: &InlineRun) -> (s: String)
    ensures
        s@ == run_html(r@),
{
    let a = &r.attrs;
    let s0 = esc(r.text.as_str());
    let s1 = wrap_when(a, InlineAttr::Bold, "<strong>", s0, "</strong>");
    let s2 = wrap_when(a, InlineAttr::Italic, "<em>", s1, "</em>");
    let s3 = wrap_when(a, InlineAttr::Underline, "<u>", s2, "</u>");
    let s4 = wrap_when(a, InlineAttr::Strikethrough, "<s>", s3, "</s>");
    let s5 = wrap_when(a, InlineAttr::Superscript, "<sup>", s4, "</sup>");
    let s6 = wrap_when(a, InlineAttr::Subscript, "<sub>", s5, "</sub>");
    let s7 = match find_color(a) {
        Some(c) => colour_span("<span style=\"color:#", c, &s6),
        None => s6,
    };
    let s8 = match find_highlight(a) {
        Some(c) => colour_span("<span style=\"background:#", c, &s7),
        None => s7,
    };
    match find_link(a) {
        Some(url) => {
            let mut t = String::new();
            t.append("<a href=\"");
            t.append(url.as_str());
            t.append("\">");
            t.append(s8.as_str());
            t.append("</a>");
            proof {
                assert(t@ =~= "<a href=\""@ + url@ + "\">"@ + s8@ + "</a>"@);
            }
            t
        },
        None => s8,
    }
}

/// Runs as HTML, one after the other.
pub fn render_inline_html(runs: &[InlineRun]) -> (s: String)
    ensures
        s@ == inline_html(runs_view(runs@)),
{
    let ghost rv = runs_view(runs@);
    let mut out = String::new();
    let mut i: usize = 0;
    while i < runs.len()
        invariant
            rv == runs_view(runs@),
            i <= rv.len(),
            out@ == inline_html(rv.take(i as int)),
        decreases rv.len() - i,
    {
        let piece = render_run_html(&runs[i]);
        out.append(piece.as_str());
        proof {
            assert(rv.take(i as int + 1).drop_last() =~= rv.take(i as int));
            assert(rv[i as int] == runs@[i as int]@);
        }
        i = i + 1;
    }
    proof {
        assert(rv.take(rv.len() as int) =~= rv);
    }
    out
}

// ── Blocks and page ───────────────────────────────────────────────────────────

/// The HTML element of a block.
pub open spec fn html_tag(b: BlockV) -> Seq<char> {
    let inline = inline_html(b.content);
    match b.kind {
        KindV::Title => "<h1>"@ + inline + "</h1>"@,
        KindV::Heading1 => "<h2>"@ + inline + "</h2>"@,
        KindV::Heading2 => "<h3>"@ + inline + "</h3>"@,
        KindV::Caption => "<p class=\"caption\">"@ + inline + "</p>"@,
        KindV::Quote => "<blockquote>"@ + inline + "</blockquote>"@,
        KindV::Code => "<pre><code>"@ + esc_spec(block_text(b)) + "</code></pre>"@,
        KindV::BulletItem => "<li>"@ + inline + "</li>"@,
        KindV::OrderedItem { .. } => "<li>"@ + inline + "</li>"@,
        KindV::CheckItem { checked } => "<li><input type=\"checkbox\" "@ + (if checked {
            "checked "@
        } else {
            Seq::empty()
        }) + "disabled> "@ + inline + "</li>"@,
        KindV::Divider => "<hr>"@,
        KindV::Image { alt, .. } => "<figure><img alt=\""@ + esc_spec(alt) + "\"></figure>"@,
        KindV::Paragraph => "<p>"@ + inline + "</p>"@,
    }
}

/// The blocks' elements, each on a line of its own.
pub open spec fn html_blocks(blocks: Seq<BlockV>) -> Seq<char>
    decreases blocks.len(),
{
    if blocks.len() == 0 {
        Seq::empty()
    } else {
        html_blocks(blocks.drop_last()) + html_tag(blocks.last()) + seq!['\n']
    }
}

/// The page body: the title as a heading, the subtitle as a paragraph of
/// class `subtitle`, then the blocks.
pub open spec fn html_body(title: Seq<char>, subtitle: Seq<char>, blocks: Seq<BlockV>) -> Seq<char> {
    (if title.len() > 0 {
        "<h1>"@ + esc_spec(title) + "</h1>"@ + seq!['\n']
    } else {
        Seq::empty()
    }) + (if subtitle.len() > 0 {
        "<p class=\"subtitle\">"@ + esc_spec(subtitle) + "</p>"@ + seq!['\n']
    } else {
        Seq::empty()
    }) + html_blocks(blocks)
}

/// What comes before the page title.
pub open spec fn html_head() -> Seq<char> {
    "<!DOCTYPE html>\n<html lang=\"en\">\n<head>\n<meta charset=\"UTF-8\">\n<title>"@
}

/// What comes between the page title and the body.
pub open spec fn html_style() -> Seq<char> {
    "</title>\n<style>\nbody{font-family:Georgia,serif;max-width:700px;margin:80px auto;\nline-height:1.82;font-size:17px;color:#1c1c1e;padding:0 24px}\nh1,h2,h3{letter-spacing:-.02em;margin:1.3em 0 .4em}\nblockquote{border-left:2.5px solid #1b6ee4;padding-left:22px;\nfont-style:italic;color:#58585f}\npre{background:#f5f4f2;padding:14px 18px;border-radius:8px;\nfont-family:monospace;font-size:13px}\nhr{border:none;border-top:1px solid #ddd;margin:1.8em 0}\n.subtitle{font-style:italic;color:#888}\n.caption{font-size:.80em;color:#888}\n</style>\n</head>\n<body>\n"@
}

/// What comes after the body.
pub open spec fn html_tail() -> Seq<char> {
    "</body>\n</html>"@
}

/// The HTML export: the page with the escaped title and the body.
pub open spec fn html_document(title: Seq<char>, subtitle: Seq<char>, blocks: Seq<BlockV>) -> Seq<
    char,
> {
    html_head() + esc_spec(title) + html_style() + html_body(title, subtitle, blocks) + html_tail()
}

/// The HTML element of a block.
fn block_tag(block: &crate::document::block::Block) -> (tag: String)
    ensures
        tag@ == html_tag(block@),
{
    match &block.kind {
        BlockKind::Title => wrap("<h1>", &render_inline_html(block.content.as_slice()), "</h1>"),
        BlockKind::Heading1 => wrap("<h2>", &render_inline_html(block.content.as_slice()), "</h2>"),
        BlockKind::Heading2 => wrap("<h3>", &render_inline_html(block.content.as_slice()), "</h3>"),
        BlockKind::Caption => wrap(
            "<p class=\"caption\">",
            &render_inline_html(block.content.as_slice()),
            "</p>",
        ),
        BlockKind::Quote => wrap(
            "<blockquote>",
            &render_inline_html(block.content.as_slice()),
            "</blockquote>",
        ),
        BlockKind::Code => wrap(
            "<pre><code>",
            &esc(block.plain_text().as_str()),
            "</code></pre>",
        ),
        BlockKind::BulletItem => wrap("<li>", &render_inline_html(block.content.as_slice()), "</li>"),
        BlockKind::OrderedItem { .. } => wrap(
            "<li>",
            &render_inline_html(block.content.as_slice()),
            "</li>",
        ),
        BlockKind::CheckItem { checked } => {
            let inline = render_inline_html(block.content.as_slice());
            let mut s = String::new();
            s.append("<li><input type=\"checkbox\" ");
            let ghost mid = s@;
            if *checked {
                s.append("checked ");
            }
            proof {
                if !*checked {
                    assert(s@ =~= mid + Seq::<char>::empty());
                }
            }
            s.append("disabled> ");
            s.append(inline.as_str());
            s.append("</li>");
            proof {
                assert(s@ =~= html_tag(block@));
            }
            s
        },
        BlockKind::Divider => {
            let mut s = String::new();
            s.append("<hr>");
            proof {
                assert(s@ =~= "<hr>"@);
            }
            s
        },
        BlockKind::Image { alt, .. } => wrap(
            "<figure><img alt=\"",
            &esc(alt.as_str()),
            "\"></figure>",
        ),
        BlockKind::Paragraph => wrap("<p>", &render_inline_html(block.content.as_slice()), "</p>"),
    }
}

/// Export document as a self-contained HTML file.
pub fn export_html(doc: &Document) -> (s: String)
    ensures
        s@ == html_document(doc.title@, doc.subtitle@, doc.blocks_view()),
{
    let mut body = String::new();
    if !doc.title.as_str().is_empty() {
        body.append("<h1>");
        body.append(esc(doc.title.as_str()).as_str());
        body.append("</h1>");
        push_char(&mut body, '\n');
    }
    if !doc.subtitle.as_str().is_empty() {
        body.append("<p class=\"subtitle\">");
        body.append(esc(doc.subtitle.as_str()).as_str());
        body.append("</p>");
        push_char(&mut body, '\n');
    }
    let ghost header = body@;
    let ghost bv = doc.blocks_view();
    let mut i: usize = 0;
    while i < doc.blocks.len()
        invariant
            bv == doc.blocks_view(),
            i <= bv.len(),
            body@ == header + html_blocks(bv.take(i as int)),
        decreases bv.len() - i,
    {
        let block = &doc.blocks[i];
        proof {
            assert(bv[i as int] == block@);
            assert(bv.take(i as int + 1).drop_last() =~= bv.take(i as int));
        }
        let tag = block_tag(block);
        body.append(tag.as_str());
        push_char(&mut body, '\n');
        proof {
            assert(body@ =~= header + html_blocks(bv.take(i as int + 1)));
        }
        i = i + 1;
    }
    proof {
        assert(bv.take(bv.len() as int) =~= bv);
        assert(body@ =~= html_body(doc.title@, doc.subtitle@, bv));
    }
    let mut out = String::new();
    out.append("<!DOCTYPE html>\n<html lang=\"en\">\n<head>\n<meta charset=\"UTF-8\">\n<title>");
    out.append(esc(doc.title.as_str()).as_str());
    out.append("</title>\n<style>\nbody{font-family:Georgia,serif;max-width:700px;margin:80px auto;\nline-height:1.82;font-size:17px;color:#1c1c1e;padding:0 24px}\nh1,h2,h3{letter-spacing:-.02em;margin:1.3em 0 .4em}\nblockquote{border-left:2.5px solid #1b6ee4;padding-left:22px;\nfont-style:italic;color:#58585f}\npre{background:#f5f4f2;padding:14px 18px;border-radius:8px;\nfont-family:monospace;font-size:13px}\nhr{border:none;border-top:1px solid #ddd;margin:1.8em 0}\n.subtitle{font-style:italic;color:#888}\n.caption{font-size:.80em;color:#888}\n</style>\n</head>\n<body>\n");
    out.append(body.as_str());
    out.append("</body>\n</html>");
    proof {
        assert(out@ =~= html_document(doc.title@, doc.subtitle@, bv));
    }
    out
}

// ── Laws ──────────────────────────────────────────────────────────────────────

/// Escaped text holds no `<` and no `>`, so it cannot open or close a tag.
pub proof fn law_escaped_has_no_angle_brackets(s: Seq<char>)
    ensures
        !esc_spec(s).contains('<'),
        !esc_spec(s).contains('>'),
    decreases s.len(),
{
    reveal_strlit("&amp;");
    reveal_strlit("&lt;");
    reveal_strlit("&gt;");
    if s.len() > 0 {
        law_escaped_has_no_angle_brackets(s.drop_last());
        let a = esc_spec(s.drop_last());
        let b = esc_char(s.last());
        assert(esc_spec(s) == a + b);
        assert forall|k: int| 0 <= k < (a + b).len() implies (a + b)[k] != '<' && (a + b)[k]
            != '>' by {
            if k < a.len() {
                assert((a + b)[k] == a[k]);
                assert(a.contains(a[k]));
            } else {
                assert((a + b)[k] == b[k - a.len()]);
            }
        }
    }
}


/// `e` as an element wrapped around `inner`: its opening tag, `inner`,
/// and the closing tag of the same name.
pub open spec fn element(e: Seq<char>, inner: Seq<char>) -> Seq<char> {
    seq!['<'] + e + seq!['>'] + inner + seq!['<', '/'] + e + seq!['>']
}

/// Every block of text is exported as an element of its own around its
/// inline HTML, closed by the tag it was opened with: a title as `h1`, a
/// heading as `h2`, a subheading as `h3`, a quote as `blockquote`, a
/// paragraph as `p`, and a list item as `li`.
pub proof fn law_blocks_are_their_elements(b: BlockV)
    ensures
        ({
            let inline = inline_html(b.content);
            &&& b.kind == KindV::Title ==> html_tag(b) == element(seq!['h', '1'], inline)
            &&& b.kind == KindV::Heading1 ==> html_tag(b) == element(seq!['h', '2'], inline)
            &&& b.kind == KindV::Heading2 ==> html_tag(b) == element(seq!['h', '3'], inline)
            &&& b.kind == KindV::Quote ==> html_tag(b) == element(
                seq!['b', 'l', 'o', 'c', 'k', 'q', 'u', 'o', 't', 'e'],
                inline,
            )
            &&& b.kind == KindV::Paragraph ==> html_tag(b) == element(seq!['p'], inline)
            &&& (b.kind == KindV::BulletItem || b.kind is OrderedItem) ==> html_tag(b) == element(
                seq!['l', 'i'],
                inline,
            )
        }),
{
    let inline = inline_html(b.content);
    match b.kind {
        KindV::Title => {
            reveal_strlit("<h1>");
            reveal_strlit("</h1>");
            assert(html_tag(b) =~= element(seq!['h', '1'], inline));
        },
        KindV::Heading1 => {
            reveal_strlit("<h2>");
            reveal_strlit("</h2>");
            assert(html_tag(b) =~= element(seq!['h', '2'], inline));
        },
        KindV::Heading2 => {
            reveal_strlit("<h3>");
            reveal_strlit("</h3>");
            assert(html_tag(b) =~= element(seq!['h', '3'], inline));
        },
        KindV::Quote => {
            reveal_strlit("<blockquote>");
            reveal_strlit("</blockquote>");
            assert(html_tag(b) =~= element(
                seq!['b', 'l', 'o', 'c', 'k', 'q', 'u', 'o', 't', 'e'],
                inline,
            ));
        },
        KindV::Paragraph => {
            reveal_strlit("<p>");
            reveal_strlit("</p>");
            assert(html_tag(b) =~= element(seq!['p'], inline));
        },
        KindV::BulletItem => {
            reveal_strlit("<li>");
            reveal_strlit("</li>");
            assert(html_tag(b) =~= element(seq!['l', 'i'], inline));
        },
        KindV::OrderedItem { .. } => {
            reveal_strlit("<li>");
            reveal_strlit("</li>");
            assert(html_tag(b) =~= element(seq!['l', 'i'], inline));
        },
        _ => {},
    }
}

} // verus!
