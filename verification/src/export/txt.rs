//! Plain-text export.

use vstd::prelude::*;
use crate::text::push_char;
use crate::document::Document;
use crate::document::block::{BlockKind, BlockV, KindV, block_text};
use crate::export::{trim_end, trim_end_ws};

verus! {

/// The title and subtitle lines, each followed by a newline, and a blank
/// line after them when either is there.
pub open spec fn txt_header(title: Seq<char>, subtitle: Seq<char>) -> Seq<char> {
    (if title.len() > 0 {
        title + seq!['\n']
    } else {
        Seq::empty()
    }) + (if subtitle.len() > 0 {
        subtitle + seq!['\n']
    } else {
        Seq::empty()
    }) + (if title.len() > 0 || subtitle.len() > 0 {
        seq!['\n']
    } else {
        Seq::empty()
    })
}

/// One block as text: a divider as `---`, an image as `[Image: alt]`,
/// any other block as its text (nothing when empty); then a blank line.
pub open spec fn txt_block(b: BlockV) -> Seq<char> {
    let text = block_text(b);
    (match b.kind {
        KindV::Divider => "---\n"@,
        KindV::Image { alt, .. } => "[Image: "@ + alt + "]\n"@,
        _ => if text.len() > 0 {
            text + seq!['\n']
        } else {
            Seq::empty()
        },
    }) + seq!['\n']
}

/// The blocks as text, one after the other.
pub open spec fn txt_blocks(blocks: Seq<BlockV>) -> Seq<char>
    decreases blocks.len(),
{
    if blocks.len() == 0 {
        Seq::empty()
    } else {
        txt_blocks(blocks.drop_last()) + txt_block(blocks.last())
    }
}

/// The plain-text export: header and blocks, without trailing whitespace.
pub open spec fn txt_document(title: Seq<char>, subtitle: Seq<char>, blocks: Seq<BlockV>) -> Seq<
    char,
> {
    trim_end_ws(txt_header(title, subtitle) + txt_blocks(blocks))
}

/// Export document as plain text.
pub fn export_txt(doc: &Document) -> (s: String)
    ensures
        s@ == txt_document(doc.title@, doc.subtitle@, doc.blocks_view()),
{
    let mut out = String::new();
    if !doc.title.as_str().is_empty() {
        out.append(doc.title.as_str());
        push_char(&mut out, '\n');
    }
    if !doc.subtitle.as_str().is_empty() {
        out.append(doc.subtitle.as_str());
        push_char(&mut out, '\n');
    }
    if !doc.title.as_str().is_empty() || !doc.subtitle.as_str().is_empty() {
        push_char(&mut out, '\n');
    }
    let ghost header = out@;
    proof {
        assert(header =~= txt_header(doc.title@, doc.subtitle@));
    }
    let ghost bv = doc.blocks_view();
    let mut i: usize = 0;
    while i < doc.blocks.len()
        invariant
            bv == doc.blocks_view(),
            i <= bv.len(),
            out@ == header + txt_blocks(bv.take(i as int)),
        decreases bv.len() - i,
    {
        let block = &doc.blocks[i];
        proof {
            assert(bv[i as int] == block@);
            assert(bv.take(i as int + 1).drop_last() =~= bv.take(i as int));
        }
        let ghost before = out@;
        let text = block.plain_text();
        match &block.kind {
            BlockKind::Divider => {
                out.append("---\n");
            },
            BlockKind::Image { alt, .. } => {
                out.append("[Image: ");
                out.append(alt.as_str());
                out.append("]\n");
            },
            _ => {
                if !text.as_str().is_empty() {
                    out.append(text.as_str());
                    push_char(&mut out, '\n');
                }
            },
        }
        push_char(&mut out, '\n');
        proof {
            assert(out@ =~= before + txt_block(block@));
            assert(out@ =~= header + txt_blocks(bv.take(i as int + 1)));
        }
        i = i + 1;
    }
    proof {
        assert(bv.take(bv.len() as int) =~= bv);
    }
    trim_end(&out)
}

} // verus!
