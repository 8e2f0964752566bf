//! The document outline: the title and heading blocks, as rows of the
//! sidebar.

use vstd::prelude::*;
use crate::text::{chars_of, push_char};
use crate::document::Document;
use crate::document::block::{BlockKind, BlockV, KindV, block_text};
use crate::stats::{is_ws, is_white_space, trim_ws, lemma_leading_ws, lemma_trailing_ws};

verus! {

/// Titles and headings make up the outline.
pub open spec fn is_heading(k: KindV) -> bool {
    k == KindV::Title || k == KindV::Heading1 || k == KindV::Heading2
}

/// The texts of the outline's blocks, in order.
pub open spec fn heading_texts(blocks: Seq<BlockV>) -> Seq<Seq<char>>
    decreases blocks.len(),
{
    if blocks.len() == 0 {
        Seq::empty()
    } else {
        let p = heading_texts(blocks.drop_last());
        if is_heading(blocks.last().kind) {
            p.push(block_text(blocks.last()))
        } else {
            p
        }
    }
}

/// `parts` joined with `sep` between each two.
pub open spec fn join_with(parts: Seq<Seq<char>>, sep: Seq<char>) -> Seq<char>
    decreases parts.len(),
{
    if parts.len() == 0 {
        Seq::empty()
    } else if parts.len() == 1 {
        parts[0]
    } else {
        join_with(parts.drop_last(), sep) + sep + parts.last()
    }
}

/// The heading texts joined by `|`: the outline changes exactly when this
/// does.
pub open spec fn signature(blocks: Seq<BlockV>) -> Seq<char> {
    join_with(heading_texts(blocks), seq!['|'])
}

/// The outline's signature, to tell when it must be rebuilt.
pub fn outline_signature(doc: &Document) -> (s: String)
    ensures
        s@ == signature(doc.blocks_view()),
{
    let ghost bv = doc.blocks_view();
    let mut s = String::new();
    let mut count: usize = 0;
    let mut i: usize = 0;
    while i < doc.blocks.len()
        invariant
            bv == doc.blocks_view(),
            i <= bv.len(),
            count <= i,
            count == heading_texts(bv.take(i as int)).len(),
            s@ == join_with(heading_texts(bv.take(i as int)), seq!['|']),
        decreases bv.len() - i,
    {
        let block = &doc.blocks[i];
        proof {
            assert(bv[i as int] == block@);
            assert(bv.take(i as int + 1).drop_last() =~= bv.take(i as int));
        }
        let ghost p = heading_texts(bv.take(i as int));
        match block.kind {
            BlockKind::Title | BlockKind::Heading1 | BlockKind::Heading2 => {
                if count > 0 {
                    push_char(&mut s, '|');
                }
                let text = block.plain_text();
                s.append(text.as_str());
                count = count + 1;
                proof {
                    assert(p.push(text@).drop_last() =~= p);
                }
            },
            _ => {},
        }
        i = i + 1;
    }
    proof {
        assert(bv.take(bv.len() as int) =~= bv);
    }
    s
}

/// One row of the outline.
#[derive(Debug, Clone)]
pub struct OutlineRow {
    pub block_idx: usize,
    pub kind: BlockKind,
    pub text: String,
}

/// What a row is: block index, kind and text.
pub open spec fn row_view(r: OutlineRow) -> (usize, KindV, Seq<char>) {
    (r.block_idx, r.kind@, r.text@)
}

/// The outline's rows: each title or heading whose text is not blank, with
/// its index, kind and text.
pub open spec fn outline_rows_spec(blocks: Seq<BlockV>) -> Seq<(usize, KindV, Seq<char>)>
    decreases blocks.len(),
{
    if blocks.len() == 0 {
        Seq::empty()
    } else {
        let p = outline_rows_spec(blocks.drop_last());
        let b = blocks.last();
        if is_heading(b.kind) && trim_ws(block_text(b)).len() > 0 {
            p.push(((blocks.len() - 1) as usize, b.kind, block_text(b)))
        } else {
            p
        }
    }
}

/// Whether `s` is blank: nothing is left of it when trimmed.
pub fn is_blank(s: &str) -> (r: bool)
    ensures
        r == (trim_ws(s@).len() == 0),
{
    let v = chars_of(s);
    let mut a: usize = 0;
    while a < v.len() && is_white_space(v[a])
        invariant
            a <= v@.len(),
            forall|j: int| 0 <= j < a ==> is_ws(#[trigger] v@[j]),
        decreases v@.len() - a,
    {
        a = a + 1;
    }
    proof {
        lemma_leading_ws(v@, a as int);
    }
    if a == v.len() {
        proof {
            assert(v@.skip(a as int) =~= Seq::<char>::empty());
        }
        return true;
    }
    let ghost t = v@.skip(a as int);
    let mut b: usize = v.len();
    while b > a && is_white_space(v[b - 1])
        invariant
            a < v@.len(),
            a <= b <= v@.len(),
            forall|j: int| b <= j < v@.len() ==> is_ws(#[trigger] v@[j]),
        decreases b - a,
    {
        b = b - 1;
    }
    proof {
        assert(b > a);
        assert forall|j: int| t.len() - (v@.len() - b) <= j < t.len() implies is_ws(
            #[trigger] t[j],
        ) by {
            assert(t[j] == v@[a + j]);
        }
        assert(t[t.len() - (v@.len() - b) - 1] == v@[b - 1]);
        lemma_trailing_ws(t, v@.len() - b);
    }
    false
}

/// The outline's rows, in document order.
pub fn outline_rows(doc: &Document) -> (rows: Vec<OutlineRow>)
    ensures
        rows@.map_values(|r: OutlineRow| row_view(r)) == outline_rows_spec(doc.blocks_view()),
{
    let ghost bv = doc.blocks_view();
    let mut rows: Vec<OutlineRow> = Vec::new();
    let mut i: usize = 0;
    while i < doc.blocks.len()
        invariant
            bv == doc.blocks_view(),
            i <= bv.len(),
            rows@.map_values(|r: OutlineRow| row_view(r)) == outline_rows_spec(bv.take(i as int)),
        decreases bv.len() - i,
    {
        let block = &doc.blocks[i];
        proof {
            assert(bv[i as int] == block@);
            assert(bv.take(i as int + 1).drop_last() =~= bv.take(i as int));
        }
        let ghost before = rows@;
        match block.kind {
            BlockKind::Title | BlockKind::Heading1 | BlockKind::Heading2 => {
                let text = block.plain_text();
                if !is_blank(text.as_str()) {
                    let row = OutlineRow { block_idx: i, kind: block.kind.copied(), text };
                    rows.push(row);
                    proof {
                        assert(rows@.map_values(|r: OutlineRow| row_view(r)) =~= before.map_values(
                            |r: OutlineRow| row_view(r),
                        ).push(row_view(row)));
                    }
                }
            },
            _ => {},
        }
        i = i + 1;
    }
    proof {
        assert(bv.take(bv.len() as int) =~= bv);
    }
    rows
}

/// The label prefix and indent of a row of kind `k`.
pub open spec fn row_style_spec(k: KindV) -> (Seq<char>, i32) {
    if k == KindV::Title {
        ("◆ "@, 0)
    } else if k == KindV::Heading1 {
        ("▸ "@, 0)
    } else {
        ("  ▸ "@, 8)
    }
}

/// The label of a row (its prefix, then its text) and its indent.
pub fn row_label(kind: &BlockKind, text: &String) -> (r: (String, i32))
    requires
        is_heading(kind@),
    ensures
        r.0@ == row_style_spec(kind@).0 + text@,
        r.1 == row_style_spec(kind@).1,
{
    let (prefix, indent): (&str, i32) = match kind {
        BlockKind::Title => ("◆ ", 0),
        BlockKind::Heading1 => ("▸ ", 0),
        _ => ("  ▸ ", 8),
    };
    let mut label = String::new();
    label.append(prefix);
    label.append(text.as_str());
    (label, indent)
}

} // verus!
