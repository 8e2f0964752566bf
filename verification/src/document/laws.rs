//! What the editing operations promise of the document's text, proved over
//! their spec functions.

use vstd::prelude::*;
use vstd::utf8::*;
use crate::text::{
    blen, enc, is_boundary, text_insert, text_prefix, text_remove, text_suffix, lemma_enc_concat,
    lemma_prefix_suffix, lemma_boundary_in_range, lemma_ends_are_boundaries, lemma_enc_empty,
    lemma_text_insert,
};
use crate::document::block::{AttrV, BlockV, KindV, RunV, block_text};
use crate::document::position::{DocPosition, DocRange};
use crate::document::runs::{
    runs_delete, runs_len, runs_normalise, runs_text, lemma_delete_text, lemma_insert_text,
    lemma_normalise_head, lemma_normalise_text, lemma_runs_text_concat, lemma_runs_text_single,
    attrs_with, attrs_without, byte_attrs, runs_restyle, runs_split_at, lemma_split_keeps_text,
    lemma_split_leaves_no_run_across, lemma_split_keeps_no_run_across, lemma_split_byte_attrs,
    lemma_restyle_byte_attrs, lemma_normalise_byte_attrs, runs_insert, owner_from, run_start,
    run_end, lemma_byte_attrs_len, lemma_byte_attrs_concat, lemma_byte_attrs_single,
    lemma_run_start_ends, lemma_owner_from_facts, lemma_run_start_step, lemma_boundary_in_run,
    lemma_run_bounds,
};
use crate::document::ops::{
    check_pos_spec, delete_range_spec, insert_text_spec, merge_blocks_spec, restyle_spec,
    set_block_kind_spec, split_block_spec, attr_range_ok,
};

verus! {

// ── Helpers on text ───────────────────────────────────────────────────────────

/// Text with no bytes is empty.
proof fn lemma_blen_zero(s: Seq<char>)
    requires
        blen(s) == 0,
    ensures
        s == Seq::<char>::empty(),
{
    if s.len() > 0 {
        assert(encode_utf8(s) == encode_scalar(s[0] as u32) + encode_utf8(s.drop_first()));
    }
}

/// Cutting at the start gives nothing before and everything after.
proof fn lemma_cut_at_start(s: Seq<char>)
    ensures
        text_prefix(s, 0) == Seq::<char>::empty(),
        text_suffix(s, 0) == s,
{
    crate::text::lemma_ends_are_boundaries(s);
    lemma_prefix_suffix(s, 0);
    lemma_blen_zero(text_prefix(s, 0));
    assert(s =~= text_prefix(s, 0) + text_suffix(s, 0));
}

/// Cutting at the end gives everything before and nothing after.
proof fn lemma_cut_at_end(s: Seq<char>)
    ensures
        text_prefix(s, blen(s)) == s,
        text_suffix(s, blen(s)) == Seq::<char>::empty(),
{
    crate::text::lemma_ends_are_boundaries(s);
    lemma_prefix_suffix(s, blen(s));
    lemma_blen_zero(text_suffix(s, blen(s)));
    assert(s =~= text_prefix(s, blen(s)) + text_suffix(s, blen(s)));
}

// ── Insert and delete ─────────────────────────────────────────────────────────

/// Inserting at a valid position puts the text into that block's text at
/// that byte offset; the block keeps its id, kind and layout, and every
/// other block stays as it was.
pub proof fn law_insert_places_text(blocks: Seq<BlockV>, pos: DocPosition, t: Seq<char>)
    requires
        check_pos_spec(blocks, pos) is Ok,
    ensures
        ({
            let (nb, r) = insert_text_spec(blocks, pos, t);
            let i = pos.block_idx as int;
            &&& r is Ok
            &&& nb.len() == blocks.len()
            &&& block_text(nb[i]) == text_insert(
                block_text(blocks[i]),
                pos.byte_offset as int,
                t,
            )
            &&& nb[i].id == blocks[i].id && nb[i].kind == blocks[i].kind && nb[i].layout
                == blocks[i].layout
            &&& forall|j: int| 0 <= j < blocks.len() && j != i ==> nb[j] == blocks[j]
        }),
{
    let i = pos.block_idx as int;
    let s = block_text(blocks[i]);
    let off = pos.byte_offset as int;
    if t.len() == 0 {
        lemma_prefix_suffix(s, off);
        assert(text_insert(s, off, t) =~= s);
    } else {
        lemma_insert_text(blocks[i].content, off, t);
    }
}

/// Deleting a range within one block takes exactly those bytes out of its
/// text; every other block stays as it was.
pub proof fn law_delete_in_block(blocks: Seq<BlockV>, range: DocRange)
    requires
        range.start.block_idx == range.end.block_idx,
        range.start.byte_offset <= range.end.byte_offset,
        check_pos_spec(blocks, range.start) is Ok,
        check_pos_spec(blocks, range.end) is Ok,
    ensures
        ({
            let (nb, r) = delete_range_spec(blocks, range);
            let i = range.start.block_idx as int;
            &&& r is Ok
            &&& nb.len() == blocks.len()
            &&& block_text(nb[i]) == text_remove(
                block_text(blocks[i]),
                range.start.byte_offset as int,
                range.end.byte_offset as int,
            )
            &&& nb[i].id == blocks[i].id && nb[i].kind == blocks[i].kind
            &&& forall|j: int| 0 <= j < blocks.len() && j != i ==> nb[j] == blocks[j]
        }),
{
    let i = range.start.block_idx as int;
    let s = block_text(blocks[i]);
    let a = range.start.byte_offset as int;
    let b = range.end.byte_offset as int;
    if a == b {
        lemma_prefix_suffix(s, a);
        assert(text_remove(s, a, b) =~= s);
    } else {
        lemma_delete_text(blocks[i].content, a, b);
    }
}

/// The text left of a run list when everything from `from` on is deleted.
proof fn lemma_delete_tail(runs: Seq<RunV>, from: int)
    requires
        is_boundary(runs_text(runs), from),
    ensures
        runs_text(runs_delete(runs, from, runs_len(runs))) == text_prefix(runs_text(runs), from),
{
    let t = runs_text(runs);
    crate::text::lemma_boundary_in_range(t, from);
    lemma_cut_at_end(t);
    crate::text::lemma_ends_are_boundaries(t);
    if from < runs_len(runs) {
        lemma_delete_text(runs, from, runs_len(runs));
        assert(text_remove(t, from, blen(t)) =~= text_prefix(t, from));
    }
}

/// The text left of a run list when everything before `to` is deleted.
proof fn lemma_delete_head(runs: Seq<RunV>, to: int)
    requires
        is_boundary(runs_text(runs), to),
    ensures
        runs_text(runs_delete(runs, 0, to)) == text_suffix(runs_text(runs), to),
{
    let t = runs_text(runs);
    crate::text::lemma_boundary_in_range(t, to);
    lemma_cut_at_start(t);
    crate::text::lemma_ends_are_boundaries(t);
    if 0 < to {
        lemma_delete_text(runs, 0, to);
        assert(text_remove(t, 0, to) =~= text_suffix(t, to));
    }
}

/// Deleting a range that spans blocks joins the text before its start, in
/// the start block, with the text after its end, in the end block, into
/// one block that keeps the start block's id and kind; the blocks in
/// between go, and the others stay in order.
pub proof fn law_delete_across_blocks(blocks: Seq<BlockV>, range: DocRange)
    requires
        range.start.block_idx < range.end.block_idx,
        check_pos_spec(blocks, range.start) is Ok,
        check_pos_spec(blocks, range.end) is Ok,
    ensures
        ({
            let (nb, r) = delete_range_spec(blocks, range);
            let si = range.start.block_idx as int;
            let ei = range.end.block_idx as int;
            &&& r is Ok
            &&& nb.len() == blocks.len() - (ei - si)
            &&& block_text(nb[si]) == text_prefix(
                block_text(blocks[si]),
                range.start.byte_offset as int,
            ) + text_suffix(block_text(blocks[ei]), range.end.byte_offset as int)
            &&& nb[si].id == blocks[si].id && nb[si].kind == blocks[si].kind
            &&& forall|j: int| 0 <= j < si ==> nb[j] == blocks[j]
            &&& forall|j: int| si < j < nb.len() ==> nb[j] == blocks[j + (ei - si)]
        }),
{
    let si = range.start.block_idx as int;
    let ei = range.end.block_idx as int;
    let s = range.start;
    let e = range.end;
    let c_s = blocks[si].content;
    let c_e = blocks[ei].content;
    lemma_delete_tail(c_s, s.byte_offset as int);
    lemma_delete_head(c_e, e.byte_offset as int);
    let b1 = blocks.update(
        si,
        BlockV { content: runs_delete(c_s, s.byte_offset as int, runs_len(c_s)), ..blocks[si] },
    );
    let b2 = b1.update(
        ei,
        BlockV { content: runs_delete(b1[ei].content, 0, e.byte_offset as int), ..b1[ei] },
    );
    let b3 = if si + 1 < ei {
        b2.take(si + 1) + b2.skip(ei)
    } else {
        b2
    };
    assert(b3[si] == b2[si]);
    assert(b3[si + 1] == b2[ei]);
    let merged = runs_normalise(b3[si].content + b3[si + 1].content);
    lemma_normalise_text(b3[si].content + b3[si + 1].content);
    lemma_runs_text_concat(b3[si].content, b3[si + 1].content);
    let (nb, r) = delete_range_spec(blocks, range);
    assert(nb == merge_blocks_spec(b3, s.block_idx).0);
    assert forall|j: int| si < j < nb.len() implies nb[j] == blocks[j + (ei - si)] by {
        assert(nb[j] == b3[j + 1]);
        if si + 1 < ei {
            assert(b3[j + 1] == b2[j + 1 - (si + 1) + ei]);
        }
    }
}

/// Cutting a concatenation where its parts meet gives back the parts.
pub proof fn lemma_cut_concat(p: Seq<char>, q: Seq<char>)
    ensures
        is_boundary(p + q, blen(p)),
        text_prefix(p + q, blen(p)) == p,
        text_suffix(p + q, blen(p)) == q,
{
    crate::text::lemma_ends_are_boundaries(p);
    crate::text::lemma_boundary_concat(p, q, blen(p));
    lemma_enc_concat(p, q);
    let e = enc(p + q);
    assert(e.subrange(0, blen(p)) =~= enc(p));
    assert(e.subrange(blen(p), blen(p + q)) =~= enc(q));
    encode_utf8_decode_utf8(p);
    encode_utf8_decode_utf8(q);
}

/// Taking out the bytes just inserted gives back the text, and both ends of
/// the inserted text are boundaries.
pub proof fn lemma_remove_inserted(s: Seq<char>, a: int, t: Seq<char>)
    requires
        is_boundary(s, a),
    ensures
        is_boundary(text_insert(s, a, t), a),
        is_boundary(text_insert(s, a, t), a + blen(t)),
        text_remove(text_insert(s, a, t), a, a + blen(t)) == s,
{
    let p = text_prefix(s, a);
    let q = text_suffix(s, a);
    let x = text_insert(s, a, t);
    lemma_prefix_suffix(s, a);
    crate::text::lemma_ends_are_boundaries(p);
    crate::text::lemma_ends_are_boundaries(p + t);
    assert(x =~= p + (t + q));
    crate::text::lemma_boundary_concat(p, t + q, a);
    assert(x =~= (p + t) + q);
    lemma_enc_concat(p, t);
    crate::text::lemma_boundary_concat(p + t, q, a + blen(t));
    lemma_enc_concat(p + t, q);
    let e = enc(x);
    assert(e.subrange(0, a) =~= enc(p));
    assert(e.subrange(a + blen(t), e.len() as int) =~= enc(q));
    encode_utf8_decode_utf8(p);
    encode_utf8_decode_utf8(q);
    assert(text_prefix(x, a) == p);
    assert(text_suffix(x, a + blen(t)) == q);
}

/// Deleting the bytes just inserted gives back the block's text, and the
/// deletion is accepted.
pub proof fn law_insert_then_delete_restores(blocks: Seq<BlockV>, pos: DocPosition, t: Seq<char>)
    requires
        check_pos_spec(blocks, pos) is Ok,
        pos.byte_offset + blen(t) <= usize::MAX,
    ensures
        ({
            let b1 = insert_text_spec(blocks, pos, t).0;
            let end = DocPosition {
                block_idx: pos.block_idx,
                byte_offset: (pos.byte_offset + blen(t)) as usize,
            };
            let (b2, r) = delete_range_spec(b1, DocRange { start: pos, end });
            let i = pos.block_idx as int;
            &&& r is Ok
            &&& b2.len() == blocks.len()
            &&& block_text(b2[i]) == block_text(blocks[i])
            &&& forall|j: int| 0 <= j < blocks.len() && j != i ==> b2[j] == blocks[j]
        }),
{
    let i = pos.block_idx as int;
    let a = pos.byte_offset as int;
    law_insert_places_text(blocks, pos, t);
    let b1 = insert_text_spec(blocks, pos, t).0;
    lemma_remove_inserted(block_text(blocks[i]), a, t);
    let end = DocPosition { block_idx: pos.block_idx, byte_offset: (pos.byte_offset + blen(t)) as usize };
    law_delete_in_block(b1, DocRange { start: pos, end });
}

// ── Split and merge ───────────────────────────────────────────────────────────

/// Splitting a block and merging it back restores the block's text, id,
/// kind and layout, and the document's other blocks (its runs may be
/// joined differently).
pub proof fn law_split_then_merge(blocks: Seq<BlockV>, pos: DocPosition, new_id: u128)
    requires
        check_pos_spec(blocks, pos) is Ok,
    ensures
        ({
            let split = split_block_spec(blocks, pos, new_id).0;
            let (m, r) = merge_blocks_spec(split, pos.block_idx);
            let i = pos.block_idx as int;
            &&& r is Ok
            &&& m.len() == blocks.len()
            &&& block_text(m[i]) == block_text(blocks[i])
            &&& m[i].id == blocks[i].id && m[i].kind == blocks[i].kind && m[i].layout
                == blocks[i].layout
            &&& forall|j: int| 0 <= j < blocks.len() && j != i ==> m[j] == blocks[j]
        }),
{
    let i = pos.block_idx as int;
    let off = pos.byte_offset as int;
    let b = blocks[i];
    let t = block_text(b);
    lemma_delete_tail(b.content, off);
    lemma_prefix_suffix(t, off);
    let split = split_block_spec(blocks, pos, new_id).0;
    let kept = split[i];
    let fresh = split[i + 1];
    let tail = text_suffix(t, off);
    if tail.len() == 0 {
        assert(fresh.content =~= Seq::<RunV>::empty());
        assert(runs_text(fresh.content) =~= Seq::<char>::empty());
    } else {
        lemma_runs_text_single(RunV { text: tail, attrs: Seq::empty() });
    }
    lemma_normalise_text(kept.content + fresh.content);
    lemma_runs_text_concat(kept.content, fresh.content);
    assert(t =~= text_prefix(t, off) + tail);
    let (m, r) = merge_blocks_spec(split, pos.block_idx);
    assert forall|j: int| 0 <= j < blocks.len() && j != i implies m[j] == blocks[j] by {
        if j > i {
            assert(m[j] == split[j + 1]);
        }
    }
}

// ── Refused edits ─────────────────────────────────────────────────────────────

/// An insertion, split, merge, restyle or change of kind that is refused
/// leaves every block as it was.
pub proof fn law_refused_edits_change_nothing(
    blocks: Seq<BlockV>,
    pos: DocPosition,
    t: Seq<char>,
    range: DocRange,
    idx: usize,
    new_id: u128,
    x: AttrV,
    add: bool,
    k: KindV,
)
    ensures
        insert_text_spec(blocks, pos, t).1 is Err ==> insert_text_spec(blocks, pos, t).0 == blocks,
        split_block_spec(blocks, pos, new_id).1 is Err ==> split_block_spec(blocks, pos, new_id).0
            == blocks,
        merge_blocks_spec(blocks, idx).1 is Err ==> merge_blocks_spec(blocks, idx).0 == blocks,
        restyle_spec(blocks, range, x, add).1 is Err ==> restyle_spec(blocks, range, x, add).0
            == blocks,
        set_block_kind_spec(blocks, idx, k).1 is Err ==> set_block_kind_spec(blocks, idx, k).0
            == blocks,
{
}

/// A refused deletion leaves every block as it was, for ranges whose start
/// block does not come after their end block.
pub proof fn law_refused_delete_changes_nothing(blocks: Seq<BlockV>, range: DocRange)
    requires
        range.start.block_idx <= range.end.block_idx,
    ensures
        delete_range_spec(blocks, range).1 is Err ==> delete_range_spec(blocks, range).0 == blocks,
{
    let s = range.start;
    let e = range.end;
    if s != e && check_pos_spec(blocks, s) is Ok && check_pos_spec(blocks, e) is Ok
        && s.block_idx < e.block_idx {
        law_delete_across_blocks(blocks, range);
    }
}

/// No edit leaves a document without a block: each of them keeps at least
/// one block of a document that has one.
pub proof fn law_edits_keep_a_block(
    blocks: Seq<BlockV>,
    pos: DocPosition,
    t: Seq<char>,
    range: DocRange,
    idx: usize,
    new_id: u128,
    x: AttrV,
    add: bool,
    k: KindV,
)
    requires
        blocks.len() >= 1,
    ensures
        insert_text_spec(blocks, pos, t).0.len() >= 1,
        delete_range_spec(blocks, range).0.len() >= 1,
        split_block_spec(blocks, pos, new_id).0.len() >= 1,
        merge_blocks_spec(blocks, idx).0.len() >= 1,
        restyle_spec(blocks, range, x, add).0.len() >= 1,
        set_block_kind_spec(blocks, idx, k).0.len() >= 1,
{
    lemma_merge_keeps_a_block(blocks, idx);
    let s = range.start;
    let e = range.end;
    if s != e && check_pos_spec(blocks, s) is Ok && check_pos_spec(blocks, e) is Ok
        && s.block_idx != e.block_idx {
        let si = s.block_idx as int;
        let ei = e.block_idx as int;
        let cs = blocks[si].content;
        let b1 = blocks.update(
            si,
            BlockV { content: runs_delete(cs, s.byte_offset as int, runs_len(cs)), ..blocks[si] },
        );
        let b2 = b1.update(
            ei,
            BlockV { content: runs_delete(b1[ei].content, 0, e.byte_offset as int), ..b1[ei] },
        );
        let b3 = if si + 1 < ei {
            b2.take(si + 1) + b2.skip(ei)
        } else {
            b2
        };
        assert(b3.len() >= 1);
        lemma_merge_keeps_a_block(b3, s.block_idx);
        assert(delete_range_spec(blocks, range).0 == merge_blocks_spec(b3, s.block_idx).0);
    }
}

/// Merging keeps at least one block of a document that has one.
proof fn lemma_merge_keeps_a_block(blocks: Seq<BlockV>, idx: usize)
    requires
        blocks.len() >= 1,
    ensures
        merge_blocks_spec(blocks, idx).0.len() >= 1,
{
}

// ── Inline attributes ─────────────────────────────────────────────────────────

/// Adding or removing an inline attribute never changes any block's text.
pub proof fn law_restyle_keeps_text(blocks: Seq<BlockV>, range: DocRange, x: AttrV, add: bool)
    requires
        attr_range_ok(blocks, range),
    ensures
        restyle_spec(blocks, range, x, add).0.len() == blocks.len(),
        forall|j: int|
            0 <= j < blocks.len() ==> block_text(#[trigger] restyle_spec(blocks, range, x, add).0[j])
                == block_text(blocks[j]),
{
    let s = range.start;
    let e = range.end;
    if s != e && check_pos_spec(blocks, s) is Ok && check_pos_spec(blocks, e) is Ok {
        let i = s.block_idx as int;
        let a = s.byte_offset as int;
        let b = e.byte_offset as int;
        let c0 = blocks[i].content;
        let c1 = crate::document::runs::runs_split_at(c0, a);
        let c2 = crate::document::runs::runs_split_at(c1, b);
        crate::document::runs::lemma_split_keeps_text(c0, a);
        crate::document::runs::lemma_split_keeps_text(c1, b);
        crate::document::runs::lemma_restyle_keeps_text(c2, a, b, x, add);
        lemma_normalise_text(crate::document::runs::runs_restyle(c2, a, b, x, add));
    }
}

/// Adding an inline attribute over a range gives it to every byte of the
/// start block in `[start, end)`, and removing it takes it from every such
/// byte; every other byte keeps its attributes, and the other blocks stay
/// as they were.
pub proof fn law_restyle_sets_byte_attributes(blocks: Seq<BlockV>, range: DocRange, x: AttrV, add: bool)
    requires
        attr_range_ok(blocks, range),
        restyle_spec(blocks, range, x, add).1 is Ok,
    ensures
        ({
            let nb = restyle_spec(blocks, range, x, add).0;
            let i = range.start.block_idx as int;
            let a = range.start.byte_offset as int;
            let b = range.end.byte_offset as int;
            let before = byte_attrs(blocks[i].content);
            let after = byte_attrs(nb[i].content);
            &&& nb.len() == blocks.len()
            &&& forall|j: int| 0 <= j < blocks.len() && j != i ==> nb[j] == blocks[j]
            &&& after.len() == before.len()
            &&& forall|p: int|
                0 <= p < before.len() ==> #[trigger] after[p] == if a <= p < b {
                    if add {
                        attrs_with(before[p], x)
                    } else {
                        attrs_without(before[p], x)
                    }
                } else {
                    before[p]
                }
        }),
{
    let s = range.start;
    let e = range.end;
    if s != e {
        let i = s.block_idx as int;
        let a = s.byte_offset as int;
        let b = e.byte_offset as int;
        let c0 = blocks[i].content;
        let c1 = runs_split_at(c0, a);
        let c2 = runs_split_at(c1, b);
        lemma_split_keeps_text(c0, a);
        lemma_split_leaves_no_run_across(c0, a);
        lemma_split_keeps_no_run_across(c1, b, a);
        lemma_split_leaves_no_run_across(c1, b);
        lemma_split_byte_attrs(c0, a);
        lemma_split_byte_attrs(c1, b);
        lemma_restyle_byte_attrs(c2, a, b, x, add);
        lemma_normalise_byte_attrs(runs_restyle(c2, a, b, x, add));
    }
}

/// After normalising, no two neighbouring runs have the same attributes.
pub proof fn law_normalised_neighbours_differ(runs: Seq<RunV>)
    ensures
        forall|i: int|
            0 <= i < runs_normalise(runs).len() - 1 ==> #[trigger] runs_normalise(runs)[i].attrs
                != runs_normalise(runs)[i + 1].attrs,
    decreases runs.len(),
{
    if runs.len() > 0 {
        let rest = runs_normalise(runs.drop_first());
        law_normalised_neighbours_differ(runs.drop_first());
        let n = runs_normalise(runs);
        if rest.len() > 0 && rest[0].attrs == runs[0].attrs {
            assert forall|i: int| 0 <= i < n.len() - 1 implies #[trigger] n[i].attrs != n[i
                + 1].attrs by {
                assert(n[i + 1] == rest[i + 1]);
                if i > 0 {
                    assert(n[i] == rest[i]);
                }
            }
        } else {
            assert forall|i: int| 0 <= i < n.len() - 1 implies #[trigger] n[i].attrs != n[i
                + 1].attrs by {
                assert(n[i + 1] == rest[i]);
                if i > 0 {
                    assert(n[i] == rest[i - 1]);
                }
            }
        }
    }
}


/// Splitting a block puts a new block, with the given id, right after it:
/// after a title, a heading or a subheading the new block is a paragraph,
/// and after a block of any other kind it has that block's kind.
pub proof fn law_split_new_block_kind(blocks: Seq<BlockV>, pos: DocPosition, new_id: u128)
    requires
        check_pos_spec(blocks, pos) is Ok,
    ensures
        ({
            let (nb, r) = split_block_spec(blocks, pos, new_id);
            let i = pos.block_idx as int;
            let k = blocks[i].kind;
            &&& r is Ok
            &&& nb.len() == blocks.len() + 1
            &&& nb[i + 1].id == new_id
            &&& (k == KindV::Title || k == KindV::Heading1 || k == KindV::Heading2) ==> nb[i
                + 1].kind == KindV::Paragraph
            &&& !(k == KindV::Title || k == KindV::Heading1 || k == KindV::Heading2) ==> nb[i
                + 1].kind == k
        }),
{
}

/// Where an insertion lands in a run list: the bytes before it and after
/// the inserted text keep their attributes, the inserted bytes all share
/// one attribute list, and after the first byte they take the attributes
/// of the byte just before them (the run they are typed into).
pub proof fn lemma_insert_byte_attrs(runs: Seq<RunV>, off: int, t: Seq<char>)
    requires
        is_boundary(runs_text(runs), off),
    ensures
        ({
            let before = byte_attrs(runs);
            let after = byte_attrs(runs_insert(runs, off, t));
            let n = blen(t);
            &&& after.len() == before.len() + n
            &&& forall|p: int| 0 <= p < off ==> #[trigger] after[p] == before[p]
            &&& forall|p: int| off <= p < before.len() ==> #[trigger] after[p + n] == before[p]
            &&& forall|p: int| off <= p < off + n ==> #[trigger] after[p] == after[off]
            &&& off > 0 ==> forall|p: int| off <= p < off + n ==> #[trigger] after[p] == before[off
                - 1]
        }),
{
    let txt = runs_text(runs);
    let n = blen(t);
    lemma_boundary_in_range(txt, off);
    lemma_byte_attrs_len(runs);
    lemma_insert_text(runs, off, t);
    lemma_byte_attrs_len(runs_insert(runs, off, t));
    let before = byte_attrs(runs);
    let after = byte_attrs(runs_insert(runs, off, t));
    if runs.len() == 0 {
        lemma_byte_attrs_single(RunV { text: t, attrs: Seq::empty() });
        assert(off == 0) by {
            assert(txt =~= Seq::<char>::empty());
            lemma_ends_are_boundaries(txt);
            lemma_enc_empty(txt);
        }
    } else {
        lemma_run_start_ends(runs);
        lemma_owner_from_facts(runs, off, 0);
        let i = owner_from(runs, off, 0);
        let last = runs.len() - 1;
        lemma_run_start_step(runs, last);
        assert(i < runs.len());
        let r = runs[i].text;
        let local = off - run_start(runs, i);
        lemma_boundary_in_run(runs, i, off);
        lemma_text_insert(r, local, t);
        let nr = RunV { text: text_insert(r, local, t), ..runs[i] };
        let a = runs.take(i);
        let z = runs.skip(i + 1);
        assert(runs =~= a + seq![runs[i]] + z);
        assert(runs_insert(runs, off, t) =~= a + seq![nr] + z);
        lemma_byte_attrs_concat(a + seq![runs[i]], z);
        lemma_byte_attrs_concat(a, seq![runs[i]]);
        lemma_byte_attrs_single(runs[i]);
        lemma_byte_attrs_concat(a + seq![nr], z);
        lemma_byte_attrs_concat(a, seq![nr]);
        lemma_byte_attrs_single(nr);
        lemma_byte_attrs_len(a);
        lemma_run_bounds(runs, i);
        let st = run_start(runs, i);
        assert(byte_attrs(a).len() == st);
        if off > 0 {
            lemma_owner_is_first(runs, off, i);
            assert(st < off);
        }
    }
}

/// The run `owner_from` finds is the first that ends at or after `off`; so
/// when `off` is past the start of the text, it starts before `off`.
proof fn lemma_owner_is_first(runs: Seq<RunV>, off: int, i: int)
    requires
        off > 0,
        i == owner_from(runs, off, 0),
        0 <= i < runs.len(),
    ensures
        run_start(runs, i) < off,
{
    lemma_owner_before(runs, off, 0, i);
    if i > 0 {
        lemma_run_start_step(runs, i - 1);
        assert(off > run_end(runs, i - 1));
    } else {
        lemma_run_start_ends(runs);
    }
}

/// Every run `owner_from` passes over ends before `off`.
proof fn lemma_owner_before(runs: Seq<RunV>, off: int, j: int, i: int)
    requires
        0 <= j,
        i == owner_from(runs, off, j),
        i < runs.len(),
    ensures
        forall|k: int| j <= k < i ==> off > #[trigger] run_end(runs, k),
    decreases runs.len() - j,
{
    if j < i {
        lemma_owner_before(runs, off, j + 1, i);
    }
}

/// Inserting text leaves the attributes of every byte that was there
/// before unchanged, and the inserted bytes take the attributes of the run
/// they are typed into: after the start of the block, those of the byte
/// just before them. The other blocks stay as they were.
pub proof fn law_insert_keeps_attributes(blocks: Seq<BlockV>, pos: DocPosition, t: Seq<char>)
    requires
        check_pos_spec(blocks, pos) is Ok,
    ensures
        ({
            let nb = insert_text_spec(blocks, pos, t).0;
            let i = pos.block_idx as int;
            let off = pos.byte_offset as int;
            let n = blen(t);
            let before = byte_attrs(blocks[i].content);
            let after = byte_attrs(nb[i].content);
            &&& nb.len() == blocks.len()
            &&& forall|j: int| 0 <= j < blocks.len() && j != i ==> nb[j] == blocks[j]
            &&& after.len() == before.len() + n
            &&& forall|p: int| 0 <= p < off ==> #[trigger] after[p] == before[p]
            &&& forall|p: int| off <= p < before.len() ==> #[trigger] after[p + n] == before[p]
            &&& forall|p: int| off <= p < off + n ==> #[trigger] after[p] == after[off]
            &&& off > 0 ==> forall|p: int| off <= p < off + n ==> #[trigger] after[p] == before[off
                - 1]
        }),
{
    let i = pos.block_idx as int;
    if t.len() == 0 {
        lemma_enc_empty(t);
        lemma_byte_attrs_len(blocks[i].content);
    } else {
        lemma_insert_byte_attrs(blocks[i].content, pos.byte_offset as int, t);
    }
}

} // verus!
