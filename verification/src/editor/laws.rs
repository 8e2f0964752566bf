//! What the cursor and selection keys promise, proved over their spec
//! functions.

use vstd::prelude::*;
use crate::text::{blen, is_boundary, lemma_ends_are_boundaries, lemma_boundary_in_range};
use crate::document::block::{BlockV, block_text};
use crate::document::ops::blocks_fit;
use crate::document::runs::runs_len;
use crate::document::position::{DocPosition, pos_le};
use crate::editor::EditV;
use crate::editor::selection::{SelectionState, selection_range};
use crate::editor::input::{
    extend_selection_spec, move_cursor_spec, move_vertical_spec, next_boundary_spec,
    prev_boundary_spec, text_len, min_offset, has_selection,
};
use crate::editor::keys::{KeyAction, action_ok, applied};
use crate::document::ops::{check_pos_spec, delete_range_spec, merge_blocks_spec};
use crate::document::position::DocRange;
use crate::document::runs::{lemma_normalise_text, lemma_runs_text_concat, runs_normalise, runs_text};
use crate::document::laws::{
    lemma_cut_concat, lemma_remove_inserted, law_delete_across_blocks, law_delete_in_block,
    law_insert_places_text,
};
use crate::text::{lemma_prefix_suffix, text_prefix, text_suffix};

verus! {

/// The position names a block and falls on a character boundary of its
/// text.
pub open spec fn valid_position(blocks: Seq<BlockV>, p: DocPosition) -> bool {
    p.block_idx < blocks.len() && is_boundary(block_text(blocks[p.block_idx as int]), p.byte_offset as int)
}

proof fn lemma_prev_boundary_is_boundary(s: Seq<char>, from: int)
    ensures
        is_boundary(s, prev_boundary_spec(s, from)),
    decreases from,
{
    lemma_ends_are_boundaries(s);
    if from > 0 && !is_boundary(s, from) {
        lemma_prev_boundary_is_boundary(s, from - 1);
    }
}

proof fn lemma_next_boundary_is_boundary(s: Seq<char>, from: int)
    ensures
        is_boundary(s, next_boundary_spec(s, from)),
    decreases blen(s) - from,
{
    lemma_ends_are_boundaries(s);
    if from < blen(s) && !is_boundary(s, from + 1) {
        lemma_next_boundary_is_boundary(s, from + 1);
    }
}

/// Left and Right keep a valid cursor valid: it stays within the document
/// and on a character boundary.
pub proof fn law_horizontal_move_keeps_cursor_valid(blocks: Seq<BlockV>, cur: DocPosition, dir: i32)
    requires
        blocks.len() <= usize::MAX,
        blocks_fit(blocks),
        valid_position(blocks, cur),
    ensures
        move_cursor_spec(blocks, cur, dir) matches Some(p) ==> valid_position(blocks, p),
{
    let b = cur.block_idx as int;
    let text = block_text(blocks[b]);
    assert(runs_len(blocks[b].content) <= isize::MAX);
    if b > 0 {
        assert(runs_len(blocks[b - 1].content) <= isize::MAX);
    }
    lemma_boundary_in_range(text, cur.byte_offset as int);
    lemma_prev_boundary_is_boundary(text, cur.byte_offset as int);
    lemma_next_boundary_is_boundary(text, cur.byte_offset as int);
    crate::editor::input::lemma_prev_boundary_le(text, cur.byte_offset as int);
    if b > 0 {
        lemma_ends_are_boundaries(block_text(blocks[b - 1]));
    }
    if b + 1 < blocks.len() {
        lemma_ends_are_boundaries(block_text(blocks[b + 1]));
    }
    lemma_next_boundary_le(text, cur.byte_offset as int);
}

proof fn lemma_next_boundary_le(s: Seq<char>, from: int)
    requires
        0 <= from,
    ensures
        from < blen(s) ==> from < next_boundary_spec(s, from) <= blen(s),
    decreases blen(s) - from,
{
    lemma_ends_are_boundaries(s);
    if from < blen(s) && !is_boundary(s, from + 1) {
        lemma_next_boundary_le(s, from + 1);
    }
}

/// Up and Down keep the cursor within the document and put it on a
/// character boundary of the block it lands in.
pub proof fn law_vertical_move_stays_in_block(blocks: Seq<BlockV>, cur: DocPosition, dir: i32)
    requires
        blocks.len() <= usize::MAX,
        blocks_fit(blocks),
        cur.block_idx < blocks.len(),
    ensures
        move_vertical_spec(blocks, cur, dir) matches Some(p) ==> valid_position(blocks, p)
            && p.byte_offset <= text_len(blocks, p.block_idx as int),
{
    let b = cur.block_idx as int;
    if move_vertical_spec(blocks, cur, dir) is Some {
        let t = if dir < 0 {
            b - 1
        } else {
            b + 1
        };
        assert(runs_len(blocks[t].content) <= isize::MAX);
        assert(text_len(blocks, t) == runs_len(blocks[t].content));
        let off = min_offset(cur.byte_offset, text_len(blocks, t));
        lemma_prev_boundary_is_boundary(block_text(blocks[t]), off as int);
        crate::editor::input::lemma_prev_boundary_le(block_text(blocks[t]), off as int);
        let p = move_vertical_spec(blocks, cur, dir)->0;
        assert(p.block_idx == t);
    }
}

/// Shift with an arrow key keeps the selection's anchor (the old anchor,
/// or the cursor when there was no selection) and makes the moved cursor
/// its active end.
pub proof fn law_extend_selection_keeps_anchor(e: EditV, dir: i32, vertical: bool)
    ensures
        ({
            let (n, moved) = extend_selection_spec(e, dir, vertical);
            let anchor = match e.selection {
                Some(sel) => sel.anchor,
                None => e.cursor,
            };
            &&& moved ==> n.selection == Some(SelectionState { anchor, active: n.cursor })
            &&& !moved ==> n == e
            &&& n.blocks == e.blocks
        }),
{
}

/// The range of a selection runs from the earlier of its ends to the later
/// and covers exactly its two ends.
pub proof fn law_selection_range_ordered(sel: SelectionState)
    ensures
        pos_le(selection_range(sel).start, selection_range(sel).end),
        (selection_range(sel).start == sel.anchor && selection_range(sel).end == sel.active) || (
        selection_range(sel).start == sel.active && selection_range(sel).end == sel.anchor),
{
}


/// The cursor, and both ends of the selection when there is one, are valid
/// positions.
pub open spec fn positions_valid(e: EditV) -> bool {
    &&& valid_position(e.blocks, e.cursor)
    &&& e.selection matches Some(sel) ==> valid_position(e.blocks, sel.anchor) && valid_position(
        e.blocks,
        sel.active,
    )
}

/// Where text is cut at a boundary and something put after the part before
/// the cut, the cut is a boundary of the result.
proof fn lemma_cut_stays_boundary(s: Seq<char>, off: int, rest: Seq<char>)
    requires
        is_boundary(s, off),
    ensures
        is_boundary(text_prefix(s, off) + rest, off),
{
    lemma_prefix_suffix(s, off);
    lemma_cut_concat(text_prefix(s, off), rest);
}

/// Deleting the range between two valid positions, the earlier first,
/// leaves the earlier one valid.
proof fn lemma_delete_keeps_start(blocks: Seq<BlockV>, r: DocRange)
    requires
        valid_position(blocks, r.start),
        valid_position(blocks, r.end),
        pos_le(r.start, r.end),
    ensures
        valid_position(delete_range_spec(blocks, r).0, r.start),
{
    if r.start != r.end {
        let si = r.start.block_idx as int;
        let ei = r.end.block_idx as int;
        let nb = delete_range_spec(blocks, r).0;
        let a = r.start.byte_offset as int;
        let b = r.end.byte_offset as int;
        if si == ei {
            law_delete_in_block(blocks, r);
            lemma_cut_stays_boundary(block_text(blocks[si]), a, text_suffix(block_text(blocks[si]), b));
        } else {
            law_delete_across_blocks(blocks, r);
            lemma_cut_stays_boundary(block_text(blocks[si]), a, text_suffix(block_text(blocks[ei]), b));
        }
    }
}

/// Every key keeps the cursor inside the text and on a character boundary,
/// and so the ends of the selection, with one exception: Backspace with an
/// empty selection (both ends at one place) leaves that selection as it
/// was, whatever the edit did to the text around it.
pub proof fn law_keys_keep_positions_valid(
    e0: EditV,
    a: KeyAction,
    e1: EditV,
    changed: bool,
    new_id: u128,
)
    requires
        e0.blocks.len() <= usize::MAX,
        blocks_fit(e0.blocks),
        positions_valid(e0),
        action_ok(e0, a),
        applied(e0, a, e1, changed, new_id),
    ensures
        valid_position(e1.blocks, e1.cursor),
        e1.selection matches Some(sel) ==> {
            ||| valid_position(e1.blocks, sel.anchor) && valid_position(e1.blocks, sel.active)
            ||| a is Backspace && !has_selection(e0) && e1.selection == e0.selection
        },
{
    let blocks = e0.blocks;
    let cur = e0.cursor;
    let b = cur.block_idx as int;
    let text = block_text(blocks[b]);
    assert(runs_len(blocks[b].content) <= isize::MAX);
    match a {
        KeyAction::Move(dir) => {
            law_horizontal_move_keeps_cursor_valid(blocks, cur, dir);
        },
        KeyAction::MoveVertical(dir) => {
            law_vertical_move_stays_in_block(blocks, cur, dir);
        },
        KeyAction::Extend(dir, vertical) => {
            law_horizontal_move_keeps_cursor_valid(blocks, cur, dir);
            law_vertical_move_stays_in_block(blocks, cur, dir);
        },
        KeyAction::Home => {
            lemma_ends_are_boundaries(text);
        },
        KeyAction::End => {
            lemma_ends_are_boundaries(text);
        },
        KeyAction::Type(ch) => {
            law_insert_places_text(blocks, cur, seq![ch]);
            lemma_remove_inserted(text, cur.byte_offset as int, seq![ch]);
        },
        KeyAction::Enter => {
            lemma_ends_are_boundaries(
                block_text(crate::document::ops::split_block_spec(blocks, cur, new_id).0[b + 1]),
            );
        },
        KeyAction::Backspace => {
            if has_selection(e0) {
                let r = selection_range(e0.selection->0);
                crate::editor::laws::law_selection_range_ordered(e0.selection->0);
                lemma_delete_keeps_start(blocks, r);
            } else if cur.byte_offset == 0 {
                if b > 0 {
                    let (nb, _) = merge_blocks_spec(blocks, (b - 1) as usize);
                    let c1 = blocks[b - 1].content;
                    let c2 = blocks[b].content;
                    lemma_normalise_text(c1 + c2);
                    lemma_runs_text_concat(c1, c2);
                    assert(nb[b - 1].content == runs_normalise(c1 + c2));
                    lemma_cut_concat(runs_text(c1), runs_text(c2));
                    assert(runs_len(c1) <= isize::MAX);
                }
            } else {
                let off = cur.byte_offset as int;
                let prev = prev_boundary_spec(text, off);
                lemma_prev_boundary_is_boundary(text, off);
                crate::editor::input::lemma_prev_boundary_le(text, off);
                let start = DocPosition { block_idx: cur.block_idx, byte_offset: prev as usize };
                lemma_delete_keeps_start(blocks, DocRange { start, end: cur });
            }
        },
        _ => {},
    }
}

} // verus!
