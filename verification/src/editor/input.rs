//! What the editing keys do: cursor movement, selection, typing, Backspace
//! and Enter.
//!
//! Each operation is described by a spec function from the editing state
//! before it to the state after it. Recording undo checkpoints, saving and
//! redrawing are left to the caller.

use vstd::prelude::*;
use crate::text::{blen, is_boundary, byte_len, push_char};
use crate::document::block::{BlockV, block_text};
use crate::document::position::{DocPosition, DocRange, pos_le};
use crate::document::ops::{
    blocks_fit, delete_range_spec, insert_text_spec, merge_blocks_spec, split_block_spec,
};
use crate::editor::{EditV, Editor};
use crate::editor::selection::{SelectionState, selection_range};

verus! {

// ── UTF-8 helpers ─────────────────────────────────────────────────────────────

/// The largest character boundary of `s` in `1..=from`, or 0 when there is
/// none.
pub open spec fn prev_boundary_spec(s: Seq<char>, from: int) -> int
    decreases from,
{
    if from <= 0 {
        0
    } else if is_boundary(s, from) {
        from
    } else {
        prev_boundary_spec(s, from - 1)
    }
}

/// The smallest character boundary of `s` in `from+1..=len`, or the length
/// of `s` in bytes when there is none.
pub open spec fn next_boundary_spec(s: Seq<char>, from: int) -> int
    decreases blen(s) - from,
{
    if from >= blen(s) {
        blen(s)
    } else if is_boundary(s, from + 1) {
        from + 1
    } else {
        next_boundary_spec(s, from + 1)
    }
}

/// The largest character boundary of `s` in `1..=from`, or 0.
pub fn prev_boundary(s: &str, from: usize) -> (r: usize)
    ensures
        r == prev_boundary_spec(s@, from as int),
{
    let mut i: usize = from;
    while i > 0
        invariant
            i <= from,
            prev_boundary_spec(s@, from as int) == prev_boundary_spec(s@, i as int),
        decreases i,
    {
        if s.is_char_boundary(i) {
            return i;
        }
        i = i - 1;
    }
    0
}

/// The smallest character boundary of `s` in `from+1..=len`, or its length.
pub fn next_boundary(s: &str, from: usize) -> (r: usize)
    requires
        blen(s@) <= usize::MAX,
    ensures
        r == next_boundary_spec(s@, from as int),
{
    let n = s.len();
    if from >= n {
        return n;
    }
    let mut i: usize = from;
    while i < n
        invariant
            from <= i <= n,
            n == blen(s@),
            next_boundary_spec(s@, from as int) == next_boundary_spec(s@, i as int),
        decreases n - i,
    {
        if s.is_char_boundary(i + 1) {
            return i + 1;
        }
        i = i + 1;
    }
    n
}

// ── Model ─────────────────────────────────────────────────────────────────────

/// Byte length of the text of block `i`.
pub open spec fn text_len(blocks: Seq<BlockV>, i: int) -> int {
    blen(block_text(blocks[i]))
}

/// The smaller of two offsets.
pub open spec fn min_offset(a: usize, b: int) -> usize {
    if a <= b {
        a
    } else {
        b as usize
    }
}

/// Where Left (`dir < 0`) or Right moves the cursor; `None` when it cannot
/// move. Left within a block goes to `prev_boundary` of the offset and at a
/// block's start to the end of the block before; Right within a block goes
/// to `next_boundary` and at a block's end to the start of the next block.
pub open spec fn move_cursor_spec(blocks: Seq<BlockV>, cur: DocPosition, dir: i32) -> Option<
    DocPosition,
> {
    let b = cur.block_idx as int;
    let text = block_text(blocks[b]);
    let off = cur.byte_offset as int;
    if dir < 0 {
        if off == 0 {
            if b == 0 {
                None
            } else {
                Some(
                    DocPosition {
                        block_idx: (b - 1) as usize,
                        byte_offset: text_len(blocks, b - 1) as usize,
                    },
                )
            }
        } else {
            Some(
                DocPosition {
                    block_idx: cur.block_idx,
                    byte_offset: prev_boundary_spec(text, off) as usize,
                },
            )
        }
    } else {
        if off >= blen(text) {
            if b + 1 >= blocks.len() {
                None
            } else {
                Some(DocPosition { block_idx: (b + 1) as usize, byte_offset: 0 })
            }
        } else {
            Some(
                DocPosition {
                    block_idx: cur.block_idx,
                    byte_offset: next_boundary_spec(text, off) as usize,
                },
            )
        }
    }
}

/// Where the cursor lands in block `i` when it comes from byte offset `off`
/// of another block: the offset, cut down to the block's length, and then
/// back to a character boundary.
pub open spec fn landing_offset(blocks: Seq<BlockV>, i: int, off: usize) -> usize {
    prev_boundary_spec(block_text(blocks[i]), min_offset(off, text_len(blocks, i)) as int) as usize
}

/// Where Up (`dir < 0`) or Down moves the cursor: to the block before or
/// after, keeping the byte offset unless that block is shorter, and never
/// inside a character; `None` at the first or last block.
pub open spec fn move_vertical_spec(blocks: Seq<BlockV>, cur: DocPosition, dir: i32) -> Option<
    DocPosition,
> {
    let b = cur.block_idx as int;
    if dir < 0 {
        if b == 0 {
            None
        } else {
            Some(
                DocPosition {
                    block_idx: (b - 1) as usize,
                    byte_offset: landing_offset(blocks, b - 1, cur.byte_offset),
                },
            )
        }
    } else {
        if b + 1 >= blocks.len() {
            None
        } else {
            Some(
                DocPosition {
                    block_idx: (b + 1) as usize,
                    byte_offset: landing_offset(blocks, b + 1, cur.byte_offset),
                },
            )
        }
    }
}

/// The state with the cursor at `p`.
pub open spec fn with_cursor(e: EditV, p: DocPosition) -> EditV {
    EditV { cursor: p, ..e }
}

/// The state after Shift + an arrow key: the cursor moves as the arrow
/// moves it, and the selection runs from its old anchor (or the old cursor)
/// to the new cursor. Nothing changes when the cursor cannot move.
pub open spec fn extend_selection_spec(e: EditV, dir: i32, vertical: bool) -> (EditV, bool) {
    let anchor = match e.selection {
        Some(sel) => sel.anchor,
        None => e.cursor,
    };
    let moved = if vertical {
        move_vertical_spec(e.blocks, e.cursor, dir)
    } else {
        move_cursor_spec(e.blocks, e.cursor, dir)
    };
    match moved {
        Some(p) => (
            EditV { cursor: p, selection: Some(SelectionState { anchor, active: p }), ..e },
            true,
        ),
        None => (e, false),
    }
}

/// The selection is there and not empty.
pub open spec fn has_selection(e: EditV) -> bool {
    e.selection matches Some(sel) && sel.anchor != sel.active
}

/// Backspace without a selection reads the cursor's block, or, at the
/// start of a block, the block before: the cursor is in a block, or at
/// offset 0 just past the last one.
pub open spec fn backspace_reads_ok(e: EditV) -> bool {
    e.cursor.block_idx < e.blocks.len() || (e.cursor.byte_offset == 0 && e.cursor.block_idx
        <= e.blocks.len())
}

/// The state after Backspace, and whether anything changed. A non-empty
/// selection is deleted and the cursor goes to its start; at the start of
/// a block the block is merged into the one before, the cursor going to the
/// join; otherwise the text from `prev_boundary` of the cursor up to the
/// cursor is deleted and the cursor goes there. At the very start of the
/// document nothing happens.
pub open spec fn backspace_spec(e: EditV) -> (EditV, bool) {
    if has_selection(e) {
        let r = selection_range(e.selection->0);
        (
            EditV {
                blocks: delete_range_spec(e.blocks, r).0,
                cursor: r.start,
                selection: None,
                dirty: true,
            },
            true,
        )
    } else {
        let pos = e.cursor;
        let b = pos.block_idx as int;
        if pos.byte_offset == 0 {
            if b == 0 {
                (e, false)
            } else {
                (
                    EditV {
                        blocks: merge_blocks_spec(e.blocks, (b - 1) as usize).0,
                        cursor: DocPosition {
                            block_idx: (b - 1) as usize,
                            byte_offset: text_len(e.blocks, b - 1) as usize,
                        },
                        dirty: true,
                        ..e
                    },
                    true,
                )
            }
        } else {
            let prev = prev_boundary_spec(block_text(e.blocks[b]), pos.byte_offset as int) as usize;
            let start = DocPosition { block_idx: pos.block_idx, byte_offset: prev };
            (
                EditV {
                    blocks: delete_range_spec(e.blocks, DocRange { start, end: pos }).0,
                    cursor: start,
                    dirty: true,
                    ..e
                },
                true,
            )
        }
    }
}

/// The state after Enter, the new block getting id `new_id`: the block is
/// split at the cursor, and the cursor goes to the start of the next block.
pub open spec fn enter_spec(e: EditV, new_id: u128) -> EditV {
    EditV {
        blocks: split_block_spec(e.blocks, e.cursor, new_id).0,
        cursor: DocPosition { block_idx: (e.cursor.block_idx + 1) as usize, byte_offset: 0 },
        selection: None,
        dirty: true,
    }
}

/// The state after typing `ch`: the character is inserted at the cursor,
/// and the cursor moves past its bytes (whether or not the insertion was
/// accepted).
pub open spec fn type_char_spec(e: EditV, ch: char) -> EditV {
    EditV {
        blocks: insert_text_spec(e.blocks, e.cursor, seq![ch]).0,
        cursor: DocPosition {
            block_idx: e.cursor.block_idx,
            byte_offset: (e.cursor.byte_offset + blen(seq![ch])) as usize,
        },
        selection: None,
        dirty: true,
    }
}

// ── Cursor movement ───────────────────────────────────────────────────────────

/// Byte length of the text of block `i`.
fn block_len(s: &Editor, i: usize) -> (n: usize)
    requires
        s.doc.fits(),
        i < s.doc.blocks.len(),
    ensures
        n == text_len(s.doc.blocks_view(), i as int),
{
    proof {
        assert(s.doc.blocks_view()[i as int] == s.doc.blocks@[i as int]@);
        assert(crate::document::runs::runs_len(s.doc.blocks_view()[i as int].content)
            <= isize::MAX);
    }
    let text = s.doc.blocks[i].plain_text();
    byte_len(&text)
}

/// Move the cursor one character left (`dir < 0`) or right. Returns whether
/// it moved.
pub fn move_cursor(s: &mut Editor, dir: i32) -> (moved: bool)
    requires
        old(s).doc.fits(),
        old(s).cursor.block_idx < old(s).doc.blocks.len(),
    ensures
        final(s).doc == old(s).doc,
        match move_cursor_spec(old(s).doc.blocks_view(), old(s).cursor, dir) {
            Some(p) => moved && final(s)@ == with_cursor(old(s)@, p),
            None => !moved && final(s)@ == old(s)@,
        },
{
    let b = s.cursor.block_idx;
    proof {
        assert(s.doc.blocks_view()[b as int] == s.doc.blocks@[b as int]@);
        assert(crate::document::runs::runs_len(s.doc.blocks_view()[b as int].content)
            <= isize::MAX);
    }
    let text = s.doc.blocks[b].plain_text();
    let off = s.cursor.byte_offset;
    if dir < 0 {
        if off == 0 {
            if b == 0 {
                return false;
            }
            let n = block_len(s, b - 1);
            s.cursor.block_idx = b - 1;
            s.cursor.byte_offset = n;
        } else {
            s.cursor.byte_offset = prev_boundary(text.as_str(), off);
        }
    } else {
        let len = byte_len(&text);
        if off >= len {
            if b + 1 >= s.doc.blocks.len() {
                return false;
            }
            s.cursor.block_idx = b + 1;
            s.cursor.byte_offset = 0;
        } else {
            s.cursor.byte_offset = next_boundary(text.as_str(), off);
        }
    }
    true
}

/// Move the cursor one block up (`dir < 0`) or down, keeping the byte
/// offset where the block is long enough. Returns whether it moved.
pub fn move_cursor_vertical(s: &mut Editor, dir: i32) -> (moved: bool)
    requires
        old(s).doc.fits(),
        dir < 0 ==> old(s).cursor.block_idx <= old(s).doc.blocks.len(),
        dir >= 0 ==> old(s).cursor.block_idx < usize::MAX,
    ensures
        final(s).doc == old(s).doc,
        match move_vertical_spec(old(s).doc.blocks_view(), old(s).cursor, dir) {
            Some(p) => moved && final(s)@ == with_cursor(old(s)@, p),
            None => !moved && final(s)@ == old(s)@,
        },
{
    let idx = s.cursor.block_idx;
    let target = if dir < 0 {
        if idx == 0 {
            return false;
        }
        idx - 1
    } else {
        if idx + 1 >= s.doc.blocks.len() {
            return false;
        }
        idx + 1
    };
    let n = block_len(s, target);
    let off = if n < s.cursor.byte_offset {
        n
    } else {
        s.cursor.byte_offset
    };
    proof {
        assert(s.doc.blocks_view()[target as int] == s.doc.blocks@[target as int]@);
    }
    let text = s.doc.blocks[target].plain_text();
    s.cursor.block_idx = target;
    s.cursor.byte_offset = prev_boundary(text.as_str(), off);
    true
}

/// Where the cursor goes when the document under it was replaced (by undo
/// or redo): into the last block when its block is gone, with its offset
/// landing on that block's text as a vertical move lands.
pub open spec fn clamped_cursor(e: EditV) -> DocPosition {
    let b = if e.cursor.block_idx < e.blocks.len() {
        e.cursor.block_idx as int
    } else {
        e.blocks.len() - 1
    };
    DocPosition { block_idx: b as usize, byte_offset: landing_offset(e.blocks, b, e.cursor.byte_offset) }
}

/// Bring the cursor back into a document that was replaced, and drop the
/// selection.
pub fn clamp_cursor(s: &mut Editor)
    requires
        old(s).doc.fits(),
        old(s).doc.blocks.len() > 0,
    ensures
        final(s).doc == old(s).doc,
        final(s)@ == (EditV { cursor: clamped_cursor(old(s)@), selection: None, ..old(s)@ }),
{
    let n = s.doc.blocks.len();
    let b = if s.cursor.block_idx < n {
        s.cursor.block_idx
    } else {
        n - 1
    };
    let len = block_len(s, b);
    let off = if len < s.cursor.byte_offset {
        len
    } else {
        s.cursor.byte_offset
    };
    proof {
        assert(s.doc.blocks_view()[b as int] == s.doc.blocks@[b as int]@);
    }
    let text = s.doc.blocks[b].plain_text();
    s.cursor = DocPosition::new(b, prev_boundary(text.as_str(), off));
    s.selection = None;
}

/// Move the cursor as an arrow key does and stretch the selection to it.
/// Returns whether the cursor moved.
pub fn extend_selection(s: &mut Editor, dir: i32, vertical: bool) -> (moved: bool)
    requires
        old(s).doc.fits(),
        old(s).cursor.block_idx < old(s).doc.blocks.len(),
    ensures
        final(s).doc == old(s).doc,
        (final(s)@, moved) == extend_selection_spec(old(s)@, dir, vertical),
{
    let anchor = match s.selection {
        Some(sel) => sel.anchor,
        None => s.cursor,
    };
    let moved = if vertical {
        move_cursor_vertical(s, dir)
    } else {
        move_cursor(s, dir)
    };
    if moved {
        s.selection = Some(SelectionState { anchor, active: s.cursor });
    }
    moved
}

/// A click at `pos`: the cursor goes there and the selection goes away.
pub fn place_cursor(s: &mut Editor, pos: DocPosition)
    ensures
        final(s)@ == (EditV { cursor: pos, selection: None, ..old(s)@ }),
        final(s).doc == old(s).doc,
{
    s.cursor = pos;
    s.selection = None;
}

/// A drag from `anchor` to `pos`: the selection runs between them and the
/// cursor follows the pointer; back at the anchor, there is no selection.
pub fn drag_select(s: &mut Editor, anchor: DocPosition, pos: DocPosition)
    ensures
        final(s).doc == old(s).doc,
        final(s).dirty == old(s).dirty,
        pos != anchor ==> final(s).cursor == pos && final(s).selection == Some(
            SelectionState { anchor, active: pos },
        ),
        pos == anchor ==> final(s).cursor == anchor && final(s).selection is None,
{
    if pos != anchor {
        s.selection = Some(SelectionState { anchor, active: pos });
        s.cursor = pos;
    } else {
        s.selection = None;
        s.cursor = anchor;
    }
}

// ── Editing ───────────────────────────────────────────────────────────────────

/// Backspace: delete the selection, merge with the block before, or delete
/// back to the previous boundary. Returns whether anything changed.
pub fn backspace(s: &mut Editor) -> (changed: bool)
    requires
        old(s).doc.fits(),
        !has_selection(old(s)@) ==> backspace_reads_ok(old(s)@),
        blocks_fit(backspace_spec(old(s)@).0.blocks),
    ensures
        (final(s)@, changed) == backspace_spec(old(s)@),
        final(s).doc.same_metadata(&old(s).doc),
        !changed ==> final(s).doc == old(s).doc,
{
    // Delete selection if one exists.
    match s.selection {
        Some(sel) => {
            if !sel.is_collapsed() {
                let range = sel.to_range();
                let _ = s.doc.delete_range(range);
                s.cursor = range.start;
                s.selection = None;
                s.dirty = true;
                return true;
            }
        },
        None => {},
    }
    let pos = s.cursor;
    if pos.byte_offset == 0 {
        if pos.block_idx == 0 {
            return false;
        }
        let prev_len = block_len(s, pos.block_idx - 1);
        let _ = s.doc.merge_blocks(pos.block_idx - 1);
        s.cursor = DocPosition::new(pos.block_idx - 1, prev_len);
        s.dirty = true;
        return true;
    }
    proof {
        assert(s.doc.blocks_view()[pos.block_idx as int] == s.doc.blocks@[pos.block_idx as int]@);
        assert(crate::document::runs::runs_len(
            s.doc.blocks_view()[pos.block_idx as int].content,
        ) <= isize::MAX);
    }
    let text = s.doc.blocks[pos.block_idx].plain_text();
    let prev = prev_boundary(text.as_str(), pos.byte_offset);
    proof {
        lemma_prev_boundary_le(text@, pos.byte_offset as int);
    }
    let _ = s.doc.delete_range(DocRange::new(DocPosition::new(pos.block_idx, prev), pos));
    s.cursor.byte_offset = prev;
    s.dirty = true;
    true
}

/// `prev_boundary` does not pass `from`.
pub proof fn lemma_prev_boundary_le(s: Seq<char>, from: int)
    ensures
        0 <= prev_boundary_spec(s, from),
        from >= 0 ==> prev_boundary_spec(s, from) <= from,
    decreases from,
{
    if from > 0 && !is_boundary(s, from) {
        lemma_prev_boundary_le(s, from - 1);
    }
}

/// Enter: split the block at the cursor and put the cursor at the start of
/// the new block.
pub fn enter(s: &mut Editor) -> (changed: bool)
    requires
        old(s).doc.fits(),
        old(s).cursor.block_idx < usize::MAX,
    ensures
        changed,
        final(s)@ == enter_spec(old(s)@, final(s).doc.blocks_view()[old(s).cursor.block_idx + 1].id),
        final(s).doc.same_metadata(&old(s).doc),
        final(s).doc.fits(),
{
    let pos = s.cursor;
    let _ = s.doc.split_block(pos);
    s.cursor = DocPosition::block_start(pos.block_idx + 1);
    s.selection = None;
    s.dirty = true;
    true
}

/// Type `ch` at the cursor.
pub fn type_char(s: &mut Editor, ch: char)
    requires
        old(s).doc.fits(),
        old(s).cursor.byte_offset + blen(seq![ch]) <= usize::MAX,
        blocks_fit(type_char_spec(old(s)@, ch).blocks),
    ensures
        final(s)@ == type_char_spec(old(s)@, ch),
        final(s).doc.same_metadata(&old(s).doc),
{
    let mut text = String::new();
    push_char(&mut text, ch);
    proof {
        assert(text@ =~= seq![ch]);
    }
    let pos = s.cursor;
    let _ = s.doc.insert_text(pos, text.as_str());
    let n = byte_len(&text);
    s.cursor.byte_offset = s.cursor.byte_offset + n;
    s.selection = None;
    s.dirty = true;
}

} // verus!
