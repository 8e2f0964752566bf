//! Key handling: which action a key press asks for, and doing it.
//!
//! Undo, redo, saving, find and the view modes need the undo history, the
//! file system or the window; they are handed back to the caller as commands.



use vstd::prelude::*;
use vstd::utf8::*;
use crate::text::{blen, byte_len, lemma_enc_concat, lemma_ends_are_boundaries};
use crate::document::block::BlockV;
use crate::document::position::{DocPosition, DocRange};
use crate::document::ops::{
    blocks_fit, check_pos_spec, delete_range_spec, insert_text_spec, merge_blocks_spec,
    with_content,
};
use crate::document::runs::{
    lemma_delete_text, lemma_insert_text, lemma_normalise_text, lemma_runs_text_concat,
    runs_delete, runs_len, runs_text,
};
use crate::editor::{EditV, Editor};
use crate::editor::input::{
    backspace, backspace_reads_ok, backspace_spec, enter, enter_spec, extend_selection, extend_selection_spec,
    has_selection, move_cursor, move_cursor_spec, move_cursor_vertical, move_vertical_spec,
    prev_boundary_spec, text_len, type_char, type_char_spec, with_cursor,
};
use crate::editor::selection::selection_range;
use crate::document::block::block_text;

verus! {

/// A key, as far as the editor tells keys apart. Letter keys are told
/// apart only where a shortcut uses them, whatever their case.
#[derive(Debug, Clone, Copy, PartialEq, Eq, Structural)]
pub enum Key {
    Z,
    Y,
    S,
    F,
    T,
    Escape,
    BackSpace,
    Return,
    KpEnter,
    Left,
    Right,
    Up,
    Down,
    Home,
    End,
    Other,
}

/// What a key press asks for.
#[derive(Debug, Clone, Copy, PartialEq, Eq, Structural)]
pub enum KeyAction {
    Undo,
    Redo,
    Save,
    /// Open Find & Replace.
    Find,
    /// Turn focus mode on or off.
    ToggleFocus,
    /// Turn typewriter mode on or off.
    ToggleTypewriter,
    /// Leave focus mode.
    ExitFocus,
    Backspace,
    Enter,
    /// Shift + arrow: move by `dir`, vertically or not, and select.
    Extend(i32, bool),
    /// Arrow left or right.
    Move(i32),
    /// Arrow up or down.
    MoveVertical(i32),
    Home,
    End,
    Type(char),
    Ignore,
}

/// `c` is a control character (general category Cc).
pub open spec fn is_control_spec(c: char) -> bool {
    c <= '\u{1f}' || ('\u{7f}' <= c && c <= '\u{9f}')
}

/// Whether `c` is a control character.
pub fn is_control(c: char) -> (r: bool)
    ensures
        r == is_control_spec(c),
{
    c <= '\u{1f}' || ('\u{7f}' <= c && c <= '\u{9f}')
}

/// The action of a key press: `key` with the character it types (if any),
/// and whether Control and Shift are held.
pub open spec fn key_action_spec(key: Key, text: Option<char>, ctrl: bool, shift: bool) -> KeyAction {
    if key == Key::Z && ctrl && !shift {
        KeyAction::Undo
    } else if key == Key::Z && ctrl && shift {
        KeyAction::Redo
    } else if key == Key::Y && ctrl {
        KeyAction::Redo
    } else if key == Key::S && ctrl {
        KeyAction::Save
    } else if key == Key::F && ctrl && !shift {
        KeyAction::Find
    } else if key == Key::F && ctrl && shift {
        KeyAction::ToggleFocus
    } else if key == Key::T && ctrl && shift {
        KeyAction::ToggleTypewriter
    } else if key == Key::Escape {
        KeyAction::ExitFocus
    } else if key == Key::BackSpace {
        KeyAction::Backspace
    } else if key == Key::Return || key == Key::KpEnter {
        KeyAction::Enter
    } else if key == Key::Left && shift {
        KeyAction::Extend(-1i32, false)
    } else if key == Key::Right && shift {
        KeyAction::Extend(1i32, false)
    } else if key == Key::Up && shift {
        KeyAction::Extend(-1i32, true)
    } else if key == Key::Down && shift {
        KeyAction::Extend(1i32, true)
    } else if key == Key::Left {
        KeyAction::Move(-1i32)
    } else if key == Key::Right {
        KeyAction::Move(1i32)
    } else if key == Key::Up {
        KeyAction::MoveVertical(-1i32)
    } else if key == Key::Down {
        KeyAction::MoveVertical(1i32)
    } else if key == Key::Home {
        KeyAction::Home
    } else if key == Key::End {
        KeyAction::End
    } else {
        match text {
            Some(ch) => if !is_control_spec(ch) {
                KeyAction::Type(ch)
            } else {
                KeyAction::Ignore
            },
            None => KeyAction::Ignore,
        }
    }
}

/// The action of a key press.
pub fn key_action(key: Key, text: Option<char>, ctrl: bool, shift: bool) -> (a: KeyAction)
    ensures
        a == key_action_spec(key, text, ctrl, shift),
{
    if key == Key::Z && ctrl && !shift {
        KeyAction::Undo
    } else if key == Key::Z && ctrl && shift {
        KeyAction::Redo
    } else if key == Key::Y && ctrl {
        KeyAction::Redo
    } else if key == Key::S && ctrl {
        KeyAction::Save
    } else if key == Key::F && ctrl && !shift {
        KeyAction::Find
    } else if key == Key::F && ctrl && shift {
        KeyAction::ToggleFocus
    } else if key == Key::T && ctrl && shift {
        KeyAction::ToggleTypewriter
    } else if key == Key::Escape {
        KeyAction::ExitFocus
    } else if key == Key::BackSpace {
        KeyAction::Backspace
    } else if key == Key::Return || key == Key::KpEnter {
        KeyAction::Enter
    } else if key == Key::Left && shift {
        KeyAction::Extend(-1, false)
    } else if key == Key::Right && shift {
        KeyAction::Extend(1, false)
    } else if key == Key::Up && shift {
        KeyAction::Extend(-1, true)
    } else if key == Key::Down && shift {
        KeyAction::Extend(1, true)
    } else if key == Key::Left {
        KeyAction::Move(-1)
    } else if key == Key::Right {
        KeyAction::Move(1)
    } else if key == Key::Up {
        KeyAction::MoveVertical(-1)
    } else if key == Key::Down {
        KeyAction::MoveVertical(1)
    } else if key == Key::Home {
        KeyAction::Home
    } else if key == Key::End {
        KeyAction::End
    } else {
        match text {
            Some(ch) => if !is_control(ch) {
                KeyAction::Type(ch)
            } else {
                KeyAction::Ignore
            },
            None => KeyAction::Ignore,
        }
    }
}

/// The state without a selection.
pub open spec fn unselected(e: EditV) -> EditV {
    EditV { selection: None, ..e }
}

/// What an action needs of the state before it: the cursor's block exists
/// where the action reads it, and the edited blocks still fit.
pub open spec fn action_ok(e: EditV, a: KeyAction) -> bool {
    let idx_ok = e.cursor.block_idx < e.blocks.len();
    match a {
        KeyAction::Backspace => (!has_selection(e) ==> backspace_reads_ok(e)) && blocks_fit(
            backspace_spec(e).0.blocks,
        ),
        KeyAction::Enter => e.cursor.block_idx < usize::MAX,
        KeyAction::Extend(_, _) => idx_ok,
        KeyAction::Move(_) => idx_ok,
        KeyAction::MoveVertical(dir) => (dir < 0 ==> e.cursor.block_idx <= e.blocks.len()) && (
        dir >= 0 ==> e.cursor.block_idx < usize::MAX),
        KeyAction::End => idx_ok,
        KeyAction::Type(ch) => e.cursor.byte_offset + blen(seq![ch]) <= usize::MAX && blocks_fit(
            type_char_spec(e, ch).blocks,
        ),
        _ => true,
    }
}

/// `e1` and `changed` are what doing `a` on `e0` gives, a block made by
/// Enter getting id `new_id`.
pub open spec fn applied(e0: EditV, a: KeyAction, e1: EditV, changed: bool, new_id: u128) -> bool {
    match a {
        KeyAction::Backspace => (e1, changed) == backspace_spec(e0),
        KeyAction::Enter => changed && e1 == enter_spec(
            e0,
            new_id,
        ),
        KeyAction::Extend(dir, vertical) => (e1, changed) == extend_selection_spec(
            e0,
            dir,
            vertical,
        ),
        KeyAction::Move(dir) => match move_cursor_spec(e0.blocks, e0.cursor, dir) {
            Some(p) => changed && e1 == with_cursor(unselected(e0), p),
            None => !changed && e1 == unselected(e0),
        },
        KeyAction::MoveVertical(dir) => match move_vertical_spec(
            e0.blocks,
            e0.cursor,
            dir,
        ) {
            Some(p) => changed && e1 == with_cursor(unselected(e0), p),
            None => !changed && e1 == unselected(e0),
        },
        KeyAction::Home => changed && e1 == with_cursor(
            unselected(e0),
            DocPosition { block_idx: e0.cursor.block_idx, byte_offset: 0 },
        ),
        KeyAction::End => changed && e1 == with_cursor(
            unselected(e0),
            DocPosition {
                block_idx: e0.cursor.block_idx,
                byte_offset: text_len(e0.blocks, e0.cursor.block_idx as int) as usize,
            },
        ),
        KeyAction::Type(ch) => changed && e1 == type_char_spec(e0, ch),
        _ => !changed && e1 == e0,
    }
}

/// Do an editing action. Undo, redo, save, find and the view modes are the
/// caller's and leave the state as it is. Returns whether the view needs redrawing.
pub fn apply_action(s: &mut Editor, a: KeyAction) -> (changed: bool)
    requires
        old(s).doc.fits(),
        action_ok(old(s)@, a),
    ensures
        final(s).doc.same_metadata(&old(s).doc),
        applied(
            old(s)@,
            a,
            final(s)@,
            changed,
            final(s).doc.blocks_view()[old(s).cursor.block_idx + 1].id,
        ),
        (a is Undo || a is Redo || a is Save || a is Find || a is ToggleFocus || a is ToggleTypewriter
            || a is ExitFocus || a is Ignore) ==> *final(s) == *old(s),
{
    match a {
        KeyAction::Backspace => backspace(s),
        KeyAction::Enter => enter(s),
        KeyAction::Extend(dir, vertical) => extend_selection(s, dir, vertical),
        KeyAction::Move(dir) => {
            s.selection = None;
            move_cursor(s, dir)
        },
        KeyAction::MoveVertical(dir) => {
            s.selection = None;
            move_cursor_vertical(s, dir)
        },
        KeyAction::Home => {
            s.selection = None;
            s.cursor.byte_offset = 0;
            true
        },
        KeyAction::End => {
            s.selection = None;
            let b = s.cursor.block_idx;
            proof {
                assert(s.doc.blocks_view()[b as int] == s.doc.blocks@[b as int]@);
                assert(crate::document::runs::runs_len(s.doc.blocks_view()[b as int].content)
                    <= isize::MAX);
            }
            let text = s.doc.blocks[b].plain_text();
            s.cursor.byte_offset = crate::text::byte_len(&text);
            true
        },
        KeyAction::Type(ch) => {
            type_char(s, ch);
            true
        },
        _ => false,
    }
}

/// What handling a key press leaves to the caller: a command to carry out
/// (undo, redo, save, find or a view mode), whether an edit was made (so the document as it
/// was before should be recorded for undo), and whether to redraw.
#[derive(Debug, Clone, Copy, PartialEq, Eq, Structural)]
pub struct KeyOutcome {
    pub action: KeyAction,
    pub edited: bool,
    pub changed: bool,
}

/// Handle a key press: work out its action and do it, if it is an edit or
/// a movement.
pub fn handle_key(s: &mut Editor, key: Key, text: Option<char>, ctrl: bool, shift: bool) -> (o:
    KeyOutcome)
    requires
        old(s).doc.fits(),
        action_ok(old(s)@, key_action_spec(key, text, ctrl, shift)),
    ensures
        o.action == key_action_spec(key, text, ctrl, shift),
        o.edited == (o.changed && (o.action is Backspace || o.action is Enter || o.action is Type)),
        applied(
            old(s)@,
            o.action,
            final(s)@,
            o.changed,
            final(s).doc.blocks_view()[old(s).cursor.block_idx + 1].id,
        ),
        final(s).doc.same_metadata(&old(s).doc),
{
    let a = key_action(key, text, ctrl, shift);
    let changed = apply_action(s, a);
    let edited = changed && match a {
        KeyAction::Backspace | KeyAction::Enter | KeyAction::Type(_) => true,
        _ => false,
    };
    KeyOutcome { action: a, edited, changed }
}

// ── When an edit may be made ──────────────────────────────────────────────────

/// The most bytes a block may hold for every key action to be safe to do:
/// two such blocks joined, or one with a character added, still fit in a
/// string.
pub open spec fn room() -> int {
    (isize::MAX - 4) / 2
}

/// Every block's text is at most `room()` bytes.
pub open spec fn roomy(blocks: Seq<BlockV>) -> bool {
    forall|i: int| 0 <= i < blocks.len() ==> #[trigger] runs_len(blocks[i].content) <= room()
}

/// What an action needs of the cursor: its block exists where the action
/// reads it, and its offset leaves room for a typed character.
pub open spec fn positions_ok(e: EditV, a: KeyAction) -> bool {
    let idx_ok = e.cursor.block_idx < e.blocks.len();
    match a {
        KeyAction::Backspace => !has_selection(e) ==> backspace_reads_ok(e),
        KeyAction::Enter => e.cursor.block_idx < usize::MAX,
        KeyAction::Extend(_, _) => idx_ok,
        KeyAction::Move(_) => idx_ok,
        KeyAction::MoveVertical(dir) => (dir < 0 ==> e.cursor.block_idx <= e.blocks.len()) && (
        dir >= 0 ==> e.cursor.block_idx < usize::MAX),
        KeyAction::End => idx_ok,
        KeyAction::Type(_) => e.cursor.byte_offset <= usize::MAX - 4,
        _ => true,
    }
}

/// Whether `a` may be done on `s`: every block is at most `room()` bytes
/// and the cursor is where the action needs it. When it may, the document
/// fits and the action's needs (`action_ok`) are met.
pub fn edit_allowed(s: &Editor, a: KeyAction) -> (r: bool)
    ensures
        r == (roomy(s@.blocks) && positions_ok(s@, a)),
        r ==> s.doc.fits() && action_ok(s@, a),
{
    let n = s.doc.blocks.len();
    let limit: usize = ((isize::MAX as usize) - 4) / 2;
    let mut i: usize = 0;
    while i < n
        invariant
            i <= n,
            n == s.doc.blocks@.len(),
            limit == room(),
            forall|j: int| 0 <= j < i ==> #[trigger] runs_len(s@.blocks[j].content) <= room(),
        decreases n - i,
    {
        proof {
            assert(s@.blocks[i as int] == s.doc.blocks@[i as int]@);
        }
        let t = s.doc.blocks[i].plain_text();
        if byte_len(&t) > limit {
            assert(runs_len(s@.blocks[i as int].content) > room());
            return false;
        }
        i = i + 1;
    }
    let idx_ok = s.cursor.block_idx < n;
    let ok = match a {
        KeyAction::Backspace => {
            let selected = match s.selection {
                Some(sel) => !sel.is_collapsed(),
                None => false,
            };
            selected || idx_ok || (s.cursor.byte_offset == 0 && s.cursor.block_idx <= n)
        },
        KeyAction::Enter => s.cursor.block_idx < usize::MAX,
        KeyAction::Extend(_, _) => idx_ok,
        KeyAction::Move(_) => idx_ok,
        KeyAction::MoveVertical(dir) => if dir < 0 {
            s.cursor.block_idx <= n
        } else {
            s.cursor.block_idx < usize::MAX
        },
        KeyAction::End => idx_ok,
        KeyAction::Type(_) => s.cursor.byte_offset <= usize::MAX - 4,
        _ => true,
    };
    proof {
        if ok {
            lemma_roomy_allows(s@, a);
        }
    }
    ok
}

/// A document whose blocks are all at most `room()` bytes fits, and meets
/// the needs of every action whose cursor needs are met.
pub proof fn lemma_roomy_allows(e: EditV, a: KeyAction)
    requires
        roomy(e.blocks),
        positions_ok(e, a),
    ensures
        blocks_fit(e.blocks),
        action_ok(e, a),
{
    let h = room();
    assert forall|i: int| 0 <= i < e.blocks.len() implies #[trigger] runs_len(e.blocks[i].content)
        <= isize::MAX by {
        assert(runs_len(e.blocks[i].content) <= h);
    }
    match a {
        KeyAction::Backspace => {
            let nb = backspace_spec(e).0.blocks;
            if has_selection(e) {
                lemma_delete_room(e.blocks, selection_range(e.selection->0), h);
            } else if e.cursor.byte_offset == 0 {
                if e.cursor.block_idx > 0 {
                    lemma_merge_room(e.blocks, (e.cursor.block_idx - 1) as usize, h);
                }
            } else {
                let b = e.cursor.block_idx as int;
                let prev = prev_boundary_spec(block_text(e.blocks[b]), e.cursor.byte_offset as int)
                    as usize;
                lemma_delete_room(
                    e.blocks,
                    DocRange {
                        start: DocPosition { block_idx: e.cursor.block_idx, byte_offset: prev },
                        end: e.cursor,
                    },
                    h,
                );
            }
            assert forall|i: int| 0 <= i < nb.len() implies #[trigger] runs_len(nb[i].content)
                <= isize::MAX by {
                assert(runs_len(nb[i].content) <= 2 * h);
            }
        },
        KeyAction::Type(ch) => {
            lemma_char_bytes(ch);
            lemma_insert_room(e.blocks, e.cursor, seq![ch], h);
        },
        _ => {},
    }
}

/// A character takes at most four bytes.
proof fn lemma_char_bytes(ch: char)
    ensures
        blen(seq![ch]) <= 4,
{
    assert(seq![ch].drop_first() =~= Seq::<char>::empty());
    assert(encode_utf8(seq![ch]) == encode_scalar(ch as u32) + encode_utf8(Seq::<char>::empty()));
}

/// Joining two blocks of at most `h` bytes each makes a block of at most
/// `2 * h` bytes; the other blocks stay as they were.
proof fn lemma_merge_room(blocks: Seq<BlockV>, idx: usize, h: int)
    requires
        h >= 0,
        forall|i: int| 0 <= i < blocks.len() ==> #[trigger] runs_len(blocks[i].content) <= h,
    ensures
        forall|i: int|
            0 <= i < merge_blocks_spec(blocks, idx).0.len() ==> #[trigger] runs_len(
                merge_blocks_spec(blocks, idx).0[i].content,
            ) <= 2 * h,
{
    let nb = merge_blocks_spec(blocks, idx).0;
    if idx + 1 < blocks.len() {
        let i = idx as int;
        let x = blocks[i].content;
        let y = blocks[i + 1].content;
        lemma_normalise_text(x + y);
        lemma_runs_text_concat(x, y);
        lemma_enc_concat(runs_text(x), runs_text(y));
        assert(runs_len(x) <= h);
        assert(runs_len(y) <= h);
        assert forall|j: int| 0 <= j < nb.len() implies #[trigger] runs_len(nb[j].content) <= 2
            * h by {
            if j < i {
                assert(nb[j] == blocks[j]);
                assert(runs_len(blocks[j].content) <= h);
            } else if j > i {
                assert(nb[j] == blocks[j + 1]);
                assert(runs_len(blocks[j + 1].content) <= h);
            }
        }
    } else {
        assert forall|j: int| 0 <= j < nb.len() implies #[trigger] runs_len(nb[j].content) <= 2
            * h by {
            assert(runs_len(blocks[j].content) <= h);
        }
    }
}

/// Deleting a range from blocks of at most `h` bytes each leaves blocks of
/// at most `2 * h` bytes.
proof fn lemma_delete_room(blocks: Seq<BlockV>, range: DocRange, h: int)
    requires
        h >= 0,
        forall|i: int| 0 <= i < blocks.len() ==> #[trigger] runs_len(blocks[i].content) <= h,
    ensures
        forall|i: int|
            0 <= i < delete_range_spec(blocks, range).0.len() ==> #[trigger] runs_len(
                delete_range_spec(blocks, range).0[i].content,
            ) <= 2 * h,
{
    let s = range.start;
    let e = range.end;
    let nb = delete_range_spec(blocks, range).0;
    if s != e && check_pos_spec(blocks, s) is Ok && check_pos_spec(blocks, e) is Ok {
        let si = s.block_idx as int;
        let ei = e.block_idx as int;
        if si == ei {
            lemma_delete_text(blocks[si].content, s.byte_offset as int, e.byte_offset as int);
            assert forall|j: int| 0 <= j < nb.len() implies #[trigger] runs_len(nb[j].content) <= 2
                * h by {
                assert(runs_len(blocks[j].content) <= h);
            }
        } else {
            let cs = blocks[si].content;
            lemma_ends_are_boundaries(runs_text(cs));
            lemma_delete_text(cs, s.byte_offset as int, runs_len(cs));
            let b1 = blocks.update(
                si,
                with_content(blocks[si], runs_delete(cs, s.byte_offset as int, runs_len(cs))),
            );
            let ce = b1[ei].content;
            assert(ce == blocks[ei].content);
            lemma_ends_are_boundaries(runs_text(ce));
            lemma_delete_text(ce, 0, e.byte_offset as int);
            let b2 = b1.update(ei, with_content(b1[ei], runs_delete(ce, 0, e.byte_offset as int)));
            assert forall|j: int| 0 <= j < b2.len() implies #[trigger] runs_len(b2[j].content)
                <= h by {
                assert(runs_len(blocks[j].content) <= h);
            }
            let b3 = if si + 1 < ei {
                b2.take(si + 1) + b2.skip(ei)
            } else {
                b2
            };
            assert forall|j: int| 0 <= j < b3.len() implies #[trigger] runs_len(b3[j].content)
                <= h by {
                if si + 1 < ei {
                    if j < si + 1 {
                        assert(b3[j] == b2[j]);
                    } else {
                        assert(b3[j] == b2[j - (si + 1) + ei]);
                    }
                }
            }
            lemma_merge_room(b3, s.block_idx, h);
            assert(nb == merge_blocks_spec(b3, s.block_idx).0);
        }
    } else {
        assert forall|j: int| 0 <= j < nb.len() implies #[trigger] runs_len(nb[j].content) <= 2
            * h by {
            assert(runs_len(blocks[j].content) <= h);
        }
    }
}

/// Inserting `t` into blocks of at most `h` bytes each, where `h` bytes
/// and `t` still fit, leaves every block fitting.
proof fn lemma_insert_room(blocks: Seq<BlockV>, pos: DocPosition, t: Seq<char>, h: int)
    requires
        h + blen(t) <= isize::MAX,
        forall|i: int| 0 <= i < blocks.len() ==> #[trigger] runs_len(blocks[i].content) <= h,
    ensures
        blocks_fit(insert_text_spec(blocks, pos, t).0),
{
    let nb = insert_text_spec(blocks, pos, t).0;
    if t.len() > 0 && check_pos_spec(blocks, pos) is Ok {
        lemma_insert_text(blocks[pos.block_idx as int].content, pos.byte_offset as int, t);
    }
    assert forall|j: int| 0 <= j < nb.len() implies #[trigger] runs_len(nb[j].content)
        <= isize::MAX by {
        assert(runs_len(blocks[j].content) <= h);
    }
}

} // verus!
