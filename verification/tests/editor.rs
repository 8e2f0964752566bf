use folio_core::{Block, DocPosition, DocRange, Document, PageSettings};
use folio_core::editor::Editor;
use folio_core::editor::cursor::CursorStyle;
use folio_core::editor::input::{clamp_cursor, drag_select, place_cursor};
use folio_core::editor::input::{
    backspace, enter, extend_selection, move_cursor, move_cursor_vertical, next_boundary,
    prev_boundary, type_char,
};
use folio_core::editor::keys::{
    Key, KeyAction, apply_action, edit_allowed, handle_key, is_control, key_action,
};
use folio_core::editor::selection::SelectionState;

fn editor(texts: &[&str]) -> Editor {
    let mut d = Document::new("T", PageSettings::default());
    d.blocks.clear();
    for t in texts {
        d.blocks.push(Block::paragraph(t));
    }
    Editor::new(d)
}

fn texts(e: &Editor) -> Vec<String> {
    e.doc.blocks.iter().map(|b| b.plain_text()).collect()
}

#[test]
fn boundaries_in_utf8_text() {
    let s = "aé€x";
    assert_eq!(prev_boundary(s, 3), 3);
    assert_eq!(prev_boundary(s, 4), 3);
    assert_eq!(prev_boundary(s, 2), 1);
    assert_eq!(prev_boundary(s, 0), 0);
    assert_eq!(prev_boundary(s, 50), 7);
    assert_eq!(next_boundary(s, 1), 3);
    assert_eq!(next_boundary(s, 3), 6);
    assert_eq!(next_boundary(s, 6), 7);
    assert_eq!(next_boundary(s, 7), 7);
    assert_eq!(next_boundary(s, 9), 7);
}

#[test]
fn right_moves_by_character_and_across_blocks() {
    let mut e = editor(&["aé", "b"]);
    assert!(move_cursor(&mut e, 1));
    assert_eq!(e.cursor, DocPosition::new(0, 1));
    assert!(move_cursor(&mut e, 1));
    assert_eq!(e.cursor, DocPosition::new(0, 3));
    assert!(move_cursor(&mut e, 1));
    assert_eq!(e.cursor, DocPosition::new(1, 0));
    assert!(move_cursor(&mut e, 1));
    assert!(!move_cursor(&mut e, 1));
    assert_eq!(e.cursor, DocPosition::new(1, 1));
}

#[test]
fn left_at_block_start_goes_to_previous_block_end() {
    let mut e = editor(&["abc", "d"]);
    e.cursor = DocPosition::new(1, 0);
    assert!(move_cursor(&mut e, -1));
    assert_eq!(e.cursor, DocPosition::new(0, 3));
    e.cursor = DocPosition::new(0, 0);
    assert!(!move_cursor(&mut e, -1));
    assert_eq!(e.cursor, DocPosition::new(0, 0));
}

#[test]
fn left_within_text_stays_on_a_boundary() {
    let mut e = editor(&["abc"]);
    e.cursor = DocPosition::new(0, 2);
    assert!(move_cursor(&mut e, -1));
    assert_eq!(e.cursor, DocPosition::new(0, 2));
}

#[test]
fn vertical_moves_clamp_the_offset() {
    let mut e = editor(&["ab", "longer text", "x"]);
    e.cursor = DocPosition::new(1, 8);
    assert!(move_cursor_vertical(&mut e, -1));
    assert_eq!(e.cursor, DocPosition::new(0, 2));
    assert!(!move_cursor_vertical(&mut e, -1));
    e.cursor = DocPosition::new(1, 8);
    assert!(move_cursor_vertical(&mut e, 1));
    assert_eq!(e.cursor, DocPosition::new(2, 1));
    assert!(!move_cursor_vertical(&mut e, 1));
}

#[test]
fn shift_arrows_extend_from_the_anchor() {
    let mut e = editor(&["abc"]);
    e.cursor = DocPosition::new(0, 0);
    assert!(extend_selection(&mut e, 1, false));
    assert!(extend_selection(&mut e, 1, false));
    let sel = e.selection.unwrap();
    assert_eq!(sel.anchor, DocPosition::new(0, 0));
    assert_eq!(sel.active, DocPosition::new(0, 2));
    assert_eq!(e.cursor, DocPosition::new(0, 2));
}

#[test]
fn selection_range_is_ordered() {
    let sel = SelectionState { anchor: DocPosition::new(2, 1), active: DocPosition::new(0, 4) };
    let r = sel.to_range();
    assert_eq!(r, DocRange::new(DocPosition::new(0, 4), DocPosition::new(2, 1)));
    assert!(!sel.is_collapsed());
    let s = SelectionState::new(DocPosition::new(1, 1));
    assert!(s.is_collapsed());
    assert_eq!(s.to_range().start, s.to_range().end);
}

#[test]
fn backspace_deletes_the_selection() {
    let mut e = editor(&["hello", "world"]);
    e.selection = Some(SelectionState { anchor: DocPosition::new(1, 2), active: DocPosition::new(0, 3) });
    e.cursor = DocPosition::new(0, 3);
    assert!(backspace(&mut e));
    assert_eq!(texts(&e), vec!["helrld"]);
    assert_eq!(e.cursor, DocPosition::new(0, 3));
    assert!(e.selection.is_none());
    assert!(e.dirty);
}

#[test]
fn backspace_at_block_start_merges() {
    let mut e = editor(&["ab", "cd"]);
    e.cursor = DocPosition::new(1, 0);
    assert!(backspace(&mut e));
    assert_eq!(texts(&e), vec!["abcd"]);
    assert_eq!(e.cursor, DocPosition::new(0, 2));
}

#[test]
fn backspace_at_document_start_does_nothing() {
    let mut e = editor(&["ab"]);
    assert!(!backspace(&mut e));
    assert_eq!(texts(&e), vec!["ab"]);
    assert!(!e.dirty);
}

#[test]
fn backspace_inside_text_uses_prev_boundary() {
    let mut e = editor(&["ab"]);
    e.cursor = DocPosition::new(0, 2);
    assert!(backspace(&mut e));
    assert_eq!(texts(&e), vec!["ab"]);
    assert_eq!(e.cursor, DocPosition::new(0, 2));
}

#[test]
fn enter_splits_and_moves_to_the_new_block() {
    let mut e = editor(&["hello"]);
    e.cursor = DocPosition::new(0, 2);
    assert!(enter(&mut e));
    assert_eq!(texts(&e), vec!["he", "llo"]);
    assert_eq!(e.cursor, DocPosition::new(1, 0));
}

#[test]
fn typing_inserts_and_advances() {
    let mut e = editor(&["ac"]);
    e.cursor = DocPosition::new(0, 1);
    type_char(&mut e, 'é');
    assert_eq!(texts(&e), vec!["aéc"]);
    assert_eq!(e.cursor, DocPosition::new(0, 3));
    type_char(&mut e, 'b');
    assert_eq!(texts(&e), vec!["aébc"]);
}

#[test]
fn key_actions_follow_the_shortcuts() {
    assert_eq!(key_action(Key::Z, Some('z'), true, false), KeyAction::Undo);
    assert_eq!(key_action(Key::Z, Some('Z'), true, true), KeyAction::Redo);
    assert_eq!(key_action(Key::Y, Some('y'), true, false), KeyAction::Redo);
    assert_eq!(key_action(Key::S, Some('s'), true, false), KeyAction::Save);
    assert_eq!(key_action(Key::Z, Some('z'), false, false), KeyAction::Type('z'));
    assert_eq!(key_action(Key::BackSpace, None, false, false), KeyAction::Backspace);
    assert_eq!(key_action(Key::KpEnter, None, false, false), KeyAction::Enter);
    assert_eq!(key_action(Key::Left, None, false, true), KeyAction::Extend(-1, false));
    assert_eq!(key_action(Key::Down, None, false, true), KeyAction::Extend(1, true));
    assert_eq!(key_action(Key::Up, None, false, false), KeyAction::MoveVertical(-1));
    assert_eq!(key_action(Key::Home, None, false, false), KeyAction::Home);
    assert_eq!(key_action(Key::Other, Some('\u{7}'), false, false), KeyAction::Ignore);
    assert_eq!(key_action(Key::Other, None, false, false), KeyAction::Ignore);
    assert!(is_control('\u{9f}'));
    assert!(!is_control('a'));
}

#[test]
fn home_and_end_clear_the_selection() {
    let mut e = editor(&["héllo"]);
    e.selection = Some(SelectionState::new(DocPosition::new(0, 1)));
    assert!(apply_action(&mut e, KeyAction::End));
    assert_eq!(e.cursor, DocPosition::new(0, 6));
    assert!(e.selection.is_none());
    assert!(apply_action(&mut e, KeyAction::Home));
    assert_eq!(e.cursor, DocPosition::new(0, 0));
}

#[test]
fn handle_key_reports_edits() {
    let mut e = editor(&["x"]);
    let o = handle_key(&mut e, Key::Other, Some('y'), false, false);
    assert!(o.edited && o.changed);
    assert_eq!(texts(&e), vec!["yx"]);
    let o = handle_key(&mut e, Key::Z, Some('z'), true, false);
    assert_eq!(o.action, KeyAction::Undo);
    assert!(!o.edited && !o.changed);
    let o = handle_key(&mut e, Key::Right, None, false, false);
    assert!(o.changed && !o.edited);
    assert_eq!(e.cursor, DocPosition::new(0, 2));
}

#[test]
fn cursor_style_defaults_to_ibeam() {
    assert_eq!(CursorStyle::default(), CursorStyle::IBeam);
}

#[test]
fn clicks_and_drags() {
    let mut e = editor(&["abc"]);
    e.selection = Some(SelectionState::new(DocPosition::new(0, 1)));
    place_cursor(&mut e, DocPosition::new(0, 2));
    assert_eq!(e.cursor, DocPosition::new(0, 2));
    assert!(e.selection.is_none());
    drag_select(&mut e, DocPosition::new(0, 2), DocPosition::new(0, 3));
    assert_eq!(e.cursor, DocPosition::new(0, 3));
    assert_eq!(e.selection, Some(SelectionState { anchor: DocPosition::new(0, 2), active: DocPosition::new(0, 3) }));
    drag_select(&mut e, DocPosition::new(0, 2), DocPosition::new(0, 2));
    assert_eq!(e.cursor, DocPosition::new(0, 2));
    assert!(e.selection.is_none());
}

#[test]
fn edits_are_allowed_where_the_cursor_is_in_the_document() {
    let mut e = editor(&["ab", "cd"]);
    assert!(e.doc.check_fits());
    for a in [
        KeyAction::Backspace,
        KeyAction::Enter,
        KeyAction::Move(1),
        KeyAction::MoveVertical(1),
        KeyAction::Extend(-1, false),
        KeyAction::Home,
        KeyAction::End,
        KeyAction::Type('x'),
        KeyAction::Undo,
    ] {
        assert!(edit_allowed(&e, a));
    }
    // The cursor past the last block: movements that read its block are
    // refused, Home (which reads nothing) is not.
    e.cursor = DocPosition::new(5, 0);
    assert!(!edit_allowed(&e, KeyAction::Move(-1)));
    assert!(!edit_allowed(&e, KeyAction::End));
    assert!(!edit_allowed(&e, KeyAction::Backspace));
    assert!(!edit_allowed(&e, KeyAction::MoveVertical(-1)));
    assert!(edit_allowed(&e, KeyAction::Home));
    // An offset with no room left for a typed character.
    e.cursor = DocPosition::new(0, usize::MAX);
    assert!(!edit_allowed(&e, KeyAction::Type('x')));
    // A selection lets Backspace delete wherever the cursor is.
    e.selection = Some(SelectionState { anchor: DocPosition::new(0, 0), active: DocPosition::new(1, 1) });
    assert!(edit_allowed(&e, KeyAction::Backspace));
    let changed = apply_action(&mut e, KeyAction::Backspace);
    assert!(changed);
    assert_eq!(texts(&e), vec!["d".to_string()]);
}

#[test]
fn ctrl_f_asks_for_find_and_types_nothing() {
    let mut e = editor(&[""]);
    assert_eq!(key_action(Key::F, Some('f'), true, false), KeyAction::Find);
    let o = handle_key(&mut e, Key::F, Some('f'), true, false);
    assert_eq!(o.action, KeyAction::Find);
    assert!(!o.changed && !o.edited);
    assert_eq!(texts(&e), vec!["".to_string()]);
    assert_eq!(e.cursor, DocPosition::new(0, 0));
    assert!(!e.dirty);
    assert_eq!(key_action(Key::F, Some('F'), true, true), KeyAction::ToggleFocus);
    assert_eq!(key_action(Key::T, Some('T'), true, true), KeyAction::ToggleTypewriter);
    assert_eq!(key_action(Key::Escape, None, false, false), KeyAction::ExitFocus);
    // Without Control, f is typed.
    assert_eq!(key_action(Key::F, Some('f'), false, false), KeyAction::Type('f'));
}

#[test]
fn vertical_moves_land_on_a_character_boundary() {
    let mut e = editor(&["é", "ab"]);
    e.cursor = DocPosition::new(1, 1);
    assert!(move_cursor_vertical(&mut e, -1));
    assert_eq!(e.cursor, DocPosition::new(0, 0));
    e.cursor = DocPosition::new(0, 2);
    assert!(move_cursor_vertical(&mut e, 1));
    assert_eq!(e.cursor, DocPosition::new(1, 2));
}

#[test]
fn backspace_just_past_the_last_block() {
    let mut e = editor(&["ab", "cd"]);
    e.cursor = DocPosition::new(2, 0);
    assert!(edit_allowed(&e, KeyAction::Backspace));
    assert!(backspace(&mut e));
    assert_eq!(texts(&e), vec!["ab".to_string(), "cd".to_string()]);
    assert_eq!(e.cursor, DocPosition::new(1, 2));
}

#[test]
fn clamping_brings_the_cursor_back() {
    let mut e = editor(&["é"]);
    e.cursor = DocPosition::new(3, 1);
    e.selection = Some(SelectionState { anchor: DocPosition::new(0, 0), active: DocPosition::new(3, 1) });
    clamp_cursor(&mut e);
    assert_eq!(e.cursor, DocPosition::new(0, 0));
    assert!(e.selection.is_none());
    e.cursor = DocPosition::new(0, 9);
    clamp_cursor(&mut e);
    assert_eq!(e.cursor, DocPosition::new(0, 2));
}

#[test]
fn every_key_keeps_the_cursor_on_a_character_boundary() {
    let keys = [
        (Key::Left, None),
        (Key::Right, None),
        (Key::Up, None),
        (Key::Down, None),
        (Key::Home, None),
        (Key::End, None),
        (Key::BackSpace, None),
        (Key::Return, None),
        (Key::Other, Some('€')),
        (Key::Other, Some('é')),
    ];
    let mut e = editor(&["aé€", "ü", "xyz"]);
    e.cursor = DocPosition::new(0, 3);
    for round in 0..3 {
        for (i, (k, t)) in keys.iter().enumerate() {
            let shift = (i + round) % 3 == 0;
            let a = key_action(*k, *t, false, shift);
            assert!(edit_allowed(&e, a));
            handle_key(&mut e, *k, *t, false, shift);
            let text = e.doc.blocks[e.cursor.block_idx].plain_text();
            assert!(text.is_char_boundary(e.cursor.byte_offset));
            if let Some(sel) = e.selection {
                for p in [sel.anchor, sel.active] {
                    let t = e.doc.blocks[p.block_idx].plain_text();
                    assert!(t.is_char_boundary(p.byte_offset));
                }
            }
        }
    }
}
