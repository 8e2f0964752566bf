use folio_core::{Block, DocPosition, Document, PageSettings};
use folio_core::editor::Editor;
use folio_core::editor::selection::SelectionState;
use folio_core::search::SearchQuery;
use folio_core::ui::find_replace::{find_and_select, find_status, replace_current};

fn editor() -> Editor {
    let mut d = Document::new("T", PageSettings::default());
    d.blocks.clear();
    d.blocks.push(Block::paragraph("Hello world hello"));
    d.blocks.push(Block::paragraph("HELLO again"));
    Editor::new(d)
}

fn q(p: &str, use_regex: bool) -> SearchQuery {
    SearchQuery { pattern: p.to_string(), case_sensitive: false, use_regex }
}

#[test]
fn status_line() {
    let e = editor();
    assert_eq!(find_status(&e.doc, &q("", false)), "");
    assert_eq!(find_status(&e.doc, &q("hello", false)), "3 found");
    assert_eq!(find_status(&e.doc, &q("[", true)), "bad regex");
    assert_eq!(find_status(&e.doc, &q("zzz", false)), "0 found");
}

#[test]
fn next_selects_the_following_match() {
    let mut e = editor();
    assert!(find_and_select(&mut e, &q("hello", false), true));
    assert_eq!(e.cursor, DocPosition::new(0, 17));
    assert_eq!(
        e.selection,
        Some(SelectionState { anchor: DocPosition::new(0, 12), active: DocPosition::new(0, 17) })
    );
    assert!(find_and_select(&mut e, &q("hello", false), true));
    assert_eq!(e.cursor, DocPosition::new(1, 5));
}

#[test]
fn previous_wraps_to_the_last_match() {
    let mut e = editor();
    assert!(find_and_select(&mut e, &q("hello", false), false));
    assert_eq!(e.cursor, DocPosition::new(1, 5));
}

#[test]
fn nothing_found_changes_nothing() {
    let mut e = editor();
    assert!(!find_and_select(&mut e, &q("zzz", false), true));
    assert!(!find_and_select(&mut e, &q("", false), true));
    assert_eq!(e.cursor, DocPosition::new(0, 0));
    assert!(e.selection.is_none());
}

#[test]
fn replace_current_replaces_the_selected_match() {
    let mut d = Document::new("T", PageSettings::default());
    d.blocks.clear();
    d.blocks.push(Block::paragraph("a hello"));
    d.blocks.push(Block::paragraph("hello"));
    let mut e = Editor::new(d);
    let query = SearchQuery { pattern: "hello".to_string(), case_sensitive: false, use_regex: false };
    assert!(find_and_select(&mut e, &query, true));
    assert!(find_and_select(&mut e, &query, true));
    assert_eq!(e.cursor, DocPosition::new(1, 5));
    assert!(replace_current(&mut e, &query, "X"));
    let texts: Vec<String> = e.doc.blocks.iter().map(|b| b.plain_text()).collect();
    assert_eq!(texts, vec!["a hello", "X"]);
    assert_eq!(e.cursor, DocPosition::new(1, 0));
    assert!(e.selection.is_none());
    assert!(e.dirty);
}

#[test]
fn replace_current_without_a_selection_takes_the_next_match() {
    let mut e = editor();
    e.cursor = DocPosition::new(1, 3);
    // No match starts after (1, 3): it wraps to the first one.
    assert!(replace_current(&mut e, &q("hello", false), "hi"));
    let texts: Vec<String> = e.doc.blocks.iter().map(|b| b.plain_text()).collect();
    assert_eq!(texts, vec!["hi world hello", "HELLO again"]);
    assert_eq!(e.cursor, DocPosition::new(0, 0));
    assert!(e.dirty);
    assert!(!replace_current(&mut e, &q("", false), "x"));
    // A selection that covers no match: the next match from the cursor.
    e.cursor = DocPosition::new(0, 3);
    e.selection = Some(SelectionState { anchor: DocPosition::new(0, 0), active: DocPosition::new(0, 3) });
    assert!(replace_current(&mut e, &q("hello", false), "yo"));
    let texts: Vec<String> = e.doc.blocks.iter().map(|b| b.plain_text()).collect();
    assert_eq!(texts, vec!["hi world yo", "HELLO again"]);
}
