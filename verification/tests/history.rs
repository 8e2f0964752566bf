use folio_core::{Document, PageSettings};
use folio_core::crdt::CrdtEngine;
use folio_core::format::DocumentMetadata;

#[test]
fn fresh_engine_has_no_history() {
    let mut e = CrdtEngine::new();
    assert!(!e.can_undo());
    assert!(!e.can_redo());
    assert_eq!(e.undo().unwrap(), None);
    assert_eq!(e.redo().unwrap(), None);
    assert_eq!(e.read_json(), "");
}

#[test]
fn checkpoint_stores_the_json() {
    let mut e = CrdtEngine::default();
    e.checkpoint("{\"a\":1}").unwrap();
    assert_eq!(e.read_json(), "{\"a\":1}");
    e.checkpoint("{\"b\":2}").unwrap();
    assert_eq!(e.read_json(), "{\"b\":2}");
    assert!(e.can_undo());
}

#[test]
fn undo_then_redo_moves_through_history() {
    let mut e = CrdtEngine::new();
    e.checkpoint("one").unwrap();
    let undone = e.undo().unwrap();
    assert!(undone.is_some());
    assert!(e.can_redo());
    let redone = e.redo().unwrap();
    assert_eq!(redone, Some("one".to_string()));
}

#[test]
fn snapshot_round_trip_and_clear_history() {
    let mut e = CrdtEngine::new();
    e.checkpoint("state").unwrap();
    let bytes = e.export_snapshot().unwrap();
    let (mut restored, json) = CrdtEngine::import_snapshot(&bytes).unwrap();
    assert_eq!(json, "state");
    restored.clear_history();
    assert!(!restored.can_undo());
    assert!(CrdtEngine::import_snapshot(&[1, 2, 3]).is_err());
}

#[test]
fn metadata_copies_the_document_fields() {
    let mut d = Document::new("Title", PageSettings::default());
    d.subtitle = "Sub".to_string();
    let m = DocumentMetadata::from(&d);
    assert_eq!(m.id, d.id);
    assert_eq!(m.title, "Title");
    assert_eq!(m.subtitle, "Sub");
    assert_eq!(m.created, d.created);
    assert_eq!(m.modified, d.modified);
    assert_eq!(m.page, d.page);
    assert_eq!(m.typography.font_family, "Lora");
}

#[test]
fn undo_gives_back_the_previous_checkpoint_and_redo_the_undone_one() {
    let mut e = CrdtEngine::new();
    e.checkpoint("first").unwrap();
    e.checkpoint("second").unwrap();
    assert!(e.can_undo());
    assert!(!e.can_redo());
    assert_eq!(e.undo().unwrap(), Some("first".to_string()));
    assert_eq!(e.read_json(), "first");
    assert!(e.can_redo());
    assert_eq!(e.redo().unwrap(), Some("second".to_string()));
    assert!(e.can_undo());
    assert!(!e.can_redo());
    // A new checkpoint after an undo clears the redo stack.
    assert_eq!(e.undo().unwrap(), Some("first".to_string()));
    e.checkpoint("third").unwrap();
    assert!(!e.can_redo());
    assert_eq!(e.redo().unwrap(), None);
    assert_eq!(e.read_json(), "third");
}

#[test]
fn an_imported_engine_has_no_history() {
    let mut e = CrdtEngine::new();
    e.checkpoint("kept").unwrap();
    let (r, json) = CrdtEngine::import_snapshot(&e.export_snapshot().unwrap()).unwrap();
    assert_eq!(json, "kept");
    assert_eq!(r.read_json(), "kept");
    assert!(!r.can_undo());
    assert!(!r.can_redo());
}

#[test]
fn an_empty_checkpoint_on_an_empty_history_records_no_step() {
    let mut e = CrdtEngine::new();
    e.checkpoint("").unwrap();
    assert!(!e.can_undo());
    assert_eq!(e.read_json(), "");
    e.checkpoint("x").unwrap();
    assert!(e.can_undo());
    assert_eq!(e.undo().unwrap(), Some(String::new()));
    assert_eq!(e.redo().unwrap(), Some("x".to_string()));
}
