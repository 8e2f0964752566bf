use folio_core::{Block, BlockKind, DocPosition, Document, InlineRun, PageSettings};
use folio_core::search::{
    SearchError, SearchMatch, SearchQuery, find_all, find_next, find_prev, replace_all,
    replace_match, select_next, select_prev,
};

fn doc_with_text() -> Document {
    let mut d = Document::new("Test", PageSettings::default());
    d.blocks.clear();
    let mut b0 = Block::new(BlockKind::Paragraph);
    b0.content = vec![InlineRun::plain("Hello world hello")];
    let mut b1 = Block::new(BlockKind::Paragraph);
    b1.content = vec![InlineRun::plain("HELLO again")];
    d.blocks.push(b0);
    d.blocks.push(b1);
    d
}

fn query(p: &str, case_sensitive: bool, use_regex: bool) -> SearchQuery {
    SearchQuery { pattern: p.into(), case_sensitive, use_regex }
}

fn texts(d: &Document) -> Vec<String> {
    d.blocks.iter().map(|b| b.plain_text()).collect()
}

#[test]
fn literal_case_insensitive_finds_all() {
    let doc = doc_with_text();
    let q = SearchQuery { pattern: "hello".into(), case_sensitive: false, use_regex: false };
    let all = find_all(&doc, &q).unwrap();
    assert_eq!(all.len(), 3);
}

#[test]
fn literal_case_sensitive_finds_fewer() {
    let doc = doc_with_text();
    let q = SearchQuery { pattern: "hello".into(), case_sensitive: true, use_regex: false };
    let all = find_all(&doc, &q).unwrap();
    assert_eq!(all.len(), 1);
}

#[test]
fn regex_find() {
    let doc = doc_with_text();
    let q = SearchQuery { pattern: r"hel+o".into(), case_sensitive: false, use_regex: true };
    let all = find_all(&doc, &q).unwrap();
    assert_eq!(all.len(), 3);
}

#[test]
fn find_next_wraps() {
    let doc = doc_with_text();
    let q = SearchQuery { pattern: "hello".into(), case_sensitive: false, use_regex: false };
    let after = DocPosition::new(1, 100);
    let (m, wrapped) = find_next(&doc, &q, after).unwrap().unwrap();
    assert!(wrapped);
    assert_eq!(m.block_idx, 0);
    assert_eq!(m.byte_start, 0);
}

#[test]
fn replace_all_count() {
    let mut doc = doc_with_text();
    let q = SearchQuery { pattern: "hello".into(), case_sensitive: false, use_regex: false };
    let n = replace_all(&mut doc, &q, "hi").unwrap();
    assert_eq!(n, 3);
}

// ─── Further cases ────────────────────────────────────────────────────────────

#[test]
fn find_all_gives_offsets_in_document_order() {
    let doc = doc_with_text();
    let all = find_all(&doc, &query("hello", false, false)).unwrap();
    assert_eq!(
        all,
        vec![
            SearchMatch { block_idx: 0, byte_start: 0, byte_end: 5 },
            SearchMatch { block_idx: 0, byte_start: 12, byte_end: 17 },
            SearchMatch { block_idx: 1, byte_start: 0, byte_end: 5 },
        ]
    );
}

#[test]
fn empty_pattern_finds_nothing() {
    let doc = doc_with_text();
    assert!(find_all(&doc, &query("", false, true)).unwrap().is_empty());
    assert_eq!(find_next(&doc, &query("", false, false), DocPosition::new(0, 0)).unwrap(), None);
}

#[test]
fn invalid_regex_is_reported() {
    let doc = doc_with_text();
    match find_all(&doc, &query("(unclosed", true, true)) {
        Err(SearchError::InvalidRegex(msg)) => assert!(!msg.is_empty()),
        other => panic!("expected an invalid regex, got {:?}", other),
    }
}

#[test]
fn literal_mode_escapes_meta_characters() {
    let mut d = Document::new("T", PageSettings::default());
    d.blocks.clear();
    d.blocks.push(Block::paragraph("a.b axb a.b"));
    assert_eq!(find_all(&d, &query("a.b", true, false)).unwrap().len(), 2);
    assert_eq!(find_all(&d, &query("a.b", true, true)).unwrap().len(), 3);
}

#[test]
fn find_next_without_wrapping() {
    let doc = doc_with_text();
    let (m, wrapped) =
        find_next(&doc, &query("hello", false, false), DocPosition::new(0, 0)).unwrap().unwrap();
    assert!(!wrapped);
    assert_eq!(m, SearchMatch { block_idx: 0, byte_start: 12, byte_end: 17 });
}

#[test]
fn find_prev_picks_last_before_and_wraps() {
    let doc = doc_with_text();
    let q = query("hello", false, false);
    let (m, wrapped) = find_prev(&doc, &q, DocPosition::new(1, 0)).unwrap().unwrap();
    assert!(!wrapped);
    assert_eq!(m, SearchMatch { block_idx: 0, byte_start: 12, byte_end: 17 });
    let (m, wrapped) = find_prev(&doc, &q, DocPosition::new(0, 3)).unwrap().unwrap();
    assert!(wrapped);
    assert_eq!(m, SearchMatch { block_idx: 1, byte_start: 0, byte_end: 5 });
}

#[test]
fn select_from_no_matches_is_none() {
    assert_eq!(select_next(&Vec::new(), DocPosition::new(0, 0)), None);
    assert_eq!(select_prev(&Vec::new(), DocPosition::new(0, 0)), None);
}

#[test]
fn replace_match_puts_replacement_in_place() {
    let mut d = doc_with_text();
    let m = SearchMatch { block_idx: 0, byte_start: 6, byte_end: 11 };
    replace_match(&mut d, &m, "there").unwrap();
    assert_eq!(texts(&d), vec!["Hello there hello", "HELLO again"]);
    replace_match(&mut d, &SearchMatch { block_idx: 1, byte_start: 5, byte_end: 11 }, "").unwrap();
    assert_eq!(texts(&d), vec!["Hello there hello", "HELLO"]);
}

#[test]
fn replace_match_at_bad_offset_is_refused() {
    let mut d = doc_with_text();
    let m = SearchMatch { block_idx: 4, byte_start: 0, byte_end: 1 };
    assert!(matches!(replace_match(&mut d, &m, "x"), Err(SearchError::Edit(_))));
    assert_eq!(texts(&d), vec!["Hello world hello", "HELLO again"]);
}

#[test]
fn replace_all_replaces_every_match() {
    let mut doc = doc_with_text();
    let n = replace_all(&mut doc, &query("hello", false, false), "hi").unwrap();
    assert_eq!(n, 3);
    assert_eq!(texts(&doc), vec!["hi world hi", "hi again"]);
}

#[test]
fn replace_all_with_regex_and_longer_text() {
    let mut doc = doc_with_text();
    let n = replace_all(&mut doc, &query("o", true, true), "0O").unwrap();
    assert_eq!(n, 3);
    assert_eq!(texts(&doc), vec!["Hell0O w0Orld hell0O", "HELLO again"]);
}

#[test]
fn match_positions_and_range() {
    let m = SearchMatch { block_idx: 2, byte_start: 3, byte_end: 9 };
    assert_eq!(m.start_pos(), DocPosition::new(2, 3));
    assert_eq!(m.end_pos(), DocPosition::new(2, 9));
    let r = m.to_range();
    assert_eq!(r.start, DocPosition::new(2, 3));
    assert_eq!(r.end, DocPosition::new(2, 9));
}
