use folio_core::{Block, BlockKind, DocPosition, DocRange, Document, EditError, InlineAttr, InlineRun, PageSettings};
use folio_core::document::runs::run_byte_spans;

fn doc_with(text: &str) -> Document {
    let mut d = Document::new("Test", PageSettings::default());
    d.blocks.clear();
    d.blocks.push(Block::paragraph(text));
    d
}

fn doc_with_blocks(texts: &[&str]) -> Document {
    let mut d = Document::new("T", PageSettings::default());
    d.blocks.clear();
    for t in texts {
        d.blocks.push(Block::paragraph(t));
    }
    d
}

fn texts(d: &Document) -> Vec<String> {
    d.blocks.iter().map(|b| b.plain_text()).collect()
}

#[test]
fn insert_into_empty_block() {
    let mut d = doc_with("");
    d.insert_text(DocPosition::new(0, 0), "hello").unwrap();
    assert_eq!(d.blocks[0].plain_text(), "hello");
}

#[test]
fn insert_at_start() {
    let mut d = doc_with("world");
    d.insert_text(DocPosition::new(0, 0), "hello ").unwrap();
    assert_eq!(d.blocks[0].plain_text(), "hello world");
}

#[test]
fn insert_at_end() {
    let mut d = doc_with("hello");
    let end = d.blocks[0].plain_text().len();
    d.insert_text(DocPosition::new(0, end), " world").unwrap();
    assert_eq!(d.blocks[0].plain_text(), "hello world");
}

#[test]
fn insert_in_middle() {
    let mut d = doc_with("helloworld");
    d.insert_text(DocPosition::new(0, 5), " ").unwrap();
    assert_eq!(d.blocks[0].plain_text(), "hello world");
}

#[test]
fn insert_bad_block_idx_errors() {
    let mut d = doc_with("hi");
    assert!(d.insert_text(DocPosition::new(99, 0), "x").is_err());
}

#[test]
fn delete_whole_word() {
    let mut d = doc_with("hello world");
    d.delete_range(DocRange::new(DocPosition::new(0, 5), DocPosition::new(0, 11))).unwrap();
    assert_eq!(d.blocks[0].plain_text(), "hello");
}

#[test]
fn delete_collapsed_is_noop() {
    let mut d = doc_with("hello");
    let pos = DocPosition::new(0, 2);
    d.delete_range(DocRange::new(pos, pos)).unwrap();
    assert_eq!(d.blocks[0].plain_text(), "hello");
}

#[test]
fn delete_across_blocks_merges() {
    let mut d = Document::new("T", PageSettings::default());
    d.blocks.clear();
    d.blocks.push(Block::paragraph("hello "));
    d.blocks.push(Block::paragraph("world"));
    d.delete_range(DocRange::new(DocPosition::new(0, 3), DocPosition::new(1, 2))).unwrap();
    assert_eq!(d.blocks.len(), 1);
    assert_eq!(d.blocks[0].plain_text(), "helrld");
}

#[test]
fn split_at_middle_creates_two_blocks() {
    let mut d = doc_with("hello world");
    d.split_block(DocPosition::new(0, 5)).unwrap();
    assert_eq!(d.blocks.len(), 2);
    assert_eq!(d.blocks[0].plain_text(), "hello");
    assert_eq!(d.blocks[1].plain_text(), " world");
}

#[test]
fn split_at_end_creates_empty_second_block() {
    let mut d = doc_with("hello");
    let end = d.blocks[0].plain_text().len();
    d.split_block(DocPosition::new(0, end)).unwrap();
    assert_eq!(d.blocks.len(), 2);
    assert_eq!(d.blocks[0].plain_text(), "hello");
    assert_eq!(d.blocks[1].plain_text(), "");
}

#[test]
fn split_heading_produces_paragraph() {
    let mut d = Document::new("T", PageSettings::default());
    d.blocks.clear();
    d.blocks.push({
        let mut b = Block::new(BlockKind::Heading1);
        b.content = vec![InlineRun::plain("My Heading")];
        b
    });
    d.split_block(DocPosition::new(0, 2)).unwrap();
    assert!(matches!(d.blocks[1].kind, BlockKind::Paragraph));
}

#[test]
fn merge_joins_content() {
    let mut d = Document::new("T", PageSettings::default());
    d.blocks.clear();
    d.blocks.push(Block::paragraph("hello"));
    d.blocks.push(Block::paragraph(" world"));
    d.merge_blocks(0).unwrap();
    assert_eq!(d.blocks.len(), 1);
    assert_eq!(d.blocks[0].plain_text(), "hello world");
}

#[test]
fn merge_at_last_block_errors() {
    let mut d = doc_with("only");
    assert!(d.merge_blocks(0).is_err());
}

#[test]
fn apply_bold_to_range() {
    let mut d = doc_with("hello world");
    let range = DocRange::new(DocPosition::new(0, 0), DocPosition::new(0, 5));
    d.apply_inline_attr(range, InlineAttr::Bold).unwrap();
    assert!(d.blocks[0].content[0].attrs.contains(&InlineAttr::Bold));
    assert!(!d.blocks[0].content[1].attrs.contains(&InlineAttr::Bold));
}

#[test]
fn remove_bold_from_range() {
    let mut d = doc_with("hello");
    let range = DocRange::new(DocPosition::new(0, 0), DocPosition::new(0, 5));
    d.apply_inline_attr(range, InlineAttr::Bold).unwrap();
    d.remove_inline_attr(range, &InlineAttr::Bold).unwrap();
    for run in &d.blocks[0].content {
        assert!(!run.attrs.contains(&InlineAttr::Bold));
    }
}

#[test]
fn runs_normalise_after_remove() {
    let mut d = doc_with("hello");
    let range = DocRange::new(DocPosition::new(0, 0), DocPosition::new(0, 5));
    d.apply_inline_attr(range, InlineAttr::Bold).unwrap();
    d.remove_inline_attr(range, &InlineAttr::Bold).unwrap();
    assert_eq!(d.blocks[0].content.len(), 1);
    assert_eq!(d.blocks[0].content[0].text, "hello");
}

// ─── Further cases ────────────────────────────────────────────────────────────

#[test]
fn insert_inside_a_character_is_refused() {
    let mut d = doc_with("héllo");
    let before = texts(&d);
    assert_eq!(d.insert_text(DocPosition::new(0, 2), "x"), Err(EditError::BadByteOffset(2, 0)));
    assert_eq!(texts(&d), before);
}

#[test]
fn insert_into_missing_block_reports_count() {
    let mut d = doc_with("hi");
    assert_eq!(d.insert_text(DocPosition::new(3, 0), "x"), Err(EditError::BlockOutOfRange(3, 1)));
}

#[test]
fn insert_empty_text_anywhere_is_accepted() {
    let mut d = doc_with("hi");
    assert_eq!(d.insert_text(DocPosition::new(7, 9), ""), Ok(()));
    assert_eq!(texts(&d), vec!["hi".to_string()]);
}

#[test]
fn insert_inherits_the_owning_run_attributes() {
    let mut d = doc_with("");
    d.blocks[0].content = vec![
        InlineRun { text: "ab".to_string(), attrs: vec![InlineAttr::Bold] },
        InlineRun::plain("cd"),
    ];
    d.insert_text(DocPosition::new(0, 2), "X").unwrap();
    assert_eq!(d.blocks[0].content[0].text, "abX");
    assert_eq!(d.blocks[0].content[1].text, "cd");
}

#[test]
fn insert_then_delete_restores_text() {
    let mut d = doc_with("hello");
    d.insert_text(DocPosition::new(0, 2), "xyz").unwrap();
    assert_eq!(d.blocks[0].plain_text(), "hexyzllo");
    d.delete_range(DocRange::new(DocPosition::new(0, 2), DocPosition::new(0, 5))).unwrap();
    assert_eq!(d.blocks[0].plain_text(), "hello");
}

#[test]
fn split_then_merge_restores_text() {
    let mut d = doc_with_blocks(&["first", "hello world", "last"]);
    let id = d.blocks[1].id;
    d.split_block(DocPosition::new(1, 4)).unwrap();
    assert_eq!(texts(&d), vec!["first", "hell", "o world", "last"]);
    d.merge_blocks(1).unwrap();
    assert_eq!(texts(&d), vec!["first", "hello world", "last"]);
    assert_eq!(d.blocks[1].id, id);
}

#[test]
fn split_gives_the_new_block_a_version_four_id() {
    let mut d = doc_with("abc");
    d.split_block(DocPosition::new(0, 1)).unwrap();
    let id = d.blocks[1].id;
    assert_eq!((id >> 76) & 0xf, 4);
    assert_eq!((id >> 62) & 0x3, 2);
    assert_ne!(id, d.blocks[0].id);
}

#[test]
fn delete_across_three_blocks_drops_the_middle() {
    let mut d = doc_with_blocks(&["abc", "middle", "xyz"]);
    d.delete_range(DocRange::new(DocPosition::new(0, 1), DocPosition::new(2, 2))).unwrap();
    assert_eq!(texts(&d), vec!["az"]);
}

#[test]
fn delete_with_bad_end_is_refused_and_changes_nothing() {
    let mut d = doc_with_blocks(&["abc", "xyz"]);
    let r = d.delete_range(DocRange::new(DocPosition::new(0, 1), DocPosition::new(1, 9)));
    assert_eq!(r, Err(EditError::BadByteOffset(9, 1)));
    assert_eq!(texts(&d), vec!["abc", "xyz"]);
}

#[test]
fn merge_out_of_range_errors() {
    let mut d = doc_with("only");
    assert_eq!(d.merge_blocks(5), Err(EditError::BlockOutOfRange(5, 1)));
    assert_eq!(d.merge_blocks(0), Err(EditError::MergeAtEnd(0)));
}

#[test]
fn set_block_kind_changes_only_the_kind() {
    let mut d = doc_with("text");
    d.set_block_kind(0, BlockKind::Quote).unwrap();
    assert!(matches!(d.blocks[0].kind, BlockKind::Quote));
    assert_eq!(d.blocks[0].plain_text(), "text");
    assert_eq!(d.set_block_kind(4, BlockKind::Code), Err(EditError::BlockOutOfRange(4, 1)));
}

#[test]
fn restyle_keeps_the_text() {
    let mut d = doc_with("hello world");
    let range = DocRange::new(DocPosition::new(0, 3), DocPosition::new(0, 8));
    d.apply_inline_attr(range, InlineAttr::Italic).unwrap();
    assert_eq!(d.blocks[0].plain_text(), "hello world");
    assert_eq!(d.blocks[0].content.len(), 3);
    assert_eq!(d.blocks[0].content[1].text, "lo wo");
    assert!(d.blocks[0].content[1].has_attr(&InlineAttr::Italic));
}

#[test]
fn edit_error_messages() {
    assert_eq!(
        EditError::BlockOutOfRange(3, 1).message(),
        "block index 3 out of range (document has 1 blocks)"
    );
    assert_eq!(
        EditError::BadByteOffset(2, 0).message(),
        "byte offset 2 is not on a char boundary in block 0"
    );
    assert_eq!(EditError::MergeAtEnd(0).message(), "cannot merge: block index 0 is the last block");
}

#[test]
fn block_count_and_text_len() {
    let mut d = doc_with_blocks(&["héllo", ""]);
    assert_eq!(d.block_count(), 2);
    assert_eq!(d.block_text_len(0), 6);
    assert_eq!(d.block_text_len(1), 0);
}

#[test]
fn new_document_has_one_empty_paragraph() {
    let d = Document::new("Title", PageSettings::default());
    assert_eq!(d.title, "Title");
    assert_eq!(d.subtitle, "");
    assert_eq!(d.blocks.len(), 1);
    assert!(matches!(d.blocks[0].kind, BlockKind::Paragraph));
    assert_eq!(d.blocks[0].plain_text(), "");
    assert_eq!(d.created, d.modified);
    assert_eq!(d.typography.font_family, "Lora");
}

#[test]
fn positions_and_ranges() {
    let p = DocPosition::new(2, 7);
    assert_eq!(p.block_idx, 2);
    assert_eq!(p.byte_offset, 7);
    assert_eq!(DocPosition::block_start(4), DocPosition::new(4, 0));
    let r = DocRange::new(DocPosition::new(1, 0), DocPosition::new(1, 3));
    assert!(r.is_single_block());
    assert!(!r.is_collapsed());
    assert!(DocRange::new(p, p).is_collapsed());
    assert!(!DocRange::new(DocPosition::new(0, 5), DocPosition::new(1, 0)).is_single_block());
}

#[test]
fn run_spans_and_equality() {
    let runs = vec![
        InlineRun { text: "hé".to_string(), attrs: vec![InlineAttr::Bold] },
        InlineRun::plain(""),
        InlineRun::plain("xyz"),
    ];
    assert_eq!(run_byte_spans(&runs), vec![(0, 3), (3, 3), (3, 6)]);
    assert!(runs[1] == InlineRun::plain(""));
    assert!(runs[0] != InlineRun::plain("hé"));
    let b = Block::paragraph("same");
    let mut c = b.clone();
    assert!(b == c);
    c.content = vec![InlineRun::plain("other")];
    assert!(b != c);
}

#[test]
fn restyling_marks_exactly_the_range() {
    let mut d = doc_with("hello world");
    let all = DocRange::new(DocPosition::new(0, 0), DocPosition::new(0, 11));
    d.apply_inline_attr(all, InlineAttr::Italic).unwrap();
    let mid = DocRange::new(DocPosition::new(0, 3), DocPosition::new(0, 5));
    d.remove_inline_attr(mid, &InlineAttr::Italic).unwrap();
    let c = &d.blocks[0].content;
    assert_eq!(c.len(), 3);
    assert_eq!(c[0].text, "hel");
    assert_eq!(c[0].attrs, vec![InlineAttr::Italic]);
    assert_eq!(c[1].text, "lo");
    assert!(c[1].attrs.is_empty());
    assert_eq!(c[2].text, " world");
    assert_eq!(c[2].attrs, vec![InlineAttr::Italic]);
    // Adding it back over the gap joins the runs again.
    d.apply_inline_attr(mid, InlineAttr::Italic).unwrap();
    assert_eq!(d.blocks[0].content.len(), 1);
    assert_eq!(d.blocks[0].content[0].text, "hello world");
}

#[test]
fn deleting_everything_leaves_one_empty_block() {
    let mut d = doc_with_blocks(&["one", "two", "three"]);
    let r = DocRange::new(DocPosition::new(0, 0), DocPosition::new(2, 5));
    d.delete_range(r).unwrap();
    assert_eq!(d.blocks.len(), 1);
    assert_eq!(d.blocks[0].plain_text(), "");
    assert!(d.merge_blocks(0).is_err());
    assert_eq!(d.blocks.len(), 1);
}

fn attrs_of_each_byte(d: &Document) -> Vec<Vec<InlineAttr>> {
    let mut out = Vec::new();
    for run in &d.blocks[0].content {
        for _ in 0..run.text.len() {
            out.push(run.attrs.clone());
        }
    }
    out
}

#[test]
fn restyling_changes_exactly_the_bytes_in_range() {
    let mut d = doc_with("aébcd");
    let r = |a: usize, b: usize| DocRange::new(DocPosition::new(0, a), DocPosition::new(0, b));
    d.apply_inline_attr(r(1, 4), InlineAttr::Bold).unwrap();
    let bold = vec![InlineAttr::Bold];
    let none: Vec<InlineAttr> = Vec::new();
    assert_eq!(
        attrs_of_each_byte(&d),
        vec![none.clone(), bold.clone(), bold.clone(), bold.clone(), none.clone(), none.clone()]
    );
    d.apply_inline_attr(r(0, 6), InlineAttr::Italic).unwrap();
    let it = vec![InlineAttr::Italic];
    let both = vec![InlineAttr::Bold, InlineAttr::Italic];
    assert_eq!(
        attrs_of_each_byte(&d),
        vec![it.clone(), both.clone(), both.clone(), both.clone(), it.clone(), it.clone()]
    );
    d.remove_inline_attr(r(0, 6), &InlineAttr::Bold).unwrap();
    assert_eq!(d.blocks[0].content.len(), 1);
    assert_eq!(d.blocks[0].content[0].attrs, it);
    assert_eq!(d.blocks[0].plain_text(), "aébcd");
}
