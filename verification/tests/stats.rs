use folio_core::{Block, BlockKind, Document, InlineRun, PageSettings};
use folio_core::stats::{
    ReadabilityLevel, compute_counts, count_sentences, count_words, full_text, readability_level,
    trimmed, with_readability,
};
use folio_core::export::{export_html, export_md, export_txt};

fn doc_with_prose() -> Document {
    let mut d = Document::new("Stats Test", PageSettings::default());
    d.blocks.clear();

    let mut h = Block::new(BlockKind::Heading1);
    h.content = vec![InlineRun::plain("Introduction")];
    d.blocks.push(h);

    d.blocks.push(Block::paragraph(
        "The quick brown fox jumps over the lazy dog. \
         Pack my box with five dozen liquor jugs. \
         How vexingly quick daft zebras jump.",
    ));
    d.blocks.push(Block::paragraph(
        "A second paragraph with more words. \
         This one has a few extra sentences to pad the count out.",
    ));
    d.blocks.push(Block::new(BlockKind::Divider));
    d
}

#[test]
fn word_count_is_nonzero() {
    let d = doc_with_prose();
    let stats = compute_counts(&d);
    assert!(stats.words > 0, "expected nonzero word count");
}

#[test]
fn word_count_reasonable() {
    let d = doc_with_prose();
    let stats = compute_counts(&d);
    assert!(
        stats.words >= 40 && stats.words <= 60,
        "word count {} out of expected range 40-60",
        stats.words
    );
}

#[test]
fn sentence_count_nonzero() {
    let d = doc_with_prose();
    let stats = compute_counts(&d);
    assert!(stats.sentences >= 3);
}

#[test]
fn paragraph_count_correct() {
    let d = doc_with_prose();
    let stats = compute_counts(&d);
    assert_eq!(stats.paragraphs, 2);
}

#[test]
fn export_txt_contains_text() {
    let d = doc_with_prose();
    let txt = export_txt(&d);
    assert!(txt.contains("quick brown fox"));
    assert!(txt.contains("second paragraph"));
}

#[test]
fn export_md_has_heading_prefix() {
    let d = doc_with_prose();
    let md = export_md(&d);
    assert!(md.contains("## Introduction"));
}

#[test]
fn export_html_is_valid_shell() {
    let d = doc_with_prose();
    let html = export_html(&d);
    assert!(html.contains("<!DOCTYPE html>"));
    assert!(html.contains("<h2>Introduction</h2>"));
    assert!(html.contains("quick brown fox"));
}

// ─── Further cases ────────────────────────────────────────────────────────────

#[test]
fn exact_counts_of_the_prose() {
    let d = doc_with_prose();
    let c = compute_counts(&d);
    assert_eq!(c.words, 42);
    assert_eq!(c.sentences, 5);
    assert_eq!(c.paragraphs, 2);
    assert_eq!(c.read_minutes, 1);
    assert_eq!(c.characters, full_text(&d).len());
}

#[test]
fn full_text_joins_blocks_with_spaces() {
    let mut d = Document::new("T", PageSettings::default());
    d.blocks.clear();
    d.blocks.push(Block::paragraph("ab"));
    d.blocks.push(Block::new(BlockKind::Divider));
    d.blocks.push(Block::paragraph("cd"));
    assert_eq!(full_text(&d), "ab  cd");
    assert_eq!(compute_counts(&d).characters, 6);
}

#[test]
fn words_are_separated_by_any_whitespace() {
    assert_eq!(count_words(""), 0);
    assert_eq!(count_words("   "), 0);
    assert_eq!(count_words("one"), 1);
    assert_eq!(count_words("  two\twords\n "), 2);
    assert_eq!(count_words("a\u{3000}b\u{a0}c"), 3);
}

#[test]
fn sentences_need_more_than_two_bytes() {
    assert_eq!(count_sentences(""), 1);
    assert_eq!(count_sentences("Hi. Yo! No?"), 1);
    assert_eq!(count_sentences("Hello there. How are you? Fine!"), 3);
    assert_eq!(count_sentences("abc"), 1);
    assert_eq!(count_sentences(" é. ab! abc? "), 1);
    assert_eq!(count_sentences("éé. abc"), 2);
}

#[test]
fn reading_time_is_at_least_a_minute() {
    let mut d = Document::new("T", PageSettings::default());
    d.blocks.clear();
    assert_eq!(compute_counts(&d).read_minutes, 1);
    let text = vec!["word"; 500].join(" ");
    d.blocks.push(Block::paragraph(&text));
    let c = compute_counts(&d);
    assert_eq!(c.words, 500);
    assert_eq!(c.read_minutes, 2);
}

#[test]
fn readability_bands() {
    assert_eq!(readability_level(100), ReadabilityLevel::Easy);
    assert_eq!(readability_level(71), ReadabilityLevel::Easy);
    assert_eq!(readability_level(70), ReadabilityLevel::Fair);
    assert_eq!(readability_level(51), ReadabilityLevel::Fair);
    assert_eq!(readability_level(50), ReadabilityLevel::Hard);
    assert_eq!(readability_level(31), ReadabilityLevel::Hard);
    assert_eq!(readability_level(30), ReadabilityLevel::Dense);
    assert_eq!(readability_level(0), ReadabilityLevel::Dense);
    assert_eq!(readability_level(101), ReadabilityLevel::Dense);
    assert_eq!(ReadabilityLevel::default(), ReadabilityLevel::Hard);
    assert_eq!(ReadabilityLevel::Fair.label(), "Fair");
}

#[test]
fn stats_carry_the_counts_and_the_band() {
    let d = doc_with_prose();
    let c = compute_counts(&d);
    let s = with_readability(c, 60);
    assert_eq!(s.words, c.words);
    assert_eq!(s.sentences, c.sentences);
    assert_eq!(s.readability, ReadabilityLevel::Fair);
}

#[test]
fn trimming_removes_unicode_whitespace() {
    assert_eq!(trimmed("  a b \u{2003}"), "a b");
    assert_eq!(trimmed(" \t "), "");
}
