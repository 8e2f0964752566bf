use folio_core::ui::fonts::font_index;
use folio_core::format::asset_id;
use folio_core::ui::launch::{is_folio, launch_rows};
use folio_core::{Block, BlockKind, DocPosition, Document, InlineAttr, InlineRun, PageSettings};
use folio_core::editor::Editor;
use folio_core::editor::selection::SelectionState;
use folio_core::ui::toolbar::{formatting_range, idx_to_kind, set_style, toggle_inline_attr};
use folio_core::ui::fonts::{font_file_name, font_stem};
use folio_core::ui::new_document::{document_file_name, safe_title};
use folio_core::ui::outline::{is_blank, outline_rows, outline_signature, row_label};
use folio_core::ui::stats_panel::{format_elapsed, read_time_label};

fn outline_doc() -> Document {
    let mut d = Document::new("T", PageSettings::default());
    d.blocks.clear();
    for (kind, text) in [
        (BlockKind::Title, "Book"),
        (BlockKind::Paragraph, "body"),
        (BlockKind::Heading1, "Part"),
        (BlockKind::Heading2, "  "),
        (BlockKind::Heading2, "Sub"),
    ] {
        let mut b = Block::new(kind);
        b.content = vec![InlineRun::plain(text)];
        d.blocks.push(b);
    }
    d
}

#[test]
fn picker_positions_map_to_kinds() {
    assert!(matches!(idx_to_kind(1), BlockKind::Title));
    assert!(matches!(idx_to_kind(3), BlockKind::Heading2));
    assert!(matches!(idx_to_kind(6), BlockKind::Code));
    assert!(matches!(idx_to_kind(0), BlockKind::Paragraph));
    assert!(matches!(idx_to_kind(7), BlockKind::Paragraph));
}

#[test]
fn outline_signature_joins_heading_texts() {
    assert_eq!(outline_signature(&outline_doc()), "Book|Part|  |Sub");
}

#[test]
fn outline_rows_skip_blank_headings() {
    let rows = outline_rows(&outline_doc());
    let got: Vec<(usize, String)> = rows.iter().map(|r| (r.block_idx, r.text.clone())).collect();
    assert_eq!(
        got,
        vec![(0, "Book".to_string()), (2, "Part".to_string()), (4, "Sub".to_string())]
    );
    assert!(matches!(rows[2].kind, BlockKind::Heading2));
}

#[test]
fn outline_labels() {
    assert_eq!(row_label(&BlockKind::Title, &"A".to_string()), ("◆ A".to_string(), 0));
    assert_eq!(row_label(&BlockKind::Heading1, &"B".to_string()), ("▸ B".to_string(), 0));
    assert_eq!(row_label(&BlockKind::Heading2, &"C".to_string()), ("  ▸ C".to_string(), 8));
}

#[test]
fn blank_text() {
    assert!(is_blank(""));
    assert!(is_blank(" \t\u{3000}"));
    assert!(!is_blank(" x "));
}

#[test]
fn session_timer_text() {
    assert_eq!(format_elapsed(0), "00m 00s");
    assert_eq!(format_elapsed(65), "01m 05s");
    assert_eq!(format_elapsed(3599), "59m 59s");
    assert_eq!(format_elapsed(3725), "1h 02m 05s");
    assert_eq!(format_elapsed(360000), "100h 00m 00s");
    assert_eq!(read_time_label(3), "3 min");
}

#[test]
fn font_urls() {
    assert_eq!(font_file_name("https://cdn.example/fonts/Lora.ttf?v=2"), Some("Lora.ttf".to_string()));
    assert_eq!(font_file_name("Inter.woff2"), Some("Inter.woff2".to_string()));
    assert_eq!(font_file_name("https://cdn.example/fonts/Lora.css"), None);
    assert_eq!(font_file_name("https://cdn.example/fonts/"), None);
    assert_eq!(font_file_name("x/a.otf?q=/b.css"), None);
}

#[test]
fn font_stems() {
    assert_eq!(font_stem("Lora-Regular.ttf"), Some("Lora-Regular".to_string()));
    assert_eq!(font_stem("x.tar.otf"), Some("x.tar".to_string()));
    assert_eq!(font_stem(".ttf"), None);
    assert_eq!(font_stem("notes.txt"), None);
    assert_eq!(font_stem("noext"), None);
    assert_eq!(font_stem("a.TTF"), None);
}

#[test]
fn safe_titles_and_file_names() {
    assert_eq!(safe_title("My/Doc: v2"), "My_Doc_ v2");
    assert_eq!(safe_title(&"x".repeat(50)), "x".repeat(40));
    assert_eq!(
        document_file_name("  Notes!  ", 0),
        "Notes_-00000000-0000-0000-0000-000000000000.folio"
    );
    assert_eq!(
        document_file_name("A", 0x0123456789abcdef0011223344556677),
        "A-01234567-89ab-cdef-0011-223344556677.folio"
    );
}

#[test]
fn format_buttons_act_on_single_block_selections() {
    let mut d = Document::new("T", PageSettings::default());
    d.blocks.clear();
    d.blocks.push(Block::paragraph("hello world"));
    d.blocks.push(Block::paragraph("second"));
    let mut e = Editor::new(d);
    assert!(!toggle_inline_attr(&mut e, InlineAttr::Bold, true));
    e.selection = Some(SelectionState { anchor: DocPosition::new(0, 5), active: DocPosition::new(0, 0) });
    let r = formatting_range(&e.selection).unwrap();
    assert_eq!(r.start, DocPosition::new(0, 0));
    assert!(toggle_inline_attr(&mut e, InlineAttr::Bold, true));
    assert!(e.doc.blocks[0].content[0].has_attr(&InlineAttr::Bold));
    assert_eq!(e.doc.blocks[0].content[0].text, "hello");
    assert!(toggle_inline_attr(&mut e, InlineAttr::Bold, false));
    assert_eq!(e.doc.blocks[0].content.len(), 1);
    e.selection = Some(SelectionState { anchor: DocPosition::new(0, 1), active: DocPosition::new(1, 1) });
    assert!(formatting_range(&e.selection).is_none());
    e.cursor = DocPosition::new(1, 0);
    set_style(&mut e, 2).unwrap();
    assert!(matches!(e.doc.blocks[1].kind, BlockKind::Heading1));
    e.cursor = DocPosition::new(9, 0);
    assert!(set_style(&mut e, 2).is_err());
}

fn entry(name: &str, title: Option<&str>, secs: Option<i64>) -> folio_core::ui::launch::LaunchEntry {
    folio_core::ui::launch::LaunchEntry {
        file_name: name.to_string(),
        meta: title.map(|t| folio_core::ui::launch::LaunchMeta {
            title: t.to_string(),
            modified: folio_core::ids::Timestamp { secs: 0, nanos: 0 },
        }),
        file_time: secs.map(|s| folio_core::ids::Timestamp { secs: s, nanos: 0 }),
    }
}

#[test]
fn launch_rows_list_documents_newest_first() {
    assert!(is_folio("a.folio"));
    assert!(!is_folio(".folio"));
    assert!(!is_folio("a.folio.bak"));
    assert!(!is_folio("notes.txt"));
    let entries = vec![
        entry("old.folio", Some("Old"), Some(10)),
        entry("notes.txt", Some("x"), Some(99)),
        entry("new.folio", Some(""), Some(30)),
        entry("broken.folio", None, Some(30)),
        entry("unknown.folio", Some("U"), None),
    ];
    let rows = launch_rows(&entries);
    let got: Vec<(usize, String, String)> =
        rows.into_iter().map(|r| (r.entry, r.title, r.date)).collect();
    assert_eq!(
        got,
        vec![
            (2, "Untitled".to_string(), "01 Jan 1970, 00:00".to_string()),
            (3, "Unknown document".to_string(), String::new()),
            (0, "Old".to_string(), "01 Jan 1970, 00:00".to_string()),
            (4, "U".to_string(), "01 Jan 1970, 00:00".to_string()),
        ]
    );
}

#[test]
fn asset_entries_are_named_by_their_uuid() {
    let id: u128 = 0x67e55044_10b1_426f_9247_bb680e5fe0c8;
    assert_eq!(asset_id("assets/67e55044-10b1-426f-9247-bb680e5fe0c8.png"), Some(id));
    assert_eq!(asset_id("assets/67e55044-10b1-426f-9247-bb680e5fe0c8"), Some(id));
    assert_eq!(asset_id("assets/"), None);
    assert_eq!(asset_id("assets/67e55044-10b1-426f-9247-bb680e5fe0c8/"), Some(id));
    assert_eq!(asset_id("assets//"), None);
    assert_eq!(asset_id("assets/sub/67e55044-10b1-426f-9247-bb680e5fe0c8.jpg"), Some(id));
    assert_eq!(asset_id("assets/logo.png"), None);
    assert_eq!(asset_id("document.json"), None);
    assert_eq!(asset_id("other/67e55044-10b1-426f-9247-bb680e5fe0c8.png"), None);
}

#[test]
fn the_family_picker_finds_the_font() {
    assert_eq!(font_index("Lora"), 0);
    assert_eq!(font_index("Inter"), 3);
    assert_eq!(font_index("IBM Plex Mono"), 4);
    assert_eq!(font_index("Comic Sans"), 0);
}
