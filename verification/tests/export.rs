use folio_core::{Block, BlockKind, Document, InlineAttr, InlineRun, PageSettings};
use folio_core::export::{export_html, export_md, export_txt};
use folio_core::export::html::{esc, render_inline_html};
use folio_core::export::md::render_inline_md;

fn small_doc() -> Document {
    let mut d = Document::new("My Doc", PageSettings::default());
    d.subtitle = "Sub".to_string();
    d.blocks.clear();
    let mut h = Block::new(BlockKind::Heading1);
    h.content = vec![InlineRun::plain("Intro")];
    d.blocks.push(h);
    d.blocks.push(Block::paragraph("a < b & c"));
    d.blocks.push(Block::new(BlockKind::Divider));
    let mut img = Block::new(BlockKind::Image { asset_id: 7, alt: "pic".to_string() });
    img.content = vec![];
    d.blocks.push(img);
    let mut item = Block::new(BlockKind::OrderedItem { index: 12 });
    item.content = vec![InlineRun::plain("twelve")];
    d.blocks.push(item);
    let mut check = Block::new(BlockKind::CheckItem { checked: true });
    check.content = vec![InlineRun::plain("done")];
    d.blocks.push(check);
    d.blocks.push(Block::paragraph("   "));
    d
}

#[test]
fn txt_export_exact() {
    let d = small_doc();
    assert_eq!(
        export_txt(&d),
        "My Doc\nSub\n\nIntro\n\na < b & c\n\n---\n\n[Image: pic]\n\ntwelve\n\ndone"
    );
}

#[test]
fn txt_export_without_title_or_trailing_space() {
    let mut d = Document::new("", PageSettings::default());
    d.blocks.clear();
    d.blocks.push(Block::paragraph("x  "));
    assert_eq!(export_txt(&d), "x");
    d.blocks.clear();
    assert_eq!(export_txt(&d), "");
}

#[test]
fn md_export_exact() {
    let d = small_doc();
    assert_eq!(
        export_md(&d),
        "# My Doc\n*Sub*\n\n## Intro\n\na < b & c\n\n---\n\n![pic]()\n\n12. twelve\n\n- [x] done"
    );
}

#[test]
fn md_export_of_each_kind() {
    let mut d = Document::new("", PageSettings::default());
    d.blocks.clear();
    for kind in [
        BlockKind::Title,
        BlockKind::Heading2,
        BlockKind::Caption,
        BlockKind::Quote,
        BlockKind::Code,
        BlockKind::BulletItem,
        BlockKind::CheckItem { checked: false },
    ] {
        let mut b = Block::new(kind);
        b.content = vec![InlineRun::plain("t")];
        d.blocks.push(b);
    }
    assert_eq!(
        export_md(&d),
        "# t\n\n### t\n\n#### t\n\n> t\n\n```\nt\n```\n\n- t\n\n- [ ] t"
    );
}

#[test]
fn md_inline_formatting() {
    let runs = vec![
        InlineRun { text: "b".to_string(), attrs: vec![InlineAttr::Bold] },
        InlineRun {
            text: "x".to_string(),
            attrs: vec![
                InlineAttr::Italic,
                InlineAttr::Strikethrough,
                InlineAttr::Link("http://a".to_string()),
                InlineAttr::Link("http://b".to_string()),
            ],
        },
        InlineRun::plain(" plain"),
    ];
    assert_eq!(render_inline_md(&runs), "**b**[~~*x*~~](http://a) plain");
}

#[test]
fn html_escaping() {
    assert_eq!(esc("<a href=\"x\">&</a>"), "&lt;a href=\"x\"&gt;&amp;&lt;/a&gt;");
    assert_eq!(esc("plain"), "plain");
    assert!(!esc("<<>>&").contains('<'));
}

#[test]
fn html_inline_formatting() {
    let runs = vec![
        InlineRun {
            text: "a<b".to_string(),
            attrs: vec![
                InlineAttr::Underline,
                InlineAttr::Bold,
                InlineAttr::TextColor(0x1a2b),
                InlineAttr::Highlight(0xABCDEF12),
                InlineAttr::Superscript,
            ],
        },
        InlineRun { text: "s".to_string(), attrs: vec![InlineAttr::Subscript, InlineAttr::Strikethrough] },
        InlineRun { text: "l".to_string(), attrs: vec![InlineAttr::Italic, InlineAttr::Link("u".to_string())] },
    ];
    assert_eq!(
        render_inline_html(&runs),
        "<span style=\"background:#ABCDEF12\"><span style=\"color:#001A2B\"><sup><u><strong>a&lt;b</strong></u></sup></span></span>\
         <sub><s>s</s></sub>\
         <a href=\"u\"><em>l</em></a>"
    );
}

#[test]
fn html_export_body() {
    let d = small_doc();
    let html = export_html(&d);
    assert!(html.starts_with("<!DOCTYPE html>\n<html lang=\"en\">\n<head>\n<meta charset=\"UTF-8\">\n<title>My Doc</title>\n<style>\nbody{font-family:Georgia,serif;"));
    assert!(html.ends_with(
        "<body>\n<h1>My Doc</h1>\n<p class=\"subtitle\">Sub</p>\n<h2>Intro</h2>\n<p>a &lt; b &amp; c</p>\n<hr>\n<figure><img alt=\"pic\"></figure>\n<li>twelve</li>\n<li><input type=\"checkbox\" checked disabled> done</li>\n<p>   </p>\n</body>\n</html>"
    ));
}

#[test]
fn html_code_block_is_escaped_plain_text() {
    let mut d = Document::new("", PageSettings::default());
    d.blocks.clear();
    let mut b = Block::new(BlockKind::Code);
    b.content = vec![InlineRun { text: "if a<b {".to_string(), attrs: vec![InlineAttr::Bold] }];
    d.blocks.push(b);
    assert!(export_html(&d).contains("<title></title>"));
    assert!(export_html(&d).contains("<body>\n<pre><code>if a&lt;b {</code></pre>\n</body>"));
}
