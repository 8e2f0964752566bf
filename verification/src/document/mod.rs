//! The document model.

pub mod block;
pub mod page;
pub mod position;
pub mod runs;
pub mod ops;
pub mod laws;
pub mod styling;

pub use block::{Alignment, Block, BlockKind, BlockLayout, InlineAttr, InlineRun};
pub use page::{Margins, Orientation, PageSettings, PaperSize};
pub use position::{DocPosition, DocRange};
pub use ops::EditError;

use vstd::prelude::*;
use crate::ids::{fresh_id, now, Timestamp};
use crate::document::block::{BlockV, KindV, RunV, AttrV, default_layout};

verus! {

/// The top-level document, as stored in document.json inside the .folio bundle.
#[derive(Debug, Clone)]
pub struct Document {
    /// Unique document ID (the 128-bit value of a random UUID).
    pub id: u128,
    pub title: String,
    pub subtitle: String,
    pub created: Timestamp,
    pub modified: Timestamp,
    /// Page layout settings (paper size, margins, orientation).
    pub page: PageSettings,
    /// Ordered list of blocks — the document body.
    pub blocks: Vec<Block>,
    /// Document-level typography settings.
    pub typography: TypographySettings,
}

impl Document {
    /// The views of the blocks, in order.
    pub open spec fn blocks_view(&self) -> Seq<BlockV> {
        self.blocks@.map_values(|b: Block| b@)
    }

    /// A new document with `title`, the given page settings, default
    /// typography and a single empty paragraph.
    pub fn new(title: &str, page: PageSettings) -> (d: Self)
        ensures
            d.title@ == title@,
            d.subtitle@ == Seq::<char>::empty(),
            d.created == d.modified,
            d.page == page,
            d.typography.is_default(),
            d.blocks_view().len() == 1,
            d.blocks_view()[0].kind == KindV::Paragraph,
            d.blocks_view()[0].content == seq![
                RunV { text: Seq::<char>::empty(), attrs: Seq::<AttrV>::empty() },
            ],
            d.blocks_view()[0].layout == default_layout(),
            (d.id >> 76u128) & 0xfu128 == 4,
            (d.id >> 62u128) & 0x3u128 == 2,
            crate::ids::clock_reading(d.created),
    {
        let now = now();
        let mut blocks: Vec<Block> = Vec::new();
        blocks.push(Block::paragraph(""));
        proof {
            reveal_strlit("");
            assert(""@ =~= Seq::<char>::empty());
        }
        Document {
            id: fresh_id(),
            title: title.to_owned(),
            subtitle: String::new(),
            created: now,
            modified: now,
            page,
            blocks,
            typography: TypographySettings::default(),
        }
    }
}

/// Document-wide typography defaults (can be overridden per-block). The
/// three numbers are `f64` bit patterns.
#[derive(Debug, Clone)]
pub struct TypographySettings {
    /// Font family name as a CSS-like string, e.g. "Lora".
    pub font_family: String,
    /// Base font size in points.
    pub font_size_pt_bits: u64,
    /// Line height multiplier.
    pub line_height_bits: u64,
    /// Letter spacing in em units.
    pub tracking_em_bits: u64,
}

impl TypographySettings {
    /// Lora at 12 pt, line height 1.82, no tracking.
    pub open spec fn is_default(&self) -> bool {
        &&& self.font_family@ == "Lora"@
        &&& self.font_size_pt_bits == 0x4028000000000000u64
        &&& self.line_height_bits == 0x3ffd1eb851eb851fu64
        &&& self.tracking_em_bits == 0u64
    }
}

impl TypographySettings {
    /// A copy of these settings.
    pub fn copied(&self) -> (r: Self)
        ensures
            r == *self,
    {
        TypographySettings {
            font_family: self.font_family.clone(),
            font_size_pt_bits: self.font_size_pt_bits,
            line_height_bits: self.line_height_bits,
            tracking_em_bits: self.tracking_em_bits,
        }
    }
}

impl Default for TypographySettings {
    fn default() -> (r: Self)
        ensures
            r.is_default(),
    {
        TypographySettings {
            font_family: "Lora".to_owned(),
            font_size_pt_bits: 0x4028000000000000,  // 12.0
            line_height_bits: 0x3ffd1eb851eb851f,  // 1.82
            tracking_em_bits: 0,  // 0.0
        }
    }
}

} // verus!
