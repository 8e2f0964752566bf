//! Document model, editing operations, search, statistics and export for the
//! Folio word processor.

pub mod text;
pub mod ids;
pub mod document;
pub mod search;
pub mod stats;
pub mod export;
pub mod editor;
pub mod ui;
pub mod crdt;
pub mod format;

pub use document::{
    Alignment, Block, BlockKind, BlockLayout, DocPosition, DocRange, Document, EditError,
    InlineAttr, InlineRun, Margins, Orientation, PageSettings, PaperSize, TypographySettings,
};
pub use crdt::CrdtEngine;
pub use search::{SearchMatch, SearchQuery, find_all, find_next, find_prev, replace_all, replace_match};
