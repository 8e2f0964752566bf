//! The logic of the editor's panels and dialogs: the block-style picker,
//! the outline, the session timer, font files, new-document file names and
//! the launch screen's list of documents.

pub mod toolbar;
pub mod outline;
pub mod stats_panel;
pub mod fonts;
pub mod new_document;
pub mod find_replace;
pub mod launch;
