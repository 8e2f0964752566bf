//! The editing state behind the canvas: the document, the cursor and the
//! selection, and what the editing keys do to them.

pub mod cursor;
pub mod selection;
pub mod input;
pub mod keys;
pub mod laws;

use vstd::prelude::*;
use crate::document::Document;
use crate::document::block::BlockV;
use crate::document::position::DocPosition;
use crate::editor::selection::SelectionState;

verus! {

/// What the editing state is: the blocks of the document, the cursor, the
/// selection and whether there are unsaved changes.
pub struct EditV {
    pub blocks: Seq<BlockV>,
    pub cursor: DocPosition,
    pub selection: Option<SelectionState>,
    pub dirty: bool,
}

/// The document being edited, with its cursor and selection.
#[derive(Debug, Clone)]
pub struct Editor {
    pub doc: Document,
    pub cursor: DocPosition,
    /// Current text selection. None = no selection (cursor only).
    pub selection: Option<SelectionState>,
    /// The document has changed since it was last saved.
    pub dirty: bool,
}

impl View for Editor {
    type V = EditV;

    open spec fn view(&self) -> EditV {
        EditV {
            blocks: self.doc.blocks_view(),
            cursor: self.cursor,
            selection: self.selection,
            dirty: self.dirty,
        }
    }
}

impl Editor {
    /// A fresh editing state: the cursor at the start of the first block,
    /// no selection, nothing unsaved.
    pub fn new(doc: Document) -> (e: Self)
        ensures
            e.doc == doc,
            e.cursor == (DocPosition { block_idx: 0, byte_offset: 0 }),
            e.selection is None,
            !e.dirty,
    {
        Editor { doc, cursor: DocPosition::block_start(0), selection: None, dirty: false }
    }
}

} // verus!
