//! The formatting toolbar's block-style picker.

use vstd::prelude::*;
use crate::document::block::{BlockKind, InlineAttr, KindV};
use crate::document::position::DocRange;
use crate::document::ops::{EditError, restyle_spec, set_block_kind_spec};
use crate::editor::Editor;
use crate::editor::selection::{SelectionState, selection_range};

verus! {

/// The block kind at position `i` of the style picker: 1 to 6 are title,
/// heading 1, heading 2, caption, quote and code; anything else is a
/// paragraph.
pub open spec fn picker_kind(i: u32) -> KindV {
    if i == 1 {
        KindV::Title
    } else if i == 2 {
        KindV::Heading1
    } else if i == 3 {
        KindV::Heading2
    } else if i == 4 {
        KindV::Caption
    } else if i == 5 {
        KindV::Quote
    } else if i == 6 {
        KindV::Code
    } else {
        KindV::Paragraph
    }
}

/// The block kind at position `i` of the style picker.
pub fn idx_to_kind(i: u32) -> (k: BlockKind)
    ensures
        k@ == picker_kind(i),
{
    match i {
        1 => BlockKind::Title,
        2 => BlockKind::Heading1,
        3 => BlockKind::Heading2,
        4 => BlockKind::Caption,
        5 => BlockKind::Quote,
        6 => BlockKind::Code,
        _ => BlockKind::Paragraph,
    }
}

/// The range the inline-format buttons act on: a selection that is not
/// empty and lies within one block.
pub open spec fn formatting_range_spec(sel: Option<SelectionState>) -> Option<DocRange> {
    match sel {
        Some(s) => if s.anchor != s.active && selection_range(s).start.block_idx == selection_range(
            s,
        ).end.block_idx {
            Some(selection_range(s))
        } else {
            None
        },
        None => None,
    }
}

/// The range the inline-format buttons act on, if any.
pub fn formatting_range(sel: &Option<SelectionState>) -> (r: Option<DocRange>)
    ensures
        r == formatting_range_spec(*sel),
{
    match sel {
        Some(s) => {
            if !s.is_collapsed() {
                let range = s.to_range();
                if range.is_single_block() {
                    return Some(range);
                }
            }
            None
        },
        None => None,
    }
}

/// A format button was toggled: add `attr` to the selection (when `active`)
/// or remove it. Returns whether there was a selection to act on; nothing
/// changes when there was none.
pub fn toggle_inline_attr(s: &mut Editor, attr: InlineAttr, active: bool) -> (acted: bool)
    requires
        old(s).doc.fits(),
    ensures
        match formatting_range_spec(old(s).selection) {
            None => !acted && *final(s) == *old(s),
            Some(r) => {
                &&& acted
                &&& final(s).doc.blocks_view() == restyle_spec(
                    old(s).doc.blocks_view(),
                    r,
                    attr@,
                    active,
                ).0
                &&& final(s).doc.same_metadata(&old(s).doc)
                &&& final(s).cursor == old(s).cursor
                &&& final(s).selection == old(s).selection
                &&& final(s).dirty == old(s).dirty
            },
        },
{
    let range = match formatting_range(&s.selection) {
        Some(r) => r,
        None => {
            return false;
        },
    };
    if active {
        let _ = s.doc.apply_inline_attr(range, attr);
    } else {
        let _ = s.doc.remove_inline_attr(range, &attr);
    }
    true
}

/// The style picker chose position `i`: the cursor's block takes that
/// kind.
pub fn set_style(s: &mut Editor, i: u32) -> (r: Result<(), EditError>)
    ensures
        (final(s).doc.blocks_view(), r) == set_block_kind_spec(
            old(s).doc.blocks_view(),
            old(s).cursor.block_idx,
            picker_kind(i),
        ),
        final(s).doc.same_metadata(&old(s).doc),
        final(s).cursor == old(s).cursor,
        final(s).selection == old(s).selection,
        final(s).dirty == old(s).dirty,
{
    let idx = s.cursor.block_idx;
    s.doc.set_block_kind(idx, idx_to_kind(i))
}

} // verus!
