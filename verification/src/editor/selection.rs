//! Selection state.
//!
//! A selection is (anchor, active):
//!   anchor — where the mouse was pressed or shift-movement started
//!   active — where the cursor currently is
//!
//! The highlight covers [min(anchor, active), max(anchor, active)).

use vstd::prelude::*;
use crate::document::position::{DocPosition, DocRange, pos_le};

verus! {

#[derive(Debug, Clone, Copy, PartialEq, Eq, Structural)]
pub struct SelectionState {
    pub anchor: DocPosition,
    pub active: DocPosition,
}

/// The selection as an ordered range: from the earlier of its two ends to
/// the later.
pub open spec fn selection_range(sel: SelectionState) -> DocRange {
    if pos_le(sel.anchor, sel.active) {
        DocRange { start: sel.anchor, end: sel.active }
    } else {
        DocRange { start: sel.active, end: sel.anchor }
    }
}

impl SelectionState {
    /// An empty selection at `pos`.
    pub fn new(pos: DocPosition) -> (s: Self)
        ensures
            s.anchor == pos,
            s.active == pos,
    {
        SelectionState { anchor: pos, active: pos }
    }

    /// Both ends are at the same position.
    pub fn is_collapsed(&self) -> (r: bool)
        ensures
            r == (self.anchor == self.active),
    {
        self.anchor == self.active
    }

    /// Return the selection as an ordered DocRange.
    pub fn to_range(&self) -> (r: DocRange)
        ensures
            r == selection_range(*self),
            pos_le(r.start, r.end),
    {
        if self.anchor.at_or_before(&self.active) {
            DocRange::new(self.anchor, self.active)
        } else {
            DocRange::new(self.active, self.anchor)
        }
    }
}

} // verus!
