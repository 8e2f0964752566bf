//! Positions and ranges within a document.

use vstd::prelude::*;

verus! {

/// A position within the document: which block, and how many bytes into
/// that block's flat text content.
///
/// All byte offsets must fall on a UTF-8 character boundary.
/// `Document` methods enforce this — callers never slice strings directly.
#[derive(Debug, Clone, Copy, PartialEq, Eq, Structural, PartialOrd, Ord)]
pub struct DocPosition {
    pub block_idx: usize,
    pub byte_offset: usize,
}

/// `a` comes no later than `b`: by block, then by byte offset.
pub open spec fn pos_le(a: DocPosition, b: DocPosition) -> bool {
    a.block_idx < b.block_idx || (a.block_idx == b.block_idx && a.byte_offset <= b.byte_offset)
}

impl DocPosition {
    pub fn new(block_idx: usize, byte_offset: usize) -> (p: Self)
        ensures
            p.block_idx == block_idx,
            p.byte_offset == byte_offset,
    {
        DocPosition { block_idx, byte_offset }
    }

    /// Position at the very start of a block.
    pub fn block_start(block_idx: usize) -> (p: Self)
        ensures
            p.block_idx == block_idx,
            p.byte_offset == 0,
    {
        DocPosition { block_idx, byte_offset: 0 }
    }

    /// This position comes no later than `other`.
    pub fn at_or_before(&self, other: &DocPosition) -> (r: bool)
        ensures
            r == pos_le(*self, *other),
    {
        self.block_idx < other.block_idx || (self.block_idx == other.block_idx
            && self.byte_offset <= other.byte_offset)
    }
}

/// A byte range within a single block, or spanning multiple blocks.
#[derive(Debug, Clone, Copy, PartialEq, Eq, Structural)]
pub struct DocRange {
    pub start: DocPosition,
    pub end: DocPosition,
}

impl DocRange {
    /// The range from `start` to `end`; `start` must not come after `end`.
    pub fn new(start: DocPosition, end: DocPosition) -> (r: Self)
        requires
            pos_le(start, end),
        ensures
            r.start == start,
            r.end == end,
    {
        DocRange { start, end }
    }

    pub fn is_collapsed(&self) -> (r: bool)
        ensures
            r == (self.start == self.end),
    {
        self.start == self.end
    }

    /// True if start and end are in the same block.
    pub fn is_single_block(&self) -> (r: bool)
        ensures
            r == (self.start.block_idx == self.end.block_idx),
    {
        self.start.block_idx == self.end.block_idx
    }
}

} // verus!
