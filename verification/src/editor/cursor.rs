//! Cursor style.

use vstd::prelude::*;

verus! {

/// How the cursor is drawn: an I-beam, a block or an underscore.
#[derive(Debug, Clone, Copy, PartialEq, Eq, Structural)]
pub enum CursorStyle {
    IBeam,
    Block,
    Underscore,
}

impl Default for CursorStyle {
    fn default() -> (r: Self)
        ensures
            r == CursorStyle::IBeam,
    {
        CursorStyle::IBeam
    }
}

} // verus!
