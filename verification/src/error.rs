//! Error values surfaced by the layout and atlas passes.

use vstd::prelude::*;

verus! {

/// Why a layout or atlas operation could not complete.
#[derive(Clone, Copy, Debug, PartialEq, Eq, Structural)]
pub enum UiError {
    /// A flex run cannot satisfy the minimum sizes its children declare.
    InsufficientSpace,
    /// A handle (an atlas rectangle, a glyph) does not resolve to an entry.
    UnknownHandle,
    /// A text style was not found in the shared context.
    StyleNotFound,
    /// The packed atlas would not fit in 32-bit pixel coordinates.
    AtlasTooLarge,
}

impl UiError {
    /// A short human-readable name for the error.
    pub fn describe(&self) -> (r: &'static str)
        ensures
            r@.len() > 0,
    {
        let r: &'static str = match self {
            UiError::InsufficientSpace => "insufficient space",
            UiError::UnknownHandle => "unknown handle",
            UiError::StyleNotFound => "style not found",
            UiError::AtlasTooLarge => "atlas too large",
        };
        proof {
            reveal_strlit("insufficient space");
            reveal_strlit("unknown handle");
            reveal_strlit("style not found");
            reveal_strlit("atlas too large");
        }
        r
    }
}

} // verus!
