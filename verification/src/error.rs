//! Why a compilation fails.

use vstd::prelude::*;

verus! {

/// The ways in which compiling a set of sprites fails. Each of them ends
/// the whole run: nothing is put out.
#[derive(Clone, Copy, Debug, PartialEq, Eq, Structural)]
pub enum CompileError {
    /// A sprite's rectangle reaches outside its source bitmap. `entry` is
    /// the position of the sprite in its descriptor.
    RectOutOfBounds { entry: usize },
    /// A pixel is neither fully transparent nor fully opaque.
    InvalidTransparency { alpha: u8 },
    /// The sprites hold more distinct colours than the palette has room
    /// for, which is `capacity`.
    PaletteOverflow { capacity: usize },
}

} // verus!
