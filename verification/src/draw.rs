//! Draw primitives. Rendering is a capability outside the core: `draw`
//! methods emit a sequence of commands, and a backend interprets them.
use vstd::prelude::*;

verus! {

use crate::geometry::Rect;

/// An RGBA color.
#[derive(Clone, Copy, Debug, PartialEq, Eq, Structural)]
pub struct Color {
    pub r: u8,
    pub g: u8,
    pub b: u8,
    pub a: u8,
}

impl Color {
    pub fn new(r: u8, g: u8, b: u8, a: u8) -> (c: Color)
        ensures
            c == (Color { r, g, b, a }),
    {
        Color { r, g, b, a }
    }
}

/// One rendering primitive, in the coordinate space of the current target.
///
/// `PushTarget`/`BlitTarget` bracket off-screen rendering: commands between
/// the pair are drawn onto an off-screen surface of the pushed size, and the
/// blit copies its `src` window onto `dst` of the surface below.
#[derive(Clone, Debug)]
pub enum DrawCmd {
    FillRect { rect: Rect, color: Color },
    OutlineRect { rect: Rect, color: Color },
    Line { x1: i64, y1: i64, x2: i64, y2: i64, color: Color },
    /// Rasterize `text` with the backend's font and blit it into `dest`.
    Text { text: Vec<char>, dest: Rect, color: Color },
    /// Blit the texture named by `texture` into `dest`.
    Texture { texture: u64, dest: Rect },
    PushTarget { width: i64, height: i64 },
    BlitTarget { src: Rect, dst: Rect },
}

} // verus!
