//! Axis-aligned rectangles in integer pixels, and the arithmetic helpers that
//! keep every stored coordinate inside the addressable range.
use vstd::prelude::*;

verus! {

/// Largest magnitude a coordinate may take; sizes are bounded by the same value.
/// Layout arithmetic clamps into this range, so sums of a few coordinates never
/// overflow an `i64`.
pub const COORD_LIMIT: i64 = 0x4_0000_0000;

/// An axis-aligned rectangle: position of the top-left corner plus extent,
/// all in integer pixels.
#[derive(Clone, Copy, Debug, PartialEq, Eq, Structural)]
pub struct Rect {
    pub x: i64,
    pub y: i64,
    pub width: i64,
    pub height: i64,
}

impl Rect {
    /// A well-formed rectangle has a nonnegative extent and sits inside the
    /// addressable coordinate range.
    pub open spec fn wf(self) -> bool {
        &&& -COORD_LIMIT <= self.x <= COORD_LIMIT
        &&& -COORD_LIMIT <= self.y <= COORD_LIMIT
        &&& 0 <= self.width <= COORD_LIMIT
        &&& 0 <= self.height <= COORD_LIMIT
    }

    /// The same rectangle moved so its corner is at `(x, y)`.
    pub open spec fn at_pos(self, x: i64, y: i64) -> Rect {
        Rect { x, y, ..self }
    }

    /// The same rectangle resized to `width` by `height`.
    pub open spec fn with_size(self, width: i64, height: i64) -> Rect {
        Rect { width, height, ..self }
    }

    /// Half-open containment test: the right and bottom edges are excluded.
    pub open spec fn spec_contains(self, px: int, py: int) -> bool {
        self.x <= px < self.x + self.width && self.y <= py < self.y + self.height
    }

    pub fn new(x: i64, y: i64, width: i64, height: i64) -> (r: Rect)
        ensures
            r == (Rect { x, y, width, height }),
    {
        Rect { x, y, width, height }
    }

    /// Whether the point `(px, py)` lies inside this rectangle.
    pub fn contains(&self, px: i64, py: i64) -> (r: bool)
        requires
            -2 * COORD_LIMIT <= self.x <= 2 * COORD_LIMIT,
            -2 * COORD_LIMIT <= self.y <= 2 * COORD_LIMIT,
            0 <= self.width <= 2 * COORD_LIMIT,
            0 <= self.height <= 2 * COORD_LIMIT,
            -2 * COORD_LIMIT <= px <= 2 * COORD_LIMIT,
            -2 * COORD_LIMIT <= py <= 2 * COORD_LIMIT,
        ensures
            r == self.spec_contains(px as int, py as int),
    {
        self.x <= px && px < self.x + self.width && self.y <= py && py < self.y + self.height
    }
}

/// The all-zero rectangle: the bounds every widget reports before its parent
/// has sent it a move or resize event.
pub open spec fn spec_zero_rect() -> Rect {
    Rect { x: 0, y: 0, width: 0, height: 0 }
}

/// `v` clamped into the addressable coordinate range.
pub open spec fn spec_clamp_coord(v: int) -> int {
    if v < -COORD_LIMIT {
        -COORD_LIMIT as int
    } else if v > COORD_LIMIT {
        COORD_LIMIT as int
    } else {
        v
    }
}

/// Clamp a coordinate into the addressable range.
pub fn clamp_coord(v: i64) -> (r: i64)
    ensures
        r == spec_clamp_coord(v as int),
        -COORD_LIMIT <= r <= COORD_LIMIT,
{
    if v < -COORD_LIMIT {
        -COORD_LIMIT
    } else if v > COORD_LIMIT {
        COORD_LIMIT
    } else {
        v
    }
}

} // verus!
