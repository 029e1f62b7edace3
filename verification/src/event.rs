//! The closed set of input and layout notifications threaded through the
//! widget tree each frame.
use vstd::prelude::*;

verus! {

use crate::geometry::{Rect, COORD_LIMIT};

/// Which mouse button a press or release refers to.
#[derive(Clone, Copy, Debug, PartialEq, Eq, Structural)]
pub enum MouseButton {
    Left,
    Middle,
    Right,
    X1,
    X2,
    Unknown,
}

/// The set of mouse buttons held down during a motion event.
#[derive(Clone, Copy, Debug, PartialEq, Eq, Structural)]
pub struct MouseButtons {
    pub left: bool,
    pub middle: bool,
    pub right: bool,
}

/// Orientation of a wheel event's deltas.
#[derive(Clone, Copy, Debug, PartialEq, Eq, Structural)]
pub enum WheelDirection {
    Normal,
    Flipped,
}

/// A pressed or released key, reduced to what the text editor reads: the
/// modifier keys it tracks, the editing keys, and any other key by the
/// character its name starts with.
#[derive(Clone, Copy, Debug, PartialEq, Eq, Structural)]
pub enum Key {
    LShift,
    RShift,
    LCtrl,
    RCtrl,
    Backspace,
    Delete,
    Left,
    Right,
    /// A key whose name is a single character, such as a letter, digit or
    /// space; the character is the key's unshifted name.
    Char(char),
}

/// An input or layout notification.
///
/// `ElementMove` and `ElementResize` are layout-authority events: only a
/// widget's geometric parent sends them, their coordinates are absolute, and
/// the receiver must store them as its new bounds unconditionally.
#[derive(Clone, Debug)]
pub enum Event {
    ElementMove { x: i64, y: i64 },
    ElementResize { width: i64, height: i64 },
    MouseMotion { which: u32, buttons: MouseButtons, x: i64, y: i64, moved_x: i64, moved_y: i64 },
    MouseButtonDown { which: u32, mouse_btn: MouseButton, clicks: u8, x: i64, y: i64 },
    MouseButtonUp { which: u32, mouse_btn: MouseButton, clicks: u8, x: i64, y: i64 },
    MouseWheel {
        which: u32,
        scroll_x: i64,
        scroll_y: i64,
        direction: WheelDirection,
        mouse_x: i64,
        mouse_y: i64,
    },
    KeyDown { key: Key },
    KeyUp { key: Key },
    TextInput { text: Vec<char> },
}

impl Event {
    /// Whether this is one of the two layout-authority events.
    pub open spec fn is_geometry(self) -> bool {
        self is ElementMove || self is ElementResize
    }

    /// Every coordinate the event carries lies in the addressable range, and
    /// sizes are nonnegative.
    pub open spec fn wf(self) -> bool {
        match self {
            Event::ElementMove { x, y } => -COORD_LIMIT <= x <= COORD_LIMIT && -COORD_LIMIT <= y
                <= COORD_LIMIT,
            Event::ElementResize { width, height } => 0 <= width <= COORD_LIMIT && 0 <= height
                <= COORD_LIMIT,
            Event::MouseMotion { x, y, moved_x, moved_y, .. } => {
                &&& -COORD_LIMIT <= x <= COORD_LIMIT
                &&& -COORD_LIMIT <= y <= COORD_LIMIT
                &&& -COORD_LIMIT <= moved_x <= COORD_LIMIT
                &&& -COORD_LIMIT <= moved_y <= COORD_LIMIT
            },
            Event::MouseButtonDown { x, y, .. } => -COORD_LIMIT <= x <= COORD_LIMIT && -COORD_LIMIT
                <= y <= COORD_LIMIT,
            Event::MouseButtonUp { x, y, .. } => -COORD_LIMIT <= x <= COORD_LIMIT && -COORD_LIMIT
                <= y <= COORD_LIMIT,
            Event::MouseWheel { scroll_x, scroll_y, mouse_x, mouse_y, .. } => {
                &&& -COORD_LIMIT <= scroll_x <= COORD_LIMIT
                &&& -COORD_LIMIT <= scroll_y <= COORD_LIMIT
                &&& -COORD_LIMIT <= mouse_x <= COORD_LIMIT
                &&& -COORD_LIMIT <= mouse_y <= COORD_LIMIT
            },
            Event::KeyDown { .. } => true,
            Event::KeyUp { .. } => true,
            Event::TextInput { .. } => true,
        }
    }

    /// The position a pointer event refers to, if it carries one.
    pub open spec fn spec_mouse_pos(self) -> Option<(int, int)> {
        match self {
            Event::MouseMotion { x, y, .. } => Some((x as int, y as int)),
            Event::MouseButtonDown { x, y, .. } => Some((x as int, y as int)),
            Event::MouseButtonUp { x, y, .. } => Some((x as int, y as int)),
            Event::MouseWheel { mouse_x, mouse_y, .. } => Some((mouse_x as int, mouse_y as int)),
            _ => None,
        }
    }

    /// Whether this event's pointer position lies inside `surface`.
    pub open spec fn spec_hover(self, surface: Rect) -> bool {
        match self.spec_mouse_pos() {
            Some((px, py)) => surface.spec_contains(px, py),
            None => false,
        }
    }

    /// Hit test: true when the event carries a pointer position and that
    /// position lies inside `surface`.
    pub fn hover(&self, surface: Rect) -> (r: bool)
        requires
            self.wf(),
            surface.wf(),
        ensures
            r == self.spec_hover(surface),
    {
        match self {
            Event::MouseMotion { x, y, .. } => surface.contains(*x, *y),
            Event::MouseButtonDown { x, y, .. } => surface.contains(*x, *y),
            Event::MouseButtonUp { x, y, .. } => surface.contains(*x, *y),
            Event::MouseWheel { mouse_x, mouse_y, .. } => surface.contains(*mouse_x, *mouse_y),
            _ => false,
        }
    }
}

} // verus!
