//! A retained-mode widget composition framework, verified.
//!
//! A tree of widgets shares a read-only parent context and a mutable
//! application-state context, receives structured input and layout events
//! top-down, advances once per frame, and renders bottom-up by emitting draw
//! commands. Geometry is integer pixels; the rendering backend, font
//! measurement and the OS clipboard are capabilities modelled as plain data,
//! so the whole core is checked by Verus.
pub mod clipboard;
pub mod composite;
pub mod draw;
pub mod event;
pub mod functions;
pub mod geometry;
pub mod panel;
pub mod state_manager;
pub mod ui_element;
pub mod ui_string;
pub mod user_control;

use vstd::prelude::*;

verus! {

use crate::geometry::Rect;

/// The zero rectangle: the bounds of a widget that has not yet been placed.
pub fn zero() -> (r: Rect)
    ensures
        r == crate::geometry::spec_zero_rect(),
{
    Rect { x: 0, y: 0, width: 0, height: 0 }
}

/// The frame driver's record of the window geometry it last told the root
/// widget about. Each loop iteration reports the current geometry and
/// receives exactly the layout-authority events the root still has to see:
/// a move when the position changed, then a resize when the size changed.
pub struct WindowTracker {
    pub x: i64,
    pub y: i64,
    pub width: i64,
    pub height: i64,
}

impl WindowTracker {
    /// A tracker that has already reported the given geometry; the driver
    /// seeds it with the window's geometry at startup, right after
    /// delivering the two startup events.
    pub fn new(x: i64, y: i64, width: i64, height: i64) -> (t: WindowTracker)
        ensures
            t == (WindowTracker { x, y, width, height }),
    {
        WindowTracker { x, y, width, height }
    }

    /// The events the root widget must see for the window geometry now
    /// observed: nothing when nothing changed, a move for a changed
    /// position, a resize for a changed size, the move first. The tracker
    /// afterwards records the observed geometry.
    pub fn observe(&mut self, x: i64, y: i64, width: i64, height: i64) -> (evs: Vec<crate::event::Event>)
        ensures
            *final(self) == (WindowTracker { x, y, width, height }),
            evs@.len() == (if x != old(self).x || y != old(self).y {
                1int
            } else {
                0int
            }) + (if width != old(self).width || height != old(self).height {
                1int
            } else {
                0int
            }),
            x != old(self).x || y != old(self).y ==> evs@[0] == (crate::event::Event::ElementMove {
                x,
                y,
            }),
            (width != old(self).width || height != old(self).height) ==> evs@[evs@.len() - 1]
                == (crate::event::Event::ElementResize { width, height }),
    {
        let mut evs: Vec<crate::event::Event> = Vec::new();
        if x != self.x || y != self.y {
            evs.push(crate::event::Event::ElementMove { x, y });
        }
        if width != self.width || height != self.height {
            evs.push(crate::event::Event::ElementResize { width, height });
        }
        self.x = x;
        self.y = y;
        self.width = width;
        self.height = height;
        evs
    }
}

/// The two events delivered once at startup, reflecting the window's actual
/// position and size: the move, then the resize.
pub fn startup_events(x: i64, y: i64, width: i64, height: i64) -> (evs: Vec<crate::event::Event>)
    ensures
        evs@.len() == 2,
        evs@[0] == (crate::event::Event::ElementMove { x, y }),
        evs@[1] == (crate::event::Event::ElementResize { width, height }),
{
    let mut evs: Vec<crate::event::Event> = Vec::new();
    evs.push(crate::event::Event::ElementMove { x, y });
    evs.push(crate::event::Event::ElementResize { width, height });
    evs
}

/// How long the event-paced driver sleeps before polling again: nothing
/// while events or geometry changes keep arriving, a fixed pause once the
/// window is idle.
pub fn idle_poll_ms(activity: bool) -> (r: u64)
    ensures
        r == if activity {
            0u64
        } else {
            100u64
        },
{
    if activity {
        0
    } else {
        100
    }
}

/// How long the frame-paced driver still has to sleep: the frame budget
/// less the time the frame took, and nothing once the budget is spent.
pub fn remaining_frame_ms(frame_ms: u64, budget_ms: u64) -> (r: u64)
    ensures
        r == if frame_ms < budget_ms {
            budget_ms - frame_ms
        } else {
            0
        },
{
    if frame_ms < budget_ms {
        budget_ms - frame_ms
    } else {
        0
    }
}

} // verus!
