//! The polymorphic widget contract: every tree node reports its bounds,
//! consumes events, advances one tick, and renders by emitting draw commands.
use vstd::prelude::*;

verus! {

use crate::clipboard::Clipboard;
use crate::draw::DrawCmd;
use crate::event::Event;
use crate::geometry::{spec_zero_rect, Rect};

/// Why an operation on the tree failed.
#[derive(Clone, Copy, Debug, PartialEq, Eq, Structural)]
pub enum UiError {
    /// The placeholder empty widget was used as a real widget: a wiring bug.
    EmptyWidget,
    /// A grid's fixed column and row sizes demand more space than the grid
    /// has; the requested extents and the available extents are recorded.
    Layout { req_width: i64, req_height: i64, avail_width: i64, avail_height: i64 },
}

/// The capability contract every widget implements.
///
/// `Parent` is the read-only parent context and `State` the mutable
/// application state; both are threaded through the whole tree. The contract
/// pins down bounds tracking: a widget's reported bounds always equal the
/// last position and size its parent sent it (the zero rectangle before any),
/// and no event other than the two layout-authority events may change them.
pub trait UserControl<Parent, State>: Sized {
    /// The widget's stored bounds, as the contracts see them.
    spec fn sbounds(&self) -> Rect;

    /// The widget's internal well-formedness: its bounds are well formed and
    /// its own state machine's invariants hold.
    spec fn inv(&self) -> bool;

    /// Report the widget's current bounds: a pure query.
    fn surface(&self, parent: &Parent, state: &State) -> (r: Rect)
        requires
            self.inv(),
        ensures
            r == self.sbounds(),
    ;

    /// Deliver one event. A move or resize from the parent is stored as the
    /// new bounds; no other event changes the widget's own bounds.
    fn event(
        &mut self,
        clipboard: &mut Clipboard,
        ev: &Event,
        parent: &mut Parent,
        state: &mut State,
    ) -> (r: Result<(), UiError>)
        requires
            old(self).inv(),
            ev.wf(),
        ensures
            final(self).inv(),
            ev matches Event::ElementMove { x, y } ==> (r is Ok ==> final(self).sbounds()
                == old(self).sbounds().at_pos(*x, *y)),
            ev matches Event::ElementResize { width, height } ==> (r is Ok
                ==> final(self).sbounds() == old(self).sbounds().with_size(*width, *height)),
            !ev.is_geometry() ==> final(self).sbounds() == old(self).sbounds(),
    ;

    /// A well-formed widget reports well-formed bounds.
    proof fn wf_bounds(&self)
        requires
            self.inv(),
        ensures
            self.sbounds().wf(),
    ;

    /// Advance one frame. Containers tick children first, then drain their
    /// deferred-mutation queue, then re-run layout if anything changed — a
    /// layout re-run delivers events, hence the clipboard. A widget's own
    /// bounds never change during a tick.
    fn update(
        &mut self,
        clipboard: &mut Clipboard,
        elapsed_ms: u64,
        parent: &mut Parent,
        state: &mut State,
    ) -> (r: Result<(), UiError>)
        requires
            old(self).inv(),
        ensures
            final(self).inv(),
            final(self).sbounds() == old(self).sbounds(),
    ;

    /// Render by appending draw commands to `canvas`; commands already there
    /// are kept in place.
    fn draw(&self, canvas: &mut Vec<DrawCmd>, parent: &Parent, state: &State) -> (r: Result<
        (),
        UiError,
    >)
        requires
            self.inv(),
        ensures
            final(canvas)@.len() >= old(canvas)@.len(),
            final(canvas)@.subrange(0, old(canvas)@.len() as int) == old(canvas)@,
    ;
}

/// A widget that can be the root of a window: it also decides whether the
/// frame loop keeps running.
pub trait BWindow<State>: UserControl<(), State> {
    /// Whether the frame loop should keep running, as the contracts see it.
    spec fn spec_running(&self, state: &State) -> bool;

    /// Whether the frame loop should keep running: a pure query the driver
    /// checks once per iteration.
    fn running(&self, state: &State) -> (r: bool)
        requires
            self.inv(),
        ensures
            r == self.spec_running(state),
    ;
}

/// A root window driven by the event-paced loop: the driver sleeps while
/// nothing happens.
pub trait EventWindow<State>: BWindow<State> {

}

/// A root window driven by the frame-paced loop: the driver runs at a
/// frames-per-second cap with a time-scale multiplier.
pub trait GameWindow<State>: BWindow<State> {
    /// The time-scale multiplier, in thousandths: elapsed time handed to
    /// `update` is scaled by this over one thousand.
    fn time_scale(&self, state: &State) -> (r: u32)
        requires
            self.inv(),
    ;

    /// The frame cap, in frames per second; never zero.
    fn fps(&self, state: &State) -> (r: u32)
        requires
            self.inv(),
        ensures
            r >= 1,
    ;

    /// One frame's time budget in milliseconds at the configured cap.
    fn fps_duration_ms(&self, state: &State) -> (r: u64)
        requires
            self.inv(),
        ensures
            r <= 1000,
    {
        let f = self.fps(state);
        (1000u64) / (f as u64)
    }
}

/// Every event-paced window can also be driven by the frame-paced loop:
/// unscaled time at a modest frame cap.
impl<State, Other: EventWindow<State>> GameWindow<State> for Other {
    fn time_scale(&self, state: &State) -> (r: u32) {
        1000
    }

    fn fps(&self, state: &State) -> (r: u32) {
        20
    }
}

/// The distinguished empty placeholder, standing in where no parent or child
/// type exists. Its bounds are the zero rectangle and every other operation
/// fails, so accidental use surfaces as an error instead of silent behaviour.
impl<Parent, State> UserControl<Parent, State> for () {
    open spec fn sbounds(&self) -> Rect {
        spec_zero_rect()
    }

    open spec fn inv(&self) -> bool {
        true
    }

    fn surface(&self, parent: &Parent, state: &State) -> (r: Rect) {
        Rect { x: 0, y: 0, width: 0, height: 0 }
    }

    fn event(
        &mut self,
        clipboard: &mut Clipboard,
        ev: &Event,
        parent: &mut Parent,
        state: &mut State,
    ) -> (r: Result<(), UiError>)
        ensures
            r == Result::<(), UiError>::Err(UiError::EmptyWidget),
    {
        Err(UiError::EmptyWidget)
    }

    proof fn wf_bounds(&self) {
    }

    fn update(
        &mut self,
        clipboard: &mut Clipboard,
        elapsed_ms: u64,
        parent: &mut Parent,
        state: &mut State,
    ) -> (r: Result<(), UiError>)
        ensures
            r == Result::<(), UiError>::Err(UiError::EmptyWidget),
    {
        Err(UiError::EmptyWidget)
    }

    fn draw(&self, canvas: &mut Vec<DrawCmd>, parent: &Parent, state: &State) -> (r: Result<
        (),
        UiError,
    >)
        ensures
            r == Result::<(), UiError>::Err(UiError::EmptyWidget),
    {
        Err(UiError::EmptyWidget)
    }
}

} // verus!
