//! Composite dispatch: the two mechanical shapes by which heterogeneous
//! widget types compose into one tree node type — a closed sum of two
//! widget types dispatching by variant, and a wrapper forwarding every
//! operation to one designated child. Larger sums nest [`UiEither`].
use vstd::prelude::*;

verus! {

use crate::clipboard::Clipboard;
use crate::draw::DrawCmd;
use crate::event::Event;
use crate::geometry::Rect;
use crate::user_control::{UiError, UserControl};

/// A tree node that is one of two widget types; every operation dispatches
/// on the variant.
pub enum UiEither<A, B> {
    First(A),
    Second(B),
}

impl<Parent, State, A: UserControl<Parent, State>, B: UserControl<Parent, State>> UserControl<
    Parent,
    State,
> for UiEither<A, B> {
    open spec fn sbounds(&self) -> Rect {
        match self {
            UiEither::First(a) => a.sbounds(),
            UiEither::Second(b) => b.sbounds(),
        }
    }

    open spec fn inv(&self) -> bool {
        match self {
            UiEither::First(a) => a.inv(),
            UiEither::Second(b) => b.inv(),
        }
    }

    proof fn wf_bounds(&self) {
        match self {
            UiEither::First(a) => a.wf_bounds(),
            UiEither::Second(b) => b.wf_bounds(),
        }
    }

    fn surface(&self, parent: &Parent, state: &State) -> (r: Rect) {
        match self {
            UiEither::First(a) => A::surface(a, parent, state),
            UiEither::Second(b) => B::surface(b, parent, state),
        }
    }

    fn event(
        &mut self,
        clipboard: &mut Clipboard,
        ev: &Event,
        parent: &mut Parent,
        state: &mut State,
    ) -> (r: Result<(), UiError>) {
        match self {
            UiEither::First(a) => A::event(a, clipboard, ev, parent, state),
            UiEither::Second(b) => B::event(b, clipboard, ev, parent, state),
        }
    }

    fn update(
        &mut self,
        clipboard: &mut Clipboard,
        elapsed_ms: u64,
        parent: &mut Parent,
        state: &mut State,
    ) -> (r: Result<(), UiError>) {
        match self {
            UiEither::First(a) => A::update(a, clipboard, elapsed_ms, parent, state),
            UiEither::Second(b) => B::update(b, clipboard, elapsed_ms, parent, state),
        }
    }

    fn draw(&self, canvas: &mut Vec<DrawCmd>, parent: &Parent, state: &State) -> (r: Result<
        (),
        UiError,
    >) {
        match self {
            UiEither::First(a) => A::draw(a, canvas, parent, state),
            UiEither::Second(b) => B::draw(b, canvas, parent, state),
        }
    }
}

/// A tree node that forwards every operation to its one child.
pub struct UiWrap<C> {
    pub child: C,
}

impl<Parent, State, C: UserControl<Parent, State>> UserControl<Parent, State> for UiWrap<C> {
    open spec fn sbounds(&self) -> Rect {
        self.child.sbounds()
    }

    open spec fn inv(&self) -> bool {
        self.child.inv()
    }

    proof fn wf_bounds(&self) {
        self.child.wf_bounds();
    }

    fn surface(&self, parent: &Parent, state: &State) -> (r: Rect) {
        C::surface(&self.child, parent, state)
    }

    fn event(
        &mut self,
        clipboard: &mut Clipboard,
        ev: &Event,
        parent: &mut Parent,
        state: &mut State,
    ) -> (r: Result<(), UiError>) {
        C::event(&mut self.child, clipboard, ev, parent, state)
    }

    fn update(
        &mut self,
        clipboard: &mut Clipboard,
        elapsed_ms: u64,
        parent: &mut Parent,
        state: &mut State,
    ) -> (r: Result<(), UiError>) {
        C::update(&mut self.child, clipboard, elapsed_ms, parent, state)
    }

    fn draw(&self, canvas: &mut Vec<DrawCmd>, parent: &Parent, state: &State) -> (r: Result<
        (),
        UiError,
    >) {
        C::draw(&self.child, canvas, parent, state)
    }
}

} // verus!
