//! A linear container: an ordered list of widgets sharing one bounding
//! rectangle. Events, ticks and draw calls are broadcast in list order, so
//! list order is paint order and later entries paint over earlier ones.
use core::marker::PhantomData;
use vstd::prelude::*;

verus! {

use crate::clipboard::Clipboard;
use crate::draw::DrawCmd;
use crate::event::Event;
use crate::geometry::Rect;
use crate::state_manager::StateManager;
use crate::user_control::{UiError, UserControl};

/// A structural edit a panel applies between tick and the next frame's
/// traversal.
pub enum PanelOp<T> {
    /// Append a widget at the end of the list.
    Push(T),
    /// Remove the widget at this index; out-of-range indices do nothing.
    Remove(usize),
    /// Remove every widget.
    Clear,
}

/// One panel op applied to a widget list.
pub open spec fn spec_apply_panel_op<T>(subs: Seq<T>, op: PanelOp<T>) -> Seq<T> {
    match op {
        PanelOp::Push(w) => subs.push(w),
        PanelOp::Remove(i) => if i < subs.len() {
            subs.remove(i as int)
        } else {
            subs
        },
        PanelOp::Clear => Seq::empty(),
    }
}

/// A whole queue of panel ops applied first to last, each op observing the
/// list the previous one left.
pub open spec fn spec_apply_panel_ops<T>(subs: Seq<T>, ops: Seq<PanelOp<T>>) -> Seq<T>
    decreases ops.len(),
{
    if ops.len() == 0 {
        subs
    } else {
        spec_apply_panel_ops(spec_apply_panel_op(subs, ops.first()), ops.drop_first())
    }
}

/// How many widgets remain after a whole queue of panel ops.
pub open spec fn spec_panel_ops_len<T>(len: nat, ops: Seq<PanelOp<T>>) -> nat
    decreases ops.len(),
{
    if ops.len() == 0 {
        len
    } else {
        let next: nat = match ops.first() {
            PanelOp::Push(_) => len + 1,
            PanelOp::Remove(i) => if i < len {
                (len - 1) as nat
            } else {
                len
            },
            PanelOp::Clear => 0,
        };
        spec_panel_ops_len(next, ops.drop_first())
    }
}

/// The widgets left by the ops fold are exactly as many as the length
/// fold predicts.
pub proof fn lemma_panel_ops_len<T>(subs: Seq<T>, ops: Seq<PanelOp<T>>)
    ensures
        spec_apply_panel_ops(subs, ops).len() == spec_panel_ops_len(subs.len(), ops),
    decreases ops.len(),
{
    if ops.len() > 0 {
        lemma_panel_ops_len(spec_apply_panel_op(subs, ops.first()), ops.drop_first());
    }
}

/// A widget's bounds after receiving `ev`: layout-authority events replace
/// position or size, anything else leaves the bounds alone.
pub open spec fn spec_bounds_after(b: Rect, ev: Event) -> Rect {
    match ev {
        Event::ElementMove { x, y } => b.at_pos(x, y),
        Event::ElementResize { width, height } => b.with_size(width, height),
        _ => b,
    }
}

/// The linear container.
pub struct Panel<Parent, State, T: UserControl<Parent, State>> {
    pub parent: PhantomData<Parent>,
    pub state: PhantomData<State>,
    pub surface: Rect,
    pub subs: Vec<T>,
    /// Structural edits queued during traversal, drained once per tick.
    pub state_manager: StateManager<PanelOp<T>>,
}

impl<Parent, State, T: UserControl<Parent, State>> Panel<Parent, State, T> {
    /// Every queued `Push` carries a well-formed widget.
    pub open spec fn queue_wf(&self) -> bool {
        forall|k: int|
            0 <= k < self.state_manager.view().len() ==> (#[trigger] self.state_manager.view()[k]
                matches PanelOp::Push(w) ==> w.inv())
    }

    /// A panel around the given widgets, with the zero rectangle as bounds
    /// and an empty mutation queue.
    pub fn new(subs: Vec<T>) -> (p: Self)
        requires
            forall|i: int| 0 <= i < subs@.len() ==> (#[trigger] subs@[i]).inv(),
        ensures
            p.surface == crate::geometry::spec_zero_rect(),
            p.subs@ == subs@,
            p.state_manager.view() == Seq::<PanelOp<T>>::empty(),
            p.inv(),
    {
        Panel {
            parent: PhantomData,
            state: PhantomData,
            surface: Rect { x: 0, y: 0, width: 0, height: 0 },
            subs,
            state_manager: StateManager::new(),
        }
    }

    /// The widgets, in traversal and paint order.
    pub fn iter(&self) -> (r: &Vec<T>)
        ensures
            r@ == self.subs@,
    {
        &self.subs
    }

    /// Mutable access to the widget list. The caller is responsible for
    /// keeping every widget well formed.
    pub fn iter_mut(&mut self) -> (r: &mut Vec<T>)
        ensures
            *r == old(self).subs,
            final(self).subs == *final(r),
            final(self).surface == old(self).surface,
            final(self).state_manager == old(self).state_manager,
    {
        &mut self.subs
    }

    /// The widget at `index`.
    pub fn get(&self, index: usize) -> (r: &T)
        requires
            index < self.subs@.len(),
        ensures
            *r == self.subs@[index as int],
    {
        &self.subs[index]
    }

    /// Mutable access to the widget at `index`. The caller is responsible
    /// for keeping the widget well formed.
    pub fn get_mut(&mut self, index: usize) -> (r: &mut T)
        requires
            index < old(self).subs@.len(),
        ensures
            *r == old(self).subs@[index as int],
            final(self).subs@ == old(self).subs@.update(index as int, *final(r)),
            final(self).surface == old(self).surface,
            final(self).state_manager == old(self).state_manager,
    {
        &mut self.subs[index]
    }
}

impl<Parent, State, T: UserControl<Parent, State>> UserControl<Parent, State> for Panel<
    Parent,
    State,
    T,
> {
    open spec fn sbounds(&self) -> Rect {
        self.surface
    }

    open spec fn inv(&self) -> bool {
        &&& self.surface.wf()
        &&& forall|i: int| 0 <= i < self.subs@.len() ==> (#[trigger] self.subs@[i]).inv()
        &&& self.queue_wf()
    }

    fn surface(&self, parent: &Parent, state: &State) -> (r: Rect) {
        self.surface
    }

    /// A layout-authority event updates the shared bounds and is then, like
    /// every other event, broadcast to all widgets in list order; the first
    /// failure stops the broadcast and widgets after it do not see the event
    /// this frame.
    fn event(
        &mut self,
        clipboard: &mut Clipboard,
        ev: &Event,
        parent: &mut Parent,
        state: &mut State,
    ) -> (r: Result<(), UiError>)
        ensures
            final(self).subs@.len() == old(self).subs@.len(),
            final(self).state_manager == old(self).state_manager,
            r is Ok ==> forall|j: int|
                0 <= j < old(self).subs@.len() ==> (#[trigger] final(self).subs@[j]).sbounds()
                    == spec_bounds_after(old(self).subs@[j].sbounds(), *ev),
            !ev.is_geometry() ==> forall|j: int|
                0 <= j < old(self).subs@.len() ==> (#[trigger] final(self).subs@[j]).sbounds()
                    == old(self).subs@[j].sbounds(),
            old(self).subs@.len() == 0 ==> r is Ok,
    {
        match ev {
            Event::ElementMove { x, y } => {
                self.surface.x = *x;
                self.surface.y = *y;
            },
            Event::ElementResize { width, height } => {
                self.surface.width = *width;
                self.surface.height = *height;
            },
            _ => {},
        }
        let n = self.subs.len();
        let mut i: usize = 0;
        while i < n
            invariant
                i <= n,
                n == self.subs@.len(),
                n == old(self).subs@.len(),
                ev.wf(),
                self.surface.wf(),
                self.surface == spec_bounds_after(old(self).surface, *ev),
                self.state_manager == old(self).state_manager,
                self.queue_wf(),
                forall|j: int| i <= j < n ==> self.subs@[j] == old(self).subs@[j],
                forall|j: int| 0 <= j < n ==> (#[trigger] self.subs@[j]).inv(),
                forall|j: int|
                    0 <= j < i ==> (#[trigger] self.subs@[j]).sbounds() == spec_bounds_after(
                        old(self).subs@[j].sbounds(),
                        *ev,
                    ),
                !ev.is_geometry() ==> forall|j: int|
                    0 <= j < n ==> (#[trigger] self.subs@[j]).sbounds() == old(
                        self,
                    ).subs@[j].sbounds(),
            decreases n - i,
        {
            let sub = &mut self.subs[i];
            match T::event(sub, clipboard, ev, parent, state) {
                Ok(()) => {},
                Err(e) => {
                    proof {
                        assert(self.subs@.len() == n);
                    }
                    return Err(e);
                },
            }
            i = i + 1;
        }
        Ok(())
    }

    proof fn wf_bounds(&self) {
    }

    /// Tick every widget in list order, then drain the deferred-mutation
    /// queue and apply each queued edit in the order it was queued.
    fn update(
        &mut self,
        clipboard: &mut Clipboard,
        elapsed_ms: u64,
        parent: &mut Parent,
        state: &mut State,
    ) -> (r: Result<(), UiError>)
        ensures
            r is Ok ==> final(self).state_manager.view() == Seq::<PanelOp<T>>::empty(),
            r is Ok ==> final(self).subs@.len() == spec_panel_ops_len(
                old(self).subs@.len(),
                old(self).state_manager.view(),
            ),
            r is Err ==> final(self).state_manager == old(self).state_manager,
            old(self).subs@.len() == 0 ==> r is Ok,
    {
        let n = self.subs.len();
        let mut i: usize = 0;
        while i < n
            invariant
                i <= n,
                n == self.subs@.len(),
                n == old(self).subs@.len(),
                self.surface == old(self).surface,
                self.surface.wf(),
                self.state_manager == old(self).state_manager,
                self.queue_wf(),
                forall|j: int| i <= j < n ==> self.subs@[j] == old(self).subs@[j],
                forall|j: int| 0 <= j < n ==> (#[trigger] self.subs@[j]).inv(),
            decreases n - i,
        {
            let sub = &mut self.subs[i];
            match T::update(sub, clipboard, elapsed_ms, parent, state) {
                Ok(()) => {},
                Err(e) => {
                    return Err(e);
                },
            }
            i = i + 1;
        }
        let ops = self.state_manager.apply();
        self.apply_ops(ops);
        Ok(())
    }

    fn draw(&self, canvas: &mut Vec<DrawCmd>, parent: &Parent, state: &State) -> (r: Result<
        (),
        UiError,
    >)
        ensures
            r is Ok ==> final(canvas)@.len() >= old(canvas)@.len(),
    {
        let ghost base = canvas@;
        let n = self.subs.len();
        let mut i: usize = 0;
        while i < n
            invariant
                i <= n,
                n == self.subs@.len(),
                base == old(canvas)@,
                forall|j: int| 0 <= j < n ==> (#[trigger] self.subs@[j]).inv(),
                canvas@.len() >= base.len(),
                canvas@.subrange(0, base.len() as int) == base,
            decreases n - i,
        {
            let ghost prev = canvas@;
            let sub = &self.subs[i];
            match T::draw(sub, canvas, parent, state) {
                Ok(()) => {},
                Err(e) => {
                    proof {
                        crate::ui_element::ui_rect::lemma_prefix_chain(base, prev, canvas@);
                    }
                    return Err(e);
                },
            }
            proof {
                crate::ui_element::ui_rect::lemma_prefix_chain(base, prev, canvas@);
            }
            i = i + 1;
        }
        Ok(())
    }
}

impl<Parent, State, T: UserControl<Parent, State>> Panel<Parent, State, T> {
    /// Apply drained queue entries first to last.
    fn apply_ops(&mut self, ops: Vec<PanelOp<T>>)
        requires
            old(self).surface.wf(),
            forall|j: int| 0 <= j < old(self).subs@.len() ==> (#[trigger] old(self).subs@[j]).inv(),
            forall|k: int|
                0 <= k < ops@.len() ==> (#[trigger] ops@[k] matches PanelOp::Push(w) ==> w.inv()),
            old(self).queue_wf(),
        ensures
            final(self).subs@ == spec_apply_panel_ops(old(self).subs@, ops@),
            final(self).subs@.len() == spec_panel_ops_len(old(self).subs@.len(), ops@),
            final(self).surface == old(self).surface,
            final(self).state_manager == old(self).state_manager,
            final(self).surface.wf(),
            forall|j: int|
                0 <= j < final(self).subs@.len() ==> (#[trigger] final(self).subs@[j]).inv(),
            final(self).queue_wf(),
    {
        let mut ops = ops;
        let mut k: usize = 0;
        let n = ops.len();
        let ghost all_ops = ops@;
        proof {
            assert(all_ops.skip(0) =~= all_ops);
        }
        while k < n
            invariant
                k <= n,
                n == all_ops.len(),
                ops@ == all_ops.skip(k as int),
                self.surface == old(self).surface,
                self.surface.wf(),
                self.state_manager == old(self).state_manager,
                self.queue_wf(),
                forall|j: int|
                    0 <= j < all_ops.len() ==> (#[trigger] all_ops[j] matches PanelOp::Push(w)
                        ==> w.inv()),
                spec_apply_panel_ops(self.subs@, all_ops.skip(k as int)) == spec_apply_panel_ops(
                    old(self).subs@,
                    all_ops,
                ),
                forall|j: int| 0 <= j < self.subs@.len() ==> (#[trigger] self.subs@[j]).inv(),
            decreases n - k,
        {
            let ghost before = self.subs@;
            let op = ops.remove(0);
            let ghost gop = op;
            proof {
                assert(all_ops.skip(k as int)[0] == gop);
                assert(all_ops.skip(k as int).first() == gop);
                assert(all_ops.skip(k as int).drop_first() =~= all_ops.skip(k + 1));
                assert(ops@ =~= all_ops.skip(k + 1));
                assert(all_ops[k as int] == gop);
            }
            match op {
                PanelOp::Push(w) => {
                    self.subs.push(w);
                },
                PanelOp::Remove(idx) => {
                    if idx < self.subs.len() {
                        self.subs.remove(idx);
                    }
                },
                PanelOp::Clear => {
                    self.subs.clear();
                    proof {
                        assert(self.subs@ =~= spec_apply_panel_op(before, gop));
                    }
                },
            }
            proof {
                assert(self.subs@ == spec_apply_panel_op(before, gop));
            }
            k = k + 1;
        }
        proof {
            assert(all_ops.skip(n as int) =~= Seq::<PanelOp<T>>::empty());
            lemma_panel_ops_len(old(self).subs@, all_ops);
        }
    }
}

} // verus!
