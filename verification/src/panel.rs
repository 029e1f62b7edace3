//! A paint-ordered container: children are given with an explicit z index,
//! sorted stably by it at construction, and then broadcast to in that
//! order, so higher z indices paint over lower ones and ties keep the
//! order they were given in.
use core::marker::PhantomData;
use vstd::prelude::*;

verus! {

use crate::clipboard::Clipboard;
use crate::draw::DrawCmd;
use crate::event::Event;
use crate::geometry::Rect;
use crate::ui_element::panel::spec_bounds_after;
use crate::user_control::{UiError, UserControl};

/// A widget together with its paint layer.
pub struct PanelChild<T> {
    pub z_index: i8,
    pub element: T,
}

/// `c` inserted into `s` just before the first entry with a strictly
/// larger z index; with the entries already ordered this keeps them
/// ordered, and an entry never jumps over an equal one.
pub open spec fn spec_insert_by_z<T>(c: PanelChild<T>, s: Seq<PanelChild<T>>) -> Seq<
    PanelChild<T>,
>
    decreases s.len(),
{
    if s.len() == 0 {
        seq![c]
    } else if c.z_index < s.first().z_index {
        seq![c] + s
    } else {
        seq![s.first()] + spec_insert_by_z(c, s.drop_first())
    }
}

/// `s` sorted stably by z index: each entry, in the order given, inserted
/// into the sorted sequence of the entries before it.
pub open spec fn spec_sort_by_z<T>(s: Seq<PanelChild<T>>) -> Seq<PanelChild<T>>
    decreases s.len(),
{
    if s.len() == 0 {
        Seq::empty()
    } else {
        spec_insert_by_z(s.last(), spec_sort_by_z(s.drop_last()))
    }
}

/// Z indices never decrease along a sequence.
pub open spec fn spec_sorted_by_z<T>(s: Seq<PanelChild<T>>) -> bool {
    forall|i: int, j: int| 0 <= i < j < s.len() ==> s[i].z_index <= s[j].z_index
}

/// Inserting keeps a z-ordered sequence z-ordered.
pub proof fn lemma_insert_by_z_sorted<T>(c: PanelChild<T>, s: Seq<PanelChild<T>>)
    requires
        spec_sorted_by_z(s),
    ensures
        spec_sorted_by_z(spec_insert_by_z(c, s)),
        spec_insert_by_z(c, s).len() == s.len() + 1,
        forall|i: int|
            0 <= i < spec_insert_by_z(c, s).len() ==> #[trigger] spec_insert_by_z(c, s)[i] == c
                || exists|k: int| 0 <= k < s.len() && spec_insert_by_z(c, s)[i] == s[k],
    decreases s.len(),
{
    let r = spec_insert_by_z(c, s);
    if s.len() == 0 {
    } else if c.z_index < s.first().z_index {
        assert forall|i: int| 0 <= i < r.len() implies #[trigger] r[i] == c || exists|k: int|
            0 <= k < s.len() && r[i] == s[k] by {
            if i > 0 {
                assert(r[i] == s[i - 1]);
            }
        }
    } else {
        lemma_insert_by_z_sorted(c, s.drop_first());
        let rr = spec_insert_by_z(c, s.drop_first());
        assert forall|i: int, j: int| 0 <= i < j < r.len() implies r[i].z_index
            <= r[j].z_index by {
            if i == 0 {
                if j - 1 < rr.len() {
                    assert(r[j] == rr[j - 1]);
                    if rr[j - 1] == c {
                    } else {
                        let k = choose|k: int|
                            0 <= k < s.drop_first().len() && rr[j - 1] == s.drop_first()[k];
                        assert(s.drop_first()[k] == s[k + 1]);
                    }
                }
            } else {
                assert(r[i] == rr[i - 1] && r[j] == rr[j - 1]);
            }
        }
        assert forall|i: int| 0 <= i < r.len() implies #[trigger] r[i] == c || exists|k: int|
            0 <= k < s.len() && r[i] == s[k] by {
            if i == 0 {
                assert(r[0] == s[0]);
            } else {
                assert(r[i] == rr[i - 1]);
                if rr[i - 1] == c {
                } else {
                    let k = choose|k: int|
                        0 <= k < s.drop_first().len() && rr[i - 1] == s.drop_first()[k];
                    assert(s.drop_first()[k] == s[k + 1]);
                }
            }
        }
    }
}

/// Sorting yields a z-ordered sequence of the same length whose entries all
/// come from the input.
pub proof fn lemma_sort_by_z_sorted<T>(s: Seq<PanelChild<T>>)
    ensures
        spec_sorted_by_z(spec_sort_by_z(s)),
        spec_sort_by_z(s).len() == s.len(),
        forall|i: int|
            0 <= i < spec_sort_by_z(s).len() ==> exists|k: int|
                0 <= k < s.len() && #[trigger] spec_sort_by_z(s)[i] == s[k],
    decreases s.len(),
{
    if s.len() > 0 {
        lemma_sort_by_z_sorted(s.drop_last());
        lemma_insert_by_z_sorted(s.last(), spec_sort_by_z(s.drop_last()));
        let r = spec_sort_by_z(s);
        assert forall|i: int| 0 <= i < r.len() implies exists|k: int|
            0 <= k < s.len() && #[trigger] r[i] == s[k] by {
            if r[i] == s.last() {
                assert(r[i] == s[s.len() - 1]);
            } else {
                let prev = spec_sort_by_z(s.drop_last());
                assert(exists|k: int| 0 <= k < prev.len() && r[i] == prev[k]);
                let k = choose|k: int| 0 <= k < prev.len() && r[i] == prev[k];
                assert(exists|q: int| 0 <= q < s.drop_last().len() && prev[k] == s.drop_last()[q]);
                let q = choose|q: int| 0 <= q < s.drop_last().len() && prev[k] == s.drop_last()[q];
                assert(s.drop_last()[q] == s[q]);
            }
        }
    }
}

/// If `c` belongs before index `k` — every earlier entry's z index is not
/// above `c`'s and the entry at `k` (if any) is strictly above — then the
/// stable insertion is exactly the insertion at `k`.
proof fn lemma_insert_by_z_at<T>(c: PanelChild<T>, s: Seq<PanelChild<T>>, k: int)
    requires
        0 <= k <= s.len(),
        forall|j: int| 0 <= j < k ==> !(c.z_index < #[trigger] s[j].z_index),
        k < s.len() ==> c.z_index < s[k].z_index,
    ensures
        spec_insert_by_z(c, s) =~= s.take(k) + seq![c] + s.skip(k),
    decreases k,
{
    if s.len() == 0 {
    } else if k == 0 {
    } else {
        lemma_insert_by_z_at(c, s.drop_first(), k - 1);
    }
}

/// The paint-ordered container.
pub struct Panel<Parent, State, T: UserControl<Parent, State>> {
    pub parent: PhantomData<Parent>,
    pub state: PhantomData<State>,
    pub surface: Rect,
    pub subs: Vec<T>,
}

impl<Parent, State, T: UserControl<Parent, State>> Panel<Parent, State, T> {
    /// A panel over the given layered widgets: they are sorted stably by z
    /// index, lowest first, and kept in that order for every broadcast.
    #[verifier::loop_isolation(false)]
    pub fn new(subs: Vec<PanelChild<T>>) -> (p: Self)
        requires
            forall|i: int| 0 <= i < subs@.len() ==> (#[trigger] subs@[i]).element.inv(),
        ensures
            p.surface == crate::geometry::spec_zero_rect(),
            p.subs@.len() == subs@.len(),
            forall|i: int|
                0 <= i < p.subs@.len() ==> #[trigger] p.subs@[i] == spec_sort_by_z(
                    subs@,
                )[i].element,
            p.inv(),
    {
        let mut remaining = subs;
        let mut ordered: Vec<PanelChild<T>> = Vec::new();
        let ghost input = remaining@;
        let total = remaining.len();
        let mut taken: usize = 0;
        proof {
            assert(input.take(0) =~= Seq::<PanelChild<T>>::empty());
        }
        while remaining.len() > 0
            invariant
                input.len() == total,
                taken + remaining@.len() == input.len(),
                remaining@ =~= input.skip(taken as int),
                ordered@ == spec_sort_by_z(input.take(taken as int)),
                spec_sorted_by_z(ordered@),
                forall|i: int|
                    0 <= i < ordered@.len() ==> (#[trigger] ordered@[i]).element.inv(),
                forall|i: int| 0 <= i < input.len() ==> (#[trigger] input[i]).element.inv(),
            decreases remaining@.len(),
        {
            let c = remaining.remove(0);
            let ghost gc = c;
            proof {
                assert(input.skip(taken as int)[0] == gc);
                assert(input[taken as int] == gc);
                assert(input.skip(taken as int).skip(1) =~= input.skip(taken + 1));
                assert(input.take(taken + 1).drop_last() =~= input.take(taken as int));
                assert(input.take(taken + 1).last() == input[taken as int]);
            }
            let z = c.z_index;
            let mut k: usize = 0;
            while k < ordered.len() && ordered[k].z_index <= z
                invariant
                    k <= ordered@.len(),
                    forall|j: int| 0 <= j < k ==> !(z < (#[trigger] ordered@[j]).z_index),
                decreases ordered@.len() - k,
            {
                k = k + 1;
            }
            proof {
                lemma_insert_by_z_at(gc, ordered@, k as int);
                lemma_insert_by_z_sorted(gc, ordered@);
            }
            ordered.insert(k, c);
            proof {
                assert(ordered@ =~= spec_sort_by_z(input.take(taken + 1)));
            }
            taken = taken + 1;
        }
        proof {
            assert(input.take(input.len() as int) =~= input);
            lemma_sort_by_z_sorted(input);
        }
        let mut elements: Vec<T> = Vec::new();
        let ghost sorted = ordered@;
        let mut i: usize = 0;
        while ordered.len() > 0
            invariant
                i + ordered@.len() == sorted.len(),
                ordered@ =~= sorted.skip(i as int),
                elements@.len() == i,
                forall|j: int| 0 <= j < i ==> #[trigger] elements@[j] == sorted[j].element,
                forall|j: int| 0 <= j < sorted.len() ==> (#[trigger] sorted[j]).element.inv(),
            decreases ordered@.len(),
        {
            let c = ordered.remove(0);
            proof {
                assert(sorted.skip(i as int)[0] == sorted[i as int]);
                assert(sorted.skip(i as int).skip(1) =~= sorted.skip(i + 1));
            }
            elements.push(c.element);
            i = i + 1;
        }
        Panel {
            parent: PhantomData,
            state: PhantomData,
            surface: Rect { x: 0, y: 0, width: 0, height: 0 },
            subs: elements,
        }
    }
}

impl<Parent, State, T: UserControl<Parent, State>> UserControl<Parent, State> for Panel<
    Parent,
    State,
    T,
> {
    open spec fn sbounds(&self) -> Rect {
        self.surface
    }

    open spec fn inv(&self) -> bool {
        &&& self.surface.wf()
        &&& forall|i: int| 0 <= i < self.subs@.len() ==> (#[trigger] self.subs@[i]).inv()
    }

    proof fn wf_bounds(&self) {
    }

    fn surface(&self, parent: &Parent, state: &State) -> (r: Rect) {
        self.surface
    }

    /// A layout-authority event updates the shared bounds and is then, like
    /// every other event, broadcast in paint order; the first failure stops
    /// the broadcast.
    #[verifier::loop_isolation(false)]
    fn event(
        &mut self,
        clipboard: &mut Clipboard,
        ev: &Event,
        parent: &mut Parent,
        state: &mut State,
    ) -> (r: Result<(), UiError>)
        ensures
            final(self).subs@.len() == old(self).subs@.len(),
            r is Ok ==> forall|j: int|
                0 <= j < old(self).subs@.len() ==> (#[trigger] final(self).subs@[j]).sbounds()
                    == spec_bounds_after(old(self).subs@[j].sbounds(), *ev),
            old(self).subs@.len() == 0 ==> r is Ok,
    {
        match ev {
            Event::ElementMove { x, y } => {
                self.surface.x = *x;
                self.surface.y = *y;
            },
            Event::ElementResize { width, height } => {
                self.surface.width = *width;
                self.surface.height = *height;
            },
            _ => {},
        }
        let n = self.subs.len();
        let mut i: usize = 0;
        while i < n
            invariant
                i <= n,
                n == self.subs@.len(),
                self.surface == spec_bounds_after(old(self).surface, *ev),
                self.surface.wf(),
                forall|j: int| i <= j < n ==> self.subs@[j] == old(self).subs@[j],
                forall|j: int| 0 <= j < n ==> (#[trigger] self.subs@[j]).inv(),
                forall|j: int|
                    0 <= j < i ==> (#[trigger] self.subs@[j]).sbounds() == spec_bounds_after(
                        old(self).subs@[j].sbounds(),
                        *ev,
                    ),
            decreases n - i,
        {
            match T::event(&mut self.subs[i], clipboard, ev, parent, state) {
                Ok(()) => {},
                Err(e) => {
                    return Err(e);
                },
            }
            i = i + 1;
        }
        Ok(())
    }

    /// Tick every widget in paint order.
    #[verifier::loop_isolation(false)]
    fn update(
        &mut self,
        clipboard: &mut Clipboard,
        elapsed_ms: u64,
        parent: &mut Parent,
        state: &mut State,
    ) -> (r: Result<(), UiError>)
        ensures
            final(self).subs@.len() == old(self).subs@.len(),
            old(self).subs@.len() == 0 ==> r is Ok,
    {
        let n = self.subs.len();
        let mut i: usize = 0;
        while i < n
            invariant
                i <= n,
                n == self.subs@.len(),
                self.surface == old(self).surface,
                forall|j: int| i <= j < n ==> self.subs@[j] == old(self).subs@[j],
                forall|j: int| 0 <= j < n ==> (#[trigger] self.subs@[j]).inv(),
                forall|j: int|
                    0 <= j < n ==> (#[trigger] self.subs@[j]).sbounds() == old(
                        self,
                    ).subs@[j].sbounds(),
            decreases n - i,
        {
            match T::update(&mut self.subs[i], clipboard, elapsed_ms, parent, state) {
                Ok(()) => {},
                Err(e) => {
                    return Err(e);
                },
            }
            i = i + 1;
        }
        Ok(())
    }

    /// Draw every widget in paint order: later entries paint over earlier
    /// ones.
    #[verifier::loop_isolation(false)]
    fn draw(&self, canvas: &mut Vec<DrawCmd>, parent: &Parent, state: &State) -> (r: Result<
        (),
        UiError,
    >) {
        let ghost base = canvas@;
        let n = self.subs.len();
        let mut i: usize = 0;
        while i < n
            invariant
                i <= n,
                n == self.subs@.len(),
                canvas@.len() >= base.len(),
                canvas@.subrange(0, base.len() as int) == base,
            decreases n - i,
        {
            let ghost prev = canvas@;
            match T::draw(&self.subs[i], canvas, parent, state) {
                Ok(()) => {},
                Err(e) => {
                    proof {
                        crate::ui_element::ui_rect::lemma_prefix_chain(base, prev, canvas@);
                    }
                    return Err(e);
                },
            }
            proof {
                crate::ui_element::ui_rect::lemma_prefix_chain(base, prev, canvas@);
            }
            i = i + 1;
        }
        Ok(())
    }
}

} // verus!
