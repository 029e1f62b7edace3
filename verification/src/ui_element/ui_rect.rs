//! A configurable rectangle widget: a colored box with optional text and
//! optional backdrop, which tracks pointer hover and counts accepted primary
//! clicks once armed.
use vstd::prelude::*;

verus! {

use crate::clipboard::Clipboard;
use crate::draw::{Color, DrawCmd};
use crate::event::{Event, MouseButton};
use crate::functions::StateEnum;
use crate::geometry::Rect;
use crate::ui_string::UIString;
use crate::user_control::{UiError, UserControl};

/// What a rectangle draws between its background fill and its text.
#[derive(Clone, Debug)]
pub enum BackDraw {
    /// Blit the texture with this backend handle over the whole rectangle.
    Image(u64),
    /// Replay these prerecorded commands.
    Commands(Vec<DrawCmd>),
}

/// A rectangle designed with the builder pattern: display state, colors,
/// text and backdrop are configuration data; pointer hover and the count of
/// accepted primary clicks are its runtime state.
pub struct UIRect {
    pub surface: Rect,
    pub state: StateEnum,
    pub back_color: Color,
    pub text: Option<(UIString, Color)>,
    pub back_draw: Option<BackDraw>,
    pub hover: bool,
    /// Whether a primary click inside the rectangle counts as an activation.
    pub armed: bool,
    /// How many primary clicks have been accepted while armed.
    pub activations: u64,
}

/// `n` plus one, stopped at the numeric ceiling.
pub open spec fn spec_sat_inc(n: u64) -> u64 {
    if n < u64::MAX {
        (n + 1) as u64
    } else {
        n
    }
}

impl UIRect {
    /// The same rectangle with other bounds.
    pub open spec fn with_surface(self, r: Rect) -> UIRect {
        UIRect {
            surface: r,
            state: self.state,
            back_color: self.back_color,
            text: self.text,
            back_draw: self.back_draw,
            hover: self.hover,
            armed: self.armed,
            activations: self.activations,
        }
    }

    /// The same rectangle with another hover flag.
    pub open spec fn with_hover(self, h: bool) -> UIRect {
        UIRect {
            surface: self.surface,
            state: self.state,
            back_color: self.back_color,
            text: self.text,
            back_draw: self.back_draw,
            hover: h,
            armed: self.armed,
            activations: self.activations,
        }
    }

    /// The same rectangle with another activation count.
    pub open spec fn with_activations(self, n: u64) -> UIRect {
        UIRect {
            surface: self.surface,
            state: self.state,
            back_color: self.back_color,
            text: self.text,
            back_draw: self.back_draw,
            hover: self.hover,
            armed: self.armed,
            activations: n,
        }
    }

    /// Whether `ev` is a primary click this rectangle accepts: it is
    /// interactive and the click lands inside its bounds.
    pub open spec fn spec_click(self, ev: Event) -> bool {
        &&& self.state == StateEnum::Enable
        &&& ev matches Event::MouseButtonDown { mouse_btn: MouseButton::Left, .. }
        &&& ev.spec_hover(self.surface)
    }

    /// The rectangle after one event: the full transition of its state
    /// machine. Layout-authority events store the new bounds; everything
    /// else is ignored unless the rectangle is interactive, in which case an
    /// accepted primary click counts an activation while armed, pointer
    /// motion inside sets the hover flag, and any event outside clears it.
    pub open spec fn spec_step(self, ev: Event) -> UIRect {
        match ev {
            Event::ElementMove { x, y } => self.with_surface(self.surface.at_pos(x, y)),
            Event::ElementResize { width, height } => self.with_surface(
                self.surface.with_size(width, height),
            ),
            _ => {
                if self.state != StateEnum::Enable {
                    self
                } else if self.spec_click(ev) {
                    if self.armed {
                        self.with_activations(spec_sat_inc(self.activations))
                    } else {
                        self
                    }
                } else if ev.spec_hover(self.surface) && ev matches Event::MouseMotion { .. } {
                    self.with_hover(true)
                } else if !ev.spec_hover(self.surface) {
                    self.with_hover(false)
                } else {
                    self
                }
            },
        }
    }

    /// A bare rectangle: zero bounds, the given display state and background
    /// color, no text, no backdrop, unarmed.
    pub fn new(state: StateEnum, back_color: Color) -> (r: UIRect)
        ensures
            r == (UIRect {
                surface: crate::geometry::spec_zero_rect(),
                state,
                back_color,
                text: None,
                back_draw: None,
                hover: false,
                armed: false,
                activations: 0,
            }),
    {
        UIRect {
            surface: Rect { x: 0, y: 0, width: 0, height: 0 },
            state,
            back_color,
            text: None,
            back_draw: None,
            hover: false,
            armed: false,
            activations: 0,
        }
    }

    /// The rectangle's current bounds.
    pub fn surface(&self) -> (r: Rect)
        ensures
            r == self.surface,
    {
        self.surface
    }

    /// Mutable access to the display state.
    pub fn state_mut(&mut self) -> (r: &mut StateEnum)
        ensures
            *r == old(self).state,
            *final(self) == (UIRect { state: *final(r), ..*old(self) }),
    {
        &mut self.state
    }

    /// Arm the rectangle: from now on an accepted primary click counts.
    pub fn action(self) -> (r: UIRect)
        ensures
            r == (UIRect { armed: true, ..self }),
    {
        UIRect { armed: true, ..self }
    }

    /// Mutable access to the armed flag.
    pub fn action_mut(&mut self) -> (r: &mut bool)
        ensures
            *r == old(self).armed,
            *final(self) == (UIRect { armed: *final(r), ..*old(self) }),
    {
        &mut self.armed
    }

    /// How many primary clicks have been accepted while armed.
    pub fn activations(&self) -> (n: u64)
        ensures
            n == self.activations,
    {
        self.activations
    }

    /// Give the rectangle a text and a color to draw it in.
    pub fn text(self, text: UIString, color: Color) -> (r: UIRect)
        ensures
            r == (UIRect { text: Some((text, color)), ..self }),
    {
        UIRect { text: Some((text, color)), ..self }
    }

    /// Mutable access to the text configuration.
    pub fn text_mut(&mut self) -> (r: &mut Option<(UIString, Color)>)
        ensures
            *r == old(self).text,
            *final(self) == (UIRect { text: *final(r), ..*old(self) }),
    {
        &mut self.text
    }

    /// Give the rectangle a backdrop texture, blitted over its whole bounds.
    pub fn image(self, texture: u64) -> (r: UIRect)
        ensures
            r == (UIRect { back_draw: Some(BackDraw::Image(texture)), ..self }),
    {
        UIRect { back_draw: Some(BackDraw::Image(texture)), ..self }
    }

    /// Give the rectangle a prerecorded backdrop command list.
    pub fn back_draw(self, cmds: Vec<DrawCmd>) -> (r: UIRect)
        ensures
            r == (UIRect { back_draw: Some(BackDraw::Commands(cmds)), ..self }),
    {
        UIRect { back_draw: Some(BackDraw::Commands(cmds)), ..self }
    }

    /// Mutable access to the backdrop configuration.
    pub fn back_draw_mut(&mut self) -> (r: &mut Option<BackDraw>)
        ensures
            *r == old(self).back_draw,
            *final(self) == (UIRect { back_draw: *final(r), ..*old(self) }),
    {
        &mut self.back_draw
    }

    /// Whether the pointer was inside the rectangle at the last motion event.
    pub fn hover(&self) -> (r: bool)
        ensures
            r == self.hover,
    {
        self.hover
    }

    /// The configured text, if any.
    pub fn get_text(&self) -> (r: Option<&UIString>)
        ensures
            match r {
                Some(t) => self.text matches Some(p) && p.0 == *t,
                None => self.text is None,
            },
    {
        match &self.text {
            Some((t, _)) => Some(t),
            None => None,
        }
    }
}

/// There is no debounce: the same accepted primary click, delivered twice to
/// an armed interactive rectangle, counts two activations, because handling
/// the first click changes neither the bounds nor the display state that
/// made it acceptable.
pub proof fn lemma_click_no_debounce(w: UIRect, ev: Event)
    requires
        w.spec_click(ev),
        w.armed,
        w.activations + 2 <= u64::MAX,
    ensures
        w.spec_step(ev).spec_click(ev),
        w.spec_step(ev).spec_step(ev).activations == w.activations + 2,
{
}

impl<Parent, State> UserControl<Parent, State> for UIRect {
    open spec fn sbounds(&self) -> Rect {
        self.surface
    }

    open spec fn inv(&self) -> bool {
        self.surface.wf()
    }

    fn surface(&self, parent: &Parent, state: &State) -> (r: Rect) {
        self.surface
    }

    proof fn wf_bounds(&self) {
    }

    fn event(
        &mut self,
        clipboard: &mut Clipboard,
        ev: &Event,
        parent: &mut Parent,
        state: &mut State,
    ) -> (r: Result<(), UiError>)
        ensures
            r is Ok,
            *final(self) == old(self).spec_step(*ev),
            *final(clipboard) == *old(clipboard),
            *final(parent) == *old(parent),
            *final(state) == *old(state),
    {
        match ev {
            Event::ElementMove { x, y } => {
                self.surface.x = *x;
                self.surface.y = *y;
                return Ok(());
            },
            Event::ElementResize { width, height } => {
                self.surface.width = *width;
                self.surface.height = *height;
                return Ok(());
            },
            _ => {},
        }
        if self.state != StateEnum::Enable {
            return Ok(());
        }
        let hovered = ev.hover(self.surface);
        match ev {
            Event::MouseButtonDown { mouse_btn: MouseButton::Left, .. } if hovered => {
                if self.armed {
                    if self.activations < u64::MAX {
                        self.activations = self.activations + 1;
                    }
                }
            },
            Event::MouseMotion { .. } if hovered => {
                self.hover = true;
            },
            _ => {
                if !hovered {
                    self.hover = false;
                }
            },
        }
        Ok(())
    }

    fn update(
        &mut self,
        clipboard: &mut Clipboard,
        elapsed_ms: u64,
        parent: &mut Parent,
        state: &mut State,
    ) -> (r: Result<(), UiError>)
        ensures
            r is Ok,
            *final(self) == *old(self),
            *final(clipboard) == *old(clipboard),
            *final(parent) == *old(parent),
            *final(state) == *old(state),
    {
        Ok(())
    }

    fn draw(&self, canvas: &mut Vec<DrawCmd>, parent: &Parent, state: &State) -> (r: Result<
        (),
        UiError,
    >)
        ensures
            r is Ok,
            self.state == StateEnum::Hidden ==> *final(canvas) == *old(canvas),
    {
        if self.state == StateEnum::Hidden {
            return Ok(());
        }
        let ghost base = canvas@;
        canvas.push(DrawCmd::FillRect { rect: self.surface, color: self.back_color });
        proof {
            assert(canvas@.subrange(0, base.len() as int) =~= base);
        }
        match &self.back_draw {
            Some(BackDraw::Image(texture)) => {
                let ghost prev = canvas@;
                canvas.push(DrawCmd::Texture { texture: *texture, dest: self.surface });
                proof {
                    assert(canvas@.subrange(0, prev.len() as int) =~= prev);
                    lemma_prefix_chain(base, prev, canvas@);
                }
            },
            Some(BackDraw::Commands(cmds)) => {
                let ghost prev = canvas@;
                append_cmds(canvas, cmds);
                proof {
                    lemma_prefix_chain(base, prev, canvas@);
                }
            },
            None => {},
        }
        if let Some((text, color)) = &self.text {
            let ghost prev = canvas@;
            text.draw(canvas, self.surface, *color);
            proof {
                lemma_prefix_chain(base, prev, canvas@);
            }
        }
        Ok(())
    }
}

/// Keeping a prefix is transitive: if `b` keeps all of `a` and `c` keeps
/// `b`'s first `b.len()` elements, then `c` keeps all of `a`.
pub proof fn lemma_prefix_chain(a: Seq<DrawCmd>, b: Seq<DrawCmd>, c: Seq<DrawCmd>)
    requires
        a.len() <= b.len() <= c.len(),
        b.subrange(0, a.len() as int) == a,
        c.subrange(0, b.len() as int) == b,
    ensures
        c.subrange(0, a.len() as int) == a,
{
    assert(c.subrange(0, a.len() as int) =~= a) by {
        assert forall|i: int| 0 <= i < a.len() implies c[i] == a[i] by {
            assert(b.subrange(0, a.len() as int)[i] == b[i]);
            assert(c.subrange(0, b.len() as int)[i] == c[i]);
        }
    }
}

/// A sequence that keeps another's prefix keeps each of its elements.
pub proof fn lemma_prefix_keeps_index(a: Seq<DrawCmd>, b: Seq<DrawCmd>, i: int)
    requires
        a.len() <= b.len(),
        b.subrange(0, a.len() as int) == a,
        0 <= i < a.len(),
    ensures
        b[i] == a[i],
{
    assert(b.subrange(0, a.len() as int)[i] == b[i]);
}

/// Append a copy of every command in `cmds` to `canvas`.
pub fn append_cmds(canvas: &mut Vec<DrawCmd>, cmds: &Vec<DrawCmd>)
    ensures
        final(canvas)@.len() >= old(canvas)@.len(),
        final(canvas)@.subrange(0, old(canvas)@.len() as int) == old(canvas)@,
{
    let mut i: usize = 0;
    while i < cmds.len()
        invariant
            canvas@.len() >= old(canvas)@.len(),
            canvas@.subrange(0, old(canvas)@.len() as int) == old(canvas)@,
        decreases cmds@.len() - i,
    {
        let ghost prev = canvas@;
        canvas.push(cmds[i].clone());
        proof {
            assert(canvas@.subrange(0, old(canvas)@.len() as int) =~= prev.subrange(
                0,
                old(canvas)@.len() as int,
            ));
        }
        i = i + 1;
    }
}

/// An exact copy of a character vector.
pub fn clone_chars(chars: &Vec<char>) -> (r: Vec<char>)
    ensures
        r@ == chars@,
{
    let mut r: Vec<char> = Vec::new();
    let mut i: usize = 0;
    while i < chars.len()
        invariant
            i <= chars@.len(),
            r@ == chars@.take(i as int),
        decreases chars@.len() - i,
    {
        r.push(chars[i]);
        proof {
            assert(chars@.take(i + 1) =~= chars@.take(i as int).push(chars@[i as int]));
        }
        i = i + 1;
    }
    proof {
        assert(chars@.take(chars@.len() as int) =~= chars@);
    }
    r
}

} // verus!
