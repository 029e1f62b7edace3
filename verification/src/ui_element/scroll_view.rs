//! The scrollable viewport: one oversized child rendered through a windowed
//! view, with synthetic scrollbar thumbs and pointer coordinate remapping.
//!
//! Scroll positions are fractions with denominator [`SCROLL_MAX`]: zero puts
//! the visible window at the content's start, the full value at its end.
use core::marker::PhantomData;
use vstd::arithmetic::div_mod::{lemma_div_multiples_vanish, lemma_div_pos_is_pos, lemma_multiply_divide_le};
use vstd::arithmetic::mul::{lemma_mul_inequality, lemma_mul_nonnegative, lemma_mul_upper_bound};
use vstd::prelude::*;

verus! {

use crate::clipboard::Clipboard;
use crate::draw::{Color, DrawCmd};
use crate::event::{Event, MouseButton};
use crate::geometry::{spec_clamp_coord, Rect, COORD_LIMIT};
use crate::user_control::{UiError, UserControl};

/// The denominator of scroll fractions: this value means "scrolled to the
/// very end".
pub const SCROLL_MAX: u32 = 1_000_000;

/// How much one wheel unit moves the scroll fraction: a tenth of the range.
pub const WHEEL_STEP: u32 = 100_000;

/// The thickness of a scrollbar, and the floor under a thumb's length.
pub const SCROLLBAR_SIZE: i64 = 30;

/// The scrollable viewport.
pub struct ScrollView<Parent, State, Child: UserControl<Parent, State>> {
    pub parent: PhantomData<Parent>,
    pub state: PhantomData<State>,
    pub surface: Rect,
    pub child: Child,
    /// The child's logical content size, possibly larger than the viewport.
    pub child_size: (i64, i64),
    /// The window into content space that is currently visible.
    pub child_surface: Rect,
    pub scroll_color: Color,
    /// Vertical scroll fraction, `0..=SCROLL_MAX`.
    pub v_scroll: u32,
    /// Horizontal scroll fraction, `0..=SCROLL_MAX`.
    pub h_scroll: u32,
    /// Whether the vertical thumb is being dragged.
    pub v_selected: bool,
    /// Whether the horizontal thumb is being dragged.
    pub h_selected: bool,
}

/// A scroll fraction after `delta` wheel units: each unit subtracts one
/// step, and the result stays within the fraction range.
pub open spec fn spec_wheel_scroll(cur: u32, delta: int) -> u32 {
    let v = cur - delta * WHEEL_STEP;
    if v < 0 {
        0u32
    } else if v > SCROLL_MAX {
        SCROLL_MAX
    } else {
        v as u32
    }
}

/// A scroll fraction recomputed from a drag point: the inverse of the thumb
/// position formula, clamped into the fraction range. With no slack between
/// thumb and track the fraction is zero.
pub open spec fn spec_drag_scroll(point: int, track_start: int, track_len: int, thumb_len: int) -> u32 {
    if track_len > thumb_len {
        let num = point - track_start - thumb_len / 2;
        if num <= 0 {
            0u32
        } else {
            let q = num * SCROLL_MAX / (track_len - thumb_len);
            if q > SCROLL_MAX {
                SCROLL_MAX
            } else {
                q as u32
            }
        }
    } else {
        0u32
    }
}

impl<Parent, State, Child: UserControl<Parent, State>> ScrollView<Parent, State, Child> {
    /// The length of a thumb for a track of length `track` over content of
    /// length `content`: it shrinks as content grows, floored for
    /// grabability.
    pub open spec fn spec_thumb_len(track: int, content: int) -> int {
        if 2 * track - content > SCROLLBAR_SIZE {
            2 * track - content
        } else {
            SCROLLBAR_SIZE as int
        }
    }

    /// The horizontal scrollbar thumb: it slides along the viewport's bottom
    /// edge in proportion to the scroll fraction.
    pub open spec fn spec_h_thumb(self) -> Rect {
        let w = self.surface.width as int;
        let wt = Self::spec_thumb_len(w, self.child_size.0 as int);
        let slide = if w > wt {
            self.h_scroll * (w - wt) / (SCROLL_MAX as int)
        } else {
            0
        };
        Rect {
            x: (self.surface.x + slide) as i64,
            y: (self.surface.y + self.surface.height - SCROLLBAR_SIZE) as i64,
            width: wt as i64,
            height: SCROLLBAR_SIZE,
        }
    }

    /// The vertical scrollbar thumb, along the viewport's right edge.
    pub open spec fn spec_v_thumb(self) -> Rect {
        let h = self.surface.height as int;
        let ht = Self::spec_thumb_len(h, self.child_size.1 as int);
        let slide = if h > ht {
            self.v_scroll * (h - ht) / (SCROLL_MAX as int)
        } else {
            0
        };
        Rect {
            x: (self.surface.x + self.surface.width - SCROLLBAR_SIZE) as i64,
            y: (self.surface.y + slide) as i64,
            width: SCROLLBAR_SIZE,
            height: ht as i64,
        }
    }

    /// The visible window inside content space for the current scroll
    /// fractions: as large as viewport and content allow, offset in
    /// proportion to each axis's fraction.
    pub open spec fn spec_child_window(self) -> Rect {
        let vw = if self.child_size.0 < self.surface.width {
            self.child_size.0
        } else {
            self.surface.width
        };
        let vh = if self.child_size.1 < self.surface.height {
            self.child_size.1
        } else {
            self.surface.height
        };
        let wx = if self.child_size.0 > self.surface.width {
            self.h_scroll * (self.child_size.0 - self.surface.width) / (SCROLL_MAX as int)
        } else {
            0
        };
        let wy = if self.child_size.1 > self.surface.height {
            self.v_scroll * (self.child_size.1 - self.surface.height) / (SCROLL_MAX as int)
        } else {
            0
        };
        Rect { x: wx as i64, y: wy as i64, width: vw, height: vh }
    }

    /// A horizontal viewport coordinate remapped into content space: a point
    /// short of the viewport maps below content by its overshoot, a point
    /// past it maps beyond the content size by its overshoot, and a point
    /// inside maps by its fraction of the viewport into the visible window.
    pub open spec fn spec_offset_x(self, x: int) -> int {
        let sx = self.surface.x as int;
        let w = self.surface.width as int;
        spec_clamp_coord(
            if sx > x {
                x - sx
            } else if sx + w < x {
                self.child_size.0 + x - sx - w
            } else if w > 0 {
                (x - sx) * self.child_surface.width / w + self.child_surface.x
            } else {
                self.child_surface.x as int
            },
        )
    }

    /// The vertical counterpart of [`Self::spec_offset_x`].
    pub open spec fn spec_offset_y(self, y: int) -> int {
        let sy = self.surface.y as int;
        let h = self.surface.height as int;
        spec_clamp_coord(
            if sy > y {
                y - sy
            } else if sy + h < y {
                self.child_size.1 + y - sy - h
            } else if h > 0 {
                (y - sy) * self.child_surface.height / h + self.child_surface.y
            } else {
                self.child_surface.y as int
            },
        )
    }

    /// A viewport with the given child and logical content size, the zero
    /// rectangle as bounds, both fractions at the content start, and no drag
    /// in progress.
    pub fn new(child: Child, child_width: i64, child_height: i64, scroll_color: Color) -> (s: Self)
        requires
            child.inv(),
            0 <= child_width <= COORD_LIMIT,
            0 <= child_height <= COORD_LIMIT,
        ensures
            s.surface == crate::geometry::spec_zero_rect(),
            s.child == child,
            s.child_size == (child_width, child_height),
            s.child_surface == crate::geometry::spec_zero_rect(),
            s.scroll_color == scroll_color,
            s.h_scroll == 0 && s.v_scroll == 0,
            !s.h_selected && !s.v_selected,
            s.inv(),
    {
        ScrollView {
            parent: PhantomData,
            state: PhantomData,
            surface: Rect { x: 0, y: 0, width: 0, height: 0 },
            child,
            child_size: (child_width, child_height),
            child_surface: Rect { x: 0, y: 0, width: 0, height: 0 },
            scroll_color,
            h_scroll: 0,
            v_scroll: 0,
            h_selected: false,
            v_selected: false,
        }
    }

    /// The child widget.
    pub fn child(&self) -> (r: &Child)
        ensures
            *r == self.child,
    {
        &self.child
    }

    /// Mutable access to the child widget. The caller is responsible for
    /// keeping it well formed.
    pub fn child_mut(&mut self) -> (r: &mut Child)
        ensures
            *r == old(self).child,
            final(self).child == *final(r),
            final(self).surface == old(self).surface,
            final(self).child_size == old(self).child_size,
            final(self).child_surface == old(self).child_surface,
            final(self).scroll_color == old(self).scroll_color,
            final(self).h_scroll == old(self).h_scroll,
            final(self).v_scroll == old(self).v_scroll,
            final(self).h_selected == old(self).h_selected,
            final(self).v_selected == old(self).v_selected,
    {
        &mut self.child
    }

    /// The configured logical content size.
    pub fn child_size(&self) -> (r: (i64, i64))
        ensures
            r == self.child_size,
    {
        self.child_size
    }

    /// Mutable access to the logical content size. The caller is
    /// responsible for keeping both extents within the addressable range.
    pub fn child_size_mut(&mut self) -> (r: &mut (i64, i64))
        ensures
            *r == old(self).child_size,
            final(self).child_size == *final(r),
            final(self).surface == old(self).surface,
            final(self).child == old(self).child,
            final(self).child_surface == old(self).child_surface,
            final(self).scroll_color == old(self).scroll_color,
            final(self).h_scroll == old(self).h_scroll,
            final(self).v_scroll == old(self).v_scroll,
            final(self).h_selected == old(self).h_selected,
            final(self).v_selected == old(self).v_selected,
    {
        &mut self.child_size
    }

    /// The horizontal thumb rectangle.
    fn h_scroll(&self) -> (r: Rect)
        requires
            self.surface.wf(),
            self.h_scroll <= SCROLL_MAX,
            0 <= self.child_size.0 <= COORD_LIMIT,
        ensures
            r == self.spec_h_thumb(),
            -2 * COORD_LIMIT <= r.x <= 2 * COORD_LIMIT,
            -2 * COORD_LIMIT <= r.y <= 2 * COORD_LIMIT,
            0 <= r.width <= 2 * COORD_LIMIT,
            0 <= r.height <= 2 * COORD_LIMIT,
    {
        let w = self.surface.width;
        let two_w_less = 2 * w - self.child_size.0;
        let wt: i64 = if two_w_less > SCROLLBAR_SIZE {
            two_w_less
        } else {
            SCROLLBAR_SIZE
        };
        let slide: i64 = if w > wt {
            proof {
                scroll_mul_div_bounds(self.h_scroll as int, w - wt);
            }
            (((self.h_scroll as i64) as i128 * ((w - wt) as i128) / (SCROLL_MAX as i128)) as i64)
        } else {
            0
        };
        Rect {
            x: self.surface.x + slide,
            y: self.surface.y + self.surface.height - SCROLLBAR_SIZE,
            width: wt,
            height: SCROLLBAR_SIZE,
        }
    }

    /// The vertical thumb rectangle.
    fn v_scroll(&self) -> (r: Rect)
        requires
            self.surface.wf(),
            self.v_scroll <= SCROLL_MAX,
            0 <= self.child_size.1 <= COORD_LIMIT,
        ensures
            r == self.spec_v_thumb(),
            -2 * COORD_LIMIT <= r.x <= 2 * COORD_LIMIT,
            -2 * COORD_LIMIT <= r.y <= 2 * COORD_LIMIT,
            0 <= r.width <= 2 * COORD_LIMIT,
            0 <= r.height <= 2 * COORD_LIMIT,
    {
        let h = self.surface.height;
        let two_h_less = 2 * h - self.child_size.1;
        let ht: i64 = if two_h_less > SCROLLBAR_SIZE {
            two_h_less
        } else {
            SCROLLBAR_SIZE
        };
        let slide: i64 = if h > ht {
            proof {
                scroll_mul_div_bounds(self.v_scroll as int, h - ht);
            }
            (((self.v_scroll as i64) as i128 * ((h - ht) as i128) / (SCROLL_MAX as i128)) as i64)
        } else {
            0
        };
        Rect {
            x: self.surface.x + self.surface.width - SCROLLBAR_SIZE,
            y: self.surface.y + slide,
            width: SCROLLBAR_SIZE,
            height: ht,
        }
    }

    /// Remap a pointer position from viewport space into content space.
    fn offset_event(&self, x: i64, y: i64) -> (r: (i64, i64))
        requires
            self.surface.wf(),
            self.child_surface.wf(),
            0 <= self.child_size.0 <= COORD_LIMIT,
            0 <= self.child_size.1 <= COORD_LIMIT,
            -COORD_LIMIT <= x <= COORD_LIMIT,
            -COORD_LIMIT <= y <= COORD_LIMIT,
        ensures
            r.0 == self.spec_offset_x(x as int),
            r.1 == self.spec_offset_y(y as int),
            -COORD_LIMIT <= r.0 <= COORD_LIMIT,
            -COORD_LIMIT <= r.1 <= COORD_LIMIT,
    {
        let rx: i64 = if self.surface.x > x {
            x - self.surface.x
        } else if self.surface.x + self.surface.width < x {
            self.child_size.0 + x - self.surface.x - self.surface.width
        } else if self.surface.width > 0 {
            proof {
                remap_mul_div_bounds(
                    x as int - self.surface.x as int,
                    self.child_surface.width as int,
                    self.surface.width as int,
                );
            }
            ((x - self.surface.x) as i128 * (self.child_surface.width as i128)
                / (self.surface.width as i128)) as i64 + self.child_surface.x
        } else {
            self.child_surface.x
        };
        let ry: i64 = if self.surface.y > y {
            y - self.surface.y
        } else if self.surface.y + self.surface.height < y {
            self.child_size.1 + y - self.surface.y - self.surface.height
        } else if self.surface.height > 0 {
            proof {
                remap_mul_div_bounds(
                    y as int - self.surface.y as int,
                    self.child_surface.height as int,
                    self.surface.height as int,
                );
            }
            ((y - self.surface.y) as i128 * (self.child_surface.height as i128)
                / (self.surface.height as i128)) as i64 + self.child_surface.y
        } else {
            self.child_surface.y
        };
        (crate::geometry::clamp_coord(rx), crate::geometry::clamp_coord(ry))
    }
}

/// `frac * len / SCROLL_MAX` is between zero and `len`, for a fraction in
/// range and a nonnegative length.
proof fn scroll_mul_div_bounds(frac: int, len: int)
    requires
        0 <= frac <= SCROLL_MAX,
        0 <= len <= 2 * COORD_LIMIT,
    ensures
        0 <= frac * len / (SCROLL_MAX as int) <= len,
        frac * len <= SCROLL_MAX * 2 * COORD_LIMIT,
{
    lemma_mul_nonnegative(frac, len);
    lemma_div_pos_is_pos(frac * len, SCROLL_MAX as int);
    assert(frac * len <= SCROLL_MAX * len) by {
        lemma_mul_inequality(frac, SCROLL_MAX as int, len);
    }
    lemma_multiply_divide_le(frac * len, SCROLL_MAX as int, len);
    lemma_mul_upper_bound(frac, SCROLL_MAX as int, len, 2 * COORD_LIMIT);
}

impl<Parent, State, Child: UserControl<Parent, State>> UserControl<Parent, State> for ScrollView<
    Parent,
    State,
    Child,
> {
    open spec fn sbounds(&self) -> Rect {
        self.surface
    }

    open spec fn inv(&self) -> bool {
        &&& self.surface.wf()
        &&& self.child_surface.wf()
        &&& self.child.inv()
        &&& self.h_scroll <= SCROLL_MAX
        &&& self.v_scroll <= SCROLL_MAX
        &&& 0 <= self.child_size.0 <= COORD_LIMIT
        &&& 0 <= self.child_size.1 <= COORD_LIMIT
    }

    proof fn wf_bounds(&self) {
    }

    fn surface(&self, parent: &Parent, state: &State) -> (r: Rect) {
        self.surface
    }

    /// Per axis, while content exceeds the viewport: a primary press on the
    /// thumb starts a drag and consumes the event, pointer motion during a
    /// drag recomputes the fraction from the drag point and consumes the
    /// event, and a release ends the drag. A wheel event moves each
    /// scrollable axis by a tenth per unit. Whatever is not consumed is
    /// forwarded to the child with pointer coordinates remapped into content
    /// space.
    #[verifier::loop_isolation(false)]
    fn event(
        &mut self,
        clipboard: &mut Clipboard,
        ev: &Event,
        parent: &mut Parent,
        state: &mut State,
    ) -> (r: Result<(), UiError>)
        ensures
            final(self).child_size == old(self).child_size,
            final(self).child_surface == old(self).child_surface,
            final(self).scroll_color == old(self).scroll_color,
            final(self).child.sbounds() == old(self).child.sbounds(),
            ev matches Event::MouseWheel { scroll_x, scroll_y, .. } ==> (r is Ok ==> {
                &&& final(self).h_scroll == (if old(self).child_size.0 > old(self).surface.width {
                    spec_wheel_scroll(old(self).h_scroll, *scroll_x as int)
                } else {
                    old(self).h_scroll
                })
                &&& final(self).v_scroll == (if old(self).child_size.1 > old(self).surface.height {
                    spec_wheel_scroll(old(self).v_scroll, *scroll_y as int)
                } else {
                    old(self).v_scroll
                })
            }),
            ev.is_geometry() ==> r is Ok,
            ev matches Event::MouseButtonDown { mouse_btn: MouseButton::Left, x, y, .. }
                ==> (old(self).child_size.0 > old(self).surface.width
                ==> final(self).h_selected == old(self).spec_h_thumb().spec_contains(
                *x as int,
                *y as int,
            ) && (final(self).h_selected ==> r is Ok && *final(self) == (ScrollView {
                h_selected: true,
                ..*old(self)
            }))),
            ev matches Event::MouseButtonDown { mouse_btn: MouseButton::Left, x, y, .. }
                ==> (old(self).child_size.1 > old(self).surface.height && !(old(self).child_size.0
                > old(self).surface.width && old(self).spec_h_thumb().spec_contains(
                *x as int,
                *y as int,
            )) ==> final(self).v_selected == old(self).spec_v_thumb().spec_contains(
                *x as int,
                *y as int,
            ) && (final(self).v_selected ==> r is Ok && *final(self) == (ScrollView {
                h_selected: final(self).h_selected,
                v_selected: true,
                ..*old(self)
            }))),
            ev matches Event::MouseMotion { buttons, x, .. } ==> (buttons.left
                && old(self).h_selected && old(self).child_size.0 > old(self).surface.width
                ==> r is Ok && final(self).h_scroll == spec_drag_scroll(
                *x as int,
                old(self).surface.x as int,
                old(self).surface.width as int,
                Self::spec_thumb_len(old(self).surface.width as int, old(self).child_size.0 as int),
            ) && *final(self) == (ScrollView { h_scroll: final(self).h_scroll, ..*old(self) })),
            ev matches Event::MouseMotion { buttons, y, .. } ==> (buttons.left
                && old(self).v_selected && old(self).child_size.1 > old(self).surface.height && !(
            old(self).child_size.0 > old(self).surface.width && old(self).h_selected)
                ==> r is Ok && final(self).v_scroll == spec_drag_scroll(
                *y as int,
                old(self).surface.y as int,
                old(self).surface.height as int,
                Self::spec_thumb_len(
                    old(self).surface.height as int,
                    old(self).child_size.1 as int,
                ),
            ) && *final(self) == (ScrollView { v_scroll: final(self).v_scroll, ..*old(self) })),
            ev matches Event::MouseButtonUp { .. } ==> ((old(self).child_size.0 > old(
                self,
            ).surface.width ==> !final(self).h_selected) && (old(self).child_size.1 > old(
                self,
            ).surface.height ==> !final(self).v_selected)),
            ev.is_geometry() ==> *final(self) == (ScrollView {
                surface: final(self).surface,
                ..*old(self)
            }),
    {
        match ev {
            Event::ElementMove { x, y } => {
                self.surface.x = *x;
                self.surface.y = *y;
                return Ok(());
            },
            Event::ElementResize { width, height } => {
                self.surface.width = *width;
                self.surface.height = *height;
                return Ok(());
            },
            _ => {},
        }
        if self.child_size.0 > self.surface.width {
            let h_thumb = self.h_scroll();
            match ev {
                Event::MouseMotion { buttons, x, .. } => {
                    if buttons.left && self.h_selected {
                        let w = self.surface.width;
                        let wt = h_thumb.width;
                        let new_scroll: u32 = if w > wt {
                            let num = *x - self.surface.x - wt / 2;
                            if num <= 0 {
                                0
                            } else {
                                proof {
                                    drag_mul_bounds(num as int);
                                }
                                let q = (num as i128) * (SCROLL_MAX as i128) / ((w - wt) as i128);
                                if q > SCROLL_MAX as i128 {
                                    SCROLL_MAX
                                } else {
                                    q as u32
                                }
                            }
                        } else {
                            0
                        };
                        self.h_scroll = new_scroll;
                        return Ok(());
                    }
                },
                Event::MouseButtonDown { mouse_btn: MouseButton::Left, x, y, .. } => {
                    self.h_selected = h_thumb.contains(*x, *y);
                    if self.h_selected {
                        return Ok(());
                    }
                },
                Event::MouseButtonUp { .. } => {
                    self.h_selected = false;
                },
                _ => {},
            }
        }
        if self.child_size.1 > self.surface.height {
            let v_thumb = self.v_scroll();
            match ev {
                Event::MouseMotion { buttons, y, .. } => {
                    if buttons.left && self.v_selected {
                        let h = self.surface.height;
                        let ht = v_thumb.height;
                        let new_scroll: u32 = if h > ht {
                            let num = *y - self.surface.y - ht / 2;
                            if num <= 0 {
                                0
                            } else {
                                proof {
                                    drag_mul_bounds(num as int);
                                }
                                let q = (num as i128) * (SCROLL_MAX as i128) / ((h - ht) as i128);
                                if q > SCROLL_MAX as i128 {
                                    SCROLL_MAX
                                } else {
                                    q as u32
                                }
                            }
                        } else {
                            0
                        };
                        self.v_scroll = new_scroll;
                        return Ok(());
                    }
                },
                Event::MouseButtonDown { mouse_btn: MouseButton::Left, x, y, .. } => {
                    self.v_selected = v_thumb.contains(*x, *y);
                    if self.v_selected {
                        return Ok(());
                    }
                },
                Event::MouseButtonUp { .. } => {
                    self.v_selected = false;
                },
                _ => {},
            }
        }
        let forwarded: Event = match ev {
            Event::MouseMotion { which, buttons, x, y, moved_x, moved_y } => {
                let (nx, ny) = self.offset_event(*x, *y);
                Event::MouseMotion {
                    which: *which,
                    buttons: *buttons,
                    x: nx,
                    y: ny,
                    moved_x: *moved_x,
                    moved_y: *moved_y,
                }
            },
            Event::MouseButtonDown { which, mouse_btn, clicks, x, y } => {
                let (nx, ny) = self.offset_event(*x, *y);
                Event::MouseButtonDown {
                    which: *which,
                    mouse_btn: *mouse_btn,
                    clicks: *clicks,
                    x: nx,
                    y: ny,
                }
            },
            Event::MouseButtonUp { which, mouse_btn, clicks, x, y } => {
                let (nx, ny) = self.offset_event(*x, *y);
                Event::MouseButtonUp {
                    which: *which,
                    mouse_btn: *mouse_btn,
                    clicks: *clicks,
                    x: nx,
                    y: ny,
                }
            },
            Event::MouseWheel { which, scroll_x, scroll_y, direction, mouse_x, mouse_y } => {
                if self.child_size.0 > self.surface.width {
                    self.h_scroll = wheel_scroll(self.h_scroll, *scroll_x);
                }
                if self.child_size.1 > self.surface.height {
                    self.v_scroll = wheel_scroll(self.v_scroll, *scroll_y);
                }
                let (nx, ny) = self.offset_event(*mouse_x, *mouse_y);
                Event::MouseWheel {
                    which: *which,
                    scroll_x: *scroll_x,
                    scroll_y: *scroll_y,
                    direction: *direction,
                    mouse_x: nx,
                    mouse_y: ny,
                }
            },
            Event::KeyDown { key } => Event::KeyDown { key: *key },
            Event::KeyUp { key } => Event::KeyUp { key: *key },
            Event::TextInput { text } => Event::TextInput {
                text: crate::ui_element::ui_rect::clone_chars(text),
            },
            Event::ElementMove { x, y } => Event::ElementMove { x: *x, y: *y },
            Event::ElementResize { width, height } => Event::ElementResize {
                width: *width,
                height: *height,
            },
        };
        Child::event(&mut self.child, clipboard, &forwarded, parent, state)
    }

    /// Keep the child at the content origin and sized to the logical
    /// content, recompute the visible window from the current fractions,
    /// then tick the child.
    fn update(
        &mut self,
        clipboard: &mut Clipboard,
        elapsed_ms: u64,
        parent: &mut Parent,
        state: &mut State,
    ) -> (r: Result<(), UiError>)
        ensures
            final(self).child_size == old(self).child_size,
            final(self).h_scroll == old(self).h_scroll,
            final(self).v_scroll == old(self).v_scroll,
            final(self).h_selected == old(self).h_selected,
            final(self).v_selected == old(self).v_selected,
            r is Ok ==> final(self).child.sbounds() == (Rect {
                x: 0,
                y: 0,
                width: old(self).child_size.0,
                height: old(self).child_size.1,
            }),
            r is Ok ==> final(self).child_surface == final(self).spec_child_window(),
    {
        let cur = Child::surface(&self.child, parent, state);
        if cur.x != 0 || cur.y != 0 {
            match Child::event(
                &mut self.child,
                clipboard,
                &Event::ElementMove { x: 0, y: 0 },
                parent,
                state,
            ) {
                Ok(()) => {},
                Err(e) => {
                    return Err(e);
                },
            }
        }
        let cur2 = Child::surface(&self.child, parent, state);
        if self.child_size.0 != cur2.width || self.child_size.1 != cur2.height {
            match Child::event(
                &mut self.child,
                clipboard,
                &Event::ElementResize { width: self.child_size.0, height: self.child_size.1 },
                parent,
                state,
            ) {
                Ok(()) => {},
                Err(e) => {
                    return Err(e);
                },
            }
        }
        let (cw, ch) = self.child_size;
        self.child_surface.width = if self.surface.width < cw {
            self.surface.width
        } else {
            cw
        };
        self.child_surface.height = if self.surface.height < ch {
            self.surface.height
        } else {
            ch
        };
        self.child_surface.x = if cw > self.surface.width {
            proof {
                scroll_mul_div_bounds(self.h_scroll as int, cw - self.surface.width);
            }
            ((self.h_scroll as i128) * ((cw - self.surface.width) as i128) / (
            SCROLL_MAX as i128)) as i64
        } else {
            0
        };
        self.child_surface.y = if ch > self.surface.height {
            proof {
                scroll_mul_div_bounds(self.v_scroll as int, ch - self.surface.height);
            }
            ((self.v_scroll as i128) * ((ch - self.surface.height) as i128) / (
            SCROLL_MAX as i128)) as i64
        } else {
            0
        };
        Child::update(&mut self.child, clipboard, elapsed_ms, parent, state)
    }

    /// Render the child into an off-screen target of the full logical
    /// content size, blit the visible window into the viewport, then draw
    /// the scrollbar thumbs of the axes whose content exceeds the viewport.
    /// The off-screen bracket: first an off-screen target of the full
    /// logical content size, then the child's commands, then the blit of
    /// exactly the visible window onto the viewport, then a thumb fill for
    /// each axis whose content exceeds the viewport. A child failure
    /// propagates before the blit.
    fn draw(&self, canvas: &mut Vec<DrawCmd>, parent: &Parent, state: &State) -> (r: Result<
        (),
        UiError,
    >)
        ensures
            r is Ok ==> {
                let n = old(canvas)@.len() as int;
                let k = (if self.child_size.0 > self.surface.width {
                    1int
                } else {
                    0int
                }) + (if self.child_size.1 > self.surface.height {
                    1int
                } else {
                    0int
                });
                &&& final(canvas)@.len() >= n + 2 + k
                &&& final(canvas)@[n] == (DrawCmd::PushTarget {
                    width: self.child_size.0,
                    height: self.child_size.1,
                })
                &&& final(canvas)@[final(canvas)@.len() - k - 1] == (DrawCmd::BlitTarget {
                    src: self.child_surface,
                    dst: self.surface,
                })
                &&& (self.child_size.0 > self.surface.width
                    ==> final(canvas)@[final(canvas)@.len() - k] == (DrawCmd::FillRect {
                    rect: self.spec_h_thumb(),
                    color: self.scroll_color,
                }))
                &&& (self.child_size.1 > self.surface.height ==> final(canvas)@.last() == (
                DrawCmd::FillRect { rect: self.spec_v_thumb(), color: self.scroll_color }))
            },
    {
        let ghost base = canvas@;
        canvas.push(
            DrawCmd::PushTarget { width: self.child_size.0, height: self.child_size.1 },
        );
        proof {
            assert(canvas@.subrange(0, base.len() as int) =~= base);
        }
        let ghost prev = canvas@;
        match Child::draw(&self.child, canvas, parent, state) {
            Ok(()) => {},
            Err(e) => {
                proof {
                    crate::ui_element::ui_rect::lemma_prefix_chain(base, prev, canvas@);
                }
                return Err(e);
            },
        }
        proof {
            crate::ui_element::ui_rect::lemma_prefix_chain(base, prev, canvas@);
            crate::ui_element::ui_rect::lemma_prefix_keeps_index(
                prev,
                canvas@,
                base.len() as int,
            );
        }
        let ghost prev2 = canvas@;
        canvas.push(DrawCmd::BlitTarget { src: self.child_surface, dst: self.surface });
        proof {
            assert(canvas@.subrange(0, prev2.len() as int) =~= prev2);
            crate::ui_element::ui_rect::lemma_prefix_chain(base, prev2, canvas@);
        }
        if self.child_size.0 > self.surface.width {
            let ghost prev3 = canvas@;
            let thumb = self.h_scroll();
            canvas.push(DrawCmd::FillRect { rect: thumb, color: self.scroll_color });
            proof {
                assert(canvas@.subrange(0, prev3.len() as int) =~= prev3);
                crate::ui_element::ui_rect::lemma_prefix_chain(base, prev3, canvas@);
            }
        }
        if self.child_size.1 > self.surface.height {
            let ghost prev4 = canvas@;
            let thumb = self.v_scroll();
            canvas.push(DrawCmd::FillRect { rect: thumb, color: self.scroll_color });
            proof {
                assert(canvas@.subrange(0, prev4.len() as int) =~= prev4);
                crate::ui_element::ui_rect::lemma_prefix_chain(base, prev4, canvas@);
            }
        }
        Ok(())
    }
}

/// The scroll round trip: with content larger than the viewport on both
/// axes, fraction zero puts the visible window at the content's start and
/// the full fraction puts its far edge exactly at the content's end; and
/// the thumb never leaves its track — it starts no earlier than the
/// viewport's origin and ends no later than the viewport's far edge —
/// whenever the viewport is at least one thumb floor long.
pub proof fn lemma_scroll_round_trip<Parent, State, Child: UserControl<Parent, State>>(
    sv: ScrollView<Parent, State, Child>,
)
    requires
        sv.surface.wf(),
        sv.h_scroll <= SCROLL_MAX,
        sv.v_scroll <= SCROLL_MAX,
        0 <= sv.child_size.0 <= COORD_LIMIT,
        0 <= sv.child_size.1 <= COORD_LIMIT,
        sv.child_size.0 > sv.surface.width,
        sv.child_size.1 > sv.surface.height,
    ensures
        sv.h_scroll == 0 ==> sv.spec_child_window().x == 0,
        sv.v_scroll == 0 ==> sv.spec_child_window().y == 0,
        sv.h_scroll == SCROLL_MAX ==> sv.spec_child_window().x + sv.spec_child_window().width
            == sv.child_size.0,
        sv.v_scroll == SCROLL_MAX ==> sv.spec_child_window().y + sv.spec_child_window().height
            == sv.child_size.1,
        sv.surface.width >= SCROLLBAR_SIZE ==> sv.surface.x <= sv.spec_h_thumb().x
            && sv.spec_h_thumb().x + sv.spec_h_thumb().width <= sv.surface.x + sv.surface.width,
        sv.surface.height >= SCROLLBAR_SIZE ==> sv.surface.y <= sv.spec_v_thumb().y
            && sv.spec_v_thumb().y + sv.spec_v_thumb().height <= sv.surface.y + sv.surface.height,
{
    let w = sv.surface.width as int;
    let h = sv.surface.height as int;
    let cw = sv.child_size.0 as int;
    let ch = sv.child_size.1 as int;
    let m = SCROLL_MAX as int;
    if sv.h_scroll == 0 {
        assert(0 * (cw - w) == 0) by (nonlinear_arith);
        assert(0int / m == 0) by {
            vstd::arithmetic::div_mod::lemma_div_of0(m);
        }
    }
    if sv.v_scroll == 0 {
        assert(0 * (ch - h) == 0) by (nonlinear_arith);
        assert(0int / m == 0) by {
            vstd::arithmetic::div_mod::lemma_div_of0(m);
        }
    }
    if sv.h_scroll == SCROLL_MAX {
        assert(m * (cw - w) / m == cw - w) by {
            lemma_div_multiples_vanish(cw - w, m);
        }
    }
    if sv.v_scroll == SCROLL_MAX {
        assert(m * (ch - h) / m == ch - h) by {
            lemma_div_multiples_vanish(ch - h, m);
        }
    }
    if sv.surface.width >= SCROLLBAR_SIZE {
        let wt = ScrollView::<Parent, State, Child>::spec_thumb_len(w, cw);
        assert(SCROLLBAR_SIZE <= wt <= w);
        if w > wt {
            scroll_mul_div_bounds(sv.h_scroll as int, w - wt);
        }
    }
    if sv.surface.height >= SCROLLBAR_SIZE {
        let ht = ScrollView::<Parent, State, Child>::spec_thumb_len(h, ch);
        assert(SCROLLBAR_SIZE <= ht <= h);
        if h > ht {
            scroll_mul_div_bounds(sv.v_scroll as int, h - ht);
        }
    }
}

/// A scroll fraction after `delta` wheel units.
fn wheel_scroll(cur: u32, delta: i64) -> (r: u32)
    requires
        cur <= SCROLL_MAX,
        -COORD_LIMIT <= delta <= COORD_LIMIT,
    ensures
        r == spec_wheel_scroll(cur, delta as int),
        r <= SCROLL_MAX,
{
    proof {
        assert(-(COORD_LIMIT as int) * (WHEEL_STEP as int) <= (delta as int) * (WHEEL_STEP as int)
            <= (COORD_LIMIT as int) * (WHEEL_STEP as int)) by (nonlinear_arith)
            requires
                -COORD_LIMIT <= delta <= COORD_LIMIT,
        ;
    }
    let v: i64 = cur as i64 - delta * (WHEEL_STEP as i64);
    if v < 0 {
        0
    } else if v > SCROLL_MAX as i64 {
        SCROLL_MAX
    } else {
        v as u32
    }
}

/// The drag numerator times the fraction denominator stays within an
/// `i128`.
proof fn drag_mul_bounds(num: int)
    requires
        0 <= num <= 4 * COORD_LIMIT,
    ensures
        0 <= num * SCROLL_MAX <= 4 * COORD_LIMIT * SCROLL_MAX,
{
    lemma_mul_nonnegative(num, SCROLL_MAX as int);
    lemma_mul_inequality(num, 4 * COORD_LIMIT as int, SCROLL_MAX as int);
}

/// `offs * span / extent` is between zero and `span`, when the offset is
/// within the extent.
proof fn remap_mul_div_bounds(offs: int, span: int, extent: int)
    requires
        0 <= offs <= extent,
        0 <= span <= COORD_LIMIT,
        0 < extent <= COORD_LIMIT,
    ensures
        0 <= offs * span / extent <= span,
        offs * span <= COORD_LIMIT * COORD_LIMIT,
{
    lemma_mul_nonnegative(offs, span);
    lemma_div_pos_is_pos(offs * span, extent);
    assert(offs * span <= extent * span) by {
        lemma_mul_inequality(offs, extent, span);
    }
    lemma_multiply_divide_le(offs * span, extent, span);
    lemma_mul_upper_bound(offs, COORD_LIMIT as int, span, COORD_LIMIT as int);
}

} // verus!
