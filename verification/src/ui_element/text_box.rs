//! The text-editing widget: a measured text buffer, a caret/selection state
//! machine, modifier tracking, and clipboard-driven edit operations.
//!
//! The selection is `None` (no selection), or `Some((anchor, None))` for a
//! bare caret at `anchor`, or `Some((anchor, Some(end)))` for a range
//! between `anchor` and `end` in either order. All indices are character
//! positions into the buffer.
use vstd::prelude::*;

verus! {

use crate::clipboard::Clipboard;
use crate::draw::{Color, DrawCmd};
use crate::event::{Event, Key, MouseButton};
use crate::functions::StateEnum;
use crate::geometry::{Rect, COORD_LIMIT};
use crate::ui_element::ui_rect::{clone_chars, lemma_prefix_chain};
use crate::ui_string::{FontMetrics, UIString};
use crate::user_control::{UiError, UserControl};

/// A selection is within bounds when each of its indices is at most the
/// buffer length.
pub open spec fn spec_selection_wf(selected: Option<(usize, Option<usize>)>, len: nat) -> bool {
    match selected {
        None => true,
        Some((anchor, None)) => anchor <= len,
        Some((anchor, Some(end))) => anchor <= len && end <= len,
    }
}

/// `c` case-folded: to the upper case when `upper` is set, to the lower
/// case otherwise; characters outside the basic letters are unchanged.
pub open spec fn spec_fold_char(c: char, upper: bool) -> char {
    if upper {
        if 'a' <= c <= 'z' {
            ((c as u8) - 32) as char
        } else {
            c
        }
    } else {
        if 'A' <= c <= 'Z' {
            ((c as u8) + 32) as char
        } else {
            c
        }
    }
}

/// A whole string case-folded.
pub open spec fn spec_fold_chars(s: Seq<char>, upper: bool) -> Seq<char> {
    s.map_values(|c: char| spec_fold_char(c, upper))
}

/// The index the caret walk resolves for a pixel offset: walk the
/// characters left to right, each scaled to its share of the box width,
/// until the offset is bracketed, rounding to the nearer boundary by
/// half-width comparison.
pub open spec fn spec_walk(
    m: FontMetrics,
    s: Seq<char>,
    box_w: int,
    total_w: int,
    pos: int,
) -> int
    decreases s.len(),
{
    if s.len() == 0 {
        0
    } else {
        let w = m.advance_of(s.first()) * box_w / total_w;
        if w > pos {
            if w / 2 > pos {
                0
            } else {
                1
            }
        } else {
            1 + spec_walk(m, s.drop_first(), box_w, total_w, pos - w)
        }
    }
}

/// The walk never runs past the end of the string.
pub proof fn lemma_walk_le_len(m: FontMetrics, s: Seq<char>, box_w: int, total_w: int, pos: int)
    ensures
        0 <= spec_walk(m, s, box_w, total_w, pos) <= s.len(),
    decreases s.len(),
{
    if s.len() > 0 {
        let w = m.advance_of(s.first()) * box_w / total_w;
        if w <= pos {
            lemma_walk_le_len(m, s.drop_first(), box_w, total_w, pos - w);
        }
    }
}

/// The smaller of two indices, as a mathematical integer.
pub open spec fn spec_lo(a: usize, b: usize) -> int {
    if a < b {
        a as int
    } else {
        b as int
    }
}

/// The larger of two indices, as a mathematical integer.
pub open spec fn spec_hi(a: usize, b: usize) -> int {
    if a < b {
        b as int
    } else {
        a as int
    }
}

/// `s` with the characters in `[a, b)` removed.
pub open spec fn spec_removed_range(s: Seq<char>, a: int, b: int) -> Seq<char> {
    s.take(a) + s.skip(b)
}

/// `base` with the first `acc` characters of `ins` inserted at `idx`.
pub open spec fn spec_inserted_at(base: Seq<char>, idx: int, ins: Seq<char>, acc: int) -> Seq<
    char,
> {
    crate::ui_string::spec_spliced(base, idx, ins, acc)
}

/// Whether a key is one of the tracked modifier keys.
pub open spec fn spec_is_modifier(key: Key) -> bool {
    key == Key::LShift || key == Key::RShift || key == Key::LCtrl || key == Key::RCtrl
}

/// Everything but the buffer's contents and the selection is unchanged,
/// and the buffer keeps its measurement source.
pub open spec fn spec_same_config(pre: TextBox, post: TextBox) -> bool {
    &&& post.surface == pre.surface
    &&& post.shift == pre.shift
    &&& post.ctrl == pre.ctrl
    &&& post.state == pre.state
    &&& post.select_box_color == pre.select_box_color
    &&& post.select_line_color == pre.select_line_color
    &&& post.front_color == pre.front_color
    &&& post.back_color == pre.back_color
    &&& post.text.spec_metrics() == pre.text.spec_metrics()
}

/// The box is observably unchanged: same configuration, same buffer
/// contents, same selection.
pub open spec fn spec_box_unchanged(pre: TextBox, post: TextBox) -> bool {
    &&& spec_same_config(pre, post)
    &&& post.text.view() == pre.text.view()
    &&& post.selected == pre.selected
}

/// The outcome of deleting the range between `a` and `t` (either order):
/// when the shrunk text still measures, the range is gone and the caret
/// collapses to the range's start; otherwise nothing changes.
pub open spec fn spec_deleted(pre: TextBox, a: usize, t: usize, post: TextBox) -> bool {
    let lo = spec_lo(a, t);
    let hi = spec_hi(a, t);
    let shrunk = spec_removed_range(pre.text.view(), lo, hi);
    &&& spec_same_config(pre, post)
    &&& if pre.text.spec_metrics().spec_fits(shrunk) {
        post.text.view() == shrunk && post.selected == spec_caret(lo)
    } else {
        post.text.view() == pre.text.view() && post.selected == pre.selected
    }
}

/// The outcome of inserting `ins` at caret `idx` into `base`: the longest
/// prefix whose insertion still measures is accepted, every longer prefix
/// does not fit, and the caret lands exactly after the accepted text.
pub open spec fn spec_insert_outcome(
    m: FontMetrics,
    base: Seq<char>,
    idx: int,
    ins: Seq<char>,
    post_text: Seq<char>,
    post_sel: Option<(usize, Option<usize>)>,
) -> bool {
    exists|acc: int|
        {
            &&& 0 <= acc <= ins.len()
            &&& post_text == #[trigger] spec_inserted_at(base, idx, ins, acc)
            &&& post_sel == spec_caret(idx + acc)
            &&& (acc > 0 ==> m.spec_fits(post_text))
            &&& (forall|k: int|
                acc < k <= ins.len() ==> !m.spec_fits(
                    #[trigger] spec_inserted_at(base, idx, ins, k),
                ))
        }
}

/// The full insert transition from a selection `(a, ti)`: the range (if
/// any) is deleted first — rolling back if the shrunk text does not
/// measure — the inserted text is case-folded by the shift flag, and the
/// longest fitting prefix goes in at the collapsed caret.
pub open spec fn spec_inserted(
    pre: TextBox,
    a: usize,
    ti: Option<usize>,
    ins: Seq<char>,
    post: TextBox,
) -> bool {
    let folded = spec_fold_chars(ins, pre.shift);
    let m = pre.text.spec_metrics();
    &&& spec_same_config(pre, post)
    &&& match ti {
        None => spec_insert_outcome(
            m,
            pre.text.view(),
            a as int,
            folded,
            post.text.view(),
            post.selected,
        ),
        Some(t) => {
            let lo = spec_lo(a, t);
            let hi = spec_hi(a, t);
            let shrunk = spec_removed_range(pre.text.view(), lo, hi);
            if m.spec_fits(shrunk) {
                spec_insert_outcome(m, shrunk, lo, folded, post.text.view(), post.selected)
            } else {
                spec_insert_outcome(
                    m,
                    pre.text.view(),
                    a as int,
                    folded,
                    post.text.view(),
                    post.selected,
                )
            }
        },
    }
}

/// The selection after the left arrow: with shift held the free end steps
/// left (collapsing onto the anchor, stopping at the text's start); without
/// shift a range collapses to its left bound and a caret steps left.
pub open spec fn spec_left_sel(a: usize, ti: Option<usize>, shift: bool, len: nat) -> Option<
    (usize, Option<usize>),
> {
    match ti {
        Some(t) => if shift {
            if t > 0 {
                if a as int == t - 1 {
                    Some((a, None))
                } else {
                    Some((a, Some((t - 1) as usize)))
                }
            } else {
                Some((a, Some(t)))
            }
        } else {
            if a < t {
                Some((a, None))
            } else {
                Some((t, None))
            }
        },
        None => if a == 0 {
            Some((a, None))
        } else if shift {
            Some((a, Some((a - 1) as usize)))
        } else {
            Some(((a - 1) as usize, None))
        },
    }
}

/// The selection after the right arrow, the mirror of the left one.
pub open spec fn spec_right_sel(a: usize, ti: Option<usize>, shift: bool, len: nat) -> Option<
    (usize, Option<usize>),
> {
    match ti {
        Some(t) => if shift {
            if (t as nat) < len {
                if a as int == t + 1 {
                    Some((a, None))
                } else {
                    Some((a, Some((t + 1) as usize)))
                }
            } else {
                Some((a, Some(t)))
            }
        } else {
            if a > t {
                Some((a, None))
            } else {
                Some((t, None))
            }
        },
        None => if a as nat == len {
            Some((a, None))
        } else if shift {
            Some((a, Some((a + 1) as usize)))
        } else {
            Some(((a + 1) as usize, None))
        },
    }
}

/// One non-modifier key applied to an interactive box: the whole
/// key-handling table. With no selection nothing reacts; otherwise
/// deletion, caret movement, the clipboard shortcuts and plain insertion
/// act exactly as stated, and only copy and cut touch the clipboard.
pub open spec fn spec_edit_step(
    pre: TextBox,
    clip_pre: Clipboard,
    key: Key,
    post: TextBox,
    clip_post: Clipboard,
) -> bool {
    match pre.selected {
        None => post == pre && clip_post == clip_pre,
        Some((a, ti)) => match key {
            Key::Backspace => clip_post == clip_pre && (match ti {
                Some(t) => spec_deleted(pre, a, t, post),
                None => if a > 0 && pre.text.spec_metrics().spec_fits(
                    pre.text.view().remove(a - 1),
                ) {
                    spec_same_config(pre, post) && post.text.view() == pre.text.view().remove(
                        a - 1,
                    ) && post.selected == spec_caret(a - 1)
                } else {
                    spec_box_unchanged(pre, post)
                },
            }),
            Key::Delete => clip_post == clip_pre && (match ti {
                Some(t) => spec_deleted(pre, a, t, post),
                None => if (a as nat) < pre.text.view().len() && pre.text.spec_metrics().spec_fits(
                    pre.text.view().remove(a as int),
                ) {
                    spec_same_config(pre, post) && post.text.view() == pre.text.view().remove(
                        a as int,
                    ) && post.selected == spec_caret(a as int)
                } else {
                    spec_box_unchanged(pre, post)
                },
            }),
            Key::Left => clip_post == clip_pre && post == (TextBox {
                selected: spec_left_sel(a, ti, pre.shift, pre.text.view().len()),
                ..pre
            }),
            Key::Right => clip_post == clip_pre && post == (TextBox {
                selected: spec_right_sel(a, ti, pre.shift, pre.text.view().len()),
                ..pre
            }),
            Key::Char(c) => if pre.ctrl {
                if c == 'v' {
                    let pasted = match clip_pre.view() {
                        Some(t) => t,
                        None => Seq::empty(),
                    };
                    clip_post == clip_pre && spec_inserted(pre, a, ti, pasted, post)
                } else if c == 'c' {
                    post == pre && (match ti {
                        Some(t) => if a != t {
                            clip_post.view() == Some(
                                pre.text.view().subrange(spec_lo(a, t), spec_hi(a, t)),
                            )
                        } else {
                            clip_post == clip_pre
                        },
                        None => clip_post == clip_pre,
                    })
                } else if c == 'x' {
                    match ti {
                        Some(t) => if a != t {
                            clip_post.view() == Some(
                                pre.text.view().subrange(spec_lo(a, t), spec_hi(a, t)),
                            ) && spec_deleted(pre, a, t, post)
                        } else {
                            post == pre && clip_post == clip_pre
                        },
                        None => post == pre && clip_post == clip_pre,
                    }
                } else if c == 'a' {
                    clip_post == clip_pre && post == (TextBox {
                        selected: Some((0, Some(pre.text.view().len() as usize))),
                        ..pre
                    })
                } else {
                    post == pre && clip_post == clip_pre
                }
            } else {
                clip_post == clip_pre && spec_inserted(pre, a, ti, seq![c], post)
            },
            _ => post == pre && clip_post == clip_pre,
        },
    }
}

/// A bare caret at character position `i`.
pub open spec fn spec_caret(i: int) -> Option<(usize, Option<usize>)> {
    Some((i as usize, None))
}

/// The text-editing widget. Colors and the display state are configuration
/// data; the buffer, selection and modifier flags are its runtime state.
pub struct TextBox {
    pub selected: Option<(usize, Option<usize>)>,
    pub surface: Rect,
    pub text: UIString,
    pub shift: bool,
    pub ctrl: bool,
    pub state: StateEnum,
    pub select_box_color: Color,
    pub select_line_color: Color,
    pub front_color: Color,
    pub back_color: Color,
}

impl TextBox {
    /// The caret pixel offset of `index` inside the box: the box width
    /// scaled by the measured width of the text before `index` over the
    /// whole text's width; zero at the start, for unmeasurable text, and
    /// for zero-width text.
    pub open spec fn spec_index_to_position(self, index: int) -> int {
        let m = self.text.spec_metrics();
        let total = m.width_of(self.text.view());
        if index == 0 || !self.text.spec_fits() || total <= 0 {
            0
        } else {
            self.surface.width * m.width_of(self.text.view().take(index)) / total
        }
    }

    /// The character index nearest a pixel offset into the box: zero for an
    /// empty or unmeasurable buffer, else the caret walk.
    pub open spec fn spec_position_to_index(self, pos: int) -> int {
        let m = self.text.spec_metrics();
        let total = m.width_of(self.text.view());
        if self.text.view().len() == 0 || !self.text.spec_fits() || total <= 0 {
            0
        } else {
            spec_walk(m, self.text.view(), self.surface.width as int, total, pos)
        }
    }

    /// A text box over the given buffer, with the zero rectangle as bounds,
    /// no selection, and no modifier held.
    pub fn new(
        text: UIString,
        state: StateEnum,
        select_box_color: Color,
        select_line_color: Color,
        front_color: Color,
        back_color: Color,
    ) -> (t: TextBox)
        ensures
            t == (TextBox {
                selected: None,
                surface: crate::geometry::spec_zero_rect(),
                text,
                shift: false,
                ctrl: false,
                state,
                select_box_color,
                select_line_color,
                front_color,
                back_color,
            }),
    {
        TextBox {
            selected: None,
            surface: Rect { x: 0, y: 0, width: 0, height: 0 },
            text,
            shift: false,
            ctrl: false,
            state,
            select_box_color,
            select_line_color,
            front_color,
            back_color,
        }
    }

    /// The text buffer.
    pub fn text(&self) -> (r: &UIString)
        ensures
            *r == self.text,
    {
        &self.text
    }

    /// Mutable access to the text buffer. The caller is responsible for
    /// keeping the selection within the buffer, or clearing it.
    pub fn text_mut(&mut self) -> (r: &mut UIString)
        ensures
            *r == old(self).text,
            final(self).text == *final(r),
            *final(self) == (TextBox { text: final(self).text, ..*old(self) }),
    {
        &mut self.text
    }

    /// Set the selection: a caret at `index`, or a range to `to_index`.
    fn select(&mut self, index: usize, to_index: Option<usize>)
        ensures
            *final(self) == (TextBox { selected: Some((index, to_index)), ..*old(self) }),
    {
        self.selected = Some((index, to_index));
    }

    /// Clear the selection entirely.
    pub fn unselect(&mut self)
        ensures
            *final(self) == (TextBox { selected: None, ..*old(self) }),
    {
        self.selected = None;
    }

    /// The caret pixel offset of `index` inside the box.
    pub fn index_to_position(&self, index: usize) -> (r: i64)
        requires
            index <= self.text.view().len(),
            self.surface.wf(),
        ensures
            r == self.spec_index_to_position(index as int),
            0 <= r <= self.surface.width,
    {
        if index == 0 {
            return 0;
        }
        match self.text.size() {
            Some((total, _)) => {
                if total > 0 {
                    let upto = self.text.width_upto(index);
                    proof {
                        self.text.spec_metrics().lemma_width_prefix_le(
                            self.text.view(),
                            index as int,
                        );
                        widths_mul_div_bounds(
                            self.surface.width as int,
                            upto as int,
                            total as int,
                        );
                    }
                    ((self.surface.width as i128) * (upto as i128) / (total as i128)) as i64
                } else {
                    0
                }
            },
            None => 0,
        }
    }

    /// The character index nearest a pixel offset into the box.
    #[verifier::loop_isolation(false)]
    pub fn position_to_index(&self, pos: i64) -> (r: usize)
        requires
            self.surface.wf(),
            -4 * COORD_LIMIT <= pos <= 4 * COORD_LIMIT,
        ensures
            r == self.spec_position_to_index(pos as int),
            r <= self.text.view().len(),
    {
        let ghost m = self.text.spec_metrics();
        let ghost whole = self.text.view();
        if self.text.is_empty() {
            return 0;
        }
        let total: u64 = match self.text.size() {
            Some((total, _)) => total,
            None => {
                return 0;
            },
        };
        if total == 0 {
            return 0;
        }
        let chars = self.text.as_chars();
        let n = chars.len();
        let mut i: usize = 0;
        let mut rem: i64 = pos;
        proof {
            lemma_walk_le_len(m, whole, self.surface.width as int, total as int, pos as int);
            assert(whole.skip(0) =~= whole);
        }
        while i < n
            invariant
                i <= n,
                n == whole.len(),
                chars@ == whole,
                total as int == m.width_of(whole),
                self.text.spec_fits(),
                total > 0,
                self.surface.wf(),
                -4 * COORD_LIMIT <= rem <= 4 * COORD_LIMIT,
                spec_walk(m, whole, self.surface.width as int, total as int, pos as int) == i
                    + spec_walk(m, whole.skip(i as int), self.surface.width as int, total as int, rem as int),
            decreases n - i,
        {
            let a = advance_at(&self.text, i);
            proof {
                self.text.spec_metrics().lemma_advance_le_width(whole, i as int);
                widths_mul_div_bounds(self.surface.width as int, a as int, total as int);
                assert(whole.skip(i as int).first() == whole[i as int]);
                assert(whole.skip(i as int).drop_first() =~= whole.skip(i + 1));
                assert((a as int) * (self.surface.width as int) == (
                self.surface.width as int) * (a as int)) by (nonlinear_arith);
            }
            let w: i64 = ((a as i128) * (self.surface.width as i128) / (total as i128)) as i64;
            if w > rem {
                if w / 2 > rem {
                    proof {
                        lemma_walk_le_len(
                            m,
                            whole.skip(i as int),
                            self.surface.width as int,
                            total as int,
                            rem as int,
                        );
                    }
                    return i;
                } else {
                    return i + 1;
                }
            }
            rem = rem - w;
            i = i + 1;
        }
        proof {
            assert(whole.skip(n as int) =~= Seq::<char>::empty());
        }
        n
    }

    /// Delete the range between `*index` and `to_index` (in either order),
    /// collapsing the caret to the range's start, provided the shrunk text
    /// still measures within bounds; otherwise nothing changes.
    fn delete_selection(&mut self, index: &mut usize, to_index: usize)
        requires
            *old(index) <= old(self).text.view().len(),
            to_index <= old(self).text.view().len(),
        ensures
            final(self).surface == old(self).surface,
            final(self).state == old(self).state,
            final(self).shift == old(self).shift,
            final(self).ctrl == old(self).ctrl,
            final(self).select_box_color == old(self).select_box_color,
            final(self).select_line_color == old(self).select_line_color,
            final(self).front_color == old(self).front_color,
            final(self).back_color == old(self).back_color,
            final(self).text.spec_metrics() == old(self).text.spec_metrics(),
            *final(index) <= *old(index),
            *final(index) <= final(self).text.view().len(),
            final(self).text.view().len() <= old(self).text.view().len(),
            (spec_selection_wf(final(self).selected, final(self).text.view().len())
                || final(self).selected == old(self).selected),
            old(self).text.spec_metrics().spec_fits(
                spec_removed_range(
                    old(self).text.view(),
                    spec_lo(*old(index), to_index),
                    spec_hi(*old(index), to_index),
                ),
            ) ==> final(self).text.view() == spec_removed_range(
                old(self).text.view(),
                spec_lo(*old(index), to_index),
                spec_hi(*old(index), to_index),
            ) && final(self).selected == spec_caret(spec_lo(*old(index), to_index))
                && *final(index) == spec_lo(*old(index), to_index),
            !old(self).text.spec_metrics().spec_fits(
                spec_removed_range(
                    old(self).text.view(),
                    spec_lo(*old(index), to_index),
                    spec_hi(*old(index), to_index),
                ),
            ) ==> final(self).text.view() == old(self).text.view() && final(self).selected == old(
                self,
            ).selected && *final(index) == *old(index),
    {
        if *index < to_index {
            if self.text.drain(*index, to_index - *index).is_some() {
                let i = *index;
                self.select(i, None);
            }
        } else {
            proof {
                assert(old(self).text.view().subrange(
                    to_index as int,
                    to_index + (*old(index) - to_index),
                ) == old(self).text.view().subrange(to_index as int, *old(index) as int));
            }
            if self.text.drain(to_index, *index - to_index).is_some() {
                self.select(to_index, None);
                *index = to_index;
            }
        }
    }

    /// Insert text at the caret, replacing the selected range if one is
    /// given: the range is deleted first, the inserted text is case-folded
    /// by the shift flag, the longest fitting prefix is accepted, and the
    /// caret lands exactly after the accepted text.
    fn insert(&mut self, to_index: Option<usize>, index: &mut usize, text: &Vec<char>)
        requires
            *old(index) <= old(self).text.view().len(),
            spec_selection_wf(Some((*old(index), to_index)), old(self).text.view().len()),
        ensures
            final(self).surface == old(self).surface,
            final(self).state == old(self).state,
            final(self).shift == old(self).shift,
            final(self).ctrl == old(self).ctrl,
            final(self).select_box_color == old(self).select_box_color,
            final(self).select_line_color == old(self).select_line_color,
            final(self).front_color == old(self).front_color,
            final(self).back_color == old(self).back_color,
            final(self).text.spec_metrics() == old(self).text.spec_metrics(),
            spec_selection_wf(final(self).selected, final(self).text.view().len()),
            (final(self).selected matches Some(sel) && sel.1 is None),
            spec_inserted(*old(self), *old(index), to_index, text@, *final(self)),
    {
        let ghost pre = *self;
        if let Some(ti) = to_index {
            self.delete_selection(index, ti);
        }
        let ghost mid_text = self.text.view();
        let ghost mid_index = *index as int;
        let folded = fold_chars(text, self.shift);
        let accepted = self.text.insert_str(*index, &folded);
        let newlen = self.text.len();
        proof {
            assert(self.text.view().len() == newlen);
            assert(*index + accepted <= newlen);
        }
        let caret = *index + accepted;
        self.select(caret, None);
        proof {
            let m = pre.text.spec_metrics();
            let fseq = spec_fold_chars(text@, pre.shift);
            assert(folded@ == fseq);
            assert(self.text.view() == spec_inserted_at(mid_text, mid_index, fseq, accepted as int));
            assert(self.selected == spec_caret(mid_index + accepted));
            assert(spec_insert_outcome(
                m,
                mid_text,
                mid_index,
                fseq,
                self.text.view(),
                self.selected,
            ));
        }
    }
}

impl TextBox {
    /// Handle one non-modifier key while the box is interactive: the whole
    /// key-handling table, exactly as `spec_edit_step` states it.
    fn edit_key(&mut self, clipboard: &mut Clipboard, key: Key)
        requires
            old(self).surface.wf(),
            spec_selection_wf(old(self).selected, old(self).text.view().len()),
        ensures
            final(self).surface == old(self).surface,
            final(self).state == old(self).state,
            final(self).shift == old(self).shift,
            final(self).ctrl == old(self).ctrl,
            spec_selection_wf(final(self).selected, final(self).text.view().len()),
            spec_edit_step(*old(self), *old(clipboard), key, *final(self), *final(clipboard)),
    {
        let (index0, to_index) = match self.selected {
            Some(p) => p,
            None => {
                return ;
            },
        };
        let mut index = index0;
        match key {
            Key::Backspace => {
                if let Some(ti) = to_index {
                    self.delete_selection(&mut index, ti);
                } else if index > 0 {
                    if self.text.remove(index - 1).is_some() {
                        self.select(index - 1, None);
                    }
                }
            },
            Key::Delete => {
                if let Some(ti) = to_index {
                    self.delete_selection(&mut index, ti);
                } else if index < self.text.len() {
                    if self.text.remove(index).is_some() {
                        self.select(index, None);
                    }
                }
            },
            Key::Left => {
                match to_index {
                    Some(ti) => {
                        if self.shift {
                            if ti > 0 {
                                if index == ti - 1 {
                                    self.select(index, None);
                                } else {
                                    self.select(index, Some(ti - 1));
                                }
                            }
                        } else {
                            let m = if index < ti {
                                index
                            } else {
                                ti
                            };
                            self.select(m, None);
                        }
                    },
                    None => {
                        if index == 0 {
                        } else if self.shift {
                            self.select(index, Some(index - 1));
                        } else {
                            self.select(index - 1, None);
                        }
                    },
                }
            },
            Key::Right => {
                match to_index {
                    Some(ti) => {
                        if self.shift {
                            if ti < self.text.len() {
                                if index == ti + 1 {
                                    self.select(index, None);
                                } else {
                                    self.select(index, Some(ti + 1));
                                }
                            }
                        } else {
                            let m = if index > ti {
                                index
                            } else {
                                ti
                            };
                            self.select(m, None);
                        }
                    },
                    None => {
                        if index == self.text.len() {
                        } else if self.shift {
                            self.select(index, Some(index + 1));
                        } else {
                            self.select(index + 1, None);
                        }
                    },
                }
            },
            Key::Char(c) => {
                if self.ctrl {
                    if c == 'v' {
                        let pasted: Vec<char> = match clipboard.get_text() {
                            Some(t) => clone_chars(t),
                            None => Vec::new(),
                        };
                        self.insert(to_index, &mut index, &pasted);
                    } else if c == 'c' {
                        if let Some(ti) = to_index {
                            if index != ti {
                                let lo = if index < ti {
                                    index
                                } else {
                                    ti
                                };
                                let hi = if index < ti {
                                    ti
                                } else {
                                    index
                                };
                                let part = crate::ui_string::copy_range(
                                    self.text.as_chars(),
                                    lo,
                                    hi,
                                );
                                clipboard.set_text(part);
                            }
                        }
                    } else if c == 'x' {
                        if let Some(ti) = to_index {
                            if index != ti {
                                let lo = if index < ti {
                                    index
                                } else {
                                    ti
                                };
                                let hi = if index < ti {
                                    ti
                                } else {
                                    index
                                };
                                let part = crate::ui_string::copy_range(
                                    self.text.as_chars(),
                                    lo,
                                    hi,
                                );
                                clipboard.set_text(part);
                                self.delete_selection(&mut index, ti);
                            }
                        }
                    } else if c == 'a' {
                        let len = self.text.len();
                        self.select(0, Some(len));
                    }
                } else {
                    let mut v: Vec<char> = Vec::new();
                    v.push(c);
                    self.insert(to_index, &mut index, &v);
                }
            },
            _ => {},
        }
    }
}

impl<Parent, State> UserControl<Parent, State> for TextBox {
    open spec fn sbounds(&self) -> Rect {
        self.surface
    }

    open spec fn inv(&self) -> bool {
        &&& self.surface.wf()
        &&& spec_selection_wf(self.selected, self.text.view().len())
    }

    proof fn wf_bounds(&self) {
    }

    fn surface(&self, parent: &Parent, state: &State) -> (r: Rect) {
        self.surface
    }

    /// While interactive: a primary click inside the box sets a caret at
    /// the index nearest the click (or extends the selection while shift is
    /// held), a click outside clears the selection, dragging with the
    /// button held extends the selection's free end, shift and ctrl are
    /// tracked through their key events, and every other key is handed to
    /// the editing rules.
    fn event(
        &mut self,
        clipboard: &mut Clipboard,
        ev: &Event,
        parent: &mut Parent,
        state: &mut State,
    ) -> (r: Result<(), UiError>)
        ensures
            r is Ok,
            *final(parent) == *old(parent),
            *final(state) == *old(state),
            final(self).state == old(self).state,
            final(self).text.spec_metrics() == old(self).text.spec_metrics(),
            !ev.is_geometry() && old(self).state != StateEnum::Enable ==> *final(self) == *old(
                self,
            ) && *final(clipboard) == *old(clipboard),
            ev.is_geometry() ==> *final(self) == (TextBox {
                surface: final(self).surface,
                ..*old(self)
            }) && *final(clipboard) == *old(clipboard),
            old(self).state == StateEnum::Enable ==> {
                &&& (ev matches Event::KeyDown { key: Key::LShift } ==> *final(self) == (TextBox {
                    shift: true,
                    ..*old(self)
                }))
                &&& (ev matches Event::KeyDown { key: Key::RShift } ==> *final(self) == (TextBox {
                    shift: true,
                    ..*old(self)
                }))
                &&& (ev matches Event::KeyUp { key: Key::LShift } ==> *final(self) == (TextBox {
                    shift: false,
                    ..*old(self)
                }))
                &&& (ev matches Event::KeyUp { key: Key::RShift } ==> *final(self) == (TextBox {
                    shift: false,
                    ..*old(self)
                }))
                &&& (ev matches Event::KeyDown { key: Key::LCtrl } ==> *final(self) == (TextBox {
                    ctrl: true,
                    ..*old(self)
                }))
                &&& (ev matches Event::KeyDown { key: Key::RCtrl } ==> *final(self) == (TextBox {
                    ctrl: true,
                    ..*old(self)
                }))
                &&& (ev matches Event::KeyUp { key: Key::LCtrl } ==> *final(self) == (TextBox {
                    ctrl: false,
                    ..*old(self)
                }))
                &&& (ev matches Event::KeyUp { key: Key::RCtrl } ==> *final(self) == (TextBox {
                    ctrl: false,
                    ..*old(self)
                }))
                &&& (ev matches Event::MouseButtonDown { mouse_btn, x, .. } ==> (mouse_btn
                    is Left && ev.spec_hover(old(self).surface) && !(old(self).shift && old(
                    self,
                ).selected is Some) ==> *final(self) == (TextBox {
                    selected: spec_caret(
                        old(self).spec_position_to_index(*x - old(self).surface.x),
                    ),
                    ..*old(self)
                })))
                &&& (ev matches Event::MouseButtonDown { mouse_btn, x, .. } ==> (match old(
                    self,
                ).selected {
                    Some(sel) => mouse_btn is Left && ev.spec_hover(old(self).surface) && old(
                        self,
                    ).shift ==> *final(self) == (TextBox {
                        selected: Some(
                            (
                                sel.0,
                                Some(
                                    old(self).spec_position_to_index(
                                        *x - old(self).surface.x,
                                    ) as usize,
                                ),
                            ),
                        ),
                        ..*old(self)
                    }),
                    None => true,
                }))
                &&& (ev matches Event::MouseButtonDown { mouse_btn, .. } ==> (!(mouse_btn is Left)
                    && ev.spec_hover(old(self).surface) ==> *final(self) == *old(self)))
                &&& (ev matches Event::MouseButtonDown { .. } ==> (!ev.spec_hover(
                    old(self).surface,
                ) ==> *final(self) == (TextBox { selected: None, ..*old(self) })))
                &&& (ev matches Event::MouseMotion { buttons, x, .. } ==> (match old(
                    self,
                ).selected {
                    Some(sel) => if buttons.left && ev.spec_hover(old(self).surface) {
                        *final(self) == (TextBox {
                            selected: Some(
                                (
                                    sel.0,
                                    Some(
                                        old(self).spec_position_to_index(
                                            *x - old(self).surface.x,
                                        ) as usize,
                                    ),
                                ),
                            ),
                            ..*old(self)
                        })
                    } else {
                        *final(self) == *old(self)
                    },
                    None => *final(self) == *old(self),
                }))
                &&& (ev matches Event::KeyDown { key } ==> (!spec_is_modifier(*key)
                    ==> spec_edit_step(
                    *old(self),
                    *old(clipboard),
                    *key,
                    *final(self),
                    *final(clipboard),
                )))
                &&& (ev matches Event::KeyUp { key } ==> (!spec_is_modifier(*key) ==> *final(self)
                    == *old(self)))
                &&& (ev matches Event::MouseButtonUp { .. } ==> *final(self) == *old(self))
                &&& (ev matches Event::MouseWheel { .. } ==> *final(self) == *old(self))
                &&& (ev matches Event::TextInput { .. } ==> *final(self) == *old(self))
                &&& (match *ev {
                    Event::KeyDown { key } => spec_is_modifier(key) ==> *final(clipboard) == *old(
                        clipboard,
                    ),
                    _ => *final(clipboard) == *old(clipboard),
                })
            },
    {
        match ev {
            Event::ElementMove { x, y } => {
                self.surface.x = *x;
                self.surface.y = *y;
                return Ok(());
            },
            Event::ElementResize { width, height } => {
                self.surface.width = *width;
                self.surface.height = *height;
                return Ok(());
            },
            _ => {},
        }
        if self.state != StateEnum::Enable {
            return Ok(());
        }
        let hovered = ev.hover(self.surface);
        match ev {
            Event::MouseButtonDown { mouse_btn: MouseButton::Left, x, .. } => {
                if hovered {
                    if self.shift && self.selected.is_some() {
                        let index1 = match self.selected {
                            Some(p) => p.0,
                            None => 0,
                        };
                        let index2 = self.position_to_index(*x - self.surface.x);
                        self.select(index1, Some(index2));
                    } else {
                        let index = self.position_to_index(*x - self.surface.x);
                        self.select(index, None);
                    }
                } else {
                    self.unselect();
                }
            },
            Event::MouseButtonDown { .. } => {
                if !hovered {
                    self.unselect();
                }
            },
            Event::MouseMotion { buttons, x, .. } => {
                if hovered && buttons.left {
                    if let Some((index1, _)) = self.selected {
                        let index2 = self.position_to_index(*x - self.surface.x);
                        self.select(index1, Some(index2));
                    }
                }
            },
            Event::KeyDown { key: Key::LShift } | Event::KeyDown { key: Key::RShift } => {
                self.shift = true;
            },
            Event::KeyUp { key: Key::LShift } | Event::KeyUp { key: Key::RShift } => {
                self.shift = false;
            },
            Event::KeyDown { key: Key::LCtrl } | Event::KeyDown { key: Key::RCtrl } => {
                self.ctrl = true;
            },
            Event::KeyUp { key: Key::LCtrl } | Event::KeyUp { key: Key::RCtrl } => {
                self.ctrl = false;
            },
            Event::KeyDown { key } => {
                self.edit_key(clipboard, *key);
            },
            _ => {},
        }
        Ok(())
    }

    fn update(
        &mut self,
        clipboard: &mut Clipboard,
        elapsed_ms: u64,
        parent: &mut Parent,
        state: &mut State,
    ) -> (r: Result<(), UiError>)
        ensures
            r is Ok,
            *final(self) == *old(self),
            *final(clipboard) == *old(clipboard),
            *final(parent) == *old(parent),
            *final(state) == *old(state),
    {
        Ok(())
    }

    /// While visible: fill the background, outline the box, draw the text,
    /// and draw the selection — a filled box between the bounds of a range,
    /// or a caret line at a bare caret's position.
    fn draw(&self, canvas: &mut Vec<DrawCmd>, parent: &Parent, state: &State) -> (r: Result<
        (),
        UiError,
    >)
        ensures
            r is Ok,
            self.state == StateEnum::Hidden ==> *final(canvas) == *old(canvas),
            self.state != StateEnum::Hidden ==> {
                let n = old(canvas)@.len() as int;
                &&& final(canvas)@.len() == n + 2 + (if self.text.view().len() > 0 {
                    1int
                } else {
                    0int
                }) + (if self.selected is Some {
                    1int
                } else {
                    0int
                })
                &&& final(canvas)@[n] == (DrawCmd::FillRect {
                    rect: self.surface,
                    color: self.back_color,
                })
                &&& final(canvas)@[n + 1] == (DrawCmd::OutlineRect {
                    rect: self.surface,
                    color: self.front_color,
                })
                &&& (self.text.view().len() > 0 ==> (final(canvas)@[n + 2]
                    matches DrawCmd::Text { text, dest, color } && text@ == self.text.view()
                    && dest == self.surface && color == self.front_color))
                &&& (match self.selected {
                    Some((anchor, Some(end))) => {
                        let p1 = self.spec_index_to_position(anchor as int);
                        let p2 = self.spec_index_to_position(end as int);
                        let lo = if p1 < p2 {
                            p1
                        } else {
                            p2
                        };
                        let hi = if p1 < p2 {
                            p2
                        } else {
                            p1
                        };
                        final(canvas)@.last() == (DrawCmd::FillRect {
                            rect: Rect {
                                x: (self.surface.x + lo) as i64,
                                y: self.surface.y,
                                width: (hi - lo) as i64,
                                height: self.surface.height,
                            },
                            color: self.select_box_color,
                        })
                    },
                    Some((anchor, None)) => {
                        let p = self.spec_index_to_position(anchor as int);
                        final(canvas)@.last() == (DrawCmd::Line {
                            x1: (self.surface.x + p) as i64,
                            y1: self.surface.y,
                            x2: (self.surface.x + p) as i64,
                            y2: (self.surface.y + self.surface.height) as i64,
                            color: self.select_line_color,
                        })
                    },
                    None => true,
                })
            },
    {
        if self.state == StateEnum::Hidden {
            return Ok(());
        }
        let ghost base = canvas@;
        canvas.push(DrawCmd::FillRect { rect: self.surface, color: self.back_color });
        proof {
            assert(canvas@.subrange(0, base.len() as int) =~= base);
        }
        let ghost p1 = canvas@;
        canvas.push(DrawCmd::OutlineRect { rect: self.surface, color: self.front_color });
        proof {
            assert(canvas@.subrange(0, p1.len() as int) =~= p1);
            lemma_prefix_chain(base, p1, canvas@);
        }
        if !self.text.is_empty() {
            let ghost p2 = canvas@;
            self.text.draw(canvas, self.surface, self.front_color);
            proof {
                lemma_prefix_chain(base, p2, canvas@);
                crate::ui_element::ui_rect::lemma_prefix_keeps_index(
                    p2,
                    canvas@,
                    base.len() as int,
                );
                crate::ui_element::ui_rect::lemma_prefix_keeps_index(
                    p2,
                    canvas@,
                    base.len() as int + 1,
                );
            }
        }
        if let Some((index, to_index)) = self.selected {
            match to_index {
                Some(ti) => {
                    let pos1 = self.index_to_position(index);
                    let pos2 = self.index_to_position(ti);
                    let lo = if pos1 < pos2 {
                        pos1
                    } else {
                        pos2
                    };
                    let hi = if pos1 < pos2 {
                        pos2
                    } else {
                        pos1
                    };
                    let ghost p3 = canvas@;
                    canvas.push(
                        DrawCmd::FillRect {
                            rect: Rect {
                                x: self.surface.x + lo,
                                y: self.surface.y,
                                width: hi - lo,
                                height: self.surface.height,
                            },
                            color: self.select_box_color,
                        },
                    );
                    proof {
                        assert(canvas@.subrange(0, p3.len() as int) =~= p3);
                        lemma_prefix_chain(base, p3, canvas@);
                    }
                },
                None => {
                    let pos = self.index_to_position(index);
                    let ghost p4 = canvas@;
                    canvas.push(
                        DrawCmd::Line {
                            x1: self.surface.x + pos,
                            y1: self.surface.y,
                            x2: self.surface.x + pos,
                            y2: self.surface.y + self.surface.height,
                            color: self.select_line_color,
                        },
                    );
                    proof {
                        assert(canvas@.subrange(0, p4.len() as int) =~= p4);
                        lemma_prefix_chain(base, p4, canvas@);
                    }
                },
            }
        }
        Ok(())
    }
}

/// `box_w * part / total` stays between zero and `box_w` when `part` is at
/// most `total`.
proof fn widths_mul_div_bounds(box_w: int, part: int, total: int)
    requires
        0 <= box_w <= COORD_LIMIT,
        0 <= part,
        part <= total || part <= 0xFFFF_FFFF,
        0 < total,
    ensures
        part <= total ==> 0 <= box_w * part / total <= box_w,
        0 <= box_w * part,
        box_w * part <= COORD_LIMIT * if part <= total {
            total
        } else {
            0xFFFF_FFFF
        },
{
    vstd::arithmetic::mul::lemma_mul_nonnegative(box_w, part);
    if part <= total {
        assert(box_w * part <= box_w * total) by {
            vstd::arithmetic::mul::lemma_mul_inequality(part, total, box_w);
            assert(part * box_w == box_w * part) by (nonlinear_arith);
            assert(total * box_w == box_w * total) by (nonlinear_arith);
        }
        vstd::arithmetic::div_mod::lemma_div_pos_is_pos(box_w * part, total);
        assert(box_w * total == total * box_w) by (nonlinear_arith);
        vstd::arithmetic::div_mod::lemma_multiply_divide_le(box_w * part, total, box_w);
        vstd::arithmetic::mul::lemma_mul_upper_bound(box_w, COORD_LIMIT as int, part, total);
    } else {
        vstd::arithmetic::mul::lemma_mul_upper_bound(
            box_w,
            COORD_LIMIT as int,
            part,
            0xFFFF_FFFF,
        );
    }
}

/// The advance width of the character at `i`.
fn advance_at(text: &UIString, i: usize) -> (a: u32)
    requires
        i < text.view().len(),
    ensures
        a as int == text.spec_metrics().advance_of(text.view()[i as int]),
{
    let chars = text.as_chars();
    metrics_of(text).advance(chars[i])
}

/// The measurement source of a string.
fn metrics_of(text: &UIString) -> (m: &FontMetrics)
    ensures
        *m == text.spec_metrics(),
{
    text.metrics_ref()
}

/// A whole string case-folded by the shift flag.
fn fold_chars(text: &Vec<char>, upper: bool) -> (r: Vec<char>)
    ensures
        r@ == spec_fold_chars(text@, upper),
{
    let mut r: Vec<char> = Vec::new();
    let mut i: usize = 0;
    while i < text.len()
        invariant
            i <= text@.len(),
            r@ == spec_fold_chars(text@, upper).take(i as int),
        decreases text@.len() - i,
    {
        let c = text[i];
        let u = c as u32;
        let folded: char = if upper {
            if 97 <= u && u <= 122 {
                ((u - 32) as u8) as char
            } else {
                c
            }
        } else {
            if 65 <= u && u <= 90 {
                ((u + 32) as u8) as char
            } else {
                c
            }
        };
        proof {
            assert(folded == spec_fold_char(text@[i as int], upper));
            assert(spec_fold_chars(text@, upper).take(i + 1) =~= spec_fold_chars(
                text@,
                upper,
            ).take(i as int).push(spec_fold_char(text@[i as int], upper)));
        }
        r.push(folded);
        i = i + 1;
    }
    proof {
        assert(spec_fold_chars(text@, upper).take(text@.len() as int) =~= spec_fold_chars(
            text@,
            upper,
        ));
    }
    r
}

} // verus!
