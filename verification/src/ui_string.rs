//! Text measurement and the measured string.
//!
//! Measurement is a capability outside the core; here it is modelled as
//! data: a table of per-character advance widths and a line height. A string
//! "fits" when its measured width and height stay within the measurement
//! bound; every mutation of a [`UIString`] is speculative, rolling itself
//! back when the result would not fit.
use vstd::prelude::*;

verus! {

/// Largest width or height the measurement capability reports; anything
/// beyond it is "too large", which mutations treat as "does not fit".
pub const MAX_TEXT_DIMENSION: u64 = 8192;

/// The measurement model: each character advances the pen by a fixed number
/// of pixels, looked up by code point, and every line is `height` pixels.
#[derive(Clone)]
pub struct FontMetrics {
    advances: Vec<u32>,
    default_advance: u32,
    height: u32,
}

impl FontMetrics {
    /// The advance width of one character.
    pub closed spec fn advance_of(self, c: char) -> int {
        if 0 <= (c as int) && (c as int) < self.advances@.len() {
            self.advances@[c as int] as int
        } else {
            self.default_advance as int
        }
    }

    /// The measured width of a string: the sum of its characters' advances.
    pub closed spec fn width_of(self, s: Seq<char>) -> int
        decreases s.len(),
    {
        if s.len() == 0 {
            0
        } else {
            self.width_of(s.drop_last()) + self.advance_of(s.last())
        }
    }

    /// The measured line height.
    pub closed spec fn spec_height(self) -> int {
        self.height as int
    }

    /// Whether a string fits within the measurement bound in both dimensions.
    pub open spec fn spec_fits(self, s: Seq<char>) -> bool {
        self.width_of(s) <= MAX_TEXT_DIMENSION && self.spec_height() <= MAX_TEXT_DIMENSION
    }

    /// Metrics with the given advance table: character `c` advances by
    /// `advances[c]` when `c` indexes the table and by `default_advance`
    /// otherwise; every line is `height` pixels.
    pub fn new(advances: Vec<u32>, default_advance: u32, height: u32) -> (m: FontMetrics)
        ensures
            forall|c: char|
                #[trigger] m.advance_of(c) == if 0 <= (c as int) && (c as int) < advances@.len() {
                    advances@[c as int] as int
                } else {
                    default_advance as int
                },
            m.spec_height() == height as int,
    {
        FontMetrics { advances, default_advance, height }
    }

    /// Metrics where every character advances by `advance` and lines are
    /// `height` pixels: a monospaced model.
    pub fn monospace(advance: u32, height: u32) -> (m: FontMetrics)
        ensures
            forall|c: char| #[trigger] m.advance_of(c) == advance as int,
            m.spec_height() == height as int,
    {
        FontMetrics { advances: Vec::new(), default_advance: advance, height }
    }

    /// The advance width of one character.
    pub fn advance(&self, c: char) -> (a: u32)
        ensures
            a as int == self.advance_of(c),
    {
        let idx = c as usize;
        if idx < self.advances.len() {
            self.advances[idx]
        } else {
            self.default_advance
        }
    }

    /// Width is never negative.
    pub proof fn lemma_width_nonneg(self, s: Seq<char>)
        ensures
            self.width_of(s) >= 0,
        decreases s.len(),
    {
        if s.len() > 0 {
            self.lemma_width_nonneg(s.drop_last());
        }
    }

    /// The width of a prefix never exceeds the width of the whole string.
    pub proof fn lemma_width_prefix_le(self, s: Seq<char>, i: int)
        requires
            0 <= i <= s.len(),
        ensures
            self.width_of(s.take(i)) <= self.width_of(s),
        decreases s.len() - i,
    {
        if i < s.len() {
            self.lemma_width_prefix_le(s.drop_last(), i);
            assert(s.take(i) =~= s.drop_last().take(i));
            self.lemma_width_nonneg(s.drop_last());
        } else {
            assert(s.take(i) =~= s);
        }
    }

    /// One character's advance never exceeds the width of a string holding
    /// it.
    pub proof fn lemma_advance_le_width(self, s: Seq<char>, i: int)
        requires
            0 <= i < s.len(),
        ensures
            self.advance_of(s[i]) <= self.width_of(s),
        decreases s.len(),
    {
        if i == s.len() - 1 {
            self.lemma_width_nonneg(s.drop_last());
        } else {
            self.lemma_advance_le_width(s.drop_last(), i);
        }
    }

    /// Width adds over concatenation.
    pub proof fn lemma_width_concat(self, a: Seq<char>, b: Seq<char>)
        ensures
            self.width_of(a + b) == self.width_of(a) + self.width_of(b),
        decreases b.len(),
    {
        if b.len() == 0 {
            assert(a + b =~= a);
        } else {
            self.lemma_width_concat(a, b.drop_last());
            assert((a + b).drop_last() =~= a + b.drop_last());
            assert((a + b).last() == b.last());
        }
    }
}

/// Measure `text`: its width and height when both are within the measurement
/// bound, or nothing when the text is too large in either dimension.
pub fn string_size(metrics: &FontMetrics, text: &Vec<char>) -> (r: Option<(u64, u64)>)
    ensures
        r is Some <==> metrics.spec_fits(text@),
        r matches Some(wh) ==> wh.0 as int == metrics.width_of(text@) && wh.1 as int
            == metrics.spec_height(),
{
    if self_height_exceeds(metrics) {
        return None;
    }
    let mut acc: u64 = 0;
    let n = text.len();
    let mut i: usize = 0;
    while i < n
        invariant
            0 <= i <= n,
            n == text@.len(),
            acc as int == metrics.width_of(text@.take(i as int)),
            acc <= MAX_TEXT_DIMENSION,
            metrics.spec_height() <= MAX_TEXT_DIMENSION,
        decreases n - i,
    {
        let a = metrics.advance(text[i]);
        proof {
            assert(text@.take(i + 1).drop_last() =~= text@.take(i as int));
            assert(text@.take(i + 1).last() == text@[i as int]);
        }
        acc = acc + a as u64;
        i = i + 1;
        if acc > MAX_TEXT_DIMENSION {
            proof {
                metrics.lemma_width_prefix_le(text@, i as int);
            }
            return None;
        }
    }
    proof {
        assert(text@.take(n as int) =~= text@);
    }
    Some((acc, height_of(metrics)))
}

/// Whether the line height alone already exceeds the measurement bound.
fn self_height_exceeds(metrics: &FontMetrics) -> (r: bool)
    ensures
        r == (metrics.spec_height() > MAX_TEXT_DIMENSION),
{
    metrics.height as u64 > MAX_TEXT_DIMENSION
}

/// The measured line height.
fn height_of(metrics: &FontMetrics) -> (h: u64)
    ensures
        h as int == metrics.spec_height(),
{
    metrics.height as u64
}

/// A string paired with its measurement source. Mutations are speculative:
/// they apply, re-measure, and roll back when the result would not fit,
/// reporting "no change" instead of failing.
#[derive(Clone)]
pub struct UIString {
    metrics: FontMetrics,
    text: Vec<char>,
}

impl UIString {
    /// The characters of the string.
    pub closed spec fn view(self) -> Seq<char> {
        self.text@
    }

    /// The measurement source the string was built with.
    pub closed spec fn spec_metrics(self) -> FontMetrics {
        self.metrics
    }

    /// Whether the current contents fit the measurement bound.
    pub open spec fn spec_fits(self) -> bool {
        self.spec_metrics().spec_fits(self.view())
    }

    /// A measured string, provided the text fits; nothing when it is too
    /// large.
    pub fn new(metrics: FontMetrics, text: Vec<char>) -> (r: Option<UIString>)
        ensures
            r is Some <==> metrics.spec_fits(text@),
            r matches Some(s) ==> s.view() == text@ && s.spec_metrics() == metrics,
    {
        let fits = string_size(&metrics, &text).is_some();
        if fits {
            Some(UIString { metrics, text })
        } else {
            None
        }
    }

    /// A string taken on faith without measuring; a later mutation that
    /// leaves it too large will simply refuse to apply.
    pub fn new_const(metrics: FontMetrics, text: Vec<char>) -> (s: UIString)
        ensures
            s.view() == text@,
            s.spec_metrics() == metrics,
    {
        UIString { metrics, text }
    }

    /// Insert one character at `index` (a character position). The insertion
    /// sticks exactly when the grown text still fits; otherwise the string is
    /// unchanged and `false` comes back.
    pub fn insert(&mut self, index: usize, ch: char) -> (r: bool)
        requires
            index <= old(self).view().len(),
        ensures
            final(self).spec_metrics() == old(self).spec_metrics(),
            r == old(self).spec_metrics().spec_fits(old(self).view().insert(index as int, ch)),
            r ==> final(self).view() == old(self).view().insert(index as int, ch),
            !r ==> final(self).view() == old(self).view(),
    {
        self.text.insert(index, ch);
        if string_size(&self.metrics, &self.text).is_some() {
            true
        } else {
            let ghost before = old(self).view();
            self.text.remove(index);
            proof {
                assert(self.text@ =~= before);
            }
            false
        }
    }

    /// Insert as much of `other` at `index` as fits: the longest prefix of
    /// `other` whose insertion still measures within bounds is kept, and the
    /// number of characters accepted comes back; zero means the string is
    /// unchanged.
    pub fn insert_str(&mut self, index: usize, other: &Vec<char>) -> (accepted: usize)
        requires
            index <= old(self).view().len(),
        ensures
            final(self).spec_metrics() == old(self).spec_metrics(),
            accepted <= other@.len(),
            final(self).view() == old(self).view().take(index as int) + other@.take(
                accepted as int,
            ) + old(self).view().skip(index as int),
            accepted > 0 ==> old(self).spec_metrics().spec_fits(final(self).view()),
            forall|k: int|
                accepted < k <= other@.len() ==> !old(self).spec_metrics().spec_fits(
                    #[trigger] spec_spliced(old(self).view(), index as int, other@, k),
                ),
    {
        let ghost base = self.view();
        let mut i: usize = other.len();
        while i > 0
            invariant
                i <= other@.len(),
                index <= base.len(),
                base == old(self).view(),
                self.view() == base,
                self.spec_metrics() == old(self).spec_metrics(),
                forall|k: int|
                    i < k <= other@.len() ==> !self.spec_metrics().spec_fits(
                        #[trigger] spec_spliced(base, index as int, other@, k),
                    ),
            decreases i,
        {
            let candidate = splice_chars(&self.text, index, other, i);
            if string_size(&self.metrics, &candidate).is_some() {
                self.text = candidate;
                return i;
            }
            i = i - 1;
        }
        proof {
            assert(spec_spliced(base, index as int, other@, 0) =~= base);
            assert(self.view() =~= spec_spliced(base, index as int, other@, 0));
        }
        0
    }

    /// Remove the `len` characters starting at `start`, handing them back,
    /// provided the shrunk text fits; otherwise nothing changes.
    pub fn drain(&mut self, start: usize, len: usize) -> (r: Option<Vec<char>>)
        requires
            start + len <= old(self).view().len(),
        ensures
            final(self).spec_metrics() == old(self).spec_metrics(),
            r is Some <==> old(self).spec_metrics().spec_fits(
                old(self).view().take(start as int) + old(self).view().skip(start + len),
            ),
            r matches Some(removed) ==> removed@ == old(self).view().subrange(
                start as int,
                start + len,
            ) && final(self).view() == old(self).view().take(start as int) + old(
                self,
            ).view().skip(start + len),
            r is None ==> final(self).view() == old(self).view(),
    {
        let n = self.text.len();
        assert(start + len <= n);
        let removed = copy_range(&self.text, start, start + len);
        let remaining = remove_range(&self.text, start, start + len);
        if string_size(&self.metrics, &remaining).is_some() {
            self.text = remaining;
            Some(removed)
        } else {
            None
        }
    }

    /// Remove the character at `index`, handing it back, provided the shrunk
    /// text fits; otherwise nothing changes.
    pub fn remove(&mut self, index: usize) -> (r: Option<char>)
        requires
            index < old(self).view().len(),
        ensures
            final(self).spec_metrics() == old(self).spec_metrics(),
            r is Some <==> old(self).spec_metrics().spec_fits(
                old(self).view().remove(index as int),
            ),
            r matches Some(c) ==> c == old(self).view()[index as int] && final(self).view() == old(
                self,
            ).view().remove(index as int),
            r is None ==> final(self).view() == old(self).view(),
    {
        let ghost before = self.view();
        let c = self.text.remove(index);
        proof {
            assert(before.remove(index as int) =~= before.take(index as int) + before.skip(
                index + 1,
            ));
        }
        if string_size(&self.metrics, &self.text).is_some() {
            Some(c)
        } else {
            self.text.insert(index, c);
            proof {
                assert(self.text@ =~= before);
            }
            None
        }
    }

    /// Whether the string is empty.
    pub fn is_empty(&self) -> (r: bool)
        ensures
            r == (self.view().len() == 0),
    {
        self.text.len() == 0
    }

    /// The measured size of the current contents, when they fit.
    pub fn size(&self) -> (r: Option<(u64, u64)>)
        ensures
            r is Some <==> self.spec_fits(),
            r matches Some(wh) ==> wh.0 as int == self.spec_metrics().width_of(self.view())
                && wh.1 as int == self.spec_metrics().spec_height(),
    {
        string_size(&self.metrics, &self.text)
    }

    /// The characters of the string.
    pub fn as_chars(&self) -> (r: &Vec<char>)
        ensures
            r@ == self.view(),
    {
        &self.text
    }

    /// Emit the command that rasterizes this string with the backend's
    /// font and blits it into `to`.
    pub fn draw(&self, canvas: &mut Vec<crate::draw::DrawCmd>, to: crate::geometry::Rect, color: crate::draw::Color)
        ensures
            final(canvas)@.len() == old(canvas)@.len() + 1,
            final(canvas)@.subrange(0, old(canvas)@.len() as int) == old(canvas)@,
            final(canvas)@.last() matches crate::draw::DrawCmd::Text { text, dest, color: c }
                && text@ == self.view() && dest == to && c == color,
    {
        let mut copy: Vec<char> = Vec::new();
        let mut i: usize = 0;
        while i < self.text.len()
            invariant
                i <= self.text@.len(),
                copy@ == self.text@.take(i as int),
            decreases self.text@.len() - i,
        {
            copy.push(self.text[i]);
            proof {
                assert(self.text@.take(i + 1) =~= self.text@.take(i as int).push(
                    self.text@[i as int],
                ));
            }
            i = i + 1;
        }
        proof {
            assert(self.text@.take(self.text@.len() as int) =~= self.text@);
        }
        canvas.push(crate::draw::DrawCmd::Text { text: copy, dest: to, color });
    }

    /// The measurement source.
    pub fn metrics_ref(&self) -> (r: &FontMetrics)
        ensures
            *r == self.spec_metrics(),
    {
        &self.metrics
    }

    /// The number of characters.
    pub fn len(&self) -> (r: usize)
        ensures
            r == self.view().len(),
    {
        self.text.len()
    }

    /// The measured width of the first `index` characters; meaningful only
    /// while the whole text fits, which keeps the sum small.
    pub fn width_upto(&self, index: usize) -> (w: u64)
        requires
            index <= self.view().len(),
            self.spec_fits(),
        ensures
            w as int == self.spec_metrics().width_of(self.view().take(index as int)),
            w <= MAX_TEXT_DIMENSION,
    {
        let mut acc: u64 = 0;
        let mut i: usize = 0;
        proof {
            self.spec_metrics().lemma_width_prefix_le(self.view(), index as int);
            self.spec_metrics().lemma_width_nonneg(self.view().take(0));
        }
        while i < index
            invariant
                0 <= i <= index <= self.view().len(),
                acc as int == self.spec_metrics().width_of(self.view().take(i as int)),
                acc <= MAX_TEXT_DIMENSION,
                self.spec_metrics().width_of(self.view().take(index as int)) <= MAX_TEXT_DIMENSION,
            decreases index - i,
        {
            let a = self.metrics.advance(self.text[i]);
            proof {
                assert(self.view().take(i + 1).drop_last() =~= self.view().take(i as int));
                assert(self.view().take(i + 1).last() == self.view()[i as int]);
                self.spec_metrics().lemma_width_prefix_in(self.view().take(index as int), i + 1);
                assert(self.view().take(index as int).take(i + 1) =~= self.view().take(i + 1));
            }
            acc = acc + a as u64;
            i = i + 1;
        }
        acc
    }
}

impl FontMetrics {
    /// A prefix of a prefix weighs no more than the outer prefix.
    proof fn lemma_width_prefix_in(self, s: Seq<char>, i: int)
        requires
            0 <= i <= s.len(),
        ensures
            self.width_of(s.take(i)) <= self.width_of(s),
    {
        self.lemma_width_prefix_le(s, i);
    }
}

impl Default for UIString {
    /// The empty string under zero-width metrics.
    fn default() -> (s: UIString)
        ensures
            s.view() == Seq::<char>::empty(),
    {
        UIString {
            metrics: FontMetrics { advances: Vec::new(), default_advance: 0, height: 0 },
            text: Vec::new(),
        }
    }
}

/// The result of inserting the first `blen` characters of `b` into `a` at
/// `index`.
pub open spec fn spec_spliced(a: Seq<char>, index: int, b: Seq<char>, blen: int) -> Seq<char> {
    a.take(index) + b.take(blen) + a.skip(index)
}

/// Build the splice of `b[..blen]` into `a` at `index`.
fn splice_chars(a: &Vec<char>, index: usize, b: &Vec<char>, blen: usize) -> (r: Vec<char>)
    requires
        index <= a@.len(),
        blen <= b@.len(),
    ensures
        r@ == spec_spliced(a@, index as int, b@, blen as int),
{
    let mut r: Vec<char> = Vec::new();
    let mut i: usize = 0;
    while i < index
        invariant
            i <= index <= a@.len(),
            r@ == a@.take(i as int),
        decreases index - i,
    {
        r.push(a[i]);
        proof {
            assert(a@.take(i + 1) =~= a@.take(i as int).push(a@[i as int]));
        }
        i = i + 1;
    }
    let mut j: usize = 0;
    while j < blen
        invariant
            j <= blen <= b@.len(),
            index <= a@.len(),
            r@ == a@.take(index as int) + b@.take(j as int),
        decreases blen - j,
    {
        r.push(b[j]);
        proof {
            assert(a@.take(index as int) + b@.take(j + 1) =~= (a@.take(index as int) + b@.take(
                j as int,
            )).push(b@[j as int]));
        }
        j = j + 1;
    }
    let mut k: usize = index;
    while k < a.len()
        invariant
            index <= k <= a@.len(),
            blen <= b@.len(),
            r@ == a@.take(index as int) + b@.take(blen as int) + a@.subrange(index as int, k as int),
        decreases a@.len() - k,
    {
        r.push(a[k]);
        proof {
            assert(a@.take(index as int) + b@.take(blen as int) + a@.subrange(index as int, k + 1)
                =~= (a@.take(index as int) + b@.take(blen as int) + a@.subrange(
                index as int,
                k as int,
            )).push(a@[k as int]));
        }
        k = k + 1;
    }
    proof {
        assert(a@.subrange(index as int, a@.len() as int) =~= a@.skip(index as int));
    }
    r
}

/// Copy the characters of `src` in `[from, to)`.
pub(crate) fn copy_range(src: &Vec<char>, from: usize, to: usize) -> (r: Vec<char>)
    requires
        from <= to <= src@.len(),
    ensures
        r@ == src@.subrange(from as int, to as int),
{
    let mut r: Vec<char> = Vec::new();
    let mut i: usize = from;
    while i < to
        invariant
            from <= i <= to <= src@.len(),
            r@ == src@.subrange(from as int, i as int),
        decreases to - i,
    {
        r.push(src[i]);
        proof {
            assert(src@.subrange(from as int, i + 1) =~= src@.subrange(from as int, i as int).push(
                src@[i as int],
            ));
        }
        i = i + 1;
    }
    r
}

/// Copy `src` with the characters in `[from, to)` left out.
fn remove_range(src: &Vec<char>, from: usize, to: usize) -> (r: Vec<char>)
    requires
        from <= to <= src@.len(),
    ensures
        r@ == src@.take(from as int) + src@.skip(to as int),
{
    let mut r: Vec<char> = Vec::new();
    let mut i: usize = 0;
    while i < from
        invariant
            i <= from <= to <= src@.len(),
            r@ == src@.take(i as int),
        decreases from - i,
    {
        r.push(src[i]);
        proof {
            assert(src@.take(i + 1) =~= src@.take(i as int).push(src@[i as int]));
        }
        i = i + 1;
    }
    let mut k: usize = to;
    while k < src.len()
        invariant
            to <= k <= src@.len(),
            from <= to,
            r@ == src@.take(from as int) + src@.subrange(to as int, k as int),
        decreases src@.len() - k,
    {
        r.push(src[k]);
        proof {
            assert(src@.take(from as int) + src@.subrange(to as int, k + 1) =~= (src@.take(
                from as int,
            ) + src@.subrange(to as int, k as int)).push(src@[k as int]));
        }
        k = k + 1;
    }
    proof {
        assert(src@.subrange(to as int, src@.len() as int) =~= src@.skip(to as int));
    }
    r
}

} // verus!
