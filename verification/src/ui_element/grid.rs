//! The constrained layout engine: a grid resolves mixed fixed/proportional
//! column and row specs into pixel bounds for a sparse cell-to-widget
//! mapping.
//!
//! Sizing rule, per axis: fixed tracks take their pixel size; what remains of
//! the grid's extent after all fixed tracks (an error if negative) is divided
//! among the proportional tracks in proportion to their ratio weights,
//! rounded down, with the final proportional track absorbing the rounding
//! remainder. A track's offset is the grid's origin plus the widths of every
//! track before it, so consecutive tracks tile the axis with no gap, no
//! overlap, and — whenever any proportional weight is present — no shortfall
//! at the grid's far edge.
use core::marker::PhantomData;
use vstd::arithmetic::div_mod::{
    lemma_div_is_ordered, lemma_div_multiples_vanish, lemma_div_pos_is_pos,
    lemma_multiply_divide_le, lemma_remainder_lower,
};
use vstd::arithmetic::mul::lemma_mul_inequality;
use vstd::prelude::*;

verus! {

use crate::clipboard::Clipboard;
use crate::draw::DrawCmd;
use crate::event::Event;
use crate::geometry::{spec_clamp_coord, Rect, COORD_LIMIT};
use crate::state_manager::StateManager;
use crate::user_control::{UiError, UserControl};

/// A column sizing spec: a fixed pixel width, or a weight entitling the
/// column to a share of the space left after fixed columns.
#[derive(Clone, Copy, Debug, PartialEq, Eq, Structural)]
pub enum ColType {
    Px(u32),
    Ratio(u32),
}

/// A row sizing spec, mirroring [`ColType`] for the vertical axis.
#[derive(Clone, Copy, Debug, PartialEq, Eq, Structural)]
pub enum RowType {
    Px(u32),
    Ratio(u32),
}

impl RowType {
    /// The same spec seen as a column spec, so both axes share one sizing
    /// theory.
    pub open spec fn as_col(self) -> ColType {
        match self {
            RowType::Px(v) => ColType::Px(v),
            RowType::Ratio(v) => ColType::Ratio(v),
        }
    }
}

/// Row specs seen as column specs.
pub open spec fn spec_rows_as_cols(rows: Seq<RowType>) -> Seq<ColType> {
    rows.map_values(|r: RowType| r.as_col())
}

impl ColType {
    /// The independent pixel share this spec resolves to, given the space
    /// remaining after fixed tracks and the sum of all ratio weights on the
    /// axis. During grid layout the axis's final proportional track
    /// additionally absorbs the rounding remainder (see `spec_track_size`).
    pub fn to_px(&self, remaining: i64, ratio_total: i128) -> (r: i64)
        requires
            0 <= remaining <= COORD_LIMIT,
            ratio_total >= 0,
            self matches ColType::Ratio(w) ==> w <= ratio_total,
        ensures
            r == spec_track_share(*self, remaining as int, ratio_total as int),
            0 <= r <= COORD_LIMIT,
    {
        match self {
            ColType::Px(v) => *v as i64,
            ColType::Ratio(v) => {
                if ratio_total > 0 {
                    proof {
                        vstd::arithmetic::mul::lemma_mul_upper_bound(
                            *v as int,
                            0xFFFF_FFFF,
                            remaining as int,
                            COORD_LIMIT as int,
                        );
                        vstd::arithmetic::mul::lemma_mul_nonnegative(
                            *v as int,
                            remaining as int,
                        );
                        vstd::arithmetic::div_mod::lemma_div_pos_is_pos(
                            (*v as int) * (remaining as int),
                            ratio_total as int,
                        );
                        assert((*v as int) * (remaining as int) <= (ratio_total as int) * (
                        remaining as int)) by {
                            lemma_mul_inequality(*v as int, ratio_total as int, remaining as int);
                        }
                        lemma_multiply_divide_le(
                            (*v as int) * (remaining as int),
                            ratio_total as int,
                            remaining as int,
                        );
                    }
                    (((*v as i128) * (remaining as i128)) / ratio_total) as i64
                } else {
                    0
                }
            },
        }
    }
}

impl RowType {
    /// The independent pixel share this spec resolves to; the rule is the
    /// column rule.
    pub fn to_px(&self, remaining: i64, ratio_total: i128) -> (r: i64)
        requires
            0 <= remaining <= COORD_LIMIT,
            ratio_total >= 0,
            self matches RowType::Ratio(w) ==> w <= ratio_total,
        ensures
            r == spec_track_share(self.as_col(), remaining as int, ratio_total as int),
            0 <= r <= COORD_LIMIT,
    {
        let c = match self {
            RowType::Px(v) => ColType::Px(*v),
            RowType::Ratio(v) => ColType::Ratio(*v),
        };
        c.to_px(remaining, ratio_total)
    }
}

/// An integer cell position in the grid: column `x`, row `y`.
#[derive(Clone, Copy, Debug, PartialEq, Eq, Hash, Structural)]
pub struct Pos {
    pub x: usize,
    pub y: usize,
}

/// The sum of the fixed pixel sizes in `specs`.
pub open spec fn spec_fixed_sum(specs: Seq<ColType>) -> int
    decreases specs.len(),
{
    if specs.len() == 0 {
        0
    } else {
        spec_fixed_sum(specs.drop_last()) + match specs.last() {
            ColType::Px(v) => v as int,
            ColType::Ratio(_) => 0,
        }
    }
}

/// The sum of the ratio weights in `specs`.
pub open spec fn spec_ratio_sum(specs: Seq<ColType>) -> int
    decreases specs.len(),
{
    if specs.len() == 0 {
        0
    } else {
        spec_ratio_sum(specs.drop_last()) + match specs.last() {
            ColType::Px(_) => 0,
            ColType::Ratio(v) => v as int,
        }
    }
}

/// The independent share of one track: a fixed track takes its pixel size;
/// a proportional track takes its weight's share of `remaining`, rounded
/// down. With no proportional weight at all the share is zero.
pub open spec fn spec_track_share(t: ColType, remaining: int, rsum: int) -> int {
    match t {
        ColType::Px(v) => v as int,
        ColType::Ratio(r) => if rsum > 0 {
            r * remaining / rsum
        } else {
            0
        },
    }
}

/// Whether any track at index `j` or later is proportional.
pub open spec fn spec_has_ratio_from(specs: Seq<ColType>, j: int) -> bool {
    exists|k: int| j <= k < specs.len() && specs[k] is Ratio
}

/// The rounded-down pixels promised to the proportional tracks before
/// index `j`.
pub open spec fn spec_ratio_alloc(specs: Seq<ColType>, j: int, remaining: int, rsum: int) -> int
    decreases j,
{
    if j <= 0 {
        0
    } else {
        spec_ratio_alloc(specs, j - 1, remaining, rsum) + if specs[j - 1] is Ratio {
            spec_track_share(specs[j - 1], remaining, rsum)
        } else {
            0
        }
    }
}

/// The resolved size of the track at `j`: a fixed track takes its pixel
/// size; a proportional track takes its rounded-down share — except the
/// axis's final proportional track, which also absorbs the rounding
/// remainder, so the proportional tracks together take exactly the
/// remaining space and the axis tiles the grid edge to edge.
pub open spec fn spec_track_size(specs: Seq<ColType>, j: int, remaining: int, rsum: int) -> int {
    match specs[j] {
        ColType::Px(v) => v as int,
        ColType::Ratio(r) => if rsum > 0 {
            if spec_has_ratio_from(specs, j + 1) {
                spec_track_share(specs[j], remaining, rsum)
            } else {
                remaining - spec_ratio_alloc(specs, j, remaining, rsum)
            }
        } else {
            0
        },
    }
}

/// The pixels granted to the proportional tracks before index `j`.
pub open spec fn spec_granted(specs: Seq<ColType>, j: int, remaining: int, rsum: int) -> int
    decreases j,
{
    if j <= 0 {
        0
    } else {
        spec_granted(specs, j - 1, remaining, rsum) + if specs[j - 1] is Ratio {
            spec_track_size(specs, j - 1, remaining, rsum)
        } else {
            0
        }
    }
}

/// The offset of track `j`: `origin` plus the sizes of tracks `0..j`.
/// `spec_track_offset(specs, specs.len(), ..)` is where the last track ends.
pub open spec fn spec_track_offset(
    specs: Seq<ColType>,
    j: int,
    remaining: int,
    rsum: int,
    origin: int,
) -> int
    decreases j,
{
    if j <= 0 {
        origin
    } else {
        spec_track_offset(specs, j - 1, remaining, rsum, origin) + spec_track_size(
            specs,
            j - 1,
            remaining,
            rsum,
        )
    }
}

/// Fixed sums are nonnegative and grow along prefixes.
pub proof fn lemma_fixed_sum_prefix(specs: Seq<ColType>, i: int)
    requires
        0 <= i <= specs.len(),
    ensures
        0 <= spec_fixed_sum(specs.take(i)) <= spec_fixed_sum(specs),
    decreases specs.len() - i,
{
    if i == specs.len() {
        assert(specs.take(i) =~= specs);
        lemma_fixed_sum_nonneg(specs);
    } else {
        lemma_fixed_sum_prefix(specs.drop_last(), i);
        assert(specs.take(i) =~= specs.drop_last().take(i));
    }
}

/// The fixed sum is never negative.
pub proof fn lemma_fixed_sum_nonneg(specs: Seq<ColType>)
    ensures
        spec_fixed_sum(specs) >= 0,
    decreases specs.len(),
{
    if specs.len() > 0 {
        lemma_fixed_sum_nonneg(specs.drop_last());
    }
}

/// The ratio sum is never negative and grows along prefixes.
pub proof fn lemma_ratio_sum_prefix(specs: Seq<ColType>, i: int)
    requires
        0 <= i <= specs.len(),
    ensures
        0 <= spec_ratio_sum(specs.take(i)) <= spec_ratio_sum(specs),
    decreases specs.len() - i,
{
    if i == specs.len() {
        assert(specs.take(i) =~= specs);
        lemma_ratio_sum_nonneg(specs);
    } else {
        lemma_ratio_sum_prefix(specs.drop_last(), i);
        assert(specs.take(i) =~= specs.drop_last().take(i));
    }
}

/// The ratio sum is never negative.
pub proof fn lemma_ratio_sum_nonneg(specs: Seq<ColType>)
    ensures
        spec_ratio_sum(specs) >= 0,
    decreases specs.len(),
{
    if specs.len() > 0 {
        lemma_ratio_sum_nonneg(specs.drop_last());
    }
}

/// One ratio weight never exceeds the sum of all of them.
pub proof fn lemma_ratio_le_sum(specs: Seq<ColType>, j: int)
    requires
        0 <= j < specs.len(),
        specs[j] matches ColType::Ratio(_),
    ensures
        (specs[j]->Ratio_0 as int) <= spec_ratio_sum(specs),
    decreases specs.len(),
{
    lemma_ratio_sum_nonneg(specs.drop_last());
    if j + 1 < specs.len() {
        lemma_ratio_le_sum(specs.drop_last(), j);
    }
}

/// Rounding down distributes sub-additively: dividing two parts loses no
/// more than dividing their sum.
pub proof fn lemma_div_sum_le(a: int, b: int, d: int)
    requires
        a >= 0,
        b >= 0,
        d > 0,
    ensures
        a / d + b / d <= (a + b) / d,
{
    lemma_remainder_lower(a, d);
    lemma_remainder_lower(b, d);
    lemma_div_pos_is_pos(a, d);
    lemma_div_pos_is_pos(b, d);
    let q = a / d + b / d;
    assert(a + b >= d * q) by (nonlinear_arith)
        requires
            a >= a / d * d,
            b >= b / d * d,
            q == a / d + b / d,
    ;
    assert((d * q) / d == q) by {
        lemma_div_multiples_vanish(q, d);
    }
    lemma_div_is_ordered(d * q, a + b, d);
}

/// A positive ratio-weight sum means some proportional track exists.
proof fn lemma_pos_ratio_sum_has_ratio(specs: Seq<ColType>)
    requires
        spec_ratio_sum(specs) > 0,
    ensures
        spec_has_ratio_from(specs, 0),
    decreases specs.len(),
{
    if specs.len() > 0 {
        match specs.last() {
            ColType::Ratio(v) => {
                if v > 0 {
                    assert(specs[specs.len() - 1] is Ratio);
                } else {
                    lemma_pos_ratio_sum_has_ratio(specs.drop_last());
                    let k = choose|k: int|
                        0 <= k < specs.drop_last().len() && specs.drop_last()[k] is Ratio;
                    assert(specs[k] is Ratio);
                }
            },
            ColType::Px(_) => {
                lemma_pos_ratio_sum_has_ratio(specs.drop_last());
                let k = choose|k: int|
                    0 <= k < specs.drop_last().len() && specs.drop_last()[k] is Ratio;
                assert(specs[k] is Ratio);
            },
        }
    }
}

/// The promised rounded-down shares are nonnegative and never exceed the
/// remaining space.
pub proof fn lemma_ratio_alloc_bounds(specs: Seq<ColType>, j: int, remaining: int, rsum: int)
    requires
        0 <= j <= specs.len(),
        remaining >= 0,
        rsum == spec_ratio_sum(specs),
    ensures
        0 <= spec_ratio_alloc(specs, j, remaining, rsum),
        rsum > 0 ==> spec_ratio_alloc(specs, j, remaining, rsum) <= spec_ratio_sum(specs.take(j))
            * remaining / rsum,
        spec_ratio_alloc(specs, j, remaining, rsum) <= remaining,
    decreases j,
{
    if j == 0 {
        assert(specs.take(0) =~= Seq::<ColType>::empty());
        if rsum > 0 {
            lemma_div_pos_is_pos(0 * remaining, rsum);
            assert(0 * remaining == 0) by (nonlinear_arith);
        }
    } else {
        lemma_ratio_alloc_bounds(specs, j - 1, remaining, rsum);
        assert(specs.take(j).drop_last() =~= specs.take(j - 1));
        assert(specs.take(j).last() == specs[j - 1]);
        if rsum > 0 {
            lemma_ratio_sum_nonneg(specs.take(j - 1));
            match specs[j - 1] {
                ColType::Px(_) => {
                    lemma_ratio_sum_prefix(specs, j - 1);
                    assert(spec_ratio_sum(specs.take(j - 1)) * remaining <= spec_ratio_sum(
                        specs.take(j),
                    ) * remaining) by (nonlinear_arith)
                        requires
                            spec_ratio_sum(specs.take(j - 1)) <= spec_ratio_sum(specs.take(j)),
                            remaining >= 0,
                    ;
                    lemma_div_is_ordered(
                        spec_ratio_sum(specs.take(j - 1)) * remaining,
                        spec_ratio_sum(specs.take(j)) * remaining,
                        rsum,
                    );
                },
                ColType::Ratio(r) => {
                    lemma_div_pos_is_pos(r * remaining, rsum);
                    lemma_div_sum_le(
                        spec_ratio_sum(specs.take(j - 1)) * remaining,
                        r * remaining,
                        rsum,
                    );
                    assert(spec_ratio_sum(specs.take(j - 1)) * remaining + r * remaining
                        == spec_ratio_sum(specs.take(j)) * remaining) by (nonlinear_arith)
                        requires
                            spec_ratio_sum(specs.take(j)) == spec_ratio_sum(specs.take(j - 1)) + r,
                    ;
                },
            }
            lemma_ratio_sum_prefix(specs, j);
            assert(spec_ratio_sum(specs.take(j)) * remaining <= rsum * remaining)
                by (nonlinear_arith)
                requires
                    spec_ratio_sum(specs.take(j)) <= rsum,
                    remaining >= 0,
            ;
            lemma_div_is_ordered(spec_ratio_sum(specs.take(j)) * remaining, rsum * remaining, rsum);
            assert(rsum * remaining / rsum == remaining) by {
                lemma_div_multiples_vanish(remaining, rsum);
                assert(rsum * remaining == remaining * rsum) by (nonlinear_arith);
            }
        }
    }
}

/// Every resolved track size is nonnegative, and a proportional track never
/// takes more than the whole remaining space.
pub proof fn lemma_track_size_bounds(specs: Seq<ColType>, j: int, remaining: int, rsum: int)
    requires
        0 <= j < specs.len(),
        remaining >= 0,
        rsum == spec_ratio_sum(specs),
    ensures
        0 <= spec_track_size(specs, j, remaining, rsum),
        specs[j] matches ColType::Ratio(_) ==> spec_track_size(specs, j, remaining, rsum)
            <= remaining,
{
    match specs[j] {
        ColType::Px(_) => {},
        ColType::Ratio(r) => {
            if rsum > 0 {
                if spec_has_ratio_from(specs, j + 1) {
                    lemma_div_pos_is_pos(r * remaining, rsum);
                    lemma_ratio_le_sum(specs, j);
                    assert(r * remaining <= rsum * remaining) by {
                        lemma_mul_inequality(r as int, rsum, remaining);
                    }
                    lemma_multiply_divide_le(r * remaining, rsum, remaining);
                } else {
                    lemma_ratio_alloc_bounds(specs, j, remaining, rsum);
                }
            }
        },
    }
}

/// The pixels granted before `j` never exceed the remaining space; they
/// equal the promised shares while a proportional track is still to come,
/// and once the final proportional track is behind they are the whole
/// remaining space.
pub proof fn lemma_granted_bounds(specs: Seq<ColType>, j: int, remaining: int, rsum: int)
    requires
        0 <= j <= specs.len(),
        remaining >= 0,
        rsum == spec_ratio_sum(specs),
    ensures
        0 <= spec_granted(specs, j, remaining, rsum) <= remaining,
        spec_has_ratio_from(specs, j) ==> spec_granted(specs, j, remaining, rsum)
            == spec_ratio_alloc(specs, j, remaining, rsum),
        rsum > 0 && !spec_has_ratio_from(specs, j) ==> spec_granted(specs, j, remaining, rsum)
            == remaining,
    decreases j,
{
    if j == 0 {
        if rsum > 0 && !spec_has_ratio_from(specs, 0) {
            lemma_pos_ratio_sum_has_ratio(specs);
        }
    } else {
        lemma_granted_bounds(specs, j - 1, remaining, rsum);
        lemma_ratio_alloc_bounds(specs, j - 1, remaining, rsum);
        lemma_ratio_alloc_bounds(specs, j, remaining, rsum);
        match specs[j - 1] {
            ColType::Px(_) => {
                if spec_has_ratio_from(specs, j - 1) {
                    let k = choose|k: int| j - 1 <= k < specs.len() && specs[k] is Ratio;
                    assert(j <= k < specs.len() && specs[k] is Ratio);
                }
                if spec_has_ratio_from(specs, j) {
                    let k = choose|k: int| j <= k < specs.len() && specs[k] is Ratio;
                    assert(j - 1 <= k < specs.len() && specs[k] is Ratio);
                }
            },
            ColType::Ratio(r) => {
                assert(spec_has_ratio_from(specs, j - 1)) by {
                    assert(specs[j - 1] is Ratio);
                }
                if rsum > 0 {
                    if spec_has_ratio_from(specs, j) {
                    } else {
                    }
                }
            },
        }
    }
}

/// A track's offset decomposes into the origin, the fixed pixels of the
/// tracks before it, and the proportional pixels granted before it.
proof fn lemma_offset_decomp(specs: Seq<ColType>, j: int, remaining: int, rsum: int, origin: int)
    requires
        0 <= j <= specs.len(),
    ensures
        spec_track_offset(specs, j, remaining, rsum, origin) == origin + spec_fixed_sum(
            specs.take(j),
        ) + spec_granted(specs, j, remaining, rsum),
    decreases j,
{
    if j > 0 {
        lemma_offset_decomp(specs, j - 1, remaining, rsum, origin);
        assert(specs.take(j).drop_last() =~= specs.take(j - 1));
        assert(specs.take(j).last() == specs[j - 1]);
    } else {
        assert(specs.take(0) =~= Seq::<ColType>::empty());
    }
}

/// Where the grid's tracks end: within the grid's own extent whenever the
/// fixed sizes fit, and — with any positive proportional weight present —
/// exactly at the grid's far edge. Together with the definitional facts
/// that track `j + 1` starts exactly where track `j` ends and every track
/// size is nonnegative, this is the tiling guarantee: resolved tracks cover
/// the axis from the origin on, in order, with no gaps, no overlaps, and no
/// overrun.
pub proof fn lemma_tracks_tile(specs: Seq<ColType>, extent: int, origin: int)
    requires
        spec_fixed_sum(specs) <= extent,
    ensures
        forall|j: int|
            0 <= j < specs.len() ==> #[trigger] spec_track_offset(
                specs,
                j + 1,
                extent - spec_fixed_sum(specs),
                spec_ratio_sum(specs),
                origin,
            ) == spec_track_offset(
                specs,
                j,
                extent - spec_fixed_sum(specs),
                spec_ratio_sum(specs),
                origin,
            ) + spec_track_size(
                specs,
                j,
                extent - spec_fixed_sum(specs),
                spec_ratio_sum(specs),
            ),
        forall|j: int|
            0 <= j < specs.len() ==> 0 <= #[trigger] spec_track_size(
                specs,
                j,
                extent - spec_fixed_sum(specs),
                spec_ratio_sum(specs),
            ),
        spec_track_offset(
            specs,
            specs.len() as int,
            extent - spec_fixed_sum(specs),
            spec_ratio_sum(specs),
            origin,
        ) <= origin + extent,
        origin <= spec_track_offset(
            specs,
            specs.len() as int,
            extent - spec_fixed_sum(specs),
            spec_ratio_sum(specs),
            origin,
        ),
        spec_ratio_sum(specs) > 0 ==> spec_track_offset(
            specs,
            specs.len() as int,
            extent - spec_fixed_sum(specs),
            spec_ratio_sum(specs),
            origin,
        ) == origin + extent,
{
    let remaining = extent - spec_fixed_sum(specs);
    let rsum = spec_ratio_sum(specs);
    lemma_fixed_sum_nonneg(specs);
    assert forall|j: int| 0 <= j < specs.len() implies 0 <= #[trigger] spec_track_size(
        specs,
        j,
        remaining,
        rsum,
    ) by {
        lemma_track_size_bounds(specs, j, remaining, rsum);
    }
    lemma_offset_decomp(specs, specs.len() as int, remaining, rsum, origin);
    lemma_granted_bounds(specs, specs.len() as int, remaining, rsum);
    assert(specs.take(specs.len() as int) =~= specs);
}

/// The cells tile the grid. For a grid whose fixed sizes fit and whose own
/// rectangle lies in the addressable range, every in-range cell's resolved
/// rectangle begins exactly where its left and upper neighbours end — no
/// gap and no overlap on either axis — the first column and row begin at
/// the grid's origin, and no cell reaches past the grid's far edges.
/// Proportional tracks hold exactly their weight's rounded share of the
/// remaining space, by the sizing rule itself.
pub proof fn lemma_cells_tile(cols: Seq<ColType>, rows: Seq<RowType>, surface: Rect, pos: Pos)
    requires
        surface.wf(),
        surface.x + surface.width <= COORD_LIMIT,
        surface.y + surface.height <= COORD_LIMIT,
        spec_fixed_sum(cols) <= surface.width,
        spec_fixed_sum(spec_rows_as_cols(rows)) <= surface.height,
        cols.len() <= usize::MAX,
        rows.len() <= usize::MAX,
        (pos.x as int) < cols.len(),
        (pos.y as int) < rows.len(),
    ensures
        pos.x == 0 ==> spec_cell_rect(cols, rows, surface, pos).x == surface.x,
        pos.y == 0 ==> spec_cell_rect(cols, rows, surface, pos).y == surface.y,
        (pos.x as int) + 1 < cols.len() ==> spec_cell_rect(cols, rows, surface, pos).x
            + spec_cell_rect(cols, rows, surface, pos).width == spec_cell_rect(
            cols,
            rows,
            surface,
            Pos { x: (pos.x + 1) as usize, y: pos.y },
        ).x,
        (pos.y as int) + 1 < rows.len() ==> spec_cell_rect(cols, rows, surface, pos).y
            + spec_cell_rect(cols, rows, surface, pos).height == spec_cell_rect(
            cols,
            rows,
            surface,
            Pos { x: pos.x, y: (pos.y + 1) as usize },
        ).y,
        spec_cell_rect(cols, rows, surface, pos).x + spec_cell_rect(cols, rows, surface, pos).width
            <= surface.x + surface.width,
        spec_cell_rect(cols, rows, surface, pos).y + spec_cell_rect(
            cols,
            rows,
            surface,
            pos,
        ).height <= surface.y + surface.height,
        spec_cell_rect(cols, rows, surface, pos).width >= 0,
        spec_cell_rect(cols, rows, surface, pos).height >= 0,
        spec_ratio_sum(cols) > 0 && (pos.x as int) + 1 == cols.len() ==> spec_cell_rect(
            cols,
            rows,
            surface,
            pos,
        ).x + spec_cell_rect(cols, rows, surface, pos).width == surface.x + surface.width,
        spec_ratio_sum(spec_rows_as_cols(rows)) > 0 && (pos.y as int) + 1 == rows.len()
            ==> spec_cell_rect(cols, rows, surface, pos).y + spec_cell_rect(
            cols,
            rows,
            surface,
            pos,
        ).height == surface.y + surface.height,
{
    let rcols = spec_rows_as_cols(rows);
    let remw = surface.width - spec_fixed_sum(cols);
    let rsw = spec_ratio_sum(cols);
    let remh = surface.height - spec_fixed_sum(rcols);
    let rsh = spec_ratio_sum(rcols);
    lemma_tracks_tile(cols, surface.width as int, surface.x as int);
    lemma_tracks_tile(rcols, surface.height as int, surface.y as int);
    lemma_offset_in_extent(cols, pos.x as int, surface.width as int, surface.x as int);
    lemma_offset_in_extent(cols, pos.x + 1, surface.width as int, surface.x as int);
    lemma_offset_in_extent(rcols, pos.y as int, surface.height as int, surface.y as int);
    lemma_offset_in_extent(rcols, pos.y + 1, surface.height as int, surface.y as int);
    lemma_track_size_bounds(cols, pos.x as int, remw, rsw);
    lemma_track_size_bounds(rcols, pos.y as int, remh, rsh);
    lemma_offset_le_end(cols, pos.x + 1, remw, rsw, surface.x as int);
    lemma_offset_le_end(rcols, pos.y + 1, remh, rsh, surface.y as int);
}

/// Offsets grow with the track index, each step by that track's size.
proof fn lemma_offset_le_end(specs: Seq<ColType>, j: int, remaining: int, rsum: int, origin: int)
    requires
        0 <= j <= specs.len(),
        remaining >= 0,
        rsum == spec_ratio_sum(specs),
    ensures
        spec_track_offset(specs, j, remaining, rsum, origin) <= spec_track_offset(
            specs,
            specs.len() as int,
            remaining,
            rsum,
            origin,
        ),
    decreases specs.len() - j,
{
    if j < specs.len() {
        lemma_track_size_bounds(specs, j, remaining, rsum);
        lemma_offset_le_end(specs, j + 1, remaining, rsum, origin);
    }
}

/// Every track offset stays between the origin and the origin plus the
/// grid's extent, whenever the fixed sizes fit inside the extent.
pub proof fn lemma_offset_in_extent(specs: Seq<ColType>, j: int, extent: int, origin: int)
    requires
        0 <= j <= specs.len(),
        spec_fixed_sum(specs) <= extent,
    ensures
        origin <= spec_track_offset(
            specs,
            j,
            extent - spec_fixed_sum(specs),
            spec_ratio_sum(specs),
            origin,
        ) <= origin + extent,
{
    let remaining = extent - spec_fixed_sum(specs);
    let rsum = spec_ratio_sum(specs);
    lemma_fixed_sum_nonneg(specs);
    lemma_fixed_sum_prefix(specs, j);
    lemma_offset_decomp(specs, j, remaining, rsum, origin);
    lemma_granted_bounds(specs, j, remaining, rsum);
}

/// `n` clamped into the range of an `i64`, for reporting a requested extent.
pub open spec fn spec_sat64(n: int) -> i64 {
    if n > i64::MAX {
        i64::MAX
    } else if n < i64::MIN {
        i64::MIN
    } else {
        n as i64
    }
}

/// The cell positions of the stored elements, in storage order.
pub open spec fn spec_keys<C>(s: Seq<(Pos, C)>) -> Seq<Pos> {
    s.map_values(|e: (Pos, C)| e.0)
}

/// No cell position occurs twice.
pub open spec fn spec_keys_unique(keys: Seq<Pos>) -> bool {
    forall|i: int, j: int| 0 <= i < j < keys.len() ==> keys[i] != keys[j]
}

/// The first element stored at `pos`, if any.
pub open spec fn spec_lookup<C>(s: Seq<(Pos, C)>, pos: Pos) -> Option<C>
    decreases s.len(),
{
    if s.len() == 0 {
        None
    } else if s.first().0 == pos {
        Some(s.first().1)
    } else {
        spec_lookup(s.drop_first(), pos)
    }
}

/// The storage index of the first element at `pos`, or `-1`.
pub open spec fn spec_index_of_key<C>(s: Seq<(Pos, C)>, pos: Pos) -> int
    decreases s.len(),
{
    if s.len() == 0 {
        -1
    } else if s.first().0 == pos {
        0
    } else {
        let r = spec_index_of_key(s.drop_first(), pos);
        if r < 0 {
            -1
        } else {
            r + 1
        }
    }
}

/// A structural edit a grid applies between tick and the next frame's
/// layout re-run: cell contents, whole spec axes, or everything at once.
pub enum GridOp<C> {
    /// Put a widget at this cell, replacing any current occupant.
    SetElement(Pos, C),
    /// Empty this cell; a vacant cell stays vacant.
    RemoveElement(Pos),
    /// Replace the column specs.
    SetCols(Vec<ColType>),
    /// Replace the row specs.
    SetRows(Vec<RowType>),
    /// Remove every column, row and element.
    Clear,
}

/// `keys` without the first occurrence of `pos`.
pub open spec fn spec_remove_key(keys: Seq<Pos>, pos: Pos) -> Seq<Pos>
    decreases keys.len(),
{
    if keys.len() == 0 {
        keys
    } else if keys.first() == pos {
        keys.drop_first()
    } else {
        seq![keys.first()] + spec_remove_key(keys.drop_first(), pos)
    }
}

/// The cell positions after one op.
pub open spec fn spec_apply_op_keys<C>(keys: Seq<Pos>, op: GridOp<C>) -> Seq<Pos> {
    match op {
        GridOp::SetElement(pos, _) => if keys.contains(pos) {
            keys
        } else {
            keys.push(pos)
        },
        GridOp::RemoveElement(pos) => spec_remove_key(keys, pos),
        GridOp::SetCols(_) => keys,
        GridOp::SetRows(_) => keys,
        GridOp::Clear => Seq::empty(),
    }
}

/// The cell positions after a whole drained queue, first to last.
pub open spec fn spec_apply_ops_keys<C>(keys: Seq<Pos>, ops: Seq<GridOp<C>>) -> Seq<Pos>
    decreases ops.len(),
{
    if ops.len() == 0 {
        keys
    } else {
        spec_apply_ops_keys(spec_apply_op_keys(keys, ops.first()), ops.drop_first())
    }
}

/// The column specs after a whole drained queue.
pub open spec fn spec_apply_ops_cols<C>(cols: Seq<ColType>, ops: Seq<GridOp<C>>) -> Seq<ColType>
    decreases ops.len(),
{
    if ops.len() == 0 {
        cols
    } else {
        let next = match ops.first() {
            GridOp::SetCols(v) => v@,
            GridOp::Clear => Seq::empty(),
            _ => cols,
        };
        spec_apply_ops_cols(next, ops.drop_first())
    }
}

/// The row specs after a whole drained queue.
pub open spec fn spec_apply_ops_rows<C>(rows: Seq<RowType>, ops: Seq<GridOp<C>>) -> Seq<RowType>
    decreases ops.len(),
{
    if ops.len() == 0 {
        rows
    } else {
        let next = match ops.first() {
            GridOp::SetRows(v) => v@,
            GridOp::Clear => Seq::empty(),
            _ => rows,
        };
        spec_apply_ops_rows(next, ops.drop_first())
    }
}

/// The resolved rectangle of the cell at `pos`, for a grid with the given
/// specs and bounds: track offsets clamped into the addressable range, and
/// the tracks' resolved sizes.
pub open spec fn spec_cell_rect(
    cols: Seq<ColType>,
    rows: Seq<RowType>,
    surface: Rect,
    pos: Pos,
) -> Rect {
    let rcols = spec_rows_as_cols(rows);
    let remw = surface.width - spec_fixed_sum(cols);
    let rsw = spec_ratio_sum(cols);
    let remh = surface.height - spec_fixed_sum(rcols);
    let rsh = spec_ratio_sum(rcols);
    Rect {
        x: spec_sat64(spec_clamp_coord(spec_track_offset(cols, pos.x as int, remw, rsw, surface.x as int))),
        y: spec_sat64(
            spec_clamp_coord(spec_track_offset(rcols, pos.y as int, remh, rsh, surface.y as int)),
        ),
        width: spec_sat64(spec_track_size(cols, pos.x as int, remw, rsw)),
        height: spec_sat64(spec_track_size(rcols, pos.y as int, remh, rsh)),
    }
}

/// The row specs as column specs, so one sizing routine serves both axes.
fn cols_of_rows(rows: &Vec<RowType>) -> (r: Vec<ColType>)
    ensures
        r@ == spec_rows_as_cols(rows@),
{
    let mut r: Vec<ColType> = Vec::new();
    let mut i: usize = 0;
    while i < rows.len()
        invariant
            i <= rows@.len(),
            r@ == spec_rows_as_cols(rows@).take(i as int),
        decreases rows@.len() - i,
    {
        let c = match rows[i] {
            RowType::Px(v) => ColType::Px(v),
            RowType::Ratio(v) => ColType::Ratio(v),
        };
        r.push(c);
        proof {
            assert(spec_rows_as_cols(rows@).take(i + 1) =~= spec_rows_as_cols(rows@).take(
                i as int,
            ).push(rows@[i as int].as_col()));
        }
        i = i + 1;
    }
    proof {
        assert(spec_rows_as_cols(rows@).take(rows@.len() as int) =~= spec_rows_as_cols(rows@));
    }
    r
}

/// The exact fixed-pixel sum and ratio-weight sum of one axis's specs.
fn axis_sums(specs: &Vec<ColType>) -> (r: (i128, i128))
    ensures
        r.0 == spec_fixed_sum(specs@),
        r.1 == spec_ratio_sum(specs@),
        r.0 >= 0,
        r.1 >= 0,
{
    let mut fixed: i128 = 0;
    let mut ratio: i128 = 0;
    let mut i: usize = 0;
    while i < specs.len()
        invariant
            i <= specs@.len(),
            fixed == spec_fixed_sum(specs@.take(i as int)),
            ratio == spec_ratio_sum(specs@.take(i as int)),
            0 <= fixed <= (i as int) * 0xFFFF_FFFF,
            0 <= ratio <= (i as int) * 0xFFFF_FFFF,
        decreases specs@.len() - i,
    {
        proof {
            assert(specs@.take(i + 1).drop_last() =~= specs@.take(i as int));
            assert(specs@.take(i + 1).last() == specs@[i as int]);
        }
        match specs[i] {
            ColType::Px(v) => {
                fixed = fixed + v as i128;
            },
            ColType::Ratio(v) => {
                ratio = ratio + v as i128;
            },
        }
        i = i + 1;
    }
    proof {
        assert(specs@.take(specs@.len() as int) =~= specs@);
    }
    (fixed, ratio)
}

/// The resolved size of every track of one axis: the independent shares,
/// with the final proportional track absorbing the rounding remainder.
#[verifier::loop_isolation(false)]
fn track_sizes(specs: &Vec<ColType>, remaining: i64, rsum: i128) -> (r: Vec<i64>)
    requires
        0 <= remaining <= COORD_LIMIT,
        rsum == spec_ratio_sum(specs@),
    ensures
        r@.len() == specs@.len(),
        forall|j: int|
            0 <= j < specs@.len() ==> #[trigger] r@[j] == spec_track_size(
                specs@,
                j,
                remaining as int,
                rsum as int,
            ) && 0 <= r@[j] <= COORD_LIMIT,
{
    proof {
        lemma_ratio_sum_nonneg(specs@);
    }
    let n = specs.len();
    let mut last_ratio: usize = n;
    let mut i: usize = 0;
    while i < n
        invariant
            i <= n,
            last_ratio == n || (last_ratio < i && specs@[last_ratio as int] is Ratio),
            forall|k: int|
                0 <= k < i && (#[trigger] specs@[k]) is Ratio ==> last_ratio < n && k
                    <= last_ratio,
        decreases n - i,
    {
        if let ColType::Ratio(_) = specs[i] {
            last_ratio = i;
        }
        i = i + 1;
    }
    let mut alloc: i64 = 0;
    let mut r: Vec<i64> = Vec::new();
    let mut j: usize = 0;
    while j < n
        invariant
            j <= n,
            r@.len() == j,
            alloc == spec_ratio_alloc(specs@, j as int, remaining as int, rsum as int),
            0 <= alloc <= remaining,
            forall|k: int|
                0 <= k < j ==> #[trigger] r@[k] == spec_track_size(
                    specs@,
                    k,
                    remaining as int,
                    rsum as int,
                ) && 0 <= r@[k] <= COORD_LIMIT,
        decreases n - j,
    {
        let w: i64;
        match specs[j] {
            ColType::Px(v) => {
                w = v as i64;
            },
            ColType::Ratio(v) => {
                if rsum > 0 {
                    proof {
                        lemma_div_pos_is_pos((v as int) * (remaining as int), rsum as int);
                        lemma_ratio_le_sum(specs@, j as int);
                        assert((v as int) * (remaining as int) <= (rsum as int) * (
                        remaining as int)) by {
                            lemma_mul_inequality(v as int, rsum as int, remaining as int);
                        }
                        lemma_multiply_divide_le(
                            (v as int) * (remaining as int),
                            rsum as int,
                            remaining as int,
                        );
                        vstd::arithmetic::mul::lemma_mul_upper_bound(
                            v as int,
                            0xFFFF_FFFF,
                            remaining as int,
                            COORD_LIMIT as int,
                        );
                        vstd::arithmetic::mul::lemma_mul_nonnegative(v as int, remaining as int);
                        lemma_ratio_alloc_bounds(specs@, j + 1, remaining as int, rsum as int);
                    }
                    let share: i64 = (((v as i128) * (remaining as i128)) / rsum) as i64;
                    if j == last_ratio {
                        proof {
                            assert(!spec_has_ratio_from(specs@, j + 1)) by {
                                if spec_has_ratio_from(specs@, j + 1) {
                                    let k = choose|k: int|
                                        j + 1 <= k < specs@.len() && specs@[k] is Ratio;
                                    assert(k <= last_ratio);
                                }
                            }
                        }
                        w = remaining - alloc;
                    } else {
                        proof {
                            assert(spec_has_ratio_from(specs@, j + 1)) by {
                                assert(specs@[last_ratio as int] is Ratio && j < last_ratio
                                    && last_ratio < specs@.len());
                            }
                        }
                        w = share;
                    }
                    alloc = alloc + share;
                } else {
                    w = 0;
                }
            },
        }
        r.push(w);
        j = j + 1;
    }
    r
}

/// The offset of every track of one axis, plus where the last track ends:
/// entry `j` is the grid origin plus the sizes of tracks `0..j`.
fn track_offsets(
    sizes: &Vec<i64>,
    origin: i64,
    extent: i64,
    Ghost(specs): Ghost<Seq<ColType>>,
    Ghost(remaining): Ghost<int>,
    Ghost(rsum): Ghost<int>,
) -> (r: Vec<i64>)
    requires
        -COORD_LIMIT <= origin <= COORD_LIMIT,
        0 <= extent <= COORD_LIMIT,
        sizes@.len() == specs.len(),
        remaining == extent - spec_fixed_sum(specs),
        rsum == spec_ratio_sum(specs),
        spec_fixed_sum(specs) <= extent,
        forall|j: int|
            0 <= j < specs.len() ==> #[trigger] sizes@[j] == spec_track_size(
                specs,
                j,
                remaining,
                rsum,
            ),
    ensures
        r@.len() == sizes@.len() + 1,
        forall|j: int|
            0 <= j <= sizes@.len() ==> #[trigger] r@[j] == spec_track_offset(
                specs,
                j,
                remaining,
                rsum,
                origin as int,
            ),
{
    let mut r: Vec<i64> = Vec::new();
    let mut off: i64 = origin;
    r.push(off);
    let mut i: usize = 0;
    while i < sizes.len()
        invariant
            i <= sizes@.len(),
            sizes@.len() == specs.len(),
            -COORD_LIMIT <= origin <= COORD_LIMIT,
            0 <= extent <= COORD_LIMIT,
            remaining == extent - spec_fixed_sum(specs),
            rsum == spec_ratio_sum(specs),
            spec_fixed_sum(specs) <= extent,
            forall|j: int|
                0 <= j < specs.len() ==> #[trigger] sizes@[j] == spec_track_size(
                    specs,
                    j,
                    remaining,
                    rsum,
                ),
            r@.len() == i + 1,
            off == spec_track_offset(specs, i as int, remaining, rsum, origin as int),
            forall|j: int|
                0 <= j <= i ==> #[trigger] r@[j] == spec_track_offset(
                    specs,
                    j,
                    remaining,
                    rsum,
                    origin as int,
                ),
        decreases sizes@.len() - i,
    {
        proof {
            lemma_offset_in_extent(specs, i as int, extent as int, origin as int);
            lemma_offset_in_extent(specs, i + 1, extent as int, origin as int);
        }
        off = off + sizes[i];
        r.push(off);
        i = i + 1;
    }
    r
}

/// If the element at storage index `j` is the first one at `pos`, lookups
/// find exactly it.
proof fn lemma_lookup_at<C>(s: Seq<(Pos, C)>, pos: Pos, j: int)
    requires
        0 <= j < s.len(),
        s[j].0 == pos,
        forall|k: int| 0 <= k < j ==> (#[trigger] s[k]).0 != pos,
    ensures
        spec_lookup(s, pos) == Some(s[j].1),
        spec_index_of_key(s, pos) == j,
    decreases j,
{
    if j > 0 {
        lemma_lookup_at(s.drop_first(), pos, j - 1);
    }
}

/// If no element sits at `pos`, lookups find nothing.
proof fn lemma_lookup_absent<C>(s: Seq<(Pos, C)>, pos: Pos)
    requires
        forall|k: int| 0 <= k < s.len() ==> (#[trigger] s[k]).0 != pos,
    ensures
        spec_lookup(s, pos) is None,
        spec_index_of_key(s, pos) == -1,
    decreases s.len(),
{
    if s.len() > 0 {
        lemma_lookup_absent(s.drop_first(), pos);
    }
}

/// Removing the first occurrence of `pos` at index `j` is the pointwise
/// removal of that index.
proof fn lemma_remove_key_at(keys: Seq<Pos>, pos: Pos, j: int)
    requires
        0 <= j < keys.len(),
        keys[j] == pos,
        forall|k: int| 0 <= k < j ==> keys[k] != pos,
    ensures
        spec_remove_key(keys, pos) =~= keys.remove(j),
    decreases j,
{
    if j > 0 {
        lemma_remove_key_at(keys.drop_first(), pos, j - 1);
    }
}

/// Removing an absent key changes nothing.
proof fn lemma_remove_key_absent(keys: Seq<Pos>, pos: Pos)
    requires
        forall|k: int| 0 <= k < keys.len() ==> keys[k] != pos,
    ensures
        spec_remove_key(keys, pos) =~= keys,
    decreases keys.len(),
{
    if keys.len() > 0 {
        lemma_remove_key_absent(keys.drop_first(), pos);
    }
}

/// The grid: a sparse cell-to-widget mapping under mixed fixed and
/// proportional column and row specs.
pub struct Grid<Parent, State, Child: UserControl<Parent, State>> {
    pub parent: PhantomData<Parent>,
    pub state: PhantomData<State>,
    /// The occupied cells, each position at most once.
    pub elements: Vec<(Pos, Child)>,
    /// The fixed pixel width demanded by the columns at the last layout
    /// pass, stopped at the numeric ceiling.
    pub static_x: i64,
    /// The fixed pixel height demanded by the rows at the last layout pass.
    pub static_y: i64,
    pub cols: Vec<ColType>,
    pub rows: Vec<RowType>,
    pub surface: Rect,
    /// Structural edits queued during traversal, drained once per tick.
    pub state_manager: StateManager<GridOp<Child>>,
}

impl<Parent, State, Child: UserControl<Parent, State>> Grid<Parent, State, Child> {
    /// Every queued cell replacement carries a well-formed widget.
    pub open spec fn queue_wf(&self) -> bool {
        forall|k: int|
            0 <= k < self.state_manager.view().len() ==> (#[trigger] self.state_manager.view()[k]
                matches GridOp::SetElement(_, c) ==> c.inv())
    }

    /// All stored widgets are well formed.
    pub open spec fn elems_wf(&self) -> bool {
        forall|i: int| 0 <= i < self.elements@.len() ==> (#[trigger] self.elements@[i]).1.inv()
    }

    /// The grid's fixed column and row demands exceed the given extents:
    /// the layout error condition.
    pub open spec fn spec_overflows_for(&self, width: i64, height: i64) -> bool {
        spec_fixed_sum(self.cols@) > width || spec_fixed_sum(spec_rows_as_cols(self.rows@))
            > height
    }

    /// The grid's fixed column and row demands exceed its own extent.
    pub open spec fn spec_overflows(&self) -> bool {
        self.spec_overflows_for(self.surface.width, self.surface.height)
    }

    /// Every occupied cell within the spec ranges has exactly the bounds the
    /// sizing rule resolves for it.
    pub open spec fn spec_laid_out(&self) -> bool {
        forall|i: int|
            0 <= i < self.elements@.len() ==> ((#[trigger] self.elements@[i]).0.x < self.cols@.len()
                && self.elements@[i].0.y < self.rows@.len() ==> self.elements@[i].1.sbounds()
                == spec_cell_rect(self.cols@, self.rows@, self.surface, self.elements@[i].0))
    }

    /// A grid owning the given specs and cells, with the zero rectangle as
    /// bounds and an empty mutation queue. Each cell may be given at most
    /// once.
    pub fn new(cols: Vec<ColType>, rows: Vec<RowType>, elements: Vec<(Pos, Child)>) -> (g: Self)
        requires
            spec_keys_unique(spec_keys(elements@)),
            forall|i: int| 0 <= i < elements@.len() ==> (#[trigger] elements@[i]).1.inv(),
        ensures
            g.cols@ == cols@,
            g.rows@ == rows@,
            g.elements@ == elements@,
            g.surface == crate::geometry::spec_zero_rect(),
            g.static_x == 0 && g.static_y == 0,
            g.state_manager.view() == Seq::<GridOp<Child>>::empty(),
            g.inv(),
    {
        Grid {
            parent: PhantomData,
            state: PhantomData,
            elements,
            static_x: 0,
            static_y: 0,
            cols,
            rows,
            surface: Rect { x: 0, y: 0, width: 0, height: 0 },
            state_manager: StateManager::new(),
        }
    }

    /// Drop every column, row and element; bounds and queue stay.
    pub fn clear(&mut self)
        ensures
            final(self).cols@ == Seq::<ColType>::empty(),
            final(self).rows@ == Seq::<RowType>::empty(),
            final(self).elements@ == Seq::<(Pos, Child)>::empty(),
            final(self).surface == old(self).surface,
            final(self).state_manager == old(self).state_manager,
            final(self).static_x == old(self).static_x,
            final(self).static_y == old(self).static_y,
    {
        self.cols.clear();
        self.rows.clear();
        self.elements.clear();
    }

    /// The row specs.
    pub fn rows(&self) -> (r: &Vec<RowType>)
        ensures
            r@ == self.rows@,
    {
        &self.rows
    }

    /// The column specs.
    pub fn cols(&self) -> (r: &Vec<ColType>)
        ensures
            r@ == self.cols@,
    {
        &self.cols
    }

    /// The widget at cell `(x, y)`, if that cell is occupied.
    #[verifier::loop_isolation(false)]
    pub fn get_element(&self, x: usize, y: usize) -> (r: Option<&Child>)
        ensures
            match r {
                Some(c) => spec_lookup(self.elements@, Pos { x, y }) == Some(*c),
                None => spec_lookup(self.elements@, Pos { x, y }) is None,
            },
    {
        let pos = Pos { x, y };
        let n = self.elements.len();
        let mut i: usize = 0;
        while i < n
            invariant
                i <= n,
                n == self.elements@.len(),
                forall|k: int| 0 <= k < i ==> (#[trigger] self.elements@[k]).0 != pos,
            decreases n - i,
        {
            if self.elements[i].0.x == x && self.elements[i].0.y == y {
                proof {
                    lemma_lookup_at(self.elements@, pos, i as int);
                }
                return Some(&self.elements[i].1);
            }
            i = i + 1;
        }
        proof {
            lemma_lookup_absent(self.elements@, pos);
        }
        None
    }

    /// Mutable access to the widget at cell `(x, y)`, if occupied. The
    /// caller is responsible for keeping the widget well formed.
    #[verifier::loop_isolation(false)]
    pub fn get_element_mut(&mut self, x: usize, y: usize) -> (r: Option<&mut Child>) {
        let pos = Pos { x, y };
        let n = self.elements.len();
        let mut i: usize = 0;
        while i < n
            invariant
                i <= n,
                n == self.elements@.len(),
                forall|k: int| 0 <= k < i ==> (#[trigger] self.elements@[k]).0 != pos,
            decreases n - i,
        {
            if self.elements[i].0.x == x && self.elements[i].0.y == y {
                proof {
                    lemma_lookup_at(self.elements@, pos, i as int);
                    assert(self.elements@[i as int].0 == pos);
                }
                return Some(&mut self.elements[i].1);
            }
            i = i + 1;
        }
        proof {
            lemma_lookup_absent(self.elements@, pos);
        }
        None
    }

    /// The occupied cells, in storage order.
    pub fn iter(&self) -> (r: &Vec<(Pos, Child)>)
        ensures
            r@ == self.elements@,
    {
        &self.elements
    }

    /// Mutable access to the occupied cells. The caller is responsible for
    /// keeping positions unique and widgets well formed.
    pub fn iter_mut(&mut self) -> (r: &mut Vec<(Pos, Child)>)
        ensures
            *r == old(self).elements,
            final(self).elements == *final(r),
            final(self).cols == old(self).cols,
            final(self).rows == old(self).rows,
            final(self).surface == old(self).surface,
            final(self).state_manager == old(self).state_manager,
    {
        &mut self.elements
    }

    /// Put `c` at `pos`, replacing the current occupant or appending a new
    /// cell.
    #[verifier::loop_isolation(false)]
    fn put_element(&mut self, pos: Pos, c: Child)
        requires
            spec_keys_unique(spec_keys(old(self).elements@)),
        ensures
            spec_keys(final(self).elements@) == spec_apply_op_keys(
                spec_keys(old(self).elements@),
                GridOp::<Child>::SetElement(pos, c),
            ),
            spec_keys_unique(spec_keys(final(self).elements@)),
            forall|i: int|
                0 <= i < final(self).elements@.len() ==> (#[trigger] final(self).elements@[i]).1
                    == c || (0 <= i < old(self).elements@.len() && final(self).elements@[i] == old(
                    self,
                ).elements@[i]),
            final(self).cols == old(self).cols,
            final(self).rows == old(self).rows,
            final(self).surface == old(self).surface,
            final(self).state_manager == old(self).state_manager,
            final(self).static_x == old(self).static_x,
            final(self).static_y == old(self).static_y,
    {
        let ghost keys0 = spec_keys(self.elements@);
        let n = self.elements.len();
        let mut i: usize = 0;
        while i < n
            invariant
                i <= n,
                n == self.elements@.len(),
                self.elements@ == old(self).elements@,
                self.cols == old(self).cols,
                self.rows == old(self).rows,
                self.surface == old(self).surface,
                self.state_manager == old(self).state_manager,
                self.static_x == old(self).static_x,
                self.static_y == old(self).static_y,
                forall|k: int| 0 <= k < i ==> (#[trigger] self.elements@[k]).0 != pos,
            decreases n - i,
        {
            if self.elements[i].0.x == pos.x && self.elements[i].0.y == pos.y {
                let ghost pre = self.elements@;
                proof {
                    assert(pre[i as int].0 == pos);
                    assert(keys0[i as int] == pos);
                    assert(keys0.contains(pos));
                }
                self.elements.set(i, (pos, c));
                proof {
                    assert(spec_keys(self.elements@) =~= keys0);
                }
                return ;
            }
            i = i + 1;
        }
        let ghost pre = self.elements@;
        proof {
            assert(forall|k: int|
                0 <= k < keys0.len() ==> #[trigger] keys0[k] == pre[k].0 && keys0[k] != pos);
            assert(!keys0.contains(pos));
        }
        self.elements.push((pos, c));
        proof {
            assert(self.elements@ == pre.push((pos, c)));
            assert(spec_keys(self.elements@) =~= keys0.push(pos));
            assert forall|a: int, b: int|
                0 <= a < b < keys0.push(pos).len() implies keys0.push(pos)[a] != keys0.push(
                pos,
            )[b] by {
                if b < keys0.len() {
                    assert(keys0[a] != keys0[b]);
                } else {
                    assert(keys0.push(pos)[b] == pos);
                    assert(keys0[a] != pos);
                }
            }
        }
    }

    /// Empty the cell at `pos`, if occupied.
    #[verifier::loop_isolation(false)]
    fn remove_element(&mut self, pos: Pos)
        ensures
            spec_keys(final(self).elements@) == spec_remove_key(
                spec_keys(old(self).elements@),
                pos,
            ),
            forall|i: int|
                0 <= i < final(self).elements@.len() ==> exists|k: int|
                    0 <= k < old(self).elements@.len() && #[trigger] final(self).elements@[i]
                        == old(self).elements@[k],
            final(self).cols == old(self).cols,
            final(self).rows == old(self).rows,
            final(self).surface == old(self).surface,
            final(self).state_manager == old(self).state_manager,
            final(self).static_x == old(self).static_x,
            final(self).static_y == old(self).static_y,
    {
        let ghost keys0 = spec_keys(self.elements@);
        let n = self.elements.len();
        let mut i: usize = 0;
        while i < n
            invariant
                i <= n,
                n == self.elements@.len(),
                self.elements@ == old(self).elements@,
                self.cols == old(self).cols,
                self.rows == old(self).rows,
                self.surface == old(self).surface,
                self.state_manager == old(self).state_manager,
                self.static_x == old(self).static_x,
                self.static_y == old(self).static_y,
                forall|k: int| 0 <= k < i ==> (#[trigger] self.elements@[k]).0 != pos,
            decreases n - i,
        {
            if self.elements[i].0.x == pos.x && self.elements[i].0.y == pos.y {
                let ghost before = self.elements@;
                proof {
                    assert(before[i as int].0 == pos);
                    assert(keys0[i as int] == pos);
                    assert(forall|k: int|
                        0 <= k < i ==> #[trigger] keys0[k] == before[k].0 && keys0[k] != pos);
                }
                self.elements.remove(i);
                proof {
                    lemma_remove_key_at(keys0, pos, i as int);
                    assert(spec_keys(self.elements@) =~= keys0.remove(i as int));
                    assert forall|q: int| 0 <= q < self.elements@.len() implies exists|k: int|
                        0 <= k < before.len() && #[trigger] self.elements@[q] == before[k] by {
                        if q < i {
                            assert(self.elements@[q] == before[q]);
                        } else {
                            assert(self.elements@[q] == before[q + 1]);
                        }
                    }
                }
                return ;
            }
            i = i + 1;
        }
        proof {
            assert(forall|k: int|
                0 <= k < keys0.len() ==> #[trigger] keys0[k] == self.elements@[k].0 && keys0[k]
                    != pos);
            lemma_remove_key_absent(keys0, pos);
            assert(spec_remove_key(keys0, pos) =~= keys0);
        }
    }
}

/// Distinct positions stay distinct when one is removed.
proof fn lemma_unique_remove(keys: Seq<Pos>, j: int)
    requires
        spec_keys_unique(keys),
        0 <= j < keys.len(),
    ensures
        spec_keys_unique(keys.remove(j)),
{
    let r = keys.remove(j);
    assert forall|a: int, b: int| 0 <= a < b < r.len() implies r[a] != r[b] by {
        let oa = if a < j {
            a
        } else {
            a + 1
        };
        let ob = if b < j {
            b
        } else {
            b + 1
        };
        assert(r[a] == keys[oa] && r[b] == keys[ob]);
    }
}

/// `spec_remove_key` keeps distinctness.
proof fn lemma_unique_remove_key(keys: Seq<Pos>, pos: Pos)
    requires
        spec_keys_unique(keys),
    ensures
        spec_keys_unique(spec_remove_key(keys, pos)),
{
    if exists|j: int| 0 <= j < keys.len() && keys[j] == pos {
        let j = choose|j: int|
            0 <= j < keys.len() && keys[j] == pos && forall|k: int|
                0 <= k < j ==> keys[k] != pos;
        if first_key_index_exists(keys, pos) {
            let i = spec_first_key_index(keys, pos);
            lemma_first_key_index(keys, pos);
            lemma_remove_key_at(keys, pos, i);
            lemma_unique_remove(keys, i);
        }
    } else {
        assert(forall|k: int| 0 <= k < keys.len() ==> keys[k] != pos);
        lemma_remove_key_absent(keys, pos);
    }
}

/// Whether `pos` occurs in `keys`.
spec fn first_key_index_exists(keys: Seq<Pos>, pos: Pos) -> bool {
    exists|j: int| 0 <= j < keys.len() && keys[j] == pos
}

/// The first index at which `pos` occurs.
spec fn spec_first_key_index(keys: Seq<Pos>, pos: Pos) -> int
    decreases keys.len(),
{
    if keys.len() == 0 {
        -1
    } else if keys.first() == pos {
        0
    } else {
        let r = spec_first_key_index(keys.drop_first(), pos);
        if r < 0 {
            -1
        } else {
            r + 1
        }
    }
}

/// The first index is a genuine first occurrence whenever one exists.
proof fn lemma_first_key_index(keys: Seq<Pos>, pos: Pos)
    requires
        first_key_index_exists(keys, pos),
    ensures
        0 <= spec_first_key_index(keys, pos) < keys.len(),
        keys[spec_first_key_index(keys, pos)] == pos,
        forall|k: int| 0 <= k < spec_first_key_index(keys, pos) ==> keys[k] != pos,
    decreases keys.len(),
{
    if keys.first() == pos {
    } else {
        assert(first_key_index_exists(keys.drop_first(), pos)) by {
            let j = choose|j: int| 0 <= j < keys.len() && keys[j] == pos;
            assert(keys.drop_first()[j - 1] == pos);
        }
        lemma_first_key_index(keys.drop_first(), pos);
        assert forall|k: int| 0 <= k < spec_first_key_index(keys, pos) implies keys[k] != pos by {
            if k > 0 {
                assert(keys[k] == keys.drop_first()[k - 1]);
            }
        }
    }
}

impl<Parent, State, Child: UserControl<Parent, State>> Grid<Parent, State, Child> {
    /// One layout pass: resolve every track, then walk the occupied cells
    /// and send each occupant a move where its position changed and a resize
    /// where its size changed, so an already-placed child sees no redundant
    /// layout event. Fails with a layout error when the fixed sizes demand
    /// more than the grid's extent.
    #[verifier::loop_isolation(false)]
    fn reform(
        &mut self,
        clipboard: &mut Clipboard,
        parent: &mut Parent,
        state: &mut State,
    ) -> (r: Result<(), UiError>)
        requires
            old(self).surface.wf(),
            old(self).elems_wf(),
            old(self).queue_wf(),
            spec_keys_unique(spec_keys(old(self).elements@)),
        ensures
            final(self).surface == old(self).surface,
            final(self).cols == old(self).cols,
            final(self).rows == old(self).rows,
            final(self).state_manager == old(self).state_manager,
            final(self).elems_wf(),
            final(self).queue_wf(),
            final(self).elements@.len() == old(self).elements@.len(),
            forall|i: int|
                0 <= i < old(self).elements@.len() ==> (#[trigger] final(self).elements@[i]).0
                    == old(self).elements@[i].0,
            spec_keys(final(self).elements@) == spec_keys(old(self).elements@),
            final(self).static_x == spec_sat64(spec_fixed_sum(old(self).cols@)),
            final(self).static_y == spec_sat64(spec_fixed_sum(spec_rows_as_cols(old(self).rows@))),
            old(self).elements@.len() == 0 && !old(self).spec_overflows() ==> r is Ok,
            old(self).spec_overflows() ==> r == Result::<(), UiError>::Err(
                UiError::Layout {
                    req_width: spec_sat64(spec_fixed_sum(old(self).cols@)),
                    req_height: spec_sat64(spec_fixed_sum(spec_rows_as_cols(old(self).rows@))),
                    avail_width: old(self).surface.width,
                    avail_height: old(self).surface.height,
                },
            ) && final(self).elements@ == old(self).elements@,
            r is Ok ==> !old(self).spec_overflows() && final(self).spec_laid_out(),
            r is Ok ==> forall|i: int|
                0 <= i < old(self).elements@.len() ==> ((#[trigger] old(self).elements@[i]).0.x
                    >= old(self).cols@.len() || old(self).elements@[i].0.y >= old(
                    self,
                ).rows@.len() ==> final(self).elements@[i] == old(self).elements@[i]),
            r is Ok ==> forall|i: int|
                0 <= i < old(self).elements@.len() ==> ((#[trigger] old(self).elements@[i]).0.x
                    < old(self).cols@.len() && old(self).elements@[i].0.y < old(self).rows@.len()
                    && old(self).elements@[i].1.sbounds() == spec_cell_rect(
                    old(self).cols@,
                    old(self).rows@,
                    old(self).surface,
                    old(self).elements@[i].0,
                ) ==> final(self).elements@[i] == old(self).elements@[i]),
    {
        let (fx, rx) = axis_sums(&self.cols);
        let row_cols = cols_of_rows(&self.rows);
        let (fy, ry) = axis_sums(&row_cols);
        self.static_x = sat64(fx);
        self.static_y = sat64(fy);
        if fx > self.surface.width as i128 || fy > self.surface.height as i128 {
            return Err(
                UiError::Layout {
                    req_width: sat64(fx),
                    req_height: sat64(fy),
                    avail_width: self.surface.width,
                    avail_height: self.surface.height,
                },
            );
        }
        let remw: i64 = self.surface.width - fx as i64;
        let remh: i64 = self.surface.height - fy as i64;
        let widths = track_sizes(&self.cols, remw, rx);
        let heights = track_sizes(&row_cols, remh, ry);
        let xs = track_offsets(
            &widths,
            self.surface.x,
            self.surface.width,
            Ghost(self.cols@),
            Ghost(remw as int),
            Ghost(rx as int),
        );
        let ys = track_offsets(
            &heights,
            self.surface.y,
            self.surface.height,
            Ghost(spec_rows_as_cols(self.rows@)),
            Ghost(remh as int),
            Ghost(ry as int),
        );
        let ncols = self.cols.len();
        let nrows = self.rows.len();
        let n = self.elements.len();
        let mut i: usize = 0;
        while i < n
            invariant
                i <= n,
                n == self.elements@.len(),
                n == old(self).elements@.len(),
                ncols == self.cols@.len(),
                nrows == self.rows@.len(),
                self.surface == old(self).surface,
                self.surface.wf(),
                self.cols == old(self).cols,
                self.rows == old(self).rows,
                self.state_manager == old(self).state_manager,
                self.static_x == spec_sat64(spec_fixed_sum(old(self).cols@)),
                self.static_y == spec_sat64(spec_fixed_sum(spec_rows_as_cols(old(self).rows@))),
                self.queue_wf(),
                !old(self).spec_overflows(),
                remw == self.surface.width - spec_fixed_sum(self.cols@),
                remh == self.surface.height - spec_fixed_sum(spec_rows_as_cols(self.rows@)),
                0 <= remw <= COORD_LIMIT,
                0 <= remh <= COORD_LIMIT,
                rx == spec_ratio_sum(self.cols@),
                ry == spec_ratio_sum(spec_rows_as_cols(self.rows@)),
                widths@.len() == ncols,
                heights@.len() == nrows,
                xs@.len() == ncols + 1,
                ys@.len() == nrows + 1,
                forall|j: int|
                    0 <= j < ncols ==> #[trigger] widths@[j] == spec_track_size(
                        self.cols@,
                        j,
                        remw as int,
                        rx as int,
                    ) && 0 <= widths@[j] <= COORD_LIMIT,
                forall|j: int|
                    0 <= j < nrows ==> #[trigger] heights@[j] == spec_track_size(
                        spec_rows_as_cols(self.rows@),
                        j,
                        remh as int,
                        ry as int,
                    ) && 0 <= heights@[j] <= COORD_LIMIT,
                forall|j: int|
                    0 <= j <= ncols ==> #[trigger] xs@[j] == spec_track_offset(
                        self.cols@,
                        j,
                        remw as int,
                        rx as int,
                        self.surface.x as int,
                    ),
                forall|j: int|
                    0 <= j <= nrows ==> #[trigger] ys@[j] == spec_track_offset(
                        spec_rows_as_cols(self.rows@),
                        j,
                        remh as int,
                        ry as int,
                        self.surface.y as int,
                    ),
                forall|k: int| i <= k < n ==> self.elements@[k] == old(self).elements@[k],
                forall|k: int|
                    0 <= k < n ==> (#[trigger] self.elements@[k]).0 == old(self).elements@[k].0,
                forall|k: int| 0 <= k < n ==> (#[trigger] self.elements@[k]).1.inv(),
                forall|k: int|
                    0 <= k < i ==> ((#[trigger] self.elements@[k]).0.x < ncols
                        && self.elements@[k].0.y < nrows ==> self.elements@[k].1.sbounds()
                        == spec_cell_rect(
                        self.cols@,
                        self.rows@,
                        self.surface,
                        self.elements@[k].0,
                    )),
                forall|k: int|
                    0 <= k < i ==> ((#[trigger] self.elements@[k]).0.x >= ncols
                        || self.elements@[k].0.y >= nrows ==> self.elements@[k] == old(
                        self,
                    ).elements@[k]),
                forall|k: int|
                    0 <= k < i ==> ((#[trigger] self.elements@[k]).0.x < ncols
                        && self.elements@[k].0.y < nrows && old(self).elements@[k].1.sbounds()
                        == spec_cell_rect(
                        self.cols@,
                        self.rows@,
                        self.surface,
                        old(self).elements@[k].0,
                    ) ==> self.elements@[k] == old(self).elements@[k]),
            decreases n - i,
        {
            let pos = self.elements[i].0;
            if pos.x < ncols && pos.y < nrows {
                let tx = crate::geometry::clamp_coord(xs[pos.x]);
                let ty = crate::geometry::clamp_coord(ys[pos.y]);
                let tw = widths[pos.x];
                let th = heights[pos.y];
                let ghost target = spec_cell_rect(self.cols@, self.rows@, self.surface, pos);
                proof {
                    assert(target == Rect { x: tx, y: ty, width: tw, height: th });
                }
                let cur = Child::surface(&self.elements[i].1, parent, state);
                if cur.x != tx || cur.y != ty {
                    match Child::event(
                        &mut self.elements[i].1,
                        clipboard,
                        &Event::ElementMove { x: tx, y: ty },
                        parent,
                        state,
                    ) {
                        Ok(()) => {},
                        Err(e) => {
                            proof {
                                assert(spec_keys(self.elements@) =~= spec_keys(
                                    old(self).elements@,
                                ));
                            }
                            return Err(e);
                        },
                    }
                }
                let cur2 = Child::surface(&self.elements[i].1, parent, state);
                if cur2.width != tw || cur2.height != th {
                    match Child::event(
                        &mut self.elements[i].1,
                        clipboard,
                        &Event::ElementResize { width: tw, height: th },
                        parent,
                        state,
                    ) {
                        Ok(()) => {},
                        Err(e) => {
                            proof {
                                assert(spec_keys(self.elements@) =~= spec_keys(
                                    old(self).elements@,
                                ));
                            }
                            return Err(e);
                        },
                    }
                }
                proof {
                    assert(self.elements@[i as int].1.sbounds() == target);
                }
            }
            i = i + 1;
        }
        proof {
            assert(spec_keys(self.elements@) =~= spec_keys(old(self).elements@));
        }
        Ok(())
    }
}

/// `n` clamped into the range of an `i64`.
fn sat64(n: i128) -> (r: i64)
    ensures
        r == spec_sat64(n as int),
{
    if n > i64::MAX as i128 {
        i64::MAX
    } else if n < i64::MIN as i128 {
        i64::MIN
    } else {
        n as i64
    }
}

impl<Parent, State, Child: UserControl<Parent, State>> UserControl<Parent, State> for Grid<
    Parent,
    State,
    Child,
> {
    open spec fn sbounds(&self) -> Rect {
        self.surface
    }

    open spec fn inv(&self) -> bool {
        &&& self.surface.wf()
        &&& spec_keys_unique(spec_keys(self.elements@))
        &&& self.elems_wf()
        &&& self.queue_wf()
    }

    proof fn wf_bounds(&self) {
    }

    fn surface(&self, parent: &Parent, state: &State) -> (r: Rect) {
        self.surface
    }

    /// A move shifts every occupant by the grid's own displacement, a cheap
    /// pure-translation path; a resize that changes the size re-runs the
    /// whole layout; any other event is broadcast to every occupant
    /// unchanged, in storage order, stopping at the first failure.
    #[verifier::loop_isolation(false)]
    fn event(
        &mut self,
        clipboard: &mut Clipboard,
        ev: &Event,
        parent: &mut Parent,
        state: &mut State,
    ) -> (r: Result<(), UiError>)
        ensures
            final(self).state_manager == old(self).state_manager,
            final(self).cols == old(self).cols,
            final(self).rows == old(self).rows,
            final(self).elements@.len() == old(self).elements@.len(),
            forall|i: int|
                0 <= i < old(self).elements@.len() ==> (#[trigger] final(self).elements@[i]).0
                    == old(self).elements@[i].0,
            !ev.is_geometry() ==> forall|i: int|
                0 <= i < old(self).elements@.len()
                    ==> (#[trigger] final(self).elements@[i]).1.sbounds()
                    == old(self).elements@[i].1.sbounds(),
            r is Ok ==> (ev matches Event::ElementMove { x, y } ==> forall|i: int|
                0 <= i < old(self).elements@.len()
                    ==> (#[trigger] final(self).elements@[i]).1.sbounds()
                    == old(self).elements@[i].1.sbounds().at_pos(
                    spec_sat64(
                        spec_clamp_coord(
                            old(self).elements@[i].1.sbounds().x + *x - old(self).surface.x,
                        ),
                    ),
                    spec_sat64(
                        spec_clamp_coord(
                            old(self).elements@[i].1.sbounds().y + *y - old(self).surface.y,
                        ),
                    ),
                )),
            ev matches Event::ElementResize { width, height } ==> (*width
                == old(self).surface.width && *height == old(self).surface.height ==> r is Ok
                && *final(self) == *old(self)),
            ev matches Event::ElementResize { width, height } ==> ((*width
                != old(self).surface.width || *height != old(self).surface.height)
                && old(self).spec_overflows_for(*width, *height) ==> r == Result::<
                (),
                UiError,
            >::Err(
                UiError::Layout {
                    req_width: spec_sat64(spec_fixed_sum(old(self).cols@)),
                    req_height: spec_sat64(spec_fixed_sum(spec_rows_as_cols(old(self).rows@))),
                    avail_width: *width,
                    avail_height: *height,
                },
            ) && (forall|i: int|
                0 <= i < old(self).elements@.len() ==> #[trigger] final(self).elements@[i] == old(
                    self,
                ).elements@[i])),
            ev matches Event::ElementResize { width, height } ==> ((*width
                != old(self).surface.width || *height != old(self).surface.height) && r is Ok
                ==> !old(self).spec_overflows_for(*width, *height)),
            r is Ok ==> (ev matches Event::ElementResize { width, height } ==> (*width
                != old(self).surface.width || *height != old(self).surface.height
                ==> final(self).spec_laid_out())),
            r is Ok ==> (ev matches Event::ElementResize { width, height } ==> (forall|i: int|
                0 <= i < old(self).elements@.len() ==> ((#[trigger] old(self).elements@[i]).0.x
                    < old(self).cols@.len() && old(self).elements@[i].0.y < old(self).rows@.len()
                    && old(self).elements@[i].1.sbounds() == spec_cell_rect(
                    old(self).cols@,
                    old(self).rows@,
                    old(self).surface.with_size(*width, *height),
                    old(self).elements@[i].0,
                ) ==> final(self).elements@[i] == old(self).elements@[i]))),
            old(self).elements@.len() == 0 ==> (!(ev matches Event::ElementResize { .. })
                ==> r is Ok),
            ev matches Event::ElementResize { width, height } ==> (old(self).elements@.len() == 0
                && !old(self).spec_overflows_for(*width, *height) ==> r is Ok),
    {
        match ev {
            Event::ElementMove { x, y } => {
                if *x != self.surface.x || *y != self.surface.y {
                    let dx = *x - self.surface.x;
                    let dy = *y - self.surface.y;
                    let n = self.elements.len();
                    let mut i: usize = 0;
                    while i < n
                        invariant
                            i <= n,
                            n == self.elements@.len(),
                            n == old(self).elements@.len(),
                            -2 * COORD_LIMIT <= dx <= 2 * COORD_LIMIT,
                            -2 * COORD_LIMIT <= dy <= 2 * COORD_LIMIT,
                            self.surface == old(self).surface,
                            self.cols == old(self).cols,
                            self.rows == old(self).rows,
                            self.state_manager == old(self).state_manager,
                            self.queue_wf(),
                            forall|k: int|
                                i <= k < n ==> self.elements@[k] == old(self).elements@[k],
                            forall|k: int|
                                0 <= k < n ==> (#[trigger] self.elements@[k]).0 == old(
                                    self,
                                ).elements@[k].0,
                            forall|k: int| 0 <= k < n ==> (#[trigger] self.elements@[k]).1.inv(),
                            forall|k: int|
                                0 <= k < i ==> (#[trigger] self.elements@[k]).1.sbounds() == old(
                                    self,
                                ).elements@[k].1.sbounds().at_pos(
                                    spec_sat64(
                                        spec_clamp_coord(
                                            old(self).elements@[k].1.sbounds().x + dx,
                                        ),
                                    ),
                                    spec_sat64(
                                        spec_clamp_coord(
                                            old(self).elements@[k].1.sbounds().y + dy,
                                        ),
                                    ),
                                ),
                        decreases n - i,
                    {
                        let cur = Child::surface(&self.elements[i].1, parent, state);
                        proof {
                            self.elements@[i as int].1.wf_bounds();
                        }
                        let nx = crate::geometry::clamp_coord(cur.x + dx);
                        let ny = crate::geometry::clamp_coord(cur.y + dy);
                        match Child::event(
                            &mut self.elements[i].1,
                            clipboard,
                            &Event::ElementMove { x: nx, y: ny },
                            parent,
                            state,
                        ) {
                            Ok(()) => {},
                            Err(e) => {
                                proof {
                                    assert(spec_keys(self.elements@) =~= spec_keys(
                                        old(self).elements@,
                                    ));
                                }
                                return Err(e);
                            },
                        }
                        i = i + 1;
                    }
                } else {
                    proof {
                        assert forall|k: int|
                            0 <= k < self.elements@.len() implies (#[trigger] self.elements@[k]).1.sbounds()
                            == self.elements@[k].1.sbounds().at_pos(
                            spec_sat64(
                                spec_clamp_coord(
                                    self.elements@[k].1.sbounds().x + *x - self.surface.x,
                                ),
                            ),
                            spec_sat64(
                                spec_clamp_coord(
                                    self.elements@[k].1.sbounds().y + *y - self.surface.y,
                                ),
                            ),
                        ) by {
                            self.elements@[k].1.wf_bounds();
                        }
                    }
                }
                self.surface.x = *x;
                self.surface.y = *y;
                proof {
                    assert(spec_keys(self.elements@) =~= spec_keys(old(self).elements@));
                }
                Ok(())
            },
            Event::ElementResize { width, height } => {
                if *width != self.surface.width || *height != self.surface.height {
                    self.surface.width = *width;
                    self.surface.height = *height;
                    self.reform(clipboard, parent, state)
                } else {
                    Ok(())
                }
            },
            _ => {
                let n = self.elements.len();
                let mut i: usize = 0;
                while i < n
                    invariant
                        i <= n,
                        n == self.elements@.len(),
                        n == old(self).elements@.len(),
                        ev.wf(),
                        !ev.is_geometry(),
                        self.surface == old(self).surface,
                        self.cols == old(self).cols,
                        self.rows == old(self).rows,
                        self.state_manager == old(self).state_manager,
                        self.queue_wf(),
                        forall|k: int| i <= k < n ==> self.elements@[k] == old(self).elements@[k],
                        forall|k: int|
                            0 <= k < n ==> (#[trigger] self.elements@[k]).0 == old(
                                self,
                            ).elements@[k].0,
                        forall|k: int| 0 <= k < n ==> (#[trigger] self.elements@[k]).1.inv(),
                        forall|k: int|
                            0 <= k < n ==> (#[trigger] self.elements@[k]).1.sbounds() == old(
                                self,
                            ).elements@[k].1.sbounds(),
                    decreases n - i,
                {
                    match Child::event(&mut self.elements[i].1, clipboard, ev, parent, state) {
                        Ok(()) => {},
                        Err(e) => {
                            proof {
                                assert(spec_keys(self.elements@) =~= spec_keys(
                                    old(self).elements@,
                                ));
                            }
                            return Err(e);
                        },
                    }
                    i = i + 1;
                }
                proof {
                    assert(spec_keys(self.elements@) =~= spec_keys(old(self).elements@));
                }
                Ok(())
            },
        }
    }

    /// Tick every occupant, then drain the deferred-mutation queue, apply
    /// each queued edit in order, and re-run layout exactly when the drain
    /// produced any change.
    #[verifier::loop_isolation(false)]
    fn update(
        &mut self,
        clipboard: &mut Clipboard,
        elapsed_ms: u64,
        parent: &mut Parent,
        state: &mut State,
    ) -> (r: Result<(), UiError>)
        ensures
            r is Ok ==> final(self).state_manager.view() == Seq::<GridOp<Child>>::empty(),
            r is Ok ==> final(self).cols@ == spec_apply_ops_cols(
                old(self).cols@,
                old(self).state_manager.view(),
            ),
            r is Ok ==> final(self).rows@ == spec_apply_ops_rows(
                old(self).rows@,
                old(self).state_manager.view(),
            ),
            r is Ok ==> spec_keys(final(self).elements@) == spec_apply_ops_keys(
                spec_keys(old(self).elements@),
                old(self).state_manager.view(),
            ),
            r is Ok && old(self).state_manager.view().len() > 0 ==> final(self).spec_laid_out(),
            old(self).elements@.len() == 0 && old(self).state_manager.view().len() == 0
                ==> r is Ok,
    {
        let n = self.elements.len();
        let mut i: usize = 0;
        while i < n
            invariant
                i <= n,
                n == self.elements@.len(),
                n == old(self).elements@.len(),
                self.surface == old(self).surface,
                self.surface.wf(),
                self.cols == old(self).cols,
                self.rows == old(self).rows,
                self.state_manager == old(self).state_manager,
                self.queue_wf(),
                spec_keys_unique(spec_keys(self.elements@)),
                forall|k: int| i <= k < n ==> self.elements@[k] == old(self).elements@[k],
                forall|k: int|
                    0 <= k < n ==> (#[trigger] self.elements@[k]).0 == old(self).elements@[k].0,
                forall|k: int| 0 <= k < n ==> (#[trigger] self.elements@[k]).1.inv(),
                forall|k: int|
                    0 <= k < n ==> (#[trigger] self.elements@[k]).1.sbounds() == old(
                        self,
                    ).elements@[k].1.sbounds(),
            decreases n - i,
        {
            proof {
                assert(spec_keys(self.elements@) =~= spec_keys(old(self).elements@));
            }
            match Child::update(&mut self.elements[i].1, clipboard, elapsed_ms, parent, state) {
                Ok(()) => {},
                Err(e) => {
                    proof {
                        assert(spec_keys(self.elements@) =~= spec_keys(old(self).elements@));
                    }
                    return Err(e);
                },
            }
            proof {
                assert(spec_keys(self.elements@) =~= spec_keys(old(self).elements@));
            }
            i = i + 1;
        }
        proof {
            assert(spec_keys(self.elements@) =~= spec_keys(old(self).elements@));
        }
        let ops = self.state_manager.apply();
        let changed = ops.len() > 0;
        self.apply_ops(ops);
        if changed {
            match self.reform(clipboard, parent, state) {
                Ok(()) => {},
                Err(e) => {
                    return Err(e);
                },
            }
        }
        Ok(())
    }

    #[verifier::loop_isolation(false)]
    fn draw(&self, canvas: &mut Vec<DrawCmd>, parent: &Parent, state: &State) -> (r: Result<
        (),
        UiError,
    >) {
        let ghost base = canvas@;
        let n = self.elements.len();
        let mut i: usize = 0;
        while i < n
            invariant
                i <= n,
                n == self.elements@.len(),
                base == old(canvas)@,
                forall|k: int| 0 <= k < n ==> (#[trigger] self.elements@[k]).1.inv(),
                canvas@.len() >= base.len(),
                canvas@.subrange(0, base.len() as int) == base,
            decreases n - i,
        {
            let ghost prev = canvas@;
            match Child::draw(&self.elements[i].1, canvas, parent, state) {
                Ok(()) => {},
                Err(e) => {
                    proof {
                        crate::ui_element::ui_rect::lemma_prefix_chain(base, prev, canvas@);
                    }
                    return Err(e);
                },
            }
            proof {
                crate::ui_element::ui_rect::lemma_prefix_chain(base, prev, canvas@);
            }
            i = i + 1;
        }
        Ok(())
    }
}

impl<Parent, State, Child: UserControl<Parent, State>> Grid<Parent, State, Child> {
    /// Apply drained queue entries first to last, each observing the state
    /// the previous one left.
    #[verifier::loop_isolation(false)]
    fn apply_ops(&mut self, ops: Vec<GridOp<Child>>)
        requires
            old(self).surface.wf(),
            old(self).elems_wf(),
            old(self).queue_wf(),
            spec_keys_unique(spec_keys(old(self).elements@)),
            forall|k: int|
                0 <= k < ops@.len() ==> (#[trigger] ops@[k] matches GridOp::SetElement(_, c)
                    ==> c.inv()),
        ensures
            final(self).cols@ == spec_apply_ops_cols(old(self).cols@, ops@),
            final(self).rows@ == spec_apply_ops_rows(old(self).rows@, ops@),
            spec_keys(final(self).elements@) == spec_apply_ops_keys(
                spec_keys(old(self).elements@),
                ops@,
            ),
            final(self).surface == old(self).surface,
            final(self).state_manager == old(self).state_manager,
            final(self).elems_wf(),
            final(self).queue_wf(),
            spec_keys_unique(spec_keys(final(self).elements@)),
    {
        let mut ops = ops;
        let mut k: usize = 0;
        let n = ops.len();
        let ghost all_ops = ops@;
        proof {
            assert(all_ops.skip(0) =~= all_ops);
        }
        while k < n
            invariant
                k <= n,
                n == all_ops.len(),
                ops@ == all_ops.skip(k as int),
                self.surface == old(self).surface,
                self.surface.wf(),
                self.state_manager == old(self).state_manager,
                self.queue_wf(),
                self.elems_wf(),
                spec_keys_unique(spec_keys(self.elements@)),
                forall|j: int|
                    0 <= j < all_ops.len() ==> (#[trigger] all_ops[j] matches GridOp::SetElement(
                        _,
                        c,
                    ) ==> c.inv()),
                spec_apply_ops_cols(self.cols@, all_ops.skip(k as int)) == spec_apply_ops_cols(
                    old(self).cols@,
                    all_ops,
                ),
                spec_apply_ops_rows(self.rows@, all_ops.skip(k as int)) == spec_apply_ops_rows(
                    old(self).rows@,
                    all_ops,
                ),
                spec_apply_ops_keys(spec_keys(self.elements@), all_ops.skip(k as int))
                    == spec_apply_ops_keys(spec_keys(old(self).elements@), all_ops),
            decreases n - k,
        {
            let ghost before_keys = spec_keys(self.elements@);
            let op = ops.remove(0);
            let ghost gop = op;
            proof {
                assert(all_ops.skip(k as int)[0] == gop);
                assert(all_ops.skip(k as int).first() == gop);
                assert(all_ops.skip(k as int).drop_first() =~= all_ops.skip(k + 1));
                assert(ops@ =~= all_ops.skip(k + 1));
                assert(all_ops[k as int] == gop);
            }
            match op {
                GridOp::SetElement(pos, c) => {
                    self.put_element(pos, c);
                },
                GridOp::RemoveElement(pos) => {
                    self.remove_element(pos);
                    proof {
                        lemma_unique_remove_key(before_keys, pos);
                        assert forall|q: int|
                            0 <= q < self.elements@.len() implies (#[trigger] self.elements@[q]).1.inv() by {
                            let prev = choose|w: int|
                                0 <= w < old(self).elements@.len() && self.elements@[q] == old(
                                    self,
                                ).elements@[w];
                        }
                    }
                },
                GridOp::SetCols(v) => {
                    self.cols = v;
                },
                GridOp::SetRows(v) => {
                    self.rows = v;
                },
                GridOp::Clear => {
                    self.cols.clear();
                    self.rows.clear();
                    self.elements.clear();
                    proof {
                        assert(spec_keys(self.elements@) =~= Seq::<Pos>::empty());
                    }
                },
            }
            k = k + 1;
        }
        proof {
            assert(all_ops.skip(n as int) =~= Seq::<GridOp<Child>>::empty());
        }
    }
}

} // verus!
