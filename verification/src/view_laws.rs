//! How an image is prepared, and the lines and numbers around it.

use crate::analysis::{aperture_spec, squares_spec, stats_spec};
use crate::arith::Whole;
use crate::exact::{
    coarse_is, coarse_whole_widen, fine_is, fine_whole_cut, fine_whole_int, fine_whole_minus,
    fine_whole_narrow, fine_whole_order, fine_whole_over, fine_whole_plus, fine_whole_times,
    half_of_even, in_range, one, parts, size_by_bits,
};
use crate::export::{margin, page_height, page_width};
use crate::frame::{Frame, SmoothKind};
use crate::marker::{PixelPos, Shape};
use crate::mean_laws::{are_whole, exact_sum};
use crate::mosaic::{extent, mean_spec};
use crate::num::{Double, Single};
use crate::overlay::{grid_steps, step_from};
use crate::rounding::units;
use crate::show::{binned_data, is_shown_data, is_smoothed};
use vstd::arithmetic::power2::*;
use vstd::prelude::*;

verus! {

// ---------------------------------------------------------------------------
// Filters
// ---------------------------------------------------------------------------

/// Binning comes before smoothing: what is shown depends on the pixels through their binned values
/// alone, so that frames with the same binned pixels and the same smoothing can be shown the same.
pub proof fn binning_comes_first(f: Frame, g: Frame, kernel: Vec<Single>, data: Seq<Single>)
    requires
        f.fits.width == g.fits.width,
        f.fits.height == g.fits.height,
        f.smooth_kind == g.smooth_kind,
        binned_data(f) == binned_data(g),
        is_shown_data(f, kernel, data),
    ensures
        is_shown_data(g, kernel, data),
{
}

/// Without smoothing the binned pixels are shown, and without binning the pixels of the image are
/// what is smoothed.
pub proof fn each_filter_can_be_off(f: Frame, kernel: Vec<Single>, data: Seq<Single>)
    requires
        is_shown_data(f, kernel, data),
    ensures
        !is_smoothed(f) ==> data == binned_data(f),
        f.bin_factor <= 1 ==> binned_data(f) == f.fits.data@,
        f.smooth_kind matches SmoothKind::Boxcar { n } ==> is_smoothed(f) == (n > 1),
        f.smooth_kind matches SmoothKind::Median { n } ==> is_smoothed(f) == (n > 1),
{
}

// ---------------------------------------------------------------------------
// Grids
// ---------------------------------------------------------------------------

/// The step of a grid is the first of the steps, from the coarsest, that parts the span into two to
/// eight; where none does, it is the finest.
pub proof fn grids_have_two_to_eight_lines(span: Double, k: int)
    requires
        0 <= k <= 19,
    ensures
        ({
            let s = step_from(span, k);
            let (two, eight) = (
                Double { bits: 0x4000_0000_0000_0000 },
                Double { bits: 0x4020_0000_0000_0000 },
            );
            let fits = |j: int| two.le(span.over(grid_steps()[j])) && span.over(grid_steps()[j]).le(
                eight,
            );
            ||| exists|j: int|
                k <= j < 19 && #[trigger] fits(j) && s == grid_steps()[j] && forall|i: int|
                    k <= i < j ==> !(#[trigger] fits(i))
            ||| s == grid_steps()[18] && forall|i: int| k <= i < 19 ==> !(#[trigger] fits(i))
        }),
    decreases 19 - k,
{
    let (two, eight) = (
        Double { bits: 0x4000_0000_0000_0000 },
        Double { bits: 0x4020_0000_0000_0000 },
    );
    let fits = |j: int| two.le(span.over(grid_steps()[j])) && span.over(grid_steps()[j]).le(eight);
    if k < 19 {
        if fits(k) {
            assert(step_from(span, k) == grid_steps()[k]);
        } else {
            grids_have_two_to_eight_lines(span, k + 1);
            assert(step_from(span, k) == step_from(span, k + 1));
            if exists|j: int|
                k + 1 <= j < 19 && #[trigger] fits(j) && step_from(span, k + 1) == grid_steps()[j]
                    && forall|i: int| k + 1 <= i < j ==> !(#[trigger] fits(i)) {
                let j = choose|j: int|
                    k + 1 <= j < 19 && #[trigger] fits(j) && step_from(span, k + 1)
                        == grid_steps()[j] && forall|i: int|
                        k + 1 <= i < j ==> !(#[trigger] fits(i));
                assert(fits(j));
            }
        }
    }
}

// ---------------------------------------------------------------------------
// Pages
// ---------------------------------------------------------------------------

proof fn page_numbers()
    ensures
        fine_is(Double { bits: 0x4080_e000_0000_0000 }, 540),
        fine_is(Double { bits: 0x4000_0000_0000_0000 }, 2),
        parts(53) == 0x20_0000_0000_0000,
        parts(24) == 0x100_0000,
        one(53) > 0,
        in_range(one(53), 1074, 1074),
{
    lemma2_to64();
    lemma2_to64_rest();
    lemma_pow2_pos(1074);
    size_by_bits(0x4080_e000_0000_0000, 1032, 0xe000_0000_0000, 53);
    size_by_bits(0x4000_0000_0000_0000, 1024, 0, 53);
    lemma_pow2_adds(43, 1031);
    lemma_pow2_adds(52, 1023);
    lemma_pow2_unfold(1075);
    let a = pow2(1031) as int;
    assert(0x10_e000_0000_0000 * a == 540 * (0x800_0000_0000 * a)) by (nonlinear_arith);
}

/// A small picture is printed at twice its size, and a wide one over the width of 540 points; the
/// height goes with the width, and the rest of the page is shared by both margins.
pub proof fn pages_keep_the_form_of_the_picture(w: u32, h: u32, page: Double, p: int)
    requires
        w > 0,
        h <= 0x1_0000,
        fine_is(page, 2 * p),
        0 <= p <= 0x1_0000,
    ensures
        w <= 270 ==> {
            &&& fine_is(page_width(w), 2 * w as int)
            &&& fine_is(page_height(w, h), 2 * h as int)
            &&& fine_is(margin(page, page_width(w)), p - w)
            &&& fine_is(margin(page, page_height(w, h)), p - h)
        },
        w > 270 ==> fine_is(page_width(w), 540),
{
    page_numbers();
    let (a, b) = (w as int, h as int);
    let two = Double { bits: 0x4000_0000_0000_0000 };
    let full = Double { bits: 0x4080_e000_0000_0000 };
    fine_whole_int(a);
    fine_whole_int(b);
    let (fw, fh) = (Double::from_int_spec(a), Double::from_int_spec(b));
    fine_whole_times(fw, two, a, 2);
    fine_whole_order(fw.times(two), full, a * 2, 540);
    fine_whole_order(full, fw.times(two), 540, a * 2);
    if w <= 270 {
        let width = page_width(w);
        assert(fine_is(width, 2 * a));
        fine_whole_over(width, fw, 2, a);
        fine_whole_times(fh, width.over(fw), b, 2);
        let height = page_height(w, h);
        fine_whole_minus(page, width, 2 * p, 2 * a);
        fine_whole_minus(page, height, 2 * p, 2 * b);
        assert((p - a) * 2 == 2 * p - 2 * a && (p - b) * 2 == 2 * p - 2 * b);
        fine_whole_over(page.minus(width), two, p - a, 2);
        fine_whole_over(page.minus(height), two, p - b, 2);
    }
}

// ---------------------------------------------------------------------------
// Mosaics
// ---------------------------------------------------------------------------

/// A pixel of a mosaic is the mean of the samples that fell on it, and missing where none did.
pub proof fn mosaics_have_the_mean(sum: Double, count: u32, mean: int)
    requires
        count > 0 ==> fine_is(sum, mean * count),
        -0x100_0000 <= mean <= 0x100_0000,
    ensures
        count > 0 ==> coarse_is(mean_spec(sum, count), mean),
        count == 0 ==> mean_spec(sum, count).is_nan(),
{
    page_numbers();
    if count > 0 {
        fine_whole_int(count as int);
        let c = Double::from_int_spec(count as int);
        fine_whole_over(sum, c, mean, count as int);
        fine_whole_narrow(sum.over(c), mean);
    }
}

/// A mosaic has a pixel for each place from the first to the last, both of them counted.
pub proof fn mosaics_count_both_ends(lo: Double, hi: Double, a: int, b: int)
    requires
        fine_is(lo, a),
        fine_is(hi, b),
        a <= b,
        -0x1000_0000 <= a,
        b <= 0x1000_0000,
    ensures
        extent(lo, hi) == b - a + 1,
{
    page_numbers();
    fine_whole_minus(hi, lo, b, a);
    fine_whole_cut(hi.minus(lo), b - a, Whole::Ceil, 0, usize::MAX as int);
}

// ---------------------------------------------------------------------------
// Measured circles
// ---------------------------------------------------------------------------

/// The circle that is measured for a region has the region's own middle, and reaches as far as it
/// does along its axes: to the outer radius, the longer half axis, or half the longer side.
pub proof fn measured_circles_reach_as_far(
    center: PixelPos,
    a: Double,
    b: Double,
    theta_deg: Double,
    m: int,
    n: int,
)
    requires
        fine_is(a, 2 * m),
        fine_is(b, 2 * n),
        0 <= m <= 0x1000_0000,
        0 <= n <= 0x1000_0000,
    ensures
        ({
            let long = if m < n {
                n
            } else {
                m
            };
            let at = |s: Shape, r: int| aperture_spec(s) matches Some(c) && c.x == center.x && c.y
                == center.y && fine_is(c.r, r);
            &&& at(Shape::Circle { center, r: a }, 2 * m)
            &&& at(Shape::Annulus { center, r_inner: a, r_outer: b }, 2 * n)
            &&& at(Shape::Ellipse { center, a, b, theta_deg }, 2 * long)
            &&& at(Shape::Box { center, w: a, h: b, theta_deg }, long)
            &&& aperture_spec(Shape::Point { center }) is None
        }),
{
    fine_whole_order(a, b, 2 * m, 2 * n);
    let long = if m < n {
        n
    } else {
        m
    };
    let l = a.max(b);
    assert(fine_is(l, 2 * long));
    half_of_even(l, long);
}

// ---------------------------------------------------------------------------
// Spread
// ---------------------------------------------------------------------------

/// The exact sum of the squares of the distances from `m`.
pub open spec fn exact_squares(n: Seq<int>, m: int) -> int
    decreases n.len(),
{
    if n.len() == 0 {
        0
    } else {
        exact_squares(n.drop_last(), m) + (n.last() - m) * (n.last() - m)
    }
}

/// Whether numbers are the whole numbers `n`, up to a thousand.
pub open spec fn are_small(s: Seq<Single>, n: Seq<int>) -> bool {
    &&& s.len() == n.len()
    &&& forall|i: int|
        0 <= i < s.len() ==> coarse_is(#[trigger] s[i], n[i]) && -0x400 <= n[i] <= 0x400
}

proof fn squares_are_exact(s: Seq<Single>, n: Seq<int>, mean: Double, m: int)
    requires
        are_small(s, n),
        fine_is(mean, m),
        -0x400 <= m <= 0x400,
        s.len() <= 0x1000_0000,
    ensures
        fine_is(squares_spec(s, mean), exact_squares(n, m)),
        0 <= exact_squares(n, m) <= 0x40_0000 * s.len(),
    decreases s.len(),
{
    page_numbers();
    assert(units(0, 53) == 0);
    assert(0 * one(53) == 0) by (nonlinear_arith);
    if s.len() > 0 {
        let (t, k) = (s.drop_last(), n.drop_last());
        assert forall|i: int| 0 <= i < t.len() implies coarse_is(#[trigger] t[i], k[i]) && -0x400
            <= k[i] <= 0x400 by {
            assert(coarse_is(s[i], n[i]));
        }
        squares_are_exact(t, k, mean, m);
        let j = s.len() - 1;
        assert(coarse_is(s[j], n[j]));
        let x = n.last();
        coarse_whole_widen(s.last(), x);
        let w = s.last().widen();
        fine_whole_minus(w, mean, x, m);
        let q = (x - m) * (x - m);
        assert(0 <= q <= 0x40_0000) by (nonlinear_arith)
            requires
                q == (x - m) * (x - m),
                -0x800 <= x - m <= 0x800,
        ;
        fine_whole_times(w.minus(mean), w.minus(mean), x - m, x - m);
        fine_whole_plus(
            squares_spec(t, mean),
            w.minus(mean).times(w.minus(mean)),
            exact_squares(k, m),
            q,
        );
    }
}

/// The spread is the root of the mean of the squares of the distances from the mean, over all the
/// numbers.
pub proof fn the_spread_is_the_root_mean_square(s: Seq<Single>, n: Seq<int>, m: int, r: int)
    requires
        are_small(s, n),
        0 < s.len() <= 0x1000_0000,
        exact_sum(s, n) == m * s.len(),
        -0x400 <= m <= 0x400,
        0 <= r <= 0x800,
        exact_squares(n, m) == (r * r) * s.len(),
    ensures
        fine_is(stats_spec(s).mean, m),
        fine_is(stats_spec(s).std, r),
{
    page_numbers();
    let k = s.len() as int;
    assert(are_whole(s, n)) by {
        assert forall|i: int| 0 <= i < s.len() && (#[trigger] s[i]).is_finite() implies coarse_is(
            s[i],
            n[i],
        ) && -0x10_0000 <= n[i] <= 0x10_0000 by {
            assert(coarse_is(s[i], n[i]));
        }
    }
    assert forall|i: int| 0 <= i < s.len() implies (#[trigger] s[i]).is_finite() by {
        assert(coarse_is(s[i], n[i]));
    }
    crate::mean_laws::sum_is_exact(s, n);
    fine_whole_int(k);
    let c = Double::from_int_spec(k);
    fine_whole_over(crate::analysis::sum_spec(s), c, m, k);
    let mean = stats_spec(s).mean;
    squares_are_exact(s, n, mean, m);
    let q = r * r;
    assert(0 <= q <= 0x40_0000) by (nonlinear_arith)
        requires
            q == r * r,
            0 <= r <= 0x800,
    ;
    fine_whole_over(squares_spec(s, mean), c, q, k);
    crate::exact::fine_whole_root(squares_spec(s, mean).over(c), r);
}

} // verus!
