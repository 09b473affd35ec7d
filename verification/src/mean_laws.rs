//! Sums and means: of blocks, windows, rings and whole images.

use crate::analysis::{
    at_least_one, centroid_spec, moments, profile_spec, ring_mean, ring_spec, ring_sum,
    sample_values, stats_spec, sum_spec, Aperture, Sample,
};
use crate::exact::{
    coarse_is, coarse_whole_int, coarse_whole_minus, coarse_whole_order, coarse_whole_over,
    coarse_whole_plus, coarse_whole_same, coarse_whole_times, coarse_whole_widen, fine_is,
    fine_whole_int, fine_whole_narrow, fine_whole_order, fine_whole_over, fine_whole_plus,
    fine_whole_times, one, parts,
};
use crate::filters::{
    binned, block_end, block_spec, finite_sum, rect_spec, weighted_sums, window_sums, BinMode,
    LineFilter,
};
use crate::fits::{missing, FitsImage};
use crate::num::{Double, Single};
use crate::picture_laws::{one_times, over_itself};
use crate::rounding::units;
use crate::sorting::ascending;
use vstd::arithmetic::div_mod::*;
use vstd::prelude::*;

verus! {

/// Whether the finite numbers of a list are the whole numbers `n`, up to a million.
pub open spec fn are_whole(v: Seq<Single>, n: Seq<int>) -> bool {
    &&& v.len() == n.len()
    &&& forall|i: int|
        0 <= i < v.len() && (#[trigger] v[i]).is_finite() ==> coarse_is(v[i], n[i]) && -0x10_0000
            <= n[i] <= 0x10_0000
}

/// The exact sum of the finite numbers.
pub open spec fn exact_sum(v: Seq<Single>, n: Seq<int>) -> int
    decreases v.len(),
{
    if v.len() == 0 {
        0
    } else {
        exact_sum(v.drop_last(), n.drop_last()) + if v.last().is_finite() {
            n.last()
        } else {
            0
        }
    }
}

/// How many numbers are finite.
pub open spec fn how_many_finite(v: Seq<Single>) -> nat
    decreases v.len(),
{
    if v.len() == 0 {
        0
    } else {
        how_many_finite(v.drop_last()) + if v.last().is_finite() {
            1nat
        } else {
            0
        }
    }
}

proof fn limits()
    ensures
        parts(24) == 0x100_0000,
        parts(53) == 0x20_0000_0000_0000,
        fine_is(Double { bits: 0 }, 0),
        coarse_is(Single { bits: 0 }, 0),
{
    assert(units(0, 53) == 0 && units(0, 24) == 0);
    assert(0 * one(53) == 0 && 0 * one(24) == 0) by (nonlinear_arith);
}

// ---------------------------------------------------------------------------
// Blocks
// ---------------------------------------------------------------------------

/// The sum of whole numbers is exact, and so is their number.
proof fn finite_sum_is_exact(v: Seq<Single>, n: Seq<int>)
    requires
        are_whole(v, n),
        v.len() <= 0x1_0000_0000,
    ensures
        fine_is(finite_sum(v).0, exact_sum(v, n)),
        finite_sum(v).1 == how_many_finite(v),
        how_many_finite(v) <= v.len(),
        -0x10_0000 * (v.len() as int) <= exact_sum(v, n) <= 0x10_0000 * v.len(),
    decreases v.len(),
{
    limits();
    if v.len() > 0 {
        let (t, m) = (v.drop_last(), n.drop_last());
        assert forall|i: int| 0 <= i < t.len() && (#[trigger] t[i]).is_finite() implies coarse_is(
            t[i],
            m[i],
        ) && -0x10_0000 <= m[i] <= 0x10_0000 by {
            assert(v[i].is_finite());
        }
        finite_sum_is_exact(t, m);
        let k = v.len() - 1;
        assert(v[k] == v.last());
        if v.last().is_finite() {
            coarse_whole_widen(v.last(), n.last());
            fine_whole_plus(finite_sum(t).0, v.last().widen(), exact_sum(t, m), n.last());
        }
    }
}

/// The value of a block of whole numbers: their sum, their mean, or the first of them.
pub proof fn blocks_have_their_sum_and_mean(
    data: Seq<Single>,
    w: int,
    h: int,
    n: int,
    x0: int,
    y0: int,
    values: Seq<int>,
    mean: int,
)
    requires
        ({
            let v = rect_spec(data, w, x0, block_end(x0, n, w), y0, block_end(y0, n, h));
            &&& are_whole(v, values)
            &&& v.len() <= 0x1_0000_0000
            &&& how_many_finite(v) > 0
            &&& -0x100_0000 <= exact_sum(v, values) <= 0x100_0000
        }),
    ensures
        ({
            let v = rect_spec(data, w, x0, block_end(x0, n, w), y0, block_end(y0, n, h));
            let total = exact_sum(v, values);
            &&& coarse_is(block_spec(data, w, h, n, BinMode::Sum, x0, y0), total)
            &&& total == mean * how_many_finite(v) ==> coarse_is(
                block_spec(data, w, h, n, BinMode::Average, x0, y0),
                mean,
            )
            &&& block_spec(data, w, h, n, BinMode::Subsample, x0, y0) == data[y0 * w + x0]
        }),
{
    limits();
    let v = rect_spec(data, w, x0, block_end(x0, n, w), y0, block_end(y0, n, h));
    finite_sum_is_exact(v, values);
    let (sum, count) = finite_sum(v);
    let total = exact_sum(v, values);
    fine_whole_narrow(sum, total);
    if total == mean * count {
        assert(-0x100_0000 <= mean <= 0x100_0000) by (nonlinear_arith)
            requires
                total == mean * count,
                count >= 1,
                -0x100_0000 <= total <= 0x100_0000,
        ;
        fine_whole_int(count as int);
        fine_whole_over(sum, Double::from_int_spec(count as int), mean, count as int);
        fine_whole_narrow(sum.over(Double::from_int_spec(count as int)), mean);
    }
}

/// All pixels of a block get one value: of two pixels whose columns and rows fall into the same
/// block of `n` by `n`, counted from the first pixel, neither differs from the other.
pub proof fn pixels_of_a_block_are_alike(
    data: Seq<Single>,
    w: int,
    h: int,
    n: int,
    mode: BinMode,
    i: int,
    j: int,
)
    requires
        0 <= i < w * h,
        0 <= j < w * h,
        w > 0,
        n > 0,
        (i % w) / n == (j % w) / n,
        (i / w) / n == (j / w) / n,
    ensures
        binned(data, w, h, n, mode)[i] == binned(data, w, h, n, mode)[j],
{
}

/// A block takes its value from its own pixels alone: images that agree on the pixels of a block get
/// the same value there.
pub proof fn blocks_depend_on_their_own_pixels(
    a: Seq<Single>,
    b: Seq<Single>,
    w: int,
    h: int,
    n: int,
    mode: BinMode,
    i: int,
)
    requires
        w > 0,
        h > 0,
        n > 0,
        0 <= i < w * h,
        a.len() == w * h,
        b.len() == w * h,
        forall|x: int, y: int|
            0 <= x < w && 0 <= y < h && x / n == (i % w) / n && y / n == (i / w) / n ==> #[trigger] a[y
                * w + x] == b[y * w + x],
    ensures
        binned(a, w, h, n, mode)[i] == binned(b, w, h, n, mode)[i],
{
    crate::color::place_pixel(i, w, h);
    let (p, q) = (i % w, i / w);
    let (x0, y0) = (p / n * n, q / n * n);
    let (x1, y1) = (block_end(x0, n, w), block_end(y0, n, h));
    lemma_fundamental_div_mod(p, n);
    lemma_fundamental_div_mod(q, n);
    assert(p / n * n == n * (p / n) && q / n * n == n * (q / n)) by (nonlinear_arith);
    assert(p / n >= 0 && q / n >= 0) by {
        lemma_div_pos_is_pos(p, n);
        lemma_div_pos_is_pos(q, n);
    }
    assert(x0 >= 0 && y0 >= 0) by (nonlinear_arith)
        requires
            x0 == p / n * n,
            y0 == q / n * n,
            p / n >= 0,
            q / n >= 0,
            n > 0,
    ;
    let (r, s) = (rect_spec(a, w, x0, x1, y0, y1), rect_spec(b, w, x0, x1, y0, y1));
    let cols = x1 - x0;
    assert forall|k: int| 0 <= k < r.len() implies r[k] == s[k] by {
        lemma_fundamental_div_mod(k, cols);
        let (dx, dy) = (k % cols, k / cols);
        assert(0 <= dx < cols && 0 <= dy < y1 - y0) by {
            assert((y1 - y0) * cols == cols * (y1 - y0)) by (nonlinear_arith);
            assert((y1 - y0) * cols >= 0) by (nonlinear_arith)
                requires
                    y1 - y0 >= 0,
                    cols >= 0,
            ;
            crate::color::place_pixel(k, cols, y1 - y0);
        }
        let (x, y) = (x0 + dx, y0 + dy);
        lemma_fundamental_div_mod_converse(x, n, p / n, dx);
        lemma_fundamental_div_mod_converse(y, n, q / n, dy);
        assert(a[y * w + x] == b[y * w + x]);
    }
    assert(r =~= s);
    // The first pixel of the block is one of its own too.
    lemma_fundamental_div_mod_converse(x0, n, p / n, 0);
    lemma_fundamental_div_mod_converse(y0, n, q / n, 0);
    assert(a[y0 * w + x0] == b[y0 * w + x0]);
}

// ---------------------------------------------------------------------------
// Windows
// ---------------------------------------------------------------------------

/// The exact sum of the finite numbers of a window, and how many there are, after its first `t`
/// places.
pub open spec fn window_total(line: Seq<Single>, n: Seq<int>, x: int, size: int, t: nat) -> (int, nat)
    decreases t,
{
    if t == 0 {
        (0, 0)
    } else {
        let (sum, count) = window_total(line, n, x, size, (t - 1) as nat);
        let at = x - size / 2 + (t - 1);
        if 0 <= at < line.len() && line[at].is_finite() {
            (sum + n[at], count + 1)
        } else {
            (sum, count)
        }
    }
}

proof fn window_sum_is_exact(line: Seq<Single>, n: Seq<int>, x: int, size: int, t: nat)
    requires
        are_whole(line, n),
        forall|i: int| 0 <= i < n.len() ==> -0x100 <= #[trigger] n[i] <= 0x100,
        t <= 0x8000,
    ensures
        coarse_is(window_sums(line, x, size, t).0, window_total(line, n, x, size, t).0),
        window_sums(line, x, size, t).1 == window_total(line, n, x, size, t).1,
        window_total(line, n, x, size, t).1 <= t,
        -0x100 * (t as int) <= window_total(line, n, x, size, t).0 <= 0x100 * t,
    decreases t,
{
    limits();
    if t > 0 {
        window_sum_is_exact(line, n, x, size, (t - 1) as nat);
        let at = x - size / 2 + (t - 1);
        if 0 <= at < line.len() && line[at].is_finite() {
            assert(-0x100 <= n[at] <= 0x100);
            coarse_whole_plus(
                window_sums(line, x, size, (t - 1) as nat).0,
                line[at],
                window_total(line, n, x, size, (t - 1) as nat).0,
                n[at],
            );
        }
    }
}

/// A mean over a window is the sum of the finite pixels in it divided by their number; a window
/// without any gives a missing pixel.
pub proof fn windows_have_their_mean(line: Seq<Single>, n: Seq<int>, x: int, size: u32, mean: int)
    requires
        are_whole(line, n),
        forall|i: int| 0 <= i < n.len() ==> -0x100 <= #[trigger] n[i] <= 0x100,
        size <= 0x8000,
    ensures
        ({
            let (total, count) = window_total(line, n, x, size as int, size as nat);
            let out = LineFilter::Mean(size).out_spec(line, x);
            &&& count == 0 ==> out == missing()
            &&& count > 0 && total == mean * count ==> coarse_is(out, mean)
        }),
{
    limits();
    window_sum_is_exact(line, n, x, size as int, size as nat);
    let (total, count) = window_total(line, n, x, size as int, size as nat);
    if count > 0 && total == mean * count {
        assert(-0x100_0000 <= mean <= 0x100_0000) by (nonlinear_arith)
            requires
                total == mean * count,
                count >= 1,
                -0x80_0000 <= total <= 0x80_0000,
        ;
        coarse_whole_int(count as int);
        coarse_whole_over(
            window_sums(line, x, size as int, size as nat).0,
            Single::from_int_spec(count as int),
            mean,
            count as int,
        );
    }
}

/// The sums of ones weighted, and of the weights, are the same.
proof fn ones_weigh_their_weights(line: Seq<Single>, x: int, kernel: Seq<Single>, t: nat)
    requires
        forall|i: int|
            0 <= i < line.len() && (#[trigger] line[i]).is_finite() ==> line[i] == (Single {
                bits: 0x3f80_0000,
            }),
        forall|i: int| 0 <= i < kernel.len() ==> (#[trigger] kernel[i]).is_finite(),
        t <= kernel.len(),
    ensures
        weighted_sums(line, x, kernel, t).0 == weighted_sums(line, x, kernel, t).1,
    decreases t,
{
    if t > 0 {
        ones_weigh_their_weights(line, x, kernel, (t - 1) as nat);
        let at = x + (t - 1) - kernel.len() / 2;
        assert(kernel[t - 1].is_finite());
        if 0 <= at < line.len() && line[at].is_finite() {
            one_times(kernel[t - 1]);
        }
    }
}

/// A weighted mean of ones is one, whatever the weights are and whatever is missing: the weights that
/// count are those of the pixels that do.
pub proof fn flat_lines_stay_flat(line: Seq<Single>, x: int, kernel: Vec<Single>)
    requires
        forall|i: int|
            0 <= i < line.len() && (#[trigger] line[i]).is_finite() ==> line[i] == (Single {
                bits: 0x3f80_0000,
            }),
        forall|i: int| 0 <= i < kernel@.len() ==> (#[trigger] kernel@[i]).is_finite(),
        ({
            let w = weighted_sums(line, x, kernel@, kernel@.len()).1;
            w.is_finite() && (Single { bits: 0 }).lt(w)
        }),
    ensures
        LineFilter::Weighted(kernel).out_spec(line, x) == (Single { bits: 0x3f80_0000 }),
{
    ones_weigh_their_weights(line, x, kernel@, kernel@.len());
    over_itself(weighted_sums(line, x, kernel@, kernel@.len()).1);
}

/// Whether all weights but the middle one are nothing.
pub open spec fn is_middle_only(kernel: Seq<Single>) -> bool {
    &&& kernel.len() % 2 == 1
    &&& forall|i: int|
        0 <= i < kernel.len() ==> #[trigger] kernel[i] == if 2 * i + 1 == kernel.len() {
            Single { bits: 0x3f80_0000 }
        } else {
            Single { bits: 0 }
        }
}

proof fn middle_sums(line: Seq<Single>, n: Seq<int>, x: int, kernel: Seq<Single>, t: nat)
    requires
        are_whole(line, n),
        is_middle_only(kernel),
        0 <= x < line.len(),
        line[x].is_finite(),
        t <= kernel.len(),
    ensures
        ({
            let (acc, weight) = weighted_sums(line, x, kernel, t);
            let past = 2 * t > kernel.len();
            &&& coarse_is(acc, if past { n[x] } else { 0 })
            &&& coarse_is(weight, if past { 1int } else { 0 })
        }),
    decreases t,
{
    limits();
    one_is_whole();
    if t > 0 {
        middle_sums(line, n, x, kernel, (t - 1) as nat);
        let at = x + (t - 1) - kernel.len() / 2;
        let (acc, weight) = weighted_sums(line, x, kernel, (t - 1) as nat);
        let k = kernel[t - 1];
        if 0 <= at < line.len() && line[at].is_finite() {
            let past = 2 * (t - 1) > kernel.len();
            let before = if past {
                n[x]
            } else {
                0
            };
            let heavy = if past {
                1int
            } else {
                0
            };
            let c = if 2 * (t - 1) + 1 == kernel.len() {
                1int
            } else {
                0
            };
            let m = n[at] * c;
            assert(m == if c == 1 { n[at] } else { 0 }) by (nonlinear_arith)
                requires
                    m == n[at] * c,
                    c == 0 || c == 1,
            ;
            assert(line[x].is_finite());
            coarse_whole_times(line[at], k, n[at], c);
            coarse_whole_plus(acc, line[at].times(k), before, m);
            coarse_whole_plus(weight, k, heavy, c);
        }
    }
}

proof fn one_is_whole()
    ensures
        coarse_is(Single { bits: 0x3f80_0000 }, 1),
{
    coarse_whole_int(1);
    limits();
    crate::filter_laws::small_numbers();
}

/// The middle weight is that of the pixel itself: a kernel of that weight alone changes nothing.
pub proof fn the_middle_weight_is_the_pixels_own(
    line: Seq<Single>,
    n: Seq<int>,
    x: int,
    kernel: Vec<Single>,
)
    requires
        are_whole(line, n),
        is_middle_only(kernel@),
        0 <= x < line.len(),
        line[x].is_finite(),
    ensures
        LineFilter::Weighted(kernel).out_spec(line, x).same(line[x]),
{
    limits();
    middle_sums(line, n, x, kernel@, kernel@.len());
    let (acc, weight) = weighted_sums(line, x, kernel@, kernel@.len());
    coarse_whole_order(Single { bits: 0 }, weight, 0, 1);
    assert(n[x] * 1 == n[x]);
    coarse_whole_over(acc, weight, n[x], 1);
    coarse_whole_same(acc.over(weight), line[x], n[x]);
}

// ---------------------------------------------------------------------------
// Rings
// ---------------------------------------------------------------------------

/// The exact sum of the samples in a ring, and how many there are.
pub open spec fn ring_total(a: Aperture, s: Seq<Sample>, v: Seq<int>, n: int, b: int) -> (int, nat)
    decreases s.len(),
{
    if s.len() == 0 {
        (0, 0)
    } else {
        let (sum, count) = ring_total(a, s.drop_last(), v.drop_last(), n, b);
        if ring_spec(a, s.last(), n) == b {
            (sum + v.last(), count + 1)
        } else {
            (sum, count)
        }
    }
}

/// Whether the values of samples are whole numbers up to a million.
pub open spec fn have_whole_values(s: Seq<Sample>, v: Seq<int>) -> bool {
    &&& s.len() == v.len()
    &&& forall|i: int|
        0 <= i < s.len() ==> coarse_is((#[trigger] s[i]).v, v[i]) && -0x10_0000 <= v[i] <= 0x10_0000
}

proof fn ring_sum_is_exact(a: Aperture, s: Seq<Sample>, v: Seq<int>, n: int, b: int)
    requires
        have_whole_values(s, v),
        s.len() <= 0x1_0000_0000,
    ensures
        fine_is(ring_sum(a, s, n, b).0, ring_total(a, s, v, n, b).0),
        ring_sum(a, s, n, b).1 == ring_total(a, s, v, n, b).1,
        ring_total(a, s, v, n, b).1 <= s.len(),
        -0x10_0000 * (s.len() as int) <= ring_total(a, s, v, n, b).0 <= 0x10_0000 * s.len(),
    decreases s.len(),
{
    limits();
    if s.len() > 0 {
        let (t, w) = (s.drop_last(), v.drop_last());
        assert forall|i: int| 0 <= i < t.len() implies coarse_is((#[trigger] t[i]).v, w[i])
            && -0x10_0000 <= w[i] <= 0x10_0000 by {
            assert(coarse_is(s[i].v, v[i]));
        }
        ring_sum_is_exact(a, t, w, n, b);
        let k = s.len() - 1;
        assert(coarse_is(s[k].v, v[k]));
        coarse_whole_widen(s.last().v, v.last());
        if ring_spec(a, s.last(), n) == b {
            fine_whole_plus(
                ring_sum(a, t, n, b).0,
                s.last().v.widen(),
                ring_total(a, t, w, n, b).0,
                v.last(),
            );
        }
    }
}

/// The value of a ring is the sum of the samples in it divided by their number.
pub proof fn rings_have_their_mean(a: Aperture, s: Seq<Sample>, v: Seq<int>, n: int, b: int, mean: int)
    requires
        have_whole_values(s, v),
        s.len() <= 0x1_0000_0000,
        -0x100_0000 <= mean <= 0x100_0000,
    ensures
        ({
            let (total, count) = ring_total(a, s, v, n, b);
            &&& count == 0 ==> ring_mean(a, s, n, b) == missing()
            &&& count > 0 && total == mean * count ==> coarse_is(ring_mean(a, s, n, b), mean)
        }),
{
    limits();
    ring_sum_is_exact(a, s, v, n, b);
    let (total, count) = ring_total(a, s, v, n, b);
    if count > 0 && total == mean * count {
        fine_whole_int(count as int);
        let (sum, c) = (ring_sum(a, s, n, b).0, Double::from_int_spec(count as int));
        fine_whole_over(sum, c, mean, count as int);
        fine_whole_narrow(sum.over(c), mean);
    }
}

/// A profile goes from the innermost ring to the outermost: its value at the place `b` is the mean of
/// the samples in the ring `b`.
pub proof fn profiles_go_outward(img: FitsImage, a: Aperture, n: int, b: int, v: Seq<int>, mean: int)
    requires
        0 <= b < n,
        have_whole_values(at_least_one(a).samples(img), v),
        at_least_one(a).samples(img).len() <= 0x1_0000_0000,
        -0x100_0000 <= mean <= 0x100_0000,
    ensures
        ({
            let c = at_least_one(a);
            let (total, count) = ring_total(c, c.samples(img), v, n, b);
            let out = profile_spec(img, a, n);
            &&& out.len() == n
            &&& count == 0 ==> out[b] == missing()
            &&& count > 0 && total == mean * count ==> coarse_is(out[b], mean)
        }),
{
    rings_have_their_mean(at_least_one(a), at_least_one(a).samples(img), v, n, b, mean);
}

// ---------------------------------------------------------------------------
// Centroids
// ---------------------------------------------------------------------------

/// The exact sums of a centroid over the first `k` samples in the order of `p`: of the heights above
/// the background, of these times the positions, and how many there are.
pub open spec fn exact_moments(
    v: Seq<int>,
    x: Seq<int>,
    y: Seq<int>,
    p: Seq<usize>,
    bg: int,
    k: nat,
) -> (int, int, int, nat)
    decreases k,
{
    if k == 0 {
        (0, 0, 0, 0)
    } else {
        let (w, sx, sy, n) = exact_moments(v, x, y, p, bg, (k - 1) as nat);
        let i = p[k - 1] as int;
        let up = v[i] - bg;
        if up > 0 {
            (w + up, sx + up * x[i], sy + up * y[i], n + 1)
        } else {
            (w, sx, sy, n)
        }
    }
}

/// Whether samples have whole values up to a thousand at whole positions up to ten thousands.
pub open spec fn are_whole_samples(s: Seq<Sample>, v: Seq<int>, x: Seq<int>, y: Seq<int>) -> bool {
    &&& s.len() == v.len() == x.len() == y.len()
    &&& forall|i: int|
        0 <= i < s.len() ==> {
            let q = #[trigger] s[i];
            &&& coarse_is(q.v, v[i])
            &&& fine_is(q.x, x[i])
            &&& fine_is(q.y, y[i])
            &&& -0x400 <= v[i] <= 0x400
            &&& 0 <= x[i] <= 0x8000
            &&& 0 <= y[i] <= 0x8000
        }
}

proof fn moments_are_exact(
    s: Seq<Sample>,
    v: Seq<int>,
    x: Seq<int>,
    y: Seq<int>,
    p: Seq<usize>,
    bg: Single,
    b: int,
    k: nat,
)
    requires
        are_whole_samples(s, v, x, y),
        coarse_is(bg, b),
        -0x400 <= b <= 0x400,
        forall|i: int| 0 <= i < p.len() ==> #[trigger] p[i] < s.len(),
        k <= p.len(),
        k <= 0x100_0000,
    ensures
        ({
            let m = moments(s, p, bg, k);
            let (w, sx, sy, n) = exact_moments(v, x, y, p, b, k);
            &&& fine_is(m.w, w)
            &&& fine_is(m.x, sx)
            &&& fine_is(m.y, sy)
            &&& m.n == n
            &&& 0 <= w <= 0x800 * k
            &&& 0 <= sx <= 0x400_0000 * k
            &&& 0 <= sy <= 0x400_0000 * k
            &&& n <= k
        }),
    decreases k,
{
    limits();
    if k > 0 {
        moments_are_exact(s, v, x, y, p, bg, b, (k - 1) as nat);
        let m = moments(s, p, bg, (k - 1) as nat);
        let (w, sx, sy, n) = exact_moments(v, x, y, p, b, (k - 1) as nat);
        let i = p[k - 1] as int;
        assert(p[k - 1] < s.len());
        let q = s[i];
        assert(coarse_is(q.v, v[i]));
        let up = v[i] - b;
        coarse_whole_minus(q.v, bg, v[i], b);
        let zero = Single { bits: 0 };
        let d = q.v.minus(bg);
        coarse_whole_order(d, zero, up, 0);
        let h = if up < 0 {
            0
        } else {
            up
        };
        assert(coarse_is(d.max(zero), h));
        coarse_whole_widen(d.max(zero), h);
        let weight = d.max(zero).widen();
        fine_whole_order(weight, Double { bits: 0 }, h, 0);
        if up > 0 {
            let (a, c) = (up * x[i], up * y[i]);
            assert(0 <= a <= 0x400_0000 && 0 <= c <= 0x400_0000) by (nonlinear_arith)
                requires
                    a == up * x[i],
                    c == up * y[i],
                    0 <= up <= 0x800,
                    0 <= x[i] <= 0x8000,
                    0 <= y[i] <= 0x8000,
            ;
            fine_whole_times(weight, q.x, up, x[i]);
            fine_whole_times(weight, q.y, up, y[i]);
            fine_whole_plus(m.w, weight, w, up);
            fine_whole_plus(m.x, weight.times(q.x), sx, a);
            fine_whole_plus(m.y, weight.times(q.y), sy, c);
        }
    }
}

/// The centroid is the mean position of the samples brighter than the median, each weighted by how
/// much brighter it is; it takes three of them.
pub proof fn centroids_are_weighted_means(
    s: Seq<Sample>,
    p: Seq<usize>,
    v: Seq<int>,
    x: Seq<int>,
    y: Seq<int>,
    cx: int,
    cy: int,
)
    requires
        are_whole_samples(s, v, x, y),
        ascending(sample_values(s), p),
        4 <= s.len() <= 0x100_0000,
        0 <= cx <= 0x8000,
        0 <= cy <= 0x8000,
    ensures
        ({
            let n = s.len() as int;
            let bg = v[p[n / 2] as int];
            let (w, sx, sy, k) = exact_moments(v, x, y, p, bg, s.len());
            &&& centroid_spec(s, p) is None <==> k < 3
            &&& k >= 3 && sx == cx * w && sy == cy * w ==> (centroid_spec(s, p) matches Some(c)
                && fine_is(c.0, cx) && fine_is(c.1, cy))
        }),
{
    limits();
    let n = s.len() as int;
    assert(p.len() == n);
    assert(p[n / 2] < n);
    let i = p[n / 2] as int;
    let bg = s[i].v;
    assert(coarse_is(s[i].v, v[i]));
    assert forall|j: int| 0 <= j < p.len() implies #[trigger] p[j] < s.len() by {
        assert(0 <= p[j] < n);
    }
    moments_are_exact(s, v, x, y, p, bg, v[i], s.len());
    let m = moments(s, p, bg, s.len());
    let (w, sx, sy, k) = exact_moments(v, x, y, p, v[i], s.len());
    heavy(v, x, y, p, v[i], s.len());
    fine_whole_order(m.w, Double { bits: 0 }, w, 0);
    if k >= 3 && sx == cx * w && sy == cy * w {
        fine_whole_over(m.x, m.w, cx, w);
        fine_whole_over(m.y, m.w, cy, w);
    }
}

/// Samples that weigh have a weight.
proof fn heavy(v: Seq<int>, x: Seq<int>, y: Seq<int>, p: Seq<usize>, bg: int, k: nat)
    ensures
        exact_moments(v, x, y, p, bg, k).3 <= exact_moments(v, x, y, p, bg, k).0,
    decreases k,
{
    if k > 0 {
        heavy(v, x, y, p, bg, (k - 1) as nat);
    }
}

// ---------------------------------------------------------------------------
// Statistics
// ---------------------------------------------------------------------------

pub proof fn sum_is_exact(v: Seq<Single>, n: Seq<int>)
    requires
        are_whole(v, n),
        forall|i: int| 0 <= i < v.len() ==> (#[trigger] v[i]).is_finite(),
        v.len() <= 0x1_0000_0000,
    ensures
        fine_is(sum_spec(v), exact_sum(v, n)),
        -0x10_0000 * (v.len() as int) <= exact_sum(v, n) <= 0x10_0000 * v.len(),
    decreases v.len(),
{
    limits();
    if v.len() > 0 {
        let (t, m) = (v.drop_last(), n.drop_last());
        assert forall|i: int| 0 <= i < t.len() && (#[trigger] t[i]).is_finite() implies coarse_is(
            t[i],
            m[i],
        ) && -0x10_0000 <= m[i] <= 0x10_0000 by {
            assert(v[i].is_finite());
        }
        assert forall|i: int| 0 <= i < t.len() implies (#[trigger] t[i]).is_finite() by {
            assert(v[i].is_finite());
        }
        sum_is_exact(t, m);
        let k = v.len() - 1;
        assert(v[k].is_finite());
        coarse_whole_widen(v.last(), n.last());
        fine_whole_plus(sum_spec(t), v.last().widen(), exact_sum(t, m), n.last());
    }
}

/// The mean is the sum divided by the number, the extremes are the first and the last of the numbers
/// in order, and the median is the one in the middle or half the sum of the two.
pub proof fn statistics_are_what_they_are_called(s: Seq<Single>, n: Seq<int>, mean: int, middle: int)
    requires
        are_whole(s, n),
        forall|i: int| 0 <= i < s.len() ==> (#[trigger] s[i]).is_finite(),
        0 < s.len() <= 0x1_0000_0000,
        -0x10_0000 <= mean <= 0x10_0000,
        s.len() % 2 == 1 ==> middle == n[s.len() as int / 2],
        s.len() % 2 == 0 ==> 2 * middle == n[s.len() as int / 2 - 1] + n[s.len() as int / 2],
    ensures
        ({
            let st = stats_spec(s);
            &&& fine_is(st.min, n[0])
            &&& fine_is(st.max, n[n.len() - 1])
            &&& fine_is(st.median, middle)
            &&& exact_sum(s, n) == mean * s.len() ==> fine_is(st.mean, mean)
        }),
{
    limits();
    sum_is_exact(s, n);
    let k = s.len() as int;
    fine_whole_int(k);
    assert(s[0].is_finite() && s[k - 1].is_finite() && s[k / 2].is_finite());
    coarse_whole_widen(s[0], n[0]);
    coarse_whole_widen(s[k - 1], n[k - 1]);
    coarse_whole_widen(s[k / 2], n[k / 2]);
    if k % 2 == 0 {
        assert(s[k / 2 - 1].is_finite());
        coarse_whole_widen(s[k / 2 - 1], n[k / 2 - 1]);
        let (a, b) = (s[k / 2 - 1].widen(), s[k / 2].widen());
        fine_whole_plus(a, b, n[k / 2 - 1], n[k / 2]);
        crate::exact::half_of_even(a.plus(b), middle);
    }
    if exact_sum(s, n) == mean * k {
        fine_whole_over(sum_spec(s), Double::from_int_spec(k), mean, k);
    }
}

} // verus!
