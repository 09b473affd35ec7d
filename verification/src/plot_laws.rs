//! Histograms, contours and values along a line, measured against exact arithmetic.

use crate::arith::Whole;
use crate::exact::{
    alike, alike_cancel, alike_chain, alike_nothing, alike_times, coarse_is, coarse_whole_widen,
    coarse_worth, fine, fine_is, fine_minus, fine_of, fine_order, fine_over, fine_times, fine_whole,
    fine_whole_cut, fine_whole_int, fine_whole_minus, fine_whole_order, fine_whole_over,
    fine_whole_plus, fine_whole_times, fine_worth, in_range, nothing_is_ample, one, parts,
    powers_grow, range_ample, range_product, range_quotient, round_at_most, size_by_bits,
    widened_is_the_same,
};
use crate::fits::FitsImage;
use crate::image::Limits;
use crate::num::{Double, Single};
use crate::overlay::{crosses, level_spec};
use crate::plot::{bin_spec, Section};
use crate::rounding::units;
use vstd::arithmetic::power2::*;
use vstd::prelude::*;

verus! {

proof fn numbers()
    ensures
        fine_is(Double { bits: 0x3ff0_0000_0000_0000 }, 1),
        fine_is(Double { bits: 0x4018_0000_0000_0000 }, 6),
        fine_is(Double { bits: 0x4060_0000_0000_0000 }, 128),
        fine_is(Double { bits: 0 }, 0),
        fine(Double { bits: 0x3cb0_0000_0000_0000 }) == pow2(1022),
        one(53) > 0,
        in_range(one(53), 1074, 1074),
        parts(53) == 0x20_0000_0000_0000,
        pow2(925) > 0,
        parts(24) == 0x100_0000,
{
    lemma2_to64();
    lemma2_to64_rest();
    lemma_pow2_pos(1074);
    lemma_pow2_pos(925);
    size_by_bits(0x3ff0_0000_0000_0000, 1023, 0, 53);
    size_by_bits(0x4018_0000_0000_0000, 1025, 0x8_0000_0000_0000, 53);
    size_by_bits(0x4060_0000_0000_0000, 1030, 0, 53);
    size_by_bits(0x3cb0_0000_0000_0000, 971, 0, 53);
    lemma_pow2_adds(52, 970);
    lemma_pow2_adds(52, 1022);
    lemma_pow2_adds(50, 1024);
    lemma_pow2_adds(52, 1029);
    lemma_pow2_adds(7, 1074);
    let w = pow2(1024) as int;
    let q = pow2(50) as int;
    assert(0x18_0000_0000_0000 * w == 6 * (q * w)) by (nonlinear_arith)
        requires
            q == 0x4_0000_0000_0000,
    ;
    assert(units(0, 53) == 0);
    assert(0 * one(53) == 0) by (nonlinear_arith);
}

// ---------------------------------------------------------------------------
// Histograms
// ---------------------------------------------------------------------------

/// The bins of a histogram are of equal width between the limits: a pixel in the bin `b` of 128 lies
/// at least `b` and, but for the last bin, at most `b + 1` parts of 128 of the way from the lower to
/// the upper limit, to a few roundings; one below the lower limit lies in none.
#[verifier::spinoff_prover]
pub proof fn bins_are_of_equal_width(v: Single, lim: Limits)
    requires
        v.is_finite(),
        lim.low.is_finite(),
        lim.high.is_finite(),
        coarse_worth(lim.high) - coarse_worth(lim.low) >= pow2(110),
        coarse_worth(v) <= coarse_worth(lim.high),
    ensures
        ({
            let w = coarse_worth(lim.high) - coarse_worth(lim.low);
            let x = coarse_worth(v) - coarse_worth(lim.low);
            let b = parts(53);
            match bin_spec(v, lim) {
                Some(i) => {
                    &&& x >= 0
                    &&& 0 <= i < 128
                    &&& i * w * b <= 128 * x * (b + 14)
                    &&& i < 127 ==> 128 * x * b <= (i + 1) * w * (b + 14)
                },
                None => x < 0,
            }
        }),
{
    numbers();
    let (o, b) = (one(53), parts(53));
    let w = coarse_worth(lim.high) - coarse_worth(lim.low);
    let x = coarse_worth(v) - coarse_worth(lim.low);
    let lo = lim.low.widen();
    let hi = lim.high.widen();
    let g = v.widen();
    widened_is_the_same(v);
    widened_is_the_same(lim.low);
    widened_is_the_same(lim.high);
    let z = pow2(925) as int;
    small_worth(v);
    small_worth(lim.low);
    small_worth(lim.high);
    // The differences.
    let (xz, wz) = (x * z, w * z);
    assert(xz == coarse_worth(v) * z - coarse_worth(lim.low) * z && wz == coarse_worth(lim.high) * z
        - coarse_worth(lim.low) * z) by (nonlinear_arith)
        requires
            xz == x * z,
            wz == w * z,
            w == coarse_worth(lim.high) - coarse_worth(lim.low),
            x == coarse_worth(v) - coarse_worth(lim.low),
    ;
    lemma_pow2_unfold(279);
    lemma_pow2_adds(279, 925);
    lemma_pow2_adds(110, 925);
    lemma_pow2_strictly_increases(1204, 2000);
    let big = pow2(279) as int;
    powers_grow(110, 110);
    assert(-(big * z) < xz < big * z && 0 < wz < big * z && wz >= pow2(110) * z)
        by (nonlinear_arith)
        requires
            xz == x * z,
            wz == w * z,
            -big < x < big,
            w < big,
            w >= pow2(110),
            pow2(110) > 0,
            z > 0,
    ;
    powers_grow(110, 110);
    fine_minus(g, lo);
    fine_minus(hi, lo);
    let (d, s) = (g.minus(lo), hi.minus(lo));
    let (fd, fs) = (fine(d), fine(s));
    assert(in_range(wz, 1035, 1204));
    lemma2_to64();
    assert(fs * 1 == fs);
    range_quotient(fs, 1, wz, 1035, 1204, 0, 0, 2, b);
    let floor = Double { bits: 0x3cb0_0000_0000_0000 };
    powers_grow(1022, 1034);
    powers_grow(1034, 1034);
    fine_order(s, floor);
    assert(s.max(floor) == s);
    let t = d.over(s);
    let zero = Double { bits: 0 };
    let unit = Double { bits: 0x3ff0_0000_0000_0000 };
    if x < 0 {
        assert(xz < 0) by (nonlinear_arith)
            requires
                xz == x * z,
                x < 0,
                z > 0,
        ;
        assert(-xz >= z) by (nonlinear_arith)
            requires
                xz == x * z,
                x <= -1,
                z > 0,
        ;
        assert(in_range(-xz, 925, 1204));
        assert(fd * 1 == fd);
        range_quotient(fd, 1, -xz, 925, 1204, 0, 0, 2, b);
        range_product(fd, o, 924, 1205, 1074, 1074);
        range_ample(fd * o, fs, 1998, 2279, 1034, 1205, 53);
        fine_over(d, s);
        range_quotient(fine(t), fs, fd * o, 1998, 2279, 1034, 1205, 2, b);
        powers_grow(792, 792);
        fine_order(zero, t);
        assert(bin_spec(v, lim) is None);
    } else {
        // The share of the way.
        assert(xz >= 0 && xz <= wz) by (nonlinear_arith)
            requires
                xz == x * z,
                wz == w * z,
                0 <= x <= w,
                z > 0,
        ;
        assert(fine_worth(g) - fine_worth(lo) == xz && fine_worth(hi) - fine_worth(lo) == wz);
        no_further(g, hi, lo);
        if x == 0 {
            assert(xz == 0) by (nonlinear_arith)
                requires
                    xz == x * z,
                    x == 0,
            ;
            alike_nothing(fd, 2, b);
            assert(0 * o == 0) by (nonlinear_arith);
            nothing_is_ample(fs, 53);
        } else {
            assert(xz >= z) by (nonlinear_arith)
                requires
                    xz == x * z,
                    x >= 1,
                    z > 0,
            ;
            assert(in_range(xz, 925, 1204));
            assert(fd * 1 == fd);
            range_quotient(fd, 1, xz, 925, 1204, 0, 0, 2, b);
            range_product(fd, o, 924, 1205, 1074, 1074);
            range_ample(fd * o, fs, 1998, 2279, 1034, 1205, 53);
        }
        fine_over(d, s);
        let ft = fine(t);
        share_at_most_one(d, s);
        if x == 0 {
            alike_nothing(ft * fs, 2, b);
            assert(ft == 0) by (nonlinear_arith)
                requires
                    ft * fs == 0,
                    fs > 0,
            ;
        } else {
            assert(xz > 0);
        }
        assert(!t.raw().neg || ft == 0);
        fine_order(zero, t);
        fine_order(t, unit);
        // In parts of 128.
        let c = Double { bits: 0x4060_0000_0000_0000 };
        let n = ft * (128 * o);
        if ft == 0 {
            assert(n == 0) by (nonlinear_arith)
                requires
                    n == ft * (128 * o),
                    ft == 0,
            ;
            nothing_is_ample(o, 53);
        } else {
            range_quotient(ft, fs, fd * o, 1998, 2279, 1034, 1205, 2, b);
            lemma_pow2_adds(7, 1074);
            assert(in_range(128 * o, 1081, 1081));
            range_product(ft, 128 * o, 792, 1246, 1081, 1081);
            range_ample(n, o, 1873, 2327, 1074, 1074, 53);
        }
        fine_times(t, c);
        let y = t.times(c);
        let fy = fine(y);
        assert(n == (128 * ft) * o) by (nonlinear_arith)
            requires
                n == ft * (128 * o),
        ;
        alike_cancel(fy, 128 * ft, o, 2, b);
        // fy * w is alike to 128 * x * o.
        alike_times(fy, 128 * ft, fs, 2, b);
        alike_times(ft * fs, fd * o, 128, 2, b);
        assert((ft * fs) * 128 == (128 * ft) * fs) by (nonlinear_arith);
        alike_chain(fy * fs, (128 * ft) * fs, (fd * o) * 128, 2, 2, b);
        alike_times(fd, xz, o * 128, 2, b);
        assert((fd * o) * 128 == fd * (o * 128)) by (nonlinear_arith);
        alike_chain(fy * fs, fd * (o * 128), xz * (o * 128), 5, 2, b);
        alike_times(fs, wz, fy, 2, b);
        assert(fs * fy == fy * fs && wz * fy == (fy * w) * z && xz * (o * 128) == ((128 * x) * o) * z)
            by (nonlinear_arith)
            requires
                wz == w * z,
                xz == x * z,
        ;
        alike_chain((fy * w) * z, fy * fs, ((128 * x) * o) * z, 2, 8, b);
        assert(fy * w >= 0 && (128 * x) * o >= 0) by (nonlinear_arith)
            requires
                fy >= 0,
                w >= 0,
                x >= 0,
                o >= 0,
        ;
        alike_cancel(fy * w, (128 * x) * o, z, 11, b);
        let top = usize::MAX as int;
        if y.raw().neg {
            minus_zero(y);
        } else {
            fine_whole(y, Whole::Trunc, top);
        }
        let k = y.whole_spec(Whole::Trunc, 0, top);
        assert(k * o <= fy && (k < top ==> fy <= (k + 1) * o));
        let i = if k < 128 {
            k
        } else {
            127
        };
        assert(bin_spec(v, lim) == Some(i));
        steps(i, k, o, fy, w, x, b);
    }
}

proof fn minus_zero(y: Double)
    requires
        y.raw().neg,
        fine(y) == 0,
        y.is_finite(),
    ensures
        y.whole_spec(Whole::Trunc, 0, usize::MAX as int) == 0,
{
    reveal(Double::whole_spec);
    lemma_pow2_pos(1074);
}

proof fn steps(i: int, k: int, o: int, y: int, w: int, x: int, b: int)
    requires
        0 <= i <= k,
        i < 127 ==> i == k,
        i <= 127,
        o > 0,
        w > 0,
        x >= 0,
        b > 0,
        y >= 0,
        k * o <= y,
        i < 127 ==> y <= (k + 1) * o,
        alike(y * w, (128 * x) * o, 11, b),
    ensures
        i * w * b <= 128 * x * (b + 14),
        i < 127 ==> 128 * x * b <= (i + 1) * w * (b + 14),
{
    assert((i * w * b) * o <= (y * w) * b) by (nonlinear_arith)
        requires
            i <= k,
            k * o <= y,
            w > 0,
            b > 0,
            o > 0,
    ;
    let (e, f) = (i * w * b, 128 * x * (b + 11));
    assert(((128 * x) * o) * (b + 11) == f * o) by (nonlinear_arith)
        requires
            f == 128 * x * (b + 11),
    ;
    assert(e <= f) by (nonlinear_arith)
        requires
            e * o <= f * o,
            o > 0,
    ;
    assert(f <= 128 * x * (b + 14)) by (nonlinear_arith)
        requires
            f == 128 * x * (b + 11),
            x >= 0,
    ;
    if i < 127 {
        let (p, q) = (128 * x * b, (i + 1) * w * (b + 11));
        assert(((128 * x) * o) * b == p * o) by (nonlinear_arith)
            requires
                p == 128 * x * b,
        ;
        assert((y * w) * (b + 11) <= q * o) by (nonlinear_arith)
            requires
                q == (i + 1) * w * (b + 11),
                y <= (i + 1) * o,
                w > 0,
                b > 0,
        ;
        assert(p <= q) by (nonlinear_arith)
            requires
                p * o <= q * o,
                o > 0,
        ;
        assert(q <= (i + 1) * w * (b + 14)) by (nonlinear_arith)
            requires
                q == (i + 1) * w * (b + 11),
                i >= 0,
                w > 0,
        ;
    }
}

/// A finite number of single precision has fewer than `2^278` units.
proof fn small_worth(x: Single)
    requires
        x.is_finite(),
    ensures
        -(pow2(278) as int) < coarse_worth(x) < pow2(278),
{
    let m = x.raw().mag as nat;
    let top: nat = 0x7f7f_ffff;
    lemma2_to64();
    size_by_bits(0x7f7f_ffff, 254, 0x7f_ffff, 24);
    if m < top {
        crate::arith::units_increase(m, top, 24);
    }
    let w = pow2(253) as int;
    lemma_pow2_pos(253);
    lemma_pow2_adds(24, 253);
    lemma_pow2_strictly_increases(277, 278);
    assert(0xff_ffff * w < 0x100_0000 * w) by (nonlinear_arith)
        requires
            w > 0,
    ;
}

/// A number that is no more than another is no further from a third below both.
proof fn no_further(a: Double, b: Double, c: Double)
    requires
        a.is_finite(),
        b.is_finite(),
        c.is_finite(),
        fine_worth(c) <= fine_worth(a) <= fine_worth(b),
        fine_worth(b) - fine_worth(c) < pow2(2000),
    ensures
        fine(a.minus(c)) <= fine(b.minus(c)),
{
    reveal(Double::minus_spec);
    reveal(Double::plus_spec);
    let n = c.negate().raw();
    assert(n.mag == c.raw().mag && n.neg == !c.raw().neg);
    let (x, y) = (fine_worth(a) - fine_worth(c), fine_worth(b) - fine_worth(c));
    assert(units(0, 53) == 0);
    fine_minus(a, c);
    fine_minus(b, c);
    if x > 0 {
        assert(x * 1 == x && y * 1 == y);
        crate::exact::round_grows(x as nat, 1, y as nat, 1, 53);
        crate::exact::rounded_alike(y as nat, 1, 53);
        let (p, q) = (
            crate::rounding::round_bits(x as nat, 1, 53),
            crate::rounding::round_bits(y as nat, 1, 53),
        );
        if p < q {
            crate::arith::units_increase(p, q, 53);
        }
        fine_of(crate::arith::sum_spec(a.raw(), n, 53));
        fine_of(crate::arith::sum_spec(b.raw(), n, 53));
    }
}

/// A share of something larger is at most one.
proof fn share_at_most_one(d: Double, s: Double)
    requires
        d.is_finite(),
        s.is_finite(),
        fine(s) > 0,
        fine(d) <= fine(s),
    ensures
        fine(d.over(s)) <= one(53),
{
    numbers();
    reveal(Double::over_spec);
    let o = pow2(1074);
    let (x, y) = (units(d.raw().mag as nat, 53), units(s.raw().mag as nat, 53));
    assert(units(0, 53) == 0);
    assert(x * o <= o * y) by (nonlinear_arith)
        requires
            x <= y,
            o >= 0,
    ;
    let n = (x * o) as nat;
    assert(n >= 0) by (nonlinear_arith)
        requires
            n == x * o,
    ;
    round_at_most(n, y, 0x3ff0_0000_0000_0000, 53);
    fine_of(crate::arith::quotient_spec(d.raw(), s.raw(), 53));
    let m = d.over(s).raw().mag as nat;
    if m < 0x3ff0_0000_0000_0000 {
        crate::arith::units_increase(m, 0x3ff0_0000_0000_0000, 53);
    }
}

// ---------------------------------------------------------------------------
// Contours
// ---------------------------------------------------------------------------

/// The five contours part the way between the limits into six equal steps: with limits a multiple of
/// six apart, each contour is a step above the one before, and the first a step above the lower
/// limit.
pub proof fn contours_are_evenly_spaced(lim: Limits, k: int, low: int, step: int)
    requires
        0 <= k < 5,
        coarse_is(lim.low, low),
        coarse_is(lim.high, low + 6 * step),
        -0x100_0000 <= low <= 0x100_0000,
        -0x100_0000 <= low + 6 * step <= 0x100_0000,
    ensures
        fine_is(level_spec(lim, k), low + (k + 1) * step),
{
    numbers();
    coarse_whole_widen(lim.low, low);
    coarse_whole_widen(lim.high, low + 6 * step);
    let (lo, hi) = (lim.low.widen(), lim.high.widen());
    fine_whole_minus(hi, lo, low + 6 * step, low);
    let span = hi.minus(lo);
    fine_whole_int(k + 1);
    let n = Double::from_int_spec(k + 1);
    let m = (k + 1) * step;
    assert(-0x1000_0000 <= m <= 0x1000_0000) by (nonlinear_arith)
        requires
            m == (k + 1) * step,
            0 <= k < 5,
            -0x200_0000 <= 6 * step <= 0x200_0000,
    ;
    assert((6 * step) * (k + 1) == m * 6) by (nonlinear_arith)
        requires
            m == (k + 1) * step,
    ;
    fine_whole_times(span, n, 6 * step, k + 1);
    fine_whole_over(span.times(n), Double { bits: 0x4018_0000_0000_0000 }, m, 6);
    fine_whole_plus(lo, span.times(n).over(Double { bits: 0x4018_0000_0000_0000 }), low, m);
}

/// A contour passes between two pixels where its level lies strictly between their values.
pub proof fn contours_pass_between_values(a: Double, b: Double, c: Double, x: int, y: int, z: int)
    requires
        fine_is(a, x),
        fine_is(b, y),
        fine_is(c, z),
        -0x100_0000 <= x <= 0x100_0000,
        -0x100_0000 <= y <= 0x100_0000,
        -0x100_0000 <= z <= 0x100_0000,
    ensures
        crosses(a, b, c) == (x < z < y || y < z < x),
{
    numbers();
    fine_whole_minus(a, c, x, z);
    fine_whole_minus(b, c, y, z);
    let m = (x - z) * (y - z);
    assert(-0x20_0000_0000_0000 <= m <= 0x20_0000_0000_0000 && (m < 0) == (x < z < y || y < z < x))
        by (nonlinear_arith)
        requires
            m == (x - z) * (y - z),
            -0x200_0000 <= x - z <= 0x200_0000,
            -0x200_0000 <= y - z <= 0x200_0000,
    ;
    fine_whole_times(a.minus(c), b.minus(c), x - z, y - z);
    fine_whole_order(a.minus(c).times(b.minus(c)), Double { bits: 0 }, m, 0);
}

// ---------------------------------------------------------------------------
// Values along a line
// ---------------------------------------------------------------------------

/// The values along a line start at its one end and stop at its other: the first is the pixel at
/// the start, the last the one at the end.
pub proof fn lines_go_from_end_to_end(s: Section, img: FitsImage, x0: int, y0: int, x1: int, y1: int)
    requires
        fine_is(s.x0, x0),
        fine_is(s.y0, y0),
        fine_is(s.x1, x1),
        fine_is(s.y1, y1),
        img.width <= 0x100_0000,
        img.height <= 0x100_0000,
        1 <= x0 <= img.width,
        1 <= x1 <= img.width,
        1 <= y0 <= img.height,
        1 <= y1 <= img.height,
        s.count() <= 0x1000_0000,
    ensures
        s.count() >= 2,
        s.samples(img).len() == s.count(),
        s.samples(img)[0] == img.data@[(y0 - 1) * img.width + (x0 - 1)],
        s.samples(img)[s.count() - 1] == img.data@[(y1 - 1) * img.width + (x1 - 1)],
{
    numbers();
    let n = s.count() - 1;
    fine_whole_int(0);
    fine_whole_int(n);
    let c = Double::from_int_spec(n);
    assert(0 * n == 0 && 1 * n == n);
    fine_whole_over(Double::from_int_spec(0), c, 0, n);
    fine_whole_over(Double::from_int_spec(n), c, 1, n);
    at_share(s.x0, s.x1, x0, x1, Double::from_int_spec(0).over(c), 0);
    at_share(s.y0, s.y1, y0, y1, Double::from_int_spec(0).over(c), 0);
    at_share(s.x0, s.x1, x0, x1, c.over(c), 1);
    at_share(s.y0, s.y1, y0, y1, c.over(c), 1);
}

proof fn at_share(a: Double, b: Double, x: int, y: int, t: Double, k: int)
    requires
        fine_is(a, x),
        fine_is(b, y),
        1 <= x <= 0x100_0000,
        1 <= y <= 0x100_0000,
        fine_is(t, k),
        k == 0 || k == 1,
    ensures
        a.plus(b.minus(a).times(t)).minus(Double { bits: 0x3ff0_0000_0000_0000 }).whole_spec(
            Whole::Round,
            i64::MIN as int,
            i64::MAX as int,
        ) == if k == 0 {
            x - 1
        } else {
            y - 1
        },
{
    numbers();
    let u = Double { bits: 0x3ff0_0000_0000_0000 };
    fine_whole_minus(b, a, y, x);
    let m = (y - x) * k;
    assert(m == if k == 0 { 0 } else { y - x }) by (nonlinear_arith)
        requires
            m == (y - x) * k,
            k == 0 || k == 1,
    ;
    fine_whole_times(b.minus(a), t, y - x, k);
    fine_whole_plus(a, b.minus(a).times(t), x, m);
    let f = a.plus(b.minus(a).times(t));
    fine_whole_minus(f, u, x + m, 1);
    fine_whole_cut(f.minus(u), x + m - 1, Whole::Round, i64::MIN as int, i64::MAX as int);
}

} // verus!
