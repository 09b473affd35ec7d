//! What measuring regions gives, against exact arithmetic.

use crate::analysis::{ring_spec, Aperture, Sample};
use crate::arith::Whole;
use crate::exact::{
    abs, alike, alike_bound, alike_cancel, alike_chain, alike_nothing, alike_product, alike_self,
    alike_sum, alike_times, fine, fine_integer, fine_minus, fine_over, fine_plus, fine_root,
    fine_times, fine_whole, in_range, nothing_is_ample, one, parts, powers_grow, range_ample,
    range_product, range_quotient, range_root,
};
use crate::fits::FitsImage;
use crate::num::Double;
use crate::rounding::unit_exp;
use vstd::arithmetic::power2::*;
use vstd::prelude::*;

verus! {

/// The exact offset between two coordinates, in units.
pub open spec fn offset(x: Double, y: Double) -> int {
    abs(x.raw().value(53) - y.raw().value(53))
}

/// The exact square of the distance of a sample from the centre, in units squared.
pub open spec fn distance_squared(a: Aperture, s: Sample) -> int {
    offset(s.x, a.x) * offset(s.x, a.x) + offset(s.y, a.y) * offset(s.y, a.y)
}

/// Whether an offset is nothing, or not so small or so large that its square could not be held.
pub open spec fn is_plain_offset(x: int) -> bool {
    x == 0 || in_range(x, 875, 1273)
}

/// Whether a circle and a sample are such that the distance can be held.
pub open spec fn is_plain(a: Aperture, s: Sample) -> bool {
    &&& a.x.is_finite()
    &&& a.y.is_finite()
    &&& s.x.is_finite()
    &&& s.y.is_finite()
    &&& is_plain_offset(offset(s.x, a.x))
    &&& is_plain_offset(offset(s.y, a.y))
    &&& a.r.is_finite()
    &&& !a.r.raw().neg
    &&& in_range(fine(a.r), 874, 1274)
}

/// The square of an offset.
pub proof fn squared_offset(x: Double, y: Double)
    requires
        x.is_finite(),
        y.is_finite(),
        is_plain_offset(offset(x, y)),
    ensures
        ({
            let q = x.minus(y).times(x.minus(y));
            let n = offset(x, y);
            &&& q.is_finite()
            &&& !q.raw().neg
            &&& alike(fine(q) * one(53), n * n, 8, parts(53))
            &&& n == 0 ==> fine(q) == 0
            &&& n > 0 ==> in_range(fine(q), 673, 1475)
        }),
{
    let (o, b) = (one(53), parts(53));
    let n = offset(x, y);
    let d = x.minus(y);
    lemma_pow2_pos(unit_exp(53));
    powers_grow(1273, 2000);
    if n > 0 {
        lemma_pow2_strictly_increases(1273, 2000);
    } else {
        lemma_pow2_pos(2000);
    }
    fine_minus(x, y);
    let a = fine(d);
    if n == 0 {
        alike_nothing(a, 2, b);
        assert(0int * 0int == 0) by (nonlinear_arith);
        nothing_is_ample(o, 53);
        fine_times(d, d);
        let q = fine(d.times(d));
        alike_nothing(q * o, 2, b);
        assert(q == 0) by (nonlinear_arith)
            requires
                q * o == 0,
                o > 0,
        ;
        alike_self(0, 8, b);
    } else {
        assert(a * 1 == a);
        lemma2_to64();
        range_quotient(a, 1, n, 875, 1273, 0, 0, 2, b);
        range_product(a, a, 874, 1274, 874, 1274);
        range_ample(a * a, o, 1748, 2548, 1074, 1074, 53);
        fine_times(d, d);
        let q = fine(d.times(d));
        range_quotient(q, o, a * a, 1748, 2548, 1074, 1074, 2, b);
        alike_product(a, n, 2, a, n, 2, b);
        alike_chain(q * o, a * a, n * n, 2, 5, b);
    }
}

/// The distance, as it is computed, is alike to the exact one.
proof fn computed_distance(a: Aperture, s: Sample)
    requires
        is_plain(a, s),
    ensures
        ({
            let dx = s.x.minus(a.x);
            let dy = s.y.minus(a.y);
            let d = dx.times(dx).plus(dy.times(dy)).sqrt();
            let m = distance_squared(a, s);
            &&& d.is_finite()
            &&& !d.raw().neg
            &&& m >= 0
            &&& alike(fine(d) * fine(d), m, 19, parts(53))
            &&& m == 0 ==> fine(d) == 0
            &&& m > 0 ==> in_range(fine(d), 874, 1275)
        }),
{
    let (o, b) = (one(53), parts(53));
    let (x, y) = (offset(s.x, a.x), offset(s.y, a.y));
    let (x2, y2) = (x * x, y * y);
    let dx = s.x.minus(a.x);
    let dy = s.y.minus(a.y);
    let (p, q) = (dx.times(dx), dy.times(dy));
    squared_offset(s.x, a.x);
    squared_offset(s.y, a.y);
    lemma_pow2_pos(unit_exp(53));
    lemma_pow2_unfold(1476);
    lemma_pow2_strictly_increases(1476, 2000);
    powers_grow(673, 1475);
    let t = p.plus(q);
    fine_plus(p, q);
    let (fp, fq, ft) = (fine(p), fine(q), fine(t));
    alike_sum(fp * o, x2, fq * o, y2, 8, b);
    assert((fp + fq) * o == fp * o + fq * o) by (nonlinear_arith);
    alike_times(ft, fp + fq, o, 2, b);
    let m = x2 + y2;
    alike_chain(ft * o, (fp + fq) * o, m, 2, 8, b);
    alike_bound(ft, fp + fq, 2, b);
    lemma_pow2_unfold(1477);
    lemma_pow2_strictly_increases(1477, 2000);
    fine_root(t);
    let d = t.sqrt();
    let f = fine(d);
    alike_chain(f * f, ft * o, m, 7, 11, b);
    assert(x2 >= 0 && y2 >= 0) by (nonlinear_arith)
        requires
            x2 == x * x,
            y2 == y * y,
    ;
    if m == 0 {
        alike_nothing(f * f, 19, b);
        assert(f == 0) by (nonlinear_arith)
            requires
                f * f == 0,
        ;
    } else {
        let big = pow2(2546) as int;
        if x > 0 {
            range_product(x, x, 875, 1273, 875, 1273);
        } else {
            assert(x2 == 0) by (nonlinear_arith)
                requires
                    x2 == x * x,
                    x == 0,
            ;
        }
        if y > 0 {
            range_product(y, y, 875, 1273, 875, 1273);
        } else {
            assert(y2 == 0) by (nonlinear_arith)
                requires
                    y2 == y * y,
                    y == 0,
            ;
        }
        lemma_pow2_unfold(2547);
        powers_grow(2547, 2548);
        powers_grow(1750, 2546);
        assert(in_range(m, 1750, 2548));
        range_root(f, m, 875, 1274, 19, b);
    }
}

/// Rings are of equal width and counted from the centre: a sample in the ring `i` of `n` is at least
/// `i / n` of the radius away from the centre and, but for the last ring, at most `(i + 1) / n` of
/// it, to a few roundings.
#[verifier::spinoff_prover]
pub proof fn rings_are_counted_from_the_centre(a: Aperture, s: Sample, n: int)
    requires
        is_plain(a, s),
        0 < n <= usize::MAX,
    ensures
        ({
            let i = ring_spec(a, s, n);
            let (r, m, b) = (fine(a.r), distance_squared(a, s), parts(53));
            &&& 0 <= i < n
            &&& (i * r) * (i * r) * b <= n * n * m * (b + 40)
            &&& i < n - 1 ==> n * n * m * b <= ((i + 1) * r) * ((i + 1) * r) * (b + 40)
        }),
{
    let (o, b) = (one(53), parts(53));
    let m = distance_squared(a, s);
    let r = fine(a.r);
    let dx = s.x.minus(a.x);
    let dy = s.y.minus(a.y);
    let d = dx.times(dx).plus(dy.times(dy)).sqrt();
    computed_distance(a, s);
    lemma_pow2_pos(unit_exp(53));
    powers_grow(874, 874);
    let f = fine(d);
    let count = Double::from_int_spec(n);
    fine_integer(n);
    let c = fine(count);
    let q = d.over(a.r);
    let z = q.times(count);
    if m == 0 {
        assert(0 * o == 0) by (nonlinear_arith);
        nothing_is_ample(r, 53);
        fine_over(d, a.r);
        alike_nothing(fine(q) * r, 2, b);
        assert(fine(q) == 0) by (nonlinear_arith)
            requires
                fine(q) * r == 0,
                r > 0,
        ;
        assert(0 * c == 0) by (nonlinear_arith);
        nothing_is_ample(o, 53);
        fine_times(q, count);
        alike_nothing(fine(z) * o, 2, b);
        assert(fine(z) == 0) by (nonlinear_arith)
            requires
                fine(z) * o == 0,
                o > 0,
        ;
        fine_whole(z, Whole::Floor, usize::MAX as int);
        let k = z.whole_spec(Whole::Floor, 0, usize::MAX as int);
        assert(k == 0) by (nonlinear_arith)
            requires
                k * o <= 0,
                k >= 0,
                o > 0,
        ;
        assert((0 * r) * (0 * r) * b == 0 && n * n * 0 * (b + 40) == 0 && n * n * 0 * b == 0)
            by (nonlinear_arith);
        assert(((0 + 1) * r) * ((0 + 1) * r) * (b + 40) >= 0) by (nonlinear_arith)
            requires
                r >= 0,
                b >= 0,
        ;
    } else {
        // The share of the radius.
        range_product(f, o, 874, 1275, 1074, 1074);
        range_ample(f * o, r, 1948, 2349, 874, 1274, 53);
        fine_over(d, a.r);
        let g = fine(q);
        range_quotient(g, r, f * o, 1948, 2349, 874, 1274, 2, b);
        // Times the number of rings.
        let no = n * o;
        lemma2_to64();
        lemma2_to64_rest();
        assert(in_range(n, 0, 64));
        range_product(n, o, 0, 64, 1074, 1074);
        assert(c * 1 == c);
        range_quotient(c, 1, no, 1074, 1138, 0, 0, 2, b);
        range_product(g, c, 673, 1476, 1073, 1139);
        range_ample(g * c, o, 1746, 2615, 1074, 1074, 53);
        fine_times(q, count);
        let y = fine(z);
        // y is alike to g * n.
        alike_times(c, no, g, 2, b);
        assert(c * g == g * c && no * g == (g * n) * o) by (nonlinear_arith)
            requires
                no == n * o,
        ;
        alike_chain(y * o, g * c, (g * n) * o, 2, 2, b);
        assert(g * n >= 0) by (nonlinear_arith)
            requires
                g >= 0,
                n >= 0,
        ;
        alike_cancel(y, g * n, o, 5, b);
        // y * r is alike to f * o * n.
        alike_times(y, g * n, r, 5, b);
        alike_times(g * r, f * o, n, 2, b);
        assert((g * n) * r == (g * r) * n) by (nonlinear_arith);
        let v = (f * o) * n;
        alike_chain(y * r, (g * n) * r, v, 5, 2, b);
        // Squared.
        alike_product(y * r, v, 8, y * r, v, 8, b);
        alike_times(f * f, m, (o * n) * (o * n), 19, b);
        assert(v * v == (f * f) * ((o * n) * (o * n))) by (nonlinear_arith)
            requires
                v == (f * o) * n,
        ;
        let yr = y * r;
        let w = m * ((o * n) * (o * n));
        assert((o * n) * (o * n) >= 0) by (nonlinear_arith);
        alike_times(f * f, m, (o * n) * (o * n), 19, b);
        alike_chain(yr * yr, v * v, w, 17, 19, b);
        // The ring.
        let hi = usize::MAX as int;
        fine_whole(z, Whole::Floor, hi);
        let k = z.whole_spec(Whole::Floor, 0, hi);
        let i = ring_spec(a, s, n);
        assert(i * o <= y) by (nonlinear_arith)
            requires
                0 <= i <= k,
                k * o <= y,
                o > 0,
        ;
        below(i, o, r, y, n, m, b, 37);
        if i < n - 1 {
            above(i + 1, o, r, y, n, m, b, 37);
        }
    }
}

proof fn below(i: int, o: int, r: int, y: int, n: int, m: int, b: int, k: int)
    requires
        0 <= i,
        0 < o,
        0 <= r,
        0 <= n,
        0 <= m,
        i * o <= y,
        0 <= k <= 40,
        0 < b,
        ({
            let yr = y * r;
            let w = m * ((o * n) * (o * n));
            yr * yr * b <= w * (b + k)
        }),
    ensures
        (i * r) * (i * r) * b <= n * n * m * (b + 40),
{
    let yr = y * r;
    let w = m * ((o * n) * (o * n));
    let e = (i * r) * (i * r);
    let h = n * n * m;
    let x = (i * o) * r;
    assert(0 <= x <= yr) by (nonlinear_arith)
        requires
            x == (i * o) * r,
            yr == y * r,
            0 <= i * o <= y,
            0 <= r,
    ;
    assert(i * o >= 0) by (nonlinear_arith)
        requires
            i >= 0,
            o > 0,
    ;
    assert(x * x <= yr * yr) by (nonlinear_arith)
        requires
            0 <= x <= yr,
    ;
    assert(x * x == e * (o * o)) by (nonlinear_arith)
        requires
            x == (i * o) * r,
            e == (i * r) * (i * r),
    ;
    assert(w == h * (o * o)) by (nonlinear_arith)
        requires
            w == m * ((o * n) * (o * n)),
            h == n * n * m,
    ;
    let oo = o * o;
    assert(oo > 0) by (nonlinear_arith)
        requires
            oo == o * o,
            o > 0,
    ;
    assert((e * oo) * b <= (yr * yr) * b) by (nonlinear_arith)
        requires
            e * oo <= yr * yr,
            b > 0,
    ;
    assert((e * oo) * b == (e * b) * oo && (h * oo) * (b + k) == (h * (b + k)) * oo)
        by (nonlinear_arith);
    assert(e * b <= h * (b + k)) by (nonlinear_arith)
        requires
            (e * b) * oo <= (h * (b + k)) * oo,
            oo > 0,
    ;
    assert(h >= 0) by (nonlinear_arith)
        requires
            h == n * n * m,
            n >= 0,
            m >= 0,
    ;
    assert(h * (b + k) <= h * (b + 40)) by (nonlinear_arith)
        requires
            h >= 0,
            k <= 40,
    ;
}

proof fn above(i: int, o: int, r: int, y: int, n: int, m: int, b: int, k: int)
    requires
        0 <= i,
        0 < o,
        0 <= r,
        0 <= n,
        0 <= m,
        0 <= y <= i * o,
        0 <= k <= 40,
        0 < b,
        ({
            let yr = y * r;
            let w = m * ((o * n) * (o * n));
            w * b <= yr * yr * (b + k)
        }),
    ensures
        n * n * m * b <= (i * r) * (i * r) * (b + 40),
{
    let yr = y * r;
    let w = m * ((o * n) * (o * n));
    let e = (i * r) * (i * r);
    let h = n * n * m;
    let x = (i * o) * r;
    assert(0 <= yr <= x) by (nonlinear_arith)
        requires
            x == (i * o) * r,
            yr == y * r,
            0 <= y <= i * o,
            0 <= r,
    ;
    assert(yr * yr <= x * x) by (nonlinear_arith)
        requires
            0 <= yr <= x,
    ;
    assert(x * x == e * (o * o)) by (nonlinear_arith)
        requires
            x == (i * o) * r,
            e == (i * r) * (i * r),
    ;
    assert(w == h * (o * o)) by (nonlinear_arith)
        requires
            w == m * ((o * n) * (o * n)),
            h == n * n * m,
    ;
    let oo = o * o;
    assert(oo > 0) by (nonlinear_arith)
        requires
            oo == o * o,
            o > 0,
    ;
    assert((yr * yr) * (b + k) <= (e * oo) * (b + k)) by (nonlinear_arith)
        requires
            yr * yr <= e * oo,
            b > 0,
            k >= 0,
    ;
    assert((h * oo) * b == (h * b) * oo && (e * oo) * (b + k) == (e * (b + k)) * oo)
        by (nonlinear_arith);
    assert(h * b <= e * (b + k)) by (nonlinear_arith)
        requires
            (h * b) * oo <= (e * (b + k)) * oo,
            oo > 0,
    ;
    assert(e >= 0) by (nonlinear_arith)
        requires
            e == (i * r) * (i * r),
    ;
    assert(e * (b + k) <= e * (b + 40)) by (nonlinear_arith)
        requires
            e >= 0,
            k <= 40,
    ;
}

/// A sample at the centre is in the first ring, and one at the radius or beyond it in the last.
pub proof fn the_ends_of_the_rings(a: Aperture, s: Sample, n: int)
    requires
        is_plain(a, s),
        0 < n <= 0x1_0000_0000,
        n <= usize::MAX,
    ensures
        distance_squared(a, s) == 0 ==> ring_spec(a, s, n) == 0,
        distance_squared(a, s) >= fine(a.r) * fine(a.r) ==> ring_spec(a, s, n) == n - 1,
{
    rings_are_counted_from_the_centre(a, s, n);
    let i = ring_spec(a, s, n);
    let (r, m, b) = (fine(a.r), distance_squared(a, s), parts(53));
    powers_grow(874, 874);
    if m == 0 {
        assert(i == 0) by (nonlinear_arith)
            requires
                (i * r) * (i * r) * b <= n * n * 0 * (b + 40),
                r > 0,
                b > 0,
                i >= 0,
        ;
    }
    if m >= r * r && i < n - 1 {
        let rr = r * r;
        let k = i + 1;
        assert((k * r) * (k * r) == (k * k) * rr) by (nonlinear_arith)
            requires
                rr == r * r,
        ;
        assert(n * n * rr * b <= n * n * m * b) by (nonlinear_arith)
            requires
                rr <= m,
                n > 0,
                b > 0,
        ;
        assert(rr > 0) by (nonlinear_arith)
            requires
                rr == r * r,
                r > 0,
        ;
        assert((n * n) * b <= (k * k) * (b + 40)) by (nonlinear_arith)
            requires
                n * n * rr * b <= (k * k) * rr * (b + 40),
                rr > 0,
        ;
        assert(k * k <= n * n - n) by (nonlinear_arith)
            requires
                0 <= k <= n - 1,
        ;
        assert(false) by (nonlinear_arith)
            requires
                (n * n) * b <= (k * k) * (b + 40),
                k * k <= n * n - n,
                0 < n <= 0x1_0000_0000,
                b == 0x20_0000_0000_0000,
        ;
    }
}

/// A pixel is a sample of a circle where it is finite and no further from the centre than the radius,
/// and its value is that of its column and row, counted from one at the first pixel of the data.
pub proof fn samples_lie_within_the_radius(a: Aperture, img: FitsImage, x: int, y: int)
    requires
        1 <= x <= img.width <= 0x100_0000,
        1 <= y <= img.height <= 0x100_0000,
        ({
            let s = Sample {
                x: Double::from_int_spec(x),
                y: Double::from_int_spec(y),
                v: img.data@[(y - 1) * img.width + (x - 1)],
            };
            is_plain(a, s)
        }),
    ensures
        ({
            let v = img.data@[(y - 1) * img.width + (x - 1)];
            let s = Sample { x: Double::from_int_spec(x), y: Double::from_int_spec(y), v };
            let (m, r, b) = (distance_squared(a, s), fine(a.r), parts(53));
            match a.sample(img, x, y) {
                Some(q) => {
                    &&& q == s
                    &&& v.is_finite()
                    &&& m * b <= r * r * (b + 40)
                },
                None => !v.is_finite() || r * r * b <= m * (b + 40),
            }
        }),
{
    let v = img.data@[(y - 1) * img.width + (x - 1)];
    let s = Sample { x: Double::from_int_spec(x), y: Double::from_int_spec(y), v };
    let (o, b) = (one(53), parts(53));
    let (p, q) = (
        s.x.minus(a.x).times(s.x.minus(a.x)),
        s.y.minus(a.y).times(s.y.minus(a.y)),
    );
    squared_offset(s.x, a.x);
    squared_offset(s.y, a.y);
    lemma_pow2_pos(unit_exp(53));
    lemma_pow2_unfold(1476);
    lemma_pow2_strictly_increases(1476, 2000);
    powers_grow(673, 1475);
    fine_plus(p, q);
    let (m, n) = (offset(s.x, a.x), offset(s.y, a.y));
    let (fp, fq, ft) = (fine(p), fine(q), fine(p.plus(q)));
    alike_sum(fp * o, m * m, fq * o, n * n, 8, b);
    assert((fp + fq) * o == fp * o + fq * o) by (nonlinear_arith);
    alike_times(ft, fp + fq, o, 2, b);
    alike_chain(ft * o, (fp + fq) * o, m * m + n * n, 2, 8, b);
    let r = fine(a.r);
    range_product(r, r, 874, 1274, 874, 1274);
    range_ample(r * r, o, 1748, 2548, 1074, 1074, 53);
    fine_times(a.r, a.r);
    crate::place_laws::compared(
        p.plus(q),
        a.r.times(a.r),
        distance_squared(a, s),
        r * r,
        11,
        2,
    );
    crate::exact::fine_order(p.plus(q), a.r.times(a.r));
    crate::exact::fine_order(a.r.times(a.r), p.plus(q));
}

} // verus!
