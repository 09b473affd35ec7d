//! The colours of the maps, measured against straight lines.

use crate::arith::Whole;
use crate::color::{byte_spec, hsv_spec, ramp_spec, unit_spec, Colormap};
use crate::exact::{
    abs, coarse, coarse_exact_integer, coarse_minus_within, coarse_order, coarse_over_within,
    coarse_plus_within, coarse_times_within, coarse_whole, coarse_worth, one, size_by_bits, spot,
};
use crate::num::Single;
use crate::picture_laws::one_times;
use crate::rounding::units;
use vstd::arithmetic::div_mod::*;
use vstd::arithmetic::power2::*;
use vstd::prelude::*;

verus! {

/// `n` brought into `lo..=hi`.
pub open spec fn held(n: int, lo: int, hi: int) -> int {
    if n < lo {
        lo
    } else if n > hi {
        hi
    } else {
        n
    }
}

/// The height of a straight line at the index `i` of 256, in ten-thousandths of a byte: it starts at
/// the share `a` of the table and rises by `k` times the table's own slope, both in hundredths.
pub open spec fn line(i: int, a: int, k: int) -> int {
    k * (100 * i - 255 * a)
}

/// Whether a byte lies at a height, brought into the range of bytes, to about one step.
pub open spec fn lies_at(c: u8, n: int) -> bool {
    -10_500 <= 10_000 * c - held(n, 0, 2_550_000) <= 10_500
}

/// How the units compare.
proof fn scale()
    ensures
        one(24) == 0x20_0000 * spot(3, 24),
        spot(3, 24) > 0,
        spot(11, 24) == 256 * spot(3, 24),
        pow2(3) == 8,
        pow2(11) == 2048,
        pow2(149) == one(24),
{
    lemma2_to64();
    lemma_pow2_adds(21, 128);
    lemma_pow2_adds(8, 128);
    lemma_pow2_pos(128);
}

/// A small power of two as a factor.
proof fn eightfold(z: int)
    ensures
        pow2(3) * z == 8 * z,
        pow2((3int) as nat) * z == 8 * z,
{
    scale();
    assert(pow2(3) * z == 8 * z) by (nonlinear_arith)
        requires
            pow2(3) == 8,
    ;
}

/// Whether a number is a hundredth part of a whole number, to rounding.
spec fn is_hundredths(x: Single, n: int) -> bool {
    &&& x.is_finite()
    &&& -16 * spot(3, 24) <= 100 * coarse_worth(x) - n * one(24) <= 16 * spot(3, 24)
}

/// A constant by its bits.
proof fn constant(x: Single, e: nat, f: nat, n: int, c: int)
    requires
        x.bits == e * 0x80_0000 + f,
        x.bits < 0x7f80_0000,
        0 < e <= 149,
        f < 0x80_0000,
        c == pow2((150 - e) as nat),
        -c <= 131_072 * (100 * (0x80_0000 + f) - n * c) <= c,
    ensures
        is_hundredths(x, n),
{
    size_by_bits(x.bits as nat, e, f, 24);
    scale();
    let w = pow2((e - 1) as nat) as int;
    lemma_pow2_pos((e - 1) as nat);
    lemma_pow2_adds((150 - e) as nat, (e - 1) as nat);
    let (v, o, s) = (coarse_worth(x), one(24), spot(3, 24));
    let g = 100 * (0x80_0000 + f) - n * c;
    assert(100 * v - n * o == g * w) by (nonlinear_arith)
        requires
            v == (0x80_0000 + f) * w,
            o == c * w,
            g == 100 * (0x80_0000 + f) - n * c,
    ;
    assert(-(c * w) <= 131_072 * (g * w) <= c * w) by (nonlinear_arith)
        requires
            -c <= 131_072 * g <= c,
            w > 0,
    ;
}

/// The level of the index `i` is `i / 255`.
proof fn level_of(i: int)
    requires
        0 <= i <= 255,
    ensures
        ({
            let t = Single::from_int_spec(i).over(Single { bits: 0x437f_0000 });
            &&& t.is_finite()
            &&& -255 * spot(3, 24) <= 255 * coarse_worth(t) - i * one(24) <= 255 * spot(3, 24)
            &&& -spot(3, 24) <= coarse_worth(t) <= one(24) + spot(3, 24)
            &&& !t.raw().neg
        }),
{
    scale();
    let (o, s) = (one(24), spot(3, 24));
    lemma2_to64();
    coarse_exact_integer(i);
    let c = Single { bits: 0x437f_0000 };
    size_by_bits(0x437f_0000, 134, 0x7f_0000, 24);
    lemma_pow2_adds(16, 133);
    let w = pow2(133) as int;
    assert(0xff_0000 * w == 255 * (0x1_0000 * w)) by (nonlinear_arith);
    assert(coarse_worth(c) == 255 * o);
    let x = Single::from_int_spec(i);
    let a = coarse_worth(x);
    assert(a == i * o);
    assert(0 <= a <= 255 * o) by (nonlinear_arith)
        requires
            a == i * o,
            0 <= i <= 255,
            o > 0,
    ;
    eightfold(255 * o);
    coarse_over_within(x, c, 3);
    let t = x.over(c);
    let v = coarse_worth(t);
    let d = 255 * v - i * o;
    assert(v * (255 * o) - a * o == d * o) by (nonlinear_arith)
        requires
            d == 255 * v - i * o,
            a == i * o,
    ;
    assert((255 * o) * s == (255 * s) * o) by (nonlinear_arith);
    assert(-(255 * s) <= d <= 255 * s) by (nonlinear_arith)
        requires
            -((255 * s) * o) <= d * o <= (255 * s) * o,
            o > 0,
    ;
    reveal(Single::over_spec);
}

/// A product with a constant in hundredths.
proof fn scaled(d: Single, k: Single, n: int, kn: int, c: int)
    requires
        d.is_finite(),
        is_hundredths(k, kn),
        0 <= kn <= 400,
        -25_500 <= n <= 25_500,
        0 <= c <= 60_000,
        -c * spot(3, 24) <= 25_500 * coarse_worth(d) - n * one(24) <= c * spot(3, 24),
    ensures
        d.times(k).is_finite(),
        -13 * one(24) <= 2_550_000 * coarse_worth(d.times(k)) - n * kn * one(24) <= 13 * one(24),
{
    scale();
    let (o, s) = (one(24), spot(3, 24));
    let (a, b) = (coarse_worth(d), coarse_worth(k));
    assert(c * s <= 60_000 * s) by (nonlinear_arith)
        requires
            c <= 60_000,
            s > 0,
    ;
    assert(-25_500 * o <= n * o <= 25_500 * o) by (nonlinear_arith)
        requires
            -25_500 <= n <= 25_500,
            o > 0,
    ;
    assert(0 <= kn * o <= 400 * o) by (nonlinear_arith)
        requires
            0 <= kn <= 400,
            o > 0,
    ;
    assert((-c) * s == -(c * s)) by (nonlinear_arith);
    // The factors are bounded.
    assert(-2 * o <= a <= 2 * o);
    assert(-o <= b <= 4 * o + o);
    let z = a * b;
    assert(-8 * (o * o) <= z <= 8 * (o * o)) by {
        assert(-(2 * o) * 4 * o - o * o <= z) by (nonlinear_arith)
            requires
                z == a * b,
                -25_560 * o <= 25_500 * a <= 25_560 * o,
                -o <= 100 * b <= 401 * o,
                o > 0,
        ;
        assert(z <= 8 * (o * o)) by (nonlinear_arith)
            requires
                z == a * b,
                -25_560 * o <= 25_500 * a <= 25_560 * o,
                -o <= 100 * b <= 401 * o,
                o > 0,
        ;
        assert(z >= -8 * (o * o)) by (nonlinear_arith)
            requires
                z == a * b,
                -25_560 * o <= 25_500 * a <= 25_560 * o,
                -o <= 100 * b <= 401 * o,
                o > 0,
        ;
    }
    assert(pow2(3) * o * o == 8 * (o * o)) by (nonlinear_arith)
        requires
            pow2(3) == 8,
    ;
    coarse_times_within(d, k, 3);
    let p = coarse_worth(d.times(k));
    let (dd, kk) = (25_500 * a, 100 * b);
    let (e, f) = (dd - n * o, kk - kn * o);
    // dd * kk = (n * o + e) * (kn * o + f)
    assert(dd * kk - (n * kn) * (o * o) == e * kk + (n * o) * f) by (nonlinear_arith)
        requires
            e == dd - n * o,
            f == kk - kn * o,
    ;
    let so = o * s;
    assert(-24_060_000 * so <= e * kk <= 24_060_000 * so) by (nonlinear_arith)
        requires
            so == o * s,
            -60_000 * s <= e <= 60_000 * s,
            -401 * o <= kk <= 401 * o,
            s > 0,
            o > 0,
    ;
    assert(-408_000 * so <= (n * o) * f <= 408_000 * so) by (nonlinear_arith)
        requires
            so == o * s,
            -16 * s <= f <= 16 * s,
            -25_500 * o <= n * o <= 25_500 * o,
            s > 0,
            o > 0,
    ;
    assert(dd * kk == 2_550_000 * z) by (nonlinear_arith)
        requires
            dd == 25_500 * a,
            kk == 100 * b,
            z == a * b,
    ;
    let q = 2_550_000 * p - n * kn * o;
    assert(q * o == 2_550_000 * (p * o) - (n * kn) * (o * o)) by (nonlinear_arith)
        requires
            q == 2_550_000 * p - n * kn * o,
    ;
    assert(-27_018_000 * so <= q * o <= 27_018_000 * so);
    assert(13 * o == 27_262_976 * s);
    assert(-13 * o <= q <= 13 * o) by (nonlinear_arith)
        requires
            -27_018_000 * (o * s) <= q * o <= 27_018_000 * (o * s),
            13 * o == 27_262_976 * s,
            o > 0,
            s > 0,
    ;
}

/// A number made a byte lies at its height.
proof fn byte_lies(x: Single, n: int)
    requires
        x.is_finite(),
        -4_000_000 <= n <= 13_000_000,
        -300 * one(24) <= 2_550_000 * coarse_worth(x) - n * one(24) <= 300 * one(24),
    ensures
        lies_at(byte_spec(unit_spec(x)), n),
        0 <= coarse_worth(x) <= one(24) ==> lies_at(byte_spec(x), n),
{
    scale();
    let (o, s) = (one(24), spot(3, 24));
    let (lo, hi) = (Single { bits: 0 }, Single { bits: 0x3f80_0000 });
    lemma2_to64();
    size_by_bits(0x3f80_0000, 127, 0, 24);
    lemma_pow2_adds(23, 126);
    assert(units(0, 24) == 0);
    coarse_order(x, lo);
    coarse_order(hi, x);
    let y = unit_spec(x);
    byte_of(y);
    let v = coarse_worth(x);
    assert(coarse_worth(y) == held(v, 0, o));
    assert(-4_000_000 * o <= n * o <= 13_000_000 * o) by (nonlinear_arith)
        requires
            -4_000_000 <= n <= 13_000_000,
            o > 0,
    ;
    let g = held(n, 0, 2_550_000);
    assert(-300 * o <= 2_550_000 * coarse_worth(y) - g * o <= 300 * o) by {
        if n < 0 {
            assert(n * o <= 0) by (nonlinear_arith)
                requires
                    n < 0,
                    o > 0,
            ;
            assert(g * o == 0) by (nonlinear_arith)
                requires
                    g == 0,
            ;
        } else if n > 2_550_000 {
            assert(n * o >= 2_550_000 * o) by (nonlinear_arith)
                requires
                    n > 2_550_000,
                    o > 0,
            ;
        } else {
            assert(0 <= n * o <= 2_550_000 * o) by (nonlinear_arith)
                requires
                    0 <= n <= 2_550_000,
                    o > 0,
            ;
        }
    }
    close_byte(byte_spec(y) as int, coarse_worth(y), g, o);
    if 0 <= v <= o {
        byte_of(x);
        close_byte(byte_spec(x) as int, v, g, o);
    }
}

/// What a share is as a byte.
proof fn byte_of(y: Single)
    requires
        y.is_finite(),
        0 <= coarse_worth(y) <= one(24),
    ensures
        ({
            let (c, v, o, s) = (byte_spec(y) as int, coarse_worth(y), one(24), spot(3, 24));
            &&& c * o <= 255 * v + 256 * s
            &&& c < 255 ==> 255 * v <= (c + 1) * o + 256 * s
        }),
{
    scale();
    let (o, s) = (one(24), spot(3, 24));
    let k = Single { bits: 0x437f_0000 };
    lemma2_to64();
    size_by_bits(0x437f_0000, 134, 0x7f_0000, 24);
    lemma_pow2_adds(16, 133);
    let w = pow2(133) as int;
    assert(0xff_0000 * w == 255 * (0x1_0000 * w)) by (nonlinear_arith);
    assert(coarse_worth(k) == 255 * o);
    let v = coarse_worth(y);
    let n = v * (255 * o);
    assert(0 <= n <= 2048 * o * o) by (nonlinear_arith)
        requires
            n == v * (255 * o),
            0 <= v <= o,
            o > 0,
    ;
    coarse_times_within(y, k, 11);
    let z = y.times(k);
    let u = coarse_worth(z);
    let d = u - 255 * v;
    assert(u * o - n == d * o) by (nonlinear_arith)
        requires
            d == u - 255 * v,
            n == v * (255 * o),
    ;
    assert(-256 * s <= d <= 256 * s) by (nonlinear_arith)
        requires
            -(o * (256 * s)) <= d * o <= o * (256 * s),
            o > 0,
    ;
    // Cut off.
    reveal(Single::times_spec);
    reveal(Single::whole_spec);
    let m = coarse(z);
    lemma_fundamental_div_mod(m, o);
    let q = m / o;
    assert(o * q == q * o && (q + 1) * o == q * o + o) by (nonlinear_arith);
    assert(q >= 0) by (nonlinear_arith)
        requires
            m == o * q + m % o,
            0 <= m % o < o,
            m >= 0,
            o > 0,
    ;
    let c = byte_spec(y) as int;
    if z.raw().neg {
        assert(y.raw().neg);
        assert(v == 0);
        assert(u <= 0);
        assert(c == 0);
        assert(0 * o == 0) by (nonlinear_arith);
    } else {
        assert(c == if q > 255 { 255 } else { q });
        if q > 255 {
            assert(255 * o <= q * o) by (nonlinear_arith)
                requires
                    255 <= q,
                    o > 0,
            ;
        }
    }
}

proof fn close_byte(c: int, v: int, g: int, o: int)
    requires
        o == 0x20_0000 * spot(3, 24),
        spot(3, 24) > 0,
        0 <= c <= 255,
        0 <= g <= 2_550_000,
        c * o <= 255 * v + 256 * spot(3, 24),
        c < 255 ==> 255 * v <= (c + 1) * o + 256 * spot(3, 24),
        -300 * o <= 2_550_000 * v - g * o <= 300 * o,
    ensures
        -10_500 <= 10_000 * c - g <= 10_500,
{
    let s = spot(3, 24);
    assert(10_000 * c <= g + 400) by (nonlinear_arith)
        requires
            c * o <= 255 * v + 256 * s,
            2_550_000 * v - g * o <= 300 * o,
            o == 0x20_0000 * s,
            s > 0,
    ;
    if c < 255 {
        assert(g <= 10_000 * (c + 1) + 400) by (nonlinear_arith)
            requires
                255 * v <= (c + 1) * o + 256 * s,
                -300 * o <= 2_550_000 * v - g * o,
                o == 0x20_0000 * s,
                s > 0,
        ;
    }
}

/// The level of an index.
pub open spec fn level(i: int) -> Single {
    Single::from_int_spec(i).over(Single { bits: 0x437f_0000 })
}

/// A ramp lies on its line.
proof fn ramp_lies(i: int, a: Single, k: Single, an: int, kn: int)
    requires
        0 <= i <= 255,
        is_hundredths(a, an),
        is_hundredths(k, kn),
        0 <= an <= 100,
        0 <= kn <= 400,
    ensures
        lies_at(byte_spec(ramp_spec(level(i), a, k)), line(i, an, kn)),
{
    scale();
    level_of(i);
    let (o, s) = (one(24), spot(3, 24));
    let t = level(i);
    let (v, w) = (coarse_worth(t), coarse_worth(a));
    assert(0 <= an * o <= 100 * o) by (nonlinear_arith)
        requires
            0 <= an <= 100,
            o > 0,
    ;
    eightfold(o);
    coarse_minus_within(t, a, 3);
    let d = t.minus(a);
    let n = 100 * i - 255 * an;
    assert(n * o == 100 * (i * o) - 255 * (an * o)) by (nonlinear_arith)
        requires
            n == 100 * i - 255 * an,
    ;
    scaled(d, k, n, kn, 60_000);
    let x = d.times(k);
    let z = line(i, an, kn);
    assert(z == n * kn) by (nonlinear_arith)
        requires
            z == kn * (100 * i - 255 * an),
            n == 100 * i - 255 * an,
    ;
    assert(-10_200_000 <= z <= 10_200_000) by (nonlinear_arith)
        requires
            z == n * kn,
            -25_500 <= n <= 25_500,
            0 <= kn <= 400,
    ;
    low_byte(x, z);
}

/// So it is, however far the line lies below.
proof fn low_byte(x: Single, n: int)
    requires
        x.is_finite(),
        -13_000_000 <= n <= 13_000_000,
        -300 * one(24) <= 2_550_000 * coarse_worth(x) - n * one(24) <= 300 * one(24),
    ensures
        lies_at(byte_spec(unit_spec(x)), n),
{
    if n >= -4_000_000 {
        byte_lies(x, n);
    } else {
        scale();
        let o = one(24);
        assert(n * o <= -4_000_000 * o) by (nonlinear_arith)
            requires
                n <= -4_000_000,
                o > 0,
        ;
        let lo = Single { bits: 0 };
        assert(units(0, 24) == 0);
        coarse_order(x, lo);
        assert(unit_spec(x) == lo);
        byte_of(lo);
        assert(0 * o == 0) by (nonlinear_arith);
        close_byte(byte_spec(lo) as int, 0, 0, o);
    }
}

/// A multiple of the level, with a constant added or taken away, lies on its line.
proof fn slope_lies(i: int, k: Single, c: Single, kn: int, cn: int)
    requires
        0 <= i <= 255,
        is_hundredths(k, kn),
        is_hundredths(c, cn),
        0 <= kn <= 400,
        0 <= cn <= 100,
    ensures
        lies_at(byte_spec(unit_spec(level(i).times(k))), 100 * kn * i),
        lies_at(byte_spec(unit_spec(level(i).times(k).plus(c))), 100 * kn * i + 25_500 * cn),
        lies_at(byte_spec(unit_spec(c.plus(level(i).times(k)))), 100 * kn * i + 25_500 * cn),
        lies_at(byte_spec(unit_spec(level(i).times(k).minus(c))), 100 * kn * i - 25_500 * cn),
{
    scale();
    level_of(i);
    let (o, s) = (one(24), spot(3, 24));
    let t = level(i);
    let n = 100 * i;
    assert(n * o == 100 * (i * o)) by (nonlinear_arith)
        requires
            n == 100 * i,
    ;
    scaled(t, k, n, kn, 60_000);
    let p = t.times(k);
    let v = coarse_worth(p);
    let z = 100 * kn * i;
    assert(z == n * kn) by (nonlinear_arith)
        requires
            z == 100 * kn * i,
            n == 100 * i,
    ;
    assert(0 <= z <= 10_200_000) by (nonlinear_arith)
        requires
            z == n * kn,
            0 <= n <= 25_500,
            0 <= kn <= 400,
    ;
    assert(0 <= z * o <= 10_200_000 * o) by (nonlinear_arith)
        requires
            0 <= z <= 10_200_000,
            o > 0,
    ;
    byte_lies(p, z);
    let w = coarse_worth(c);
    assert(0 <= cn * o <= 100 * o) by (nonlinear_arith)
        requires
            0 <= cn <= 100,
            o > 0,
    ;
    eightfold(o);
    coarse_plus_within(p, c, 3);
    coarse_plus_within(c, p, 3);
    coarse_minus_within(p, c, 3);
    let (a, b) = (z + 25_500 * cn, z - 25_500 * cn);
    assert(a * o == z * o + 25_500 * (cn * o) && b * o == z * o - 25_500 * (cn * o))
        by (nonlinear_arith)
        requires
            a == z + 25_500 * cn,
            b == z - 25_500 * cn,
    ;
    low_byte(p.plus(c), a);
    low_byte(c.plus(p), a);
    low_byte(p.minus(c), b);
}

/// The constants of the maps.
proof fn map_constants()
    ensures
        is_hundredths(Single { bits: 0 }, 0),
        is_hundredths(Single { bits: 0x3f80_0000 }, 100),
        is_hundredths(Single { bits: 0x4000_0000 }, 200),
        is_hundredths(Single { bits: 0x4040_0000 }, 300),
        is_hundredths(Single { bits: 0x4080_0000 }, 400),
        is_hundredths(Single { bits: 0x3ea8_f5c3 }, 33),
        is_hundredths(Single { bits: 0x3f28_f5c3 }, 66),
        is_hundredths(Single { bits: 0x3fb3_3333 }, 140),
        is_hundredths(Single { bits: 0x3e4c_cccd }, 20),
        is_hundredths(Single { bits: 0x3f00_0000 }, 50),
        is_hundredths(Single { bits: 0x3ecc_cccd }, 40),
        is_hundredths(Single { bits: 0x3f19_999a }, 60),
        is_hundredths(Single { bits: 0x3fc0_0000 }, 150),
        is_hundredths(Single { bits: 0x3fcc_cccd }, 160),
        is_hundredths(Single { bits: 0x3f40_0000 }, 75),
        is_hundredths(Single { bits: 0x3f99_999a }, 120),
        is_hundredths(Single { bits: 0x3d4c_cccd }, 5),
        is_hundredths(Single { bits: 0x3eb3_3333 }, 35),
        is_hundredths(Single { bits: 0x3fd9_999a }, 170),
        is_hundredths(Single { bits: 0x3f26_6666 }, 65),
        is_hundredths(Single { bits: 0x4020_0000 }, 250),
{
    lemma2_to64();
    scale();
    assert(units(0, 24) == 0);
    assert(0 * one(24) == 0) by (nonlinear_arith);
    constant(Single { bits: 0x3f80_0000 }, 127, 0, 100, 0x80_0000);
    constant(Single { bits: 0x4000_0000 }, 128, 0, 200, 0x40_0000);
    constant(Single { bits: 0x4040_0000 }, 128, 0x40_0000, 300, 0x40_0000);
    constant(Single { bits: 0x4080_0000 }, 129, 0, 400, 0x20_0000);
    constant(Single { bits: 0x3ea8_f5c3 }, 125, 0x28_f5c3, 33, 0x200_0000);
    constant(Single { bits: 0x3f28_f5c3 }, 126, 0x28_f5c3, 66, 0x100_0000);
    constant(Single { bits: 0x3fb3_3333 }, 127, 0x33_3333, 140, 0x80_0000);
    constant(Single { bits: 0x3e4c_cccd }, 124, 0x4c_cccd, 20, 0x400_0000);
    constant(Single { bits: 0x3f00_0000 }, 126, 0, 50, 0x100_0000);
    constant(Single { bits: 0x3ecc_cccd }, 125, 0x4c_cccd, 40, 0x200_0000);
    constant(Single { bits: 0x3f19_999a }, 126, 0x19_999a, 60, 0x100_0000);
    constant(Single { bits: 0x3fc0_0000 }, 127, 0x40_0000, 150, 0x80_0000);
    constant(Single { bits: 0x3fcc_cccd }, 127, 0x4c_cccd, 160, 0x80_0000);
    constant(Single { bits: 0x3f40_0000 }, 126, 0x40_0000, 75, 0x100_0000);
    constant(Single { bits: 0x3f99_999a }, 127, 0x19_999a, 120, 0x80_0000);
    constant(Single { bits: 0x3d4c_cccd }, 122, 0x4c_cccd, 5, 0x1000_0000);
    constant(Single { bits: 0x3eb3_3333 }, 125, 0x33_3333, 35, 0x200_0000);
    constant(Single { bits: 0x3fd9_999a }, 127, 0x59_999a, 170, 0x80_0000);
    constant(Single { bits: 0x3f26_6666 }, 126, 0x26_6666, 65, 0x100_0000);
    constant(Single { bits: 0x4020_0000 }, 128, 0x20_0000, 250, 0x40_0000);
}

/// The plain maps: shades of grey, and of one colour, in proportion to the index.
pub proof fn plain_maps_are_proportional(i: int)
    requires
        0 <= i <= 255,
    ensures
        ({
            let g = Colormap::Grey.lut_spec()[i];
            lies_at(g.0, 10_000 * i) && g.1 == g.0 && g.2 == g.0
        }),
        ({
            let c = Colormap::Red.lut_spec()[i];
            lies_at(c.0, 10_000 * i) && c.1 == 0 && c.2 == 0
        }),
        ({
            let c = Colormap::Green.lut_spec()[i];
            c.0 == 0 && lies_at(c.1, 10_000 * i) && c.2 == 0
        }),
        ({
            let c = Colormap::Blue.lut_spec()[i];
            c.0 == 0 && c.1 == 0 && lies_at(c.2, 10_000 * i)
        }),
{
    level_lies(i);
    black();
}

/// No share is no byte.
proof fn black()
    ensures
        byte_spec(Single { bits: 0 }) == 0,
{
    scale();
    assert(units(0, 24) == 0);
    byte_of(Single { bits: 0 });
    let c = byte_spec(Single { bits: 0 }) as int;
    let o = one(24);
    assert(c == 0) by (nonlinear_arith)
        requires
            c * o <= 256 * spot(3, 24),
            o == 0x20_0000 * spot(3, 24),
            spot(3, 24) > 0,
            c >= 0,
    ;
}

/// The level itself, and what it lacks to one, as bytes.
proof fn level_lies(i: int)
    requires
        0 <= i <= 255,
    ensures
        lies_at(byte_spec(level(i)), 10_000 * i),
        lies_at(
            byte_spec((Single { bits: 0x3f80_0000 }).minus(level(i))),
            2_550_000 - 10_000 * i,
        ),
        byte_spec(Single { bits: 0x3f80_0000 }) == 255,
{
    scale();
    level_of(i);
    let (o, s) = (one(24), spot(3, 24));
    let t = level(i);
    let v = coarse_worth(t);
    let top = Single { bits: 0x3f80_0000 };
    lemma2_to64();
    size_by_bits(0x3f80_0000, 127, 0, 24);
    lemma_pow2_adds(23, 126);
    assert(coarse_worth(top) == o);
    level_at_most_one(i);
    let n = 10_000 * i;
    assert(n * o == 10_000 * (i * o)) by (nonlinear_arith)
        requires
            n == 10_000 * i,
    ;
    byte_lies(t, n);
    let d = top.minus(t);
    eightfold(o);
    coarse_minus_within(top, t, 3);
    let m = 2_550_000 - n;
    assert(m * o == 2_550_000 * o - n * o) by (nonlinear_arith)
        requires
            m == 2_550_000 - n,
    ;
    rest_is_a_share(t);
    byte_lies(d, m);
    full_byte();
}

/// The full share is the last byte.
proof fn full_byte()
    ensures
        byte_spec(Single { bits: 0x3f80_0000 }) == 255,
{
    scale();
    let o = one(24);
    let k = Single { bits: 0x437f_0000 };
    lemma2_to64();
    size_by_bits(0x437f_0000, 134, 0x7f_0000, 24);
    lemma_pow2_adds(16, 133);
    let w = pow2(133) as int;
    assert(0xff_0000 * w == 255 * (0x1_0000 * w)) by (nonlinear_arith);
    one_times(k);
    coarse_whole(k, Whole::Trunc, 255);
    let c = k.whole_spec(Whole::Trunc, 0, 255);
    if c < 255 {
        assert((c + 1) * o <= 255 * o) by (nonlinear_arith)
            requires
                c + 1 <= 255,
                o > 0,
        ;
    }
}

/// The level is no more than one.
proof fn level_at_most_one(i: int)
    requires
        0 <= i <= 255,
    ensures
        0 <= coarse_worth(level(i)) <= one(24),
{
    level_of(i);
    reveal(Single::over_spec);
    coarse_exact_integer(i);
    scale();
    let o = one(24);
    let x = Single::from_int_spec(i).raw();
    let c = (Single { bits: 0x437f_0000 }).raw();
    lemma2_to64();
    size_by_bits(0x437f_0000, 134, 0x7f_0000, 24);
    lemma_pow2_adds(16, 133);
    let w = pow2(133) as int;
    assert(0xff_0000 * w == 255 * (0x1_0000 * w)) by (nonlinear_arith);
    size_by_bits(0x3f80_0000, 127, 0, 24);
    lemma_pow2_adds(23, 126);
    let (a, b) = (units(x.mag as nat, 24), units(c.mag as nat, 24));
    assert(a * o <= o * b) by (nonlinear_arith)
        requires
            a == i * o,
            b == 255 * o,
            0 <= i <= 255,
            o > 0,
    ;
    let n = (a * pow2(149)) as nat;
    crate::exact::round_at_most(n, b, 0x3f80_0000, 24);
    crate::exact::coarse_of(crate::arith::quotient_spec(x, c, 24));
    let m = level(i).raw().mag as nat;
    if m < 0x3f80_0000 {
        crate::arith::units_increase(m, 0x3f80_0000, 24);
    }
}

/// What a share lacks to one is a share.
proof fn rest_is_a_share(t: Single)
    requires
        t.is_finite(),
        0 <= coarse_worth(t) <= one(24),
    ensures
        0 <= coarse_worth((Single { bits: 0x3f80_0000 }).minus(t)) <= one(24),
{
    reveal(Single::minus_spec);
    reveal(Single::plus_spec);
    scale();
    lemma2_to64();
    size_by_bits(0x3f80_0000, 127, 0, 24);
    lemma_pow2_adds(23, 126);
    let top = Single { bits: 0x3f80_0000 };
    let (a, b) = (top.raw(), t.negate().raw());
    assert(b.mag == t.raw().mag && b.neg == !t.raw().neg);
    let z = a.value(24) + b.value(24);
    assert(units(0, 24) == 0);
    assert(z == one(24) - coarse_worth(t));
    if z > 0 {
        crate::exact::round_at_most(z as nat, 1, 0x3f80_0000, 24);
        let m = crate::rounding::round_bits(z as nat, 1, 24);
        if m < 0x3f80_0000 {
            crate::arith::units_increase(m, 0x3f80_0000, 24);
        }
        crate::exact::coarse_of(crate::arith::sum_spec(a, b, 24));
    }
}

/// The warm and the cool maps: each colour rises along its own line from its own place on.
pub proof fn maps_are_made_of_lines(i: int)
    requires
        0 <= i <= 255,
    ensures
        ({
            let c = Colormap::Heat.lut_spec()[i];
            lies_at(c.0, line(i, 0, 300)) && lies_at(c.1, line(i, 33, 300)) && lies_at(
                c.2,
                line(i, 66, 300),
            )
        }),
        ({
            let c = Colormap::Cool.lut_spec()[i];
            lies_at(c.0, 10_000 * i) && lies_at(c.1, 2_550_000 - 10_000 * i) && c.2 == 255
        }),
        ({
            let c = Colormap::B.lut_spec()[i];
            lies_at(c.0, 14_000 * i - 510_000) && lies_at(c.1, line(i, 50, 200)) && lies_at(
                c.2,
                6_000 * i + 1_020_000,
            )
        }),
        ({
            let c = Colormap::Bb.lut_spec()[i];
            lies_at(c.0, line(i, 0, 150)) && lies_at(c.1, line(i, 40, 160)) && lies_at(
                c.2,
                line(i, 75, 400),
            )
        }),
        ({
            let c = Colormap::A.lut_spec()[i];
            lies_at(c.0, 12_000 * i + 127_500) && lies_at(c.1, line(i, 35, 170)) && lies_at(
                c.2,
                line(i, 65, 250),
            )
        }),
{
    map_constants();
    level_lies(i);
    let zero = Single { bits: 0 };
    slope_lies(i, Single { bits: 0x4040_0000 }, zero, 300, 0);
    ramp_lies(i, Single { bits: 0x3ea8_f5c3 }, Single { bits: 0x4040_0000 }, 33, 300);
    ramp_lies(i, Single { bits: 0x3f28_f5c3 }, Single { bits: 0x4040_0000 }, 66, 300);
    slope_lies(i, Single { bits: 0x3fb3_3333 }, Single { bits: 0x3e4c_cccd }, 140, 20);
    ramp_lies(i, Single { bits: 0x3f00_0000 }, Single { bits: 0x4000_0000 }, 50, 200);
    slope_lies(i, Single { bits: 0x3f19_999a }, Single { bits: 0x3ecc_cccd }, 60, 40);
    slope_lies(i, Single { bits: 0x3fc0_0000 }, zero, 150, 0);
    ramp_lies(i, Single { bits: 0x3ecc_cccd }, Single { bits: 0x3fcc_cccd }, 40, 160);
    ramp_lies(i, Single { bits: 0x3f40_0000 }, Single { bits: 0x4080_0000 }, 75, 400);
    slope_lies(i, Single { bits: 0x3f99_999a }, Single { bits: 0x3d4c_cccd }, 120, 5);
    ramp_lies(i, Single { bits: 0x3eb3_3333 }, Single { bits: 0x3fd9_999a }, 35, 170);
    ramp_lies(i, Single { bits: 0x3f26_6666 }, Single { bits: 0x4020_0000 }, 65, 250);
}

// ---------------------------------------------------------------------------
// Hues
// ---------------------------------------------------------------------------

/// The remainder of a number by a whole number.
proof fn remainder_of(a: Single, b: Single, k: int)
    requires
        a.is_finite(),
        b.is_finite(),
        coarse_worth(a) >= 0,
        !b.raw().neg,
        coarse_worth(b) == k * one(24),
        1 <= k <= 512,
    ensures
        ({
            let r = a.modulo(b);
            let e = 64 * spot(3, 24);
            &&& r.is_finite()
            &&& 0 <= coarse_worth(r) <= k * one(24)
            &&& -e <= coarse_worth(r) - coarse_worth(a) % (k * one(24)) <= e
            &&& !a.raw().neg ==> !r.raw().neg
        }),
{
    reveal(Single::modulo_spec);
    scale();
    let o = one(24);
    let ko = k * o;
    assert(0 < ko <= 512 * o) by (nonlinear_arith)
        requires
            ko == k * o,
            1 <= k <= 512,
            o > 0,
    ;
    let n = coarse(a) % coarse(b);
    assert(units(0, 24) == 0);
    lemma_mod_bound(coarse(a), coarse(b));
    assert(coarse(a) == coarse_worth(a));
    lemma2_to64();
    lemma_pow2_adds(6, 128);
    assert(pow2((9int) as nat) * o * 1 == 512 * o) by (nonlinear_arith)
        requires
            pow2((9int) as nat) == 512,
    ;
    crate::exact::rounded_within(n as nat, 1, 9, 24);
    let mb = b.raw().mag as nat;
    assert(units(mb, 24) * 1 == units(mb, 24));
    crate::exact::round_at_most(n as nat, 1, mb, 24);
    let m = crate::rounding::round_bits(n as nat, 1, 24);
    if m < mb {
        crate::arith::units_increase(m, mb, 24);
    }
    if a.raw().neg {
        assert(coarse(a) == 0);
        lemma_mod_multiples_basic(0, coarse(b));
        assert(n == 0) by {
            lemma_small_mod(0, coarse(b) as nat);
        }
        crate::exact::round_at_most(0, 1, 0, 24);
    }
    crate::exact::coarse_of(crate::arith::remainder_spec(a.raw(), b.raw(), 24));
}

/// The constants of the hues.
proof fn hue_constants()
    ensures
        coarse_worth(Single { bits: 0x3f80_0000 }) == 1 * one(24),
        coarse_worth(Single { bits: 0x4000_0000 }) == 2 * one(24),
        coarse_worth(Single { bits: 0x4270_0000 }) == 60 * one(24),
        coarse_worth(Single { bits: 0x438c_0000 }) == 280 * one(24),
        coarse_worth(Single { bits: 0x43b4_0000 }) == 360 * one(24),
{
    lemma2_to64();
    size_by_bits(0x3f80_0000, 127, 0, 24);
    size_by_bits(0x4000_0000, 128, 0, 24);
    size_by_bits(0x4270_0000, 132, 0x70_0000, 24);
    size_by_bits(0x438c_0000, 135, 0xc_0000, 24);
    size_by_bits(0x43b4_0000, 135, 0x34_0000, 24);
    lemma_pow2_adds(23, 126);
    lemma_pow2_adds(22, 127);
    lemma_pow2_adds(18, 131);
    lemma_pow2_adds(15, 134);
    let (a, b, c) = (pow2(127) as int, pow2(131) as int, pow2(134) as int);
    assert(0x80_0000 * a == 2 * (0x40_0000 * a)) by (nonlinear_arith);
    assert(0xf0_0000 * b == 60 * (0x4_0000 * b)) by (nonlinear_arith);
    assert(0x8c_0000 * c == 280 * (0x8000 * c) && 0xb4_0000 * c == 360 * (0x8000 * c))
        by (nonlinear_arith);
}

/// The sixth parts of a turn that a hue is, as computed.
spec fn sixths(h: Single) -> Single {
    h.modulo(Single { bits: 0x43b4_0000 }).plus(Single { bits: 0x43b4_0000 }).modulo(
        Single { bits: 0x43b4_0000 },
    ).over(Single { bits: 0x4270_0000 })
}

/// Whether a number of sixths is that of a hue, but for a whole turn.
spec fn is_around(u: int, h: int) -> bool {
    let (o, e) = (one(24), 1024 * spot(3, 24));
    ||| -e <= 60 * u - h <= e
    ||| h >= 360 * o - e && 60 * u <= e
    ||| h <= e && 60 * u >= 360 * o - e
}

proof fn sixths_of(h: Single)
    requires
        h.is_finite(),
        0 <= coarse_worth(h) <= 360 * one(24),
    ensures
        ({
            let u = sixths(h);
            &&& u.is_finite()
            &&& !u.raw().neg
            &&& 0 <= coarse_worth(u) <= 6 * one(24) + spot(3, 24)
            &&& is_around(coarse_worth(u), coarse_worth(h))
        }),
{
    scale();
    hue_constants();
    let (o, s) = (one(24), spot(3, 24));
    let c = Single { bits: 0x43b4_0000 };
    let t = 360 * o;
    let w = coarse_worth(h);
    remainder_of(h, c, 360);
    let a = h.modulo(c);
    let w1 = coarse_worth(a);
    // The remainder is the hue, or nothing for a whole turn.
    if w < t {
        lemma_fundamental_div_mod_converse(w, t, 0, w);
    } else {
        lemma_fundamental_div_mod_converse(w, t, 1, 0);
    }
    lemma2_to64();
    lemma_pow2_adds(7, 128);
    assert(pow2((10int) as nat) * o == 1024 * o) by (nonlinear_arith)
        requires
            pow2((10int) as nat) == 1024,
    ;
    coarse_plus_within(a, c, 10);
    lemma_pow2_adds(10, 149);
    lemma_pow2_strictly_increases(159, 240);
    crate::exact::coarse_plus(a, c);
    let b = a.plus(c);
    let w2 = coarse_worth(b);
    assert(w2 > 0);
    remainder_of(b, c, 360);
    let d = b.modulo(c);
    let w3 = coarse_worth(d);
    if w2 < t {
        lemma_fundamental_div_mod_converse(w2, t, 0, w2);
    } else if w2 < 2 * t {
        lemma_fundamental_div_mod_converse(w2, t, 1, w2 - t);
    } else {
        lemma_fundamental_div_mod_converse(w2, t, 2, w2 - 2 * t);
    }
    eightfold(60 * o);
    let k = Single { bits: 0x4270_0000 };
    coarse_over_within(d, k, 3);
    reveal(Single::over_spec);
    let u = coarse_worth(d.over(k));
    let g = 60 * u - w3;
    assert(u * (60 * o) - w3 * o == g * o) by (nonlinear_arith)
        requires
            g == 60 * u - w3,
    ;
    assert(-(60 * s) <= g <= 60 * s) by (nonlinear_arith)
        requires
            -((60 * o) * s) <= g * o <= (60 * o) * s,
            o > 0,
    ;
    assert(!d.over(k).raw().neg);
}

/// Adding nothing changes nothing.
proof fn plus_nothing(x: Single, z: Single)
    requires
        x.is_finite(),
        z.is_finite(),
        coarse_worth(z) == 0,
    ensures
        x.plus(z).is_finite(),
        coarse_worth(x.plus(z)) == coarse_worth(x),
{
    reveal(Single::plus_spec);
    assert(units(0, 24) == 0);
    let m = x.raw().mag as nat;
    crate::arith::representable_rounds_to_itself(m, 24);
    if m > 0 {
        crate::arith::units_increase(0, m, 24);
    }
    crate::exact::coarse_of(crate::arith::sum_spec(x.raw(), z.raw(), 24));
}

/// The height of the tent over a sixth and the next: it rises to one and falls back.
proof fn tent(hh: Single)
    requires
        hh.is_finite(),
        !hh.raw().neg,
        0 <= coarse_worth(hh) <= 6 * one(24) + spot(3, 24),
    ensures
        ({
            let unit = Single { bits: 0x3f80_0000 };
            let x = unit.minus(hh.modulo(Single { bits: 0x4000_0000 }).minus(unit).abs());
            let (o, e) = (one(24), 68 * spot(3, 24));
            let z = coarse_worth(hh) % (2 * o);
            &&& x.is_finite()
            &&& 0 <= coarse_worth(x) <= o
            &&& -e <= coarse_worth(x) - (o - abs(z - o)) <= e
        }),
{
    scale();
    hue_constants();
    let (o, s) = (one(24), spot(3, 24));
    let unit = Single { bits: 0x3f80_0000 };
    let two = Single { bits: 0x4000_0000 };
    remainder_of(hh, two, 2);
    let y = hh.modulo(two);
    let w = coarse_worth(y);
    eightfold(o);
    coarse_minus_within(y, unit, 3);
    let d = y.minus(unit);
    let a = d.abs();
    assert(a.raw().mag == d.raw().mag && !a.raw().neg);
    assert(coarse_worth(a) == abs(coarse_worth(d)));
    // No further than one.
    lemma2_to64();
    lemma_pow2_adds(2, 149);
    lemma_pow2_strictly_increases(151, 240);
    near_one(y);
    coarse_minus_within(unit, a, 3);
    rest_is_a_share(a);
}

/// What lies between nothing and two is at most one from one.
proof fn near_one(y: Single)
    requires
        y.is_finite(),
        0 <= coarse_worth(y) <= 2 * one(24),
    ensures
        coarse(y.minus(Single { bits: 0x3f80_0000 })) <= one(24),
{
    scale();
    hue_constants();
    reveal(Single::minus_spec);
    reveal(Single::plus_spec);
    let unit = Single { bits: 0x3f80_0000 };
    let n = unit.negate().raw();
    assert(n.mag == unit.raw().mag && n.neg);
    let z = coarse_worth(y) - one(24);
    assert(units(0, 24) == 0);
    let k = abs(z) as nat;
    assert(units(0x3f80_0000, 24) * 1 == units(0x3f80_0000, 24));
    crate::exact::round_at_most(k, 1, 0x3f80_0000, 24);
    let m = crate::rounding::round_bits(k, 1, 24);
    if m < 0x3f80_0000 {
        crate::arith::units_increase(m, 0x3f80_0000, 24);
    }
    crate::exact::coarse_of(crate::arith::sum_spec(y.raw(), n, 24));
}

/// The shares of red, green and blue at a number of sixths of a turn.
pub open spec fn red_at(u: int, o: int) -> int {
    held(abs(u - 3 * o) - o, 0, o)
}

pub open spec fn green_at(u: int, o: int) -> int {
    held(2 * o - abs(u - 2 * o), 0, o)
}

pub open spec fn blue_at(u: int, o: int) -> int {
    held(2 * o - abs(u - 4 * o), 0, o)
}

/// Whether a share is near a height.
spec fn is_share_near(x: Single, v: int) -> bool {
    let e = 100 * spot(3, 24);
    &&& x.is_finite()
    &&& 0 <= coarse_worth(x) <= one(24)
    &&& -e <= coarse_worth(x) - v <= e
}

/// The colour of a hue at full saturation and value.
#[verifier::spinoff_prover]
proof fn hue_channels(h: Single)
    requires
        h.is_finite(),
        0 <= coarse_worth(h) <= 360 * one(24),
    ensures
        ({
            let unit = Single { bits: 0x3f80_0000 };
            let c = hsv_spec(h, unit, unit);
            let (u, o) = (coarse_worth(sixths(h)), one(24));
            &&& is_share_near(c.r, red_at(u, o))
            &&& is_share_near(c.g, green_at(u, o))
            &&& is_share_near(c.b, blue_at(u, o))
        }),
{
    scale();
    hue_constants();
    sixths_of(h);
    let (o, s) = (one(24), spot(3, 24));
    let unit = Single { bits: 0x3f80_0000 };
    let zero = Single { bits: 0 };
    assert(units(0, 24) == 0);
    one_times(unit);
    let hh = sixths(h);
    let u = coarse_worth(hh);
    tent(hh);
    let x = unit.minus(hh.modulo(Single { bits: 0x4000_0000 }).minus(unit).abs());
    one_times(x);
    let m = unit.minus(unit);
    nothing_left();
    plus_nothing(unit, m);
    plus_nothing(x, m);
    plus_nothing(zero, m);
    coarse_whole(hh, Whole::Trunc, u32::MAX as int);
    let k = hh.whole_spec(Whole::Trunc, 0, u32::MAX as int);
    assert(0 <= k <= 6) by (nonlinear_arith)
        requires
            k * o <= u,
            k >= 0,
            u <= 6 * o + s,
            o == 0x20_0000 * s,
            s > 0,
    ;
    let p = k / 2;
    assert(k == 2 * p || k == 2 * p + 1);
    assert(k * o == if k == 0 { 0 } else if k == 1 { o } else if k == 2 { 2 * o } else if k == 3 {
        3 * o
    } else if k == 4 { 4 * o } else if k == 5 { 5 * o } else { 6 * o });
    assert((k + 1) * o == k * o + o) by (nonlinear_arith);
    if k < 2 {
        lemma_fundamental_div_mod_converse(u, 2 * o, 0, u);
    } else if k < 4 {
        lemma_fundamental_div_mod_converse(u, 2 * o, 1, u - 2 * o);
    } else if k < 6 {
        lemma_fundamental_div_mod_converse(u, 2 * o, 2, u - 4 * o);
    } else {
        lemma_fundamental_div_mod_converse(u, 2 * o, 3, u - 6 * o);
    }
}

/// One less one is nothing.
proof fn nothing_left()
    ensures
        (Single { bits: 0x3f80_0000 }).minus(Single { bits: 0x3f80_0000 }).is_finite(),
        coarse_worth((Single { bits: 0x3f80_0000 }).minus(Single { bits: 0x3f80_0000 })) == 0,
{
    hue_constants();
    scale();
    crate::exact::coarse_whole_minus(
        Single { bits: 0x3f80_0000 },
        Single { bits: 0x3f80_0000 },
        1,
        1,
    );
    assert(0 * one(24) == 0) by (nonlinear_arith);
}

/// The heights of the colours scale with the turn.
proof fn heights_scale(u: int, o: int, w: int)
    requires
        w > 0,
        o > 0,
    ensures
        red_at(w * u, w * o) == w * red_at(u, o),
        green_at(w * u, w * o) == w * green_at(u, o),
        blue_at(w * u, w * o) == w * blue_at(u, o),
{
    held_scales(abs(u - 3 * o) - o, o, w);
    held_scales(2 * o - abs(u - 2 * o), o, w);
    held_scales(2 * o - abs(u - 4 * o), o, w);
    abs_scales(u - 3 * o, w);
    abs_scales(u - 2 * o, w);
    abs_scales(u - 4 * o, w);
    assert(w * (u - 3 * o) == w * u - 3 * (w * o) && w * (u - 2 * o) == w * u - 2 * (w * o) && w * (u
        - 4 * o) == w * u - 4 * (w * o)) by (nonlinear_arith);
    let (a, b, c) = (abs(u - 3 * o), abs(u - 2 * o), abs(u - 4 * o));
    assert(w * (a - o) == w * a - w * o && w * (2 * o - b) == 2 * (w * o) - w * b && w * (2 * o - c)
        == 2 * (w * o) - w * c) by (nonlinear_arith);
}

proof fn held_scales(n: int, o: int, w: int)
    requires
        w > 0,
        o > 0,
    ensures
        held(w * n, 0, w * o) == w * held(n, 0, o),
{
    assert((n < 0) == (w * n < 0) && (n > o) == (w * n > w * o) && w * 0 == 0) by (nonlinear_arith)
        requires
            w > 0,
    ;
}

proof fn abs_scales(n: int, w: int)
    requires
        w > 0,
    ensures
        abs(w * n) == w * abs(n),
{
    assert((n < 0) == (w * n < 0) && w * (-n) == -(w * n)) by (nonlinear_arith)
        requires
            w > 0,
    ;
}

/// A share near a height, as a byte.
proof fn hue_byte(x: Single, v: int, r: int, d: int)
    requires
        is_share_near(x, v),
        d == 1 || d == 3,
        0 <= r <= 255 * d,
        d == 1 ==> -15_555 * spot(3, 24) <= 255 * v - one(24) * r <= 15_555 * spot(3, 24),
        d == 3 ==> -46_665 * spot(3, 24) <= 765 * v - one(24) * r <= 46_665 * spot(3, 24),
    ensures
        lies_at(byte_spec(x), 10_000 * r / d),
{
    scale();
    let (o, s) = (one(24), spot(3, 24));
    let n = 10_000 * r / d;
    let q = coarse_worth(x);
    if d == 1 {
        assert(n * o == 10_000 * (o * r)) by (nonlinear_arith)
            requires
                n == 10_000 * r,
        ;
        byte_lies(x, n);
    } else {
        let m = 10_000 * r - 3 * n;
        assert(0 <= m < 3);
        assert(3 * (n * o) == 10_000 * (o * r) - m * o) by (nonlinear_arith)
            requires
                m == 10_000 * r - 3 * n,
        ;
        assert(0 <= m * o <= 3 * o) by (nonlinear_arith)
            requires
                0 <= m < 3,
                o > 0,
        ;
        byte_lies(x, n);
    }
}

/// The heights at places that are near each other, but for a whole turn.
proof fn near_heights(a: int, b: int, o: int, e: int)
    requires
        e > 0,
        o == 0x20_0000 * e,
        0 <= a <= 6 * o + e,
        0 <= b <= 6 * o,
        ({
            ||| -1724 * e <= 60 * a - 60 * b <= 1724 * e
            ||| 60 * b >= 360 * o - 1724 * e && 60 * a <= 1024 * e
            ||| 60 * b <= 1724 * e && 60 * a >= 360 * o - 1024 * e
        }),
    ensures
        -29 * e <= red_at(a, o) - red_at(b, o) <= 29 * e,
        -29 * e <= green_at(a, o) - green_at(b, o) <= 29 * e,
        -29 * e <= blue_at(a, o) - blue_at(b, o) <= 29 * e,
{
}

/// The bytes of a hue of `q` parts of `255 * d` of a sixth of a turn.
proof fn hue_bytes(h: Single, q: int, d: int)
    requires
        h.is_finite(),
        0 <= coarse_worth(h) <= 360 * one(24),
        d == 1 || d == 3,
        0 <= q <= 1530 * d,
        d == 1 ==> -153_000 * spot(3, 24) <= 255 * coarse_worth(h) - 60 * (one(24) * q) <= 153_000
            * spot(3, 24),
        d == 3 ==> -535_500 * spot(3, 24) <= 765 * coarse_worth(h) - 60 * (one(24) * q) <= 535_500
            * spot(3, 24),
    ensures
        ({
            let unit = Single { bits: 0x3f80_0000 };
            let c = hsv_spec(h, unit, unit);
            let w = 255 * d;
            &&& lies_at(byte_spec(c.r), 10_000 * red_at(q, w) / d)
            &&& lies_at(byte_spec(c.g), 10_000 * green_at(q, w) / d)
            &&& lies_at(byte_spec(c.b), 10_000 * blue_at(q, w) / d)
        }),
{
    scale();
    hue_channels(h);
    sixths_of(h);
    let (o, s) = (one(24), spot(3, 24));
    let unit = Single { bits: 0x3f80_0000 };
    let c = hsv_spec(h, unit, unit);
    let u = coarse_worth(sixths(h));
    let w = 255 * d;
    heights_scale(u, o, w);
    heights_scale(q, w, o);
    let (wu, wo) = (w * u, w * o);
    let qo = o * q;
    assert(w * o == o * w) by (nonlinear_arith);
    let v = coarse_worth(h);
    let e = w * s;
    if d == 1 {
        assert(w * v == 255 * v && e == 255 * s) by (nonlinear_arith)
            requires
                w == 255,
                e == w * s,
        ;
    } else {
        assert(w * v == 765 * v && e == 765 * s) by (nonlinear_arith)
            requires
                w == 765,
                e == w * s,
        ;
    }
    assert(-700 * e <= w * v - 60 * qo <= 700 * e);
    assert(wo == 0x20_0000 * e) by (nonlinear_arith)
        requires
            wo == w * o,
            o == 0x20_0000 * s,
            e == w * s,
    ;
    assert(e > 0) by (nonlinear_arith)
        requires
            e == w * s,
            w > 0,
            s > 0,
    ;
    // The sixths, scaled, are near q, but for a whole turn.
    let b = 1024 * s;
    let wv = w * v;
    assert((-b <= 60 * u - v <= b ==> -1024 * e <= 60 * wu - wv <= 1024 * e) && (v >= 360 * o - b
        ==> wv >= 360 * wo - 1024 * e) && (60 * u <= b ==> 60 * wu <= 1024 * e) && (v <= b ==> wv
        <= 1024 * e) && (60 * u >= 360 * o - b ==> 60 * wu >= 360 * wo - 1024 * e) && 0 <= wu <= 6
        * wo + e && 0 <= wv <= 360 * wo) by (nonlinear_arith)
        requires
            wu == w * u,
            wo == w * o,
            wv == w * v,
            e == w * s,
            b == 1024 * s,
            w > 0,
            0 <= u <= 6 * o + s,
            0 <= v <= 360 * o,
    ;
    assert(0 <= qo) by (nonlinear_arith)
        requires
            qo == o * q,
            o > 0,
            q >= 0,
    ;
    assert(qo <= 6 * wo) by (nonlinear_arith)
        requires
            qo == o * q,
            q <= 6 * w,
            wo == w * o,
            o > 0,
    ;
    near_heights(wu, qo, wo, e);
    let (ra, ga, ba) = (red_at(u, o), green_at(u, o), blue_at(u, o));
    if d == 1 {
        assert(w * ra == 255 * ra && w * ga == 255 * ga && w * ba == 255 * ba) by (nonlinear_arith)
            requires
                w == 255,
        ;
    } else {
        assert(w * ra == 765 * ra && w * ga == 765 * ga && w * ba == 765 * ba) by (nonlinear_arith)
            requires
                w == 765,
        ;
    }
    hue_byte(c.r, red_at(u, o), red_at(q, w), d);
    hue_byte(c.g, green_at(u, o), green_at(q, w), d);
    hue_byte(c.b, blue_at(u, o), blue_at(q, w), d);
}

/// The map of all hues goes once round the turn; the rainbow goes back from 280 degrees to none. At
/// each hue red is full to one sixth of a turn to either side of the beginning, green of a third and
/// blue of two thirds, and each falls off within another sixth.
pub proof fn hues_go_round(i: int)
    requires
        0 <= i <= 255,
    ensures
        ({
            let c = Colormap::Hsv.lut_spec()[i];
            let q = 6 * i;
            &&& lies_at(c.0, 10_000 * red_at(q, 255))
            &&& lies_at(c.1, 10_000 * green_at(q, 255))
            &&& lies_at(c.2, 10_000 * blue_at(q, 255))
        }),
        ({
            let c = Colormap::Rainbow.lut_spec()[i];
            let q = 14 * (255 - i);
            &&& lies_at(c.0, 10_000 * red_at(q, 765) / 3)
            &&& lies_at(c.1, 10_000 * green_at(q, 765) / 3)
            &&& lies_at(c.2, 10_000 * blue_at(q, 765) / 3)
        }),
{
    scale();
    hue_constants();
    level_of(i);
    level_at_most_one(i);
    let (o, s) = (one(24), spot(3, 24));
    let t = level(i);
    let v = coarse_worth(t);
    // A full turn.
    degrees(t, Single { bits: 0x43b4_0000 }, 360);
    let h = t.times(Single { bits: 0x43b4_0000 });
    let p = 6 * i;
    assert(o * p == 6 * (i * o)) by (nonlinear_arith)
        requires
            p == 6 * i,
    ;
    hue_bytes(h, p, 1);
    // The rainbow.
    let unit = Single { bits: 0x3f80_0000 };
    eightfold(o);
    coarse_minus_within(unit, t, 3);
    rest_is_a_share(t);
    let r = unit.minus(t);
    degrees(r, Single { bits: 0x438c_0000 }, 280);
    let g = r.times(Single { bits: 0x438c_0000 });
    let q = 14 * (255 - i);
    assert(o * q == 14 * (255 * o) - 14 * (i * o)) by (nonlinear_arith)
        requires
            q == 14 * (255 - i),
    ;
    hue_bytes(g, q, 3);
}

/// A share of a number of degrees.
proof fn degrees(t: Single, c: Single, k: int)
    requires
        t.is_finite(),
        0 <= coarse_worth(t) <= one(24),
        c.is_finite(),
        !c.raw().neg,
        coarse_worth(c) == k * one(24),
        280 <= k <= 360,
    ensures
        t.times(c).is_finite(),
        0 <= coarse_worth(t.times(c)) <= k * one(24),
        -64 * spot(3, 24) <= coarse_worth(t.times(c)) - k * coarse_worth(t) <= 64 * spot(3, 24),
{
    scale();
    let (o, s) = (one(24), spot(3, 24));
    let v = coarse_worth(t);
    let n = v * (k * o);
    assert(0 <= n <= 512 * o * o) by (nonlinear_arith)
        requires
            n == v * (k * o),
            0 <= v <= o,
            280 <= k <= 360,
            o > 0,
    ;
    lemma2_to64();
    lemma_pow2_adds(6, 128);
    coarse_times_within(t, c, 9);
    let u = coarse_worth(t.times(c));
    let d = u - k * v;
    assert(u * o - n == d * o) by (nonlinear_arith)
        requires
            d == u - k * v,
            n == v * (k * o),
    ;
    assert(-(64 * s) <= d <= 64 * s) by (nonlinear_arith)
        requires
            -(o * (64 * s)) <= d * o <= o * (64 * s),
            o > 0,
    ;
    // Between nothing and all.
    reveal(Single::times_spec);
    let mc = c.raw().mag as nat;
    assert(units(0, 24) == 0);
    assert(coarse(t) == v);
    let z = coarse(t) * coarse(c);
    assert(z <= coarse(c) * o && z >= 0) by (nonlinear_arith)
        requires
            z == coarse(t) * coarse(c),
            0 <= coarse(t) <= o,
            coarse(c) >= 0,
    ;
    crate::exact::round_at_most(z as nat, o as nat, mc, 24);
    let m = crate::rounding::round_bits(z as nat, o as nat, 24);
    if m < mc {
        crate::arith::units_increase(m, mc, 24);
    }
    if t.raw().neg {
        assert(z == 0) by (nonlinear_arith)
            requires
                z == coarse(t) * coarse(c),
                coarse(t) == 0,
        ;
        assert(0 * o == 0) by (nonlinear_arith);
        crate::exact::round_at_most(0, o as nat, 0, 24);
    }
    crate::exact::coarse_of(crate::arith::product_spec(t.raw(), c.raw(), 24));
}

// ---------------------------------------------------------------------------
// Stern special linear
// ---------------------------------------------------------------------------

/// The constants of the map, as parts of one.
proof fn stern_constants()
    ensures
        16 * coarse_worth(Single { bits: 0x3d80_0000 }) == one(24),
        4 * coarse_worth(Single { bits: 0x3e80_0000 }) == one(24),
        2 * coarse_worth(Single { bits: 0x3f00_0000 }) == one(24),
        16 * coarse_worth(Single { bits: 0x3ee0_0000 }) == 7 * one(24),
        coarse_worth(Single { bits: 0x3f80_0000 }) == one(24),
        coarse_worth(Single { bits: 0x4000_0000 }) == 2 * one(24),
        coarse_worth(Single { bits: 0x4080_0000 }) == 4 * one(24),
        coarse_worth(Single { bits: 0 }) == 0,
{
    lemma2_to64();
    assert(units(0, 24) == 0);
    hue_constants();
    size_by_bits(0x3d80_0000, 123, 0, 24);
    size_by_bits(0x3e80_0000, 125, 0, 24);
    size_by_bits(0x3f00_0000, 126, 0, 24);
    size_by_bits(0x3ee0_0000, 125, 0x60_0000, 24);
    size_by_bits(0x4080_0000, 129, 0, 24);
    lemma_pow2_adds(23, 126);
    lemma_pow2_adds(27, 122);
    lemma_pow2_adds(25, 124);
    lemma_pow2_adds(24, 125);
    lemma_pow2_adds(21, 128);
    let (a, b, c, d) = (pow2(122) as int, pow2(124) as int, pow2(125) as int, pow2(128) as int);
    assert(16 * (0x80_0000 * a) == 0x800_0000 * a) by (nonlinear_arith);
    assert(4 * (0x80_0000 * b) == 0x200_0000 * b && 16 * (0xe0_0000 * b) == 7 * (0x200_0000 * b))
        by (nonlinear_arith);
    assert(2 * (0x80_0000 * c) == 0x100_0000 * c) by (nonlinear_arith);
    assert(0x80_0000 * d == 4 * (0x20_0000 * d)) by (nonlinear_arith);
}

/// A share times a small whole number.
proof fn few_times(x: Single, c: Single, k: int)
    requires
        x.is_finite(),
        c.is_finite(),
        coarse_worth(c) == k * one(24),
        k == 2 || k == 4,
        -one(24) - spot(3, 24) <= coarse_worth(x) <= one(24) + spot(3, 24),
    ensures
        x.times(c).is_finite(),
        -spot(3, 24) <= coarse_worth(x.times(c)) - k * coarse_worth(x) <= spot(3, 24),
{
    scale();
    let (o, s) = (one(24), spot(3, 24));
    let v = coarse_worth(x);
    let n = v * (k * o);
    assert(-(8 * o * o) <= n <= 8 * o * o) by (nonlinear_arith)
        requires
            n == v * (k * o),
            -o - s <= v <= o + s,
            k == 2 || k == 4,
            o == 0x20_0000 * s,
            s > 0,
    ;
    assert(pow2((3int) as nat) * o * o == 8 * o * o) by (nonlinear_arith)
        requires
            pow2((3int) as nat) == 8,
    ;
    coarse_times_within(x, c, 3);
    let u = coarse_worth(x.times(c));
    let d = u - k * v;
    assert(u * o - n == d * o) by (nonlinear_arith)
        requires
            d == u - k * v,
            n == v * (k * o),
    ;
    assert(-s <= d <= s) by (nonlinear_arith)
        requires
            -(o * s) <= d * o <= o * s,
            o > 0,
    ;
}

/// The map in bands: red rises steeply, falls to the middle and rises again; green rises evenly; blue
/// rises to a quarter, falls to the middle and stays dark.
#[verifier::spinoff_prover]
pub proof fn stern_goes_in_bands(i: int)
    requires
        0 <= i <= 255,
    ensures
        ({
            let c = Colormap::Sls.lut_spec()[i];
            &&& lies_at(
                c.0,
                if i < 16 {
                    160_000 * i
                } else if i < 128 {
                    (20_400_000 - 160_000 * i) / 7
                } else {
                    20_000 * i - 2_550_000
                },
            )
            &&& lies_at(c.1, 10_000 * i)
            &&& lies_at(
                c.2,
                if i < 64 {
                    40_000 * i
                } else if i < 128 {
                    5_100_000 - 40_000 * i
                } else {
                    0
                },
            )
        }),
{
    scale();
    stern_constants();
    level_of(i);
    level_at_most_one(i);
    let (o, s) = (one(24), spot(3, 24));
    let t = level(i);
    let v = coarse_worth(t);
    let (c16, c4, c2) = (
        Single { bits: 0x3d80_0000 },
        Single { bits: 0x3e80_0000 },
        Single { bits: 0x3f00_0000 },
    );
    coarse_order(t, c16);
    coarse_order(t, c4);
    coarse_order(t, c2);
    let io = i * o;
    assert((i < 16 ==> io <= 15 * o) && (i >= 16 ==> io >= 16 * o) && (i < 64 ==> io <= 63 * o) && (i
        >= 64 ==> io >= 64 * o) && (i < 128 ==> io <= 127 * o) && (i >= 128 ==> io >= 128 * o) && 0
        <= io <= 255 * o) by (nonlinear_arith)
        requires
            io == i * o,
            0 <= i <= 255,
            o > 0,
    ;
    stern_red(i);
    stern_blue(i);
    // Green.
    let zero = Single { bits: 0 };
    unchanged(t);
    let n = 10_000 * i;
    assert(n * o == 10_000 * io) by (nonlinear_arith)
        requires
            n == 10_000 * i,
            io == i * o,
    ;
    let d = t.minus(zero);
    byte_lies(d, n);
    let e = unit_spec(d);
    coarse_order(d, zero);
    coarse_order(Single { bits: 0x3f80_0000 }, d);
    assert(e == d);
}

/// Taking nothing away changes nothing.
proof fn unchanged(x: Single)
    requires
        x.is_finite(),
    ensures
        x.minus(Single { bits: 0 }).is_finite(),
        coarse_worth(x.minus(Single { bits: 0 })) == coarse_worth(x),
{
    reveal(Single::minus_spec);
    let z = (Single { bits: 0 }).negate();
    assert(units(0, 24) == 0);
    assert(z.raw().mag == 0);
    plus_nothing(x, z);
}

proof fn stern_red(i: int)
    requires
        0 <= i <= 255,
    ensures
        ({
            let t = level(i);
            let four = Single { bits: 0x4080_0000 };
            let unit = Single { bits: 0x3f80_0000 };
            let c16 = Single { bits: 0x3d80_0000 };
            let c2 = Single { bits: 0x3f00_0000 };
            &&& i < 16 ==> lies_at(byte_spec(unit_spec(t.times(four).times(four))), 160_000 * i)
            &&& 16 <= i < 128 ==> lies_at(
                byte_spec(
                    unit_spec(unit.minus(t.minus(c16).over(Single { bits: 0x3ee0_0000 }))),
                ),
                (20_400_000 - 160_000 * i) / 7,
            )
            &&& i >= 128 ==> lies_at(
                byte_spec(unit_spec(t.minus(c2).times(Single { bits: 0x4000_0000 }))),
                20_000 * i - 2_550_000,
            )
        }),
{
    scale();
    stern_constants();
    level_of(i);
    level_at_most_one(i);
    let (o, s) = (one(24), spot(3, 24));
    let t = level(i);
    let v = coarse_worth(t);
    let io = i * o;
    assert((i < 16 ==> io <= 15 * o) && (i < 128 ==> io <= 127 * o) && 0 <= io <= 255 * o)
        by (nonlinear_arith)
        requires
            io == i * o,
            0 <= i <= 255,
            o > 0,
    ;
    let four = Single { bits: 0x4080_0000 };
    eightfold(o);
    if i < 16 {
        few_times(t, four, 4);
        few_times(t.times(four), four, 4);
        let n = 160_000 * i;
        assert(n * o == 160_000 * io) by (nonlinear_arith)
            requires
                n == 160_000 * i,
                io == i * o,
        ;
        byte_lies(t.times(four).times(four), n);
    } else if i < 128 {
        let c16 = Single { bits: 0x3d80_0000 };
        let k = Single { bits: 0x3ee0_0000 };
        coarse_minus_within(t, c16, 3);
        let d = t.minus(c16);
        let w = coarse_worth(d);
        let kw = coarse_worth(k);
        eightfold(kw);
        coarse_over_within(d, k, 3);
        let q = d.over(k);
        let u = coarse_worth(q);
        let g = 7 * u - 16 * w;
        assert(16 * (u * kw - w * o) == g * o && 16 * (kw * s) == (7 * s) * o) by (nonlinear_arith)
            requires
                g == 7 * u - 16 * w,
                16 * kw == 7 * o,
        ;
        assert(-(7 * s) <= g <= 7 * s) by (nonlinear_arith)
            requires
                -((7 * s) * o) <= g * o <= (7 * s) * o,
                o > 0,
        ;
        let unit = Single { bits: 0x3f80_0000 };
        coarse_minus_within(unit, q, 3);
        let m = 20_400_000 - 160_000 * i;
        let n = m / 7;
        let r = m - 7 * n;
        assert(0 <= r < 7);
        assert(7 * (n * o) == 20_400_000 * o - 160_000 * io - r * o) by (nonlinear_arith)
            requires
                r == m - 7 * n,
                m == 20_400_000 - 160_000 * i,
                io == i * o,
        ;
        assert(0 <= r * o <= 7 * o) by (nonlinear_arith)
            requires
                0 <= r < 7,
                o > 0,
        ;
        byte_lies(unit.minus(q), n);
    } else {
        let c2 = Single { bits: 0x3f00_0000 };
        coarse_minus_within(t, c2, 3);
        let two = Single { bits: 0x4000_0000 };
        few_times(t.minus(c2), two, 2);
        let n = 20_000 * i - 2_550_000;
        assert(n * o == 20_000 * io - 2_550_000 * o) by (nonlinear_arith)
            requires
                n == 20_000 * i - 2_550_000,
                io == i * o,
        ;
        byte_lies(t.minus(c2).times(two), n);
    }
}

proof fn stern_blue(i: int)
    requires
        0 <= i <= 255,
    ensures
        ({
            let t = level(i);
            let four = Single { bits: 0x4080_0000 };
            let unit = Single { bits: 0x3f80_0000 };
            let c4 = Single { bits: 0x3e80_0000 };
            &&& i < 64 ==> lies_at(byte_spec(unit_spec(t.times(four))), 40_000 * i)
            &&& 64 <= i < 128 ==> lies_at(
                byte_spec(unit_spec(unit.minus(t.minus(c4).times(four)))),
                5_100_000 - 40_000 * i,
            )
            &&& lies_at(byte_spec(unit_spec(Single { bits: 0 })), 0)
        }),
{
    scale();
    stern_constants();
    level_of(i);
    level_at_most_one(i);
    let (o, s) = (one(24), spot(3, 24));
    let t = level(i);
    let io = i * o;
    assert((i < 64 ==> io <= 63 * o) && (i < 128 ==> io <= 127 * o) && 0 <= io <= 255 * o)
        by (nonlinear_arith)
        requires
            io == i * o,
            0 <= i <= 255,
            o > 0,
    ;
    let four = Single { bits: 0x4080_0000 };
    eightfold(o);
    if i < 64 {
        few_times(t, four, 4);
        let n = 40_000 * i;
        assert(n * o == 40_000 * io) by (nonlinear_arith)
            requires
                n == 40_000 * i,
                io == i * o,
        ;
        byte_lies(t.times(four), n);
    } else if i < 128 {
        let c4 = Single { bits: 0x3e80_0000 };
        let unit = Single { bits: 0x3f80_0000 };
        coarse_minus_within(t, c4, 3);
        few_times(t.minus(c4), four, 4);
        let q = t.minus(c4).times(four);
        coarse_minus_within(unit, q, 3);
        let n = 5_100_000 - 40_000 * i;
        assert(n * o == 5_100_000 * o - 40_000 * io) by (nonlinear_arith)
            requires
                n == 5_100_000 - 40_000 * i,
                io == i * o,
        ;
        byte_lies(unit.minus(q), n);
    }
    assert(0 * o == 0) by (nonlinear_arith);
    byte_lies(Single { bits: 0 }, 0);
}

} // verus!
