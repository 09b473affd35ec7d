//! Arithmetic on sign and magnitude bits, for either format.

use crate::rounding::{
    bit_length, inf_bits, is_prec, lead, lead_is_pow2, nan_bits, nearest, pack, power_of_two,
    round_bits, spacing_is, unit_exp, units,
};
use vstd::arithmetic::div_mod::*;
use vstd::arithmetic::mul::*;
use vstd::arithmetic::power2::*;
use vstd::prelude::*;

verus! {

/// A floating-point number taken apart: its sign and the bits below the sign.
#[derive(Clone, Copy, Debug, PartialEq, Eq, Structural)]
pub struct Raw {
    pub neg: bool,
    pub mag: u64,
}

impl Raw {
    pub open spec fn nan(self, p: int) -> bool {
        self.mag > inf_bits(p)
    }

    pub open spec fn infinite(self, p: int) -> bool {
        self.mag == inf_bits(p)
    }

    pub open spec fn finite(self, p: int) -> bool {
        self.mag < inf_bits(p)
    }

    /// The number of units, with its sign.
    pub open spec fn value(self, p: int) -> int {
        if self.neg {
            -(units(self.mag as nat, p) as int)
        } else {
            units(self.mag as nat, p) as int
        }
    }

    /// The number's place on the line from minus infinity to infinity; both
    /// zeroes have the same.
    pub open spec fn place(self) -> int {
        if self.neg {
            -(self.mag as int)
        } else {
            self.mag as int
        }
    }
}

/// The not-a-number that an operation returns.
pub open spec fn nan_raw(p: int) -> Raw {
    Raw { neg: false, mag: nan_bits(p) as u64 }
}

/// The number nearest to `n / d` units, with a sign.
pub open spec fn round_raw(neg: bool, n: nat, d: nat, p: int) -> Raw {
    Raw { neg, mag: round_bits(n, d, p) as u64 }
}

/// The number nearest to a whole number of units; `zero_neg` is the sign of zero.
pub open spec fn round_value(v: int, zero_neg: bool, p: int) -> Raw {
    if v == 0 {
        Raw { neg: zero_neg, mag: 0 }
    } else if v < 0 {
        round_raw(true, (-v) as nat, 1, p)
    } else {
        round_raw(false, v as nat, 1, p)
    }
}

/// `a + b`.
pub open spec fn sum_spec(a: Raw, b: Raw, p: int) -> Raw {
    if a.nan(p) || b.nan(p) {
        nan_raw(p)
    } else if a.infinite(p) {
        if b.infinite(p) && a.neg != b.neg {
            nan_raw(p)
        } else {
            a
        }
    } else if b.infinite(p) {
        b
    } else {
        round_value(a.value(p) + b.value(p), a.neg && b.neg, p)
    }
}

/// `a * b`.
pub open spec fn product_spec(a: Raw, b: Raw, p: int) -> Raw {
    if a.nan(p) || b.nan(p) {
        nan_raw(p)
    } else if a.infinite(p) || b.infinite(p) {
        if a.mag == 0 || b.mag == 0 {
            nan_raw(p)
        } else {
            Raw { neg: a.neg != b.neg, mag: inf_bits(p) as u64 }
        }
    } else {
        round_raw(
            a.neg != b.neg,
            units(a.mag as nat, p) * units(b.mag as nat, p),
            pow2(unit_exp(p)),
            p,
        )
    }
}

/// `a / b`.
pub open spec fn quotient_spec(a: Raw, b: Raw, p: int) -> Raw {
    let neg = a.neg != b.neg;
    if a.nan(p) || b.nan(p) {
        nan_raw(p)
    } else if a.infinite(p) {
        if b.infinite(p) {
            nan_raw(p)
        } else {
            Raw { neg, mag: inf_bits(p) as u64 }
        }
    } else if b.infinite(p) {
        Raw { neg, mag: 0 }
    } else if b.mag == 0 {
        if a.mag == 0 {
            nan_raw(p)
        } else {
            Raw { neg, mag: inf_bits(p) as u64 }
        }
    } else {
        round_raw(
            neg,
            units(a.mag as nat, p) * pow2(unit_exp(p)),
            units(b.mag as nat, p),
            p,
        )
    }
}

/// The magnitude bits of infinity.
pub fn infinity(p: u32) -> (r: u64)
    requires
        is_prec(p as int),
    ensures
        r == inf_bits(p as int),
{
    if p == 24 {
        0x7f80_0000
    } else {
        0x7ff0_0000_0000_0000
    }
}

fn not_a_number(p: u32) -> (r: Raw)
    requires
        is_prec(p as int),
    ensures
        r == nan_raw(p as int),
{
    if p == 24 {
        Raw { neg: false, mag: 0x7fc0_0000 }
    } else {
        Raw { neg: false, mag: 0x7ff8_0000_0000_0000 }
    }
}

pub fn unit_exponent(p: u32) -> (r: u32)
    requires
        is_prec(p as int),
    ensures
        r == unit_exp(p as int),
{
    if p == 24 {
        149
    } else {
        1074
    }
}

/// The significand and the exponent, in units, of a finite magnitude.
pub fn open_mag(mag: u64, p: u32) -> (r: (u64, u32))
    requires
        is_prec(p as int),
        mag < inf_bits(p as int),
    ensures
        units(mag as nat, p as int) == r.0 * pow2(r.1 as nat),
        r.0 < 2 * lead(p as int),
        r.1 > 0 ==> r.0 >= lead(p as int),
        r.1 < 2047,
        r.0 == 0 <==> mag == 0,
{
    let w: u64 = if p == 24 {
        0x80_0000
    } else {
        0x10_0000_0000_0000
    };
    let e: u64 = mag / w;
    let frac: u64 = mag % w;
    if e == 0 {
        proof {
            lemma2_to64();
            lemma_fundamental_div_mod(mag as int, w as int);
            assert(frac * pow2(0) == frac) by (nonlinear_arith)
                requires
                    pow2(0) == 1,
            ;
        }
        (frac, 0)
    } else {
        (w + frac, (e - 1) as u32)
    }
}

/// A finite sum whose first term has the larger exponent.
fn add_ordered(big: Raw, small: Raw, p: u32, ma: u64, sa: u32, mb: u64, sb: u32) -> (r: Raw)
    requires
        is_prec(p as int),
        big.finite(p as int),
        small.finite(p as int),
        units(big.mag as nat, p as int) == ma * pow2(sa as nat),
        units(small.mag as nat, p as int) == mb * pow2(sb as nat),
        ma < 2 * lead(p as int),
        mb < 2 * lead(p as int),
        sa > 0 ==> ma >= lead(p as int),
        sb <= sa < 2047,
    ensures
        r == sum_spec(big, small, p as int),
{
    let ghost ua = units(big.mag as nat, p as int);
    let ghost ub = units(small.mag as nat, p as int);
    let diff: u32 = sa - sb;
    proof {
        lemma2_to64();
        lemma2_to64_rest();
        lemma_pow2_adds(64, 6);
    }
    if diff <= 70 {
        let scale: u128 = power_of_two(diff);
        proof {
            if diff < 70 {
                lemma_pow2_strictly_increases(diff as nat, 70);
            }
            assert(ma * scale <= 0x20_0000_0000_0000 * 0x40_0000_0000_0000_0000) by (nonlinear_arith)
                requires
                    ma <= 0x20_0000_0000_0000,
                    scale <= 0x40_0000_0000_0000_0000,
            ;
        }
        let x: u128 = ma as u128 * scale;
        let y: u128 = mb as u128;
        let (m, neg): (u128, bool) = if big.neg == small.neg {
            (x + y, big.neg)
        } else if x > y {
            (x - y, big.neg)
        } else if x < y {
            (y - x, small.neg)
        } else {
            (0, false)
        };
        let ghost w = pow2(sb as nat);
        let ghost n = (m * w) as nat;
        proof {
            lemma_pow2_adds(diff as nat, sb as nat);
            lemma_pow2_pos(sb as nat);
            assert(ma * (scale * w) == x * w) by (nonlinear_arith)
                requires
                    x == ma * scale,
            ;
            assert(ua == x * w);
            assert(ub == y * w);
            assert((x + y) * w == x * w + y * w) by (nonlinear_arith);
            assert((x - y) * w == x * w - y * w) by (nonlinear_arith);
            assert((y - x) * w == y * w - x * w) by (nonlinear_arith);
            if m > 0 {
                assert(m * w > 0) by (nonlinear_arith)
                    requires
                        m > 0,
                        w > 0,
                ;
            } else {
                assert(m * w == 0) by (nonlinear_arith)
                    requires
                        m == 0,
                ;
            }
            assert(n * 1 == 1 * m * w) by (nonlinear_arith)
                requires
                    n == m * w,
            ;
            assert(1 * (m + 1) * w == m * w + w) by (nonlinear_arith);
        }
        let mag: u64 = pack(p, m, sb, 0, false, Ghost(n), Ghost(1nat));
        if m == 0 {
            return Raw { neg: big.neg && small.neg, mag: 0 };
        }
        Raw { neg, mag }
    } else {
        let t: u32 = diff - 70;
        let scale: u128 = power_of_two(70);
        assert(ma * scale <= 0x20_0000_0000_0000 * 0x40_0000_0000_0000_0000) by (nonlinear_arith)
            requires
                ma <= 0x20_0000_0000_0000,
                scale <= 0x40_0000_0000_0000_0000,
        ;
        assert(ma * scale >= lead(p as int) * 0x40_0000_0000_0000_0000) by (nonlinear_arith)
            requires
                ma >= lead(p as int),
                scale == 0x40_0000_0000_0000_0000,
        ;
        let x: u128 = ma as u128 * scale;
        let (h, l): (u128, u128) = if t >= 64 {
            (0, mb as u128)
        } else {
            let c: u128 = power_of_two(t);
            (mb as u128 / c, mb as u128 % c)
        };
        let ghost tt = pow2(t as nat);
        proof {
            if t >= 64 {
                if t > 64 {
                    lemma_pow2_strictly_increases(64, t as nat);
                }
                assert(mb == 0 * tt + l);
            } else {
                lemma_fundamental_div_mod(mb as int, tt as int);
                lemma_mul_is_commutative(h as int, tt as int);
                lemma_div_nonincreasing(mb as int, tt as int);
            }
            assert(mb == h * tt + l && l < tt);
            assert(h <= mb);
        }
        let lost: bool = l != 0;
        let m: u128 = if big.neg == small.neg {
            x + h
        } else if lost {
            x - h - 1
        } else {
            x - h
        };
        let ghost w = pow2(sb as nat);
        let ghost ww = pow2((sb + t) as nat);
        let ghost n: nat = if big.neg == small.neg {
            ua + ub
        } else {
            (ua - ub) as nat
        };
        proof {
            lemma_pow2_adds(sb as nat, t as nat);
            lemma_pow2_adds((sb + t) as nat, 70);
            lemma_pow2_pos(sb as nat);
            lemma_pow2_pos(t as nat);
            lemma_pow2_pos((sb + t) as nat);
            assert(ma * (ww * scale) == x * ww) by (nonlinear_arith)
                requires
                    x == ma * scale,
            ;
            assert(ua == x * ww);
            assert((h * tt + l) * w == h * (w * tt) + l * w) by (nonlinear_arith);
            assert(ub == h * ww + l * w);
            assert(0 <= l * w < tt * w) by (nonlinear_arith)
                requires
                    0 <= l < tt,
                    w > 0,
            ;
            assert(tt * w == ww) by (nonlinear_arith)
                requires
                    ww == w * tt,
            ;
            assert(l > 0 ==> l * w > 0) by (nonlinear_arith)
                requires
                    w > 0,
                    l >= 0,
            ;
            assert(l == 0 ==> l * w == 0) by (nonlinear_arith)
                requires
                    w > 0,
                    l >= 0,
            ;
            assert((x + h) * ww == x * ww + h * ww) by (nonlinear_arith);
            assert((x - h) * ww == x * ww - h * ww) by (nonlinear_arith);
            assert((x - h - 1) * ww == x * ww - h * ww - ww) by (nonlinear_arith);
            assert((x - h) * ww >= ww) by (nonlinear_arith)
                requires
                    x - h >= 1,
                    ww > 0,
            ;
            assert(1 * m * ww == m * ww) by (nonlinear_arith);
            assert(1 * (m + 1) * ww == m * ww + ww) by (nonlinear_arith);
            assert(n * 1 == n);
            if big.neg == small.neg {
                assert(x * ww > 0) by (nonlinear_arith)
                    requires
                        x > 0,
                        ww > 0,
                ;
                assert(h * ww >= 0) by (nonlinear_arith)
                    requires
                        h >= 0,
                        ww > 0,
                ;
            }
            assert(n > 0);
        }
        let mag: u64 = pack(p, m, sb + t, 0, lost, Ghost(n), Ghost(1nat));
        Raw { neg: big.neg, mag }
    }
}

/// `a + b`.
pub fn sum(a: Raw, b: Raw, p: u32) -> (r: Raw)
    requires
        is_prec(p as int),
    ensures
        r == sum_spec(a, b, p as int),
{
    let inf: u64 = infinity(p);
    if a.mag > inf || b.mag > inf {
        return not_a_number(p);
    }
    if a.mag == inf {
        if b.mag == inf && a.neg != b.neg {
            return not_a_number(p);
        }
        return a;
    }
    if b.mag == inf {
        return b;
    }
    let (ma, sa): (u64, u32) = open_mag(a.mag, p);
    let (mb, sb): (u64, u32) = open_mag(b.mag, p);
    if sa >= sb {
        add_ordered(a, b, p, ma, sa, mb, sb)
    } else {
        add_ordered(b, a, p, mb, sb, ma, sa)
    }
}

/// `a * b`.
pub fn product(a: Raw, b: Raw, p: u32) -> (r: Raw)
    requires
        is_prec(p as int),
    ensures
        r == product_spec(a, b, p as int),
{
    let inf: u64 = infinity(p);
    if a.mag > inf || b.mag > inf {
        return not_a_number(p);
    }
    if a.mag == inf || b.mag == inf {
        if a.mag == 0 || b.mag == 0 {
            return not_a_number(p);
        }
        return Raw { neg: a.neg != b.neg, mag: inf };
    }
    let (ma, sa): (u64, u32) = open_mag(a.mag, p);
    let (mb, sb): (u64, u32) = open_mag(b.mag, p);
    assert(ma * mb <= 0x20_0000_0000_0000 * 0x20_0000_0000_0000) by (nonlinear_arith)
        requires
            0 <= ma <= 0x20_0000_0000_0000,
            0 <= mb <= 0x20_0000_0000_0000,
    ;
    let m: u128 = ma as u128 * mb as u128;
    let u: u32 = unit_exponent(p);
    let ghost n = units(a.mag as nat, p as int) * units(b.mag as nat, p as int);
    let ghost d = pow2(u as nat);
    proof {
        lemma_pow2_pos(u as nat);
        lemma_pow2_adds(sa as nat, sb as nat);
        lemma_pow2_pos((sa + sb) as nat);
        let (x, y) = (pow2(sa as nat), pow2(sb as nat));
        assert((ma * x) * (mb * y) == (ma * mb) * (x * y)) by (nonlinear_arith);
        let z = x * y;
        assert(d * m * z == (m * z) * d) by (nonlinear_arith);
        assert(d * (m + 1) * z == (m * z) * d + d * z) by (nonlinear_arith);
        assert(d * z > 0) by (nonlinear_arith)
            requires
                d > 0,
                z > 0,
        ;
    }
    let mag: u64 = pack(p, m, sa + sb, u, false, Ghost(n), Ghost(d));
    Raw { neg: a.neg != b.neg, mag }
}

/// `a / b`.
pub fn quotient(a: Raw, b: Raw, p: u32) -> (r: Raw)
    requires
        is_prec(p as int),
    ensures
        r == quotient_spec(a, b, p as int),
{
    let inf: u64 = infinity(p);
    let neg: bool = a.neg != b.neg;
    if a.mag > inf || b.mag > inf {
        return not_a_number(p);
    }
    if a.mag == inf {
        if b.mag == inf {
            return not_a_number(p);
        }
        return Raw { neg, mag: inf };
    }
    if b.mag == inf {
        return Raw { neg, mag: 0 };
    }
    if b.mag == 0 {
        if a.mag == 0 {
            return not_a_number(p);
        }
        return Raw { neg, mag: inf };
    }
    let (ma, sa): (u64, u32) = open_mag(a.mag, p);
    let (mb, sb): (u64, u32) = open_mag(b.mag, p);
    let u: u32 = unit_exponent(p);
    let ghost ua = units(a.mag as nat, p as int);
    let ghost ub = units(b.mag as nat, p as int);
    let ghost n = (ua * pow2(u as nat)) as nat;
    let len: u32 = bit_length(ma as u128);
    proof {
        lead_is_pow2(p as int);
        if len > p {
            if len - 1 > p {
                lemma_pow2_strictly_increases(p as nat, (len - 1) as nat);
            }
        }
        lemma2_to64();
        lemma2_to64_rest();
        lemma_pow2_adds(64, 6);
    }
    let z: u32 = p - len;
    let zz: u128 = power_of_two(z);
    let scale: u128 = power_of_two(70);
    proof {
        lemma_pow2_adds(len as nat, z as nat);
        assert(ma * zz <= pow2(len as nat) * zz) by (nonlinear_arith)
            requires
                ma <= pow2(len as nat),
                zz >= 0,
        ;
        if len > 0 {
            lemma_pow2_adds((len - 1) as nat, z as nat);
            assert(ma * zz >= pow2((len - 1) as nat) * zz) by (nonlinear_arith)
                requires
                    ma >= pow2((len - 1) as nat),
                    zz >= 0,
            ;
        } else {
            assert(ma * zz == 0) by (nonlinear_arith)
                requires
                    ma == 0,
            ;
        }
    }
    let norm: u128 = ma as u128 * zz;
    let num: u128 = norm * scale;
    let m: u128 = num / mb as u128;
    let rem: u128 = num % mb as u128;
    proof {
        lemma_fundamental_div_mod(num as int, mb as int);
        lemma_div_nonincreasing(num as int, mb as int);
        let (x, y, uu) = (pow2(sa as nat), pow2(sb as nat), pow2(u as nat));
        lemma_pow2_pos(sa as nat);
        lemma_pow2_pos(sb as nat);
        lemma_pow2_pos(u as nat);
        lemma_pow2_adds(sa as nat, u as nat);
        lemma_pow2_adds(sb as nat, 70);
        lemma_pow2_adds((sb + 70) as nat, z as nat);
        let c = y * x * uu;
        assert(c > 0) by (nonlinear_arith)
            requires
                x > 0,
                y > 0,
                uu > 0,
                c == y * x * uu,
        ;
        // Both sides are multiples of `c`.
        assert(ub * m * (x * uu) == (mb * m) * c) by (nonlinear_arith)
            requires
                ub == mb * y,
                c == y * x * uu,
        ;
        assert(ub * (m + 1) * (x * uu) == (mb * m + mb) * c) by (nonlinear_arith)
            requires
                ub == mb * y,
                c == y * x * uu,
        ;
        assert(n * (y * scale * zz) == num * c) by (nonlinear_arith)
            requires
                n == (ma * x) * uu,
                c == y * x * uu,
                num == (ma * zz) * scale,
        ;
        assert((mb * m) * c <= num * c) by (nonlinear_arith)
            requires
                mb * m <= num,
                c > 0,
        ;
        assert(num * c < (mb * m + mb) * c) by (nonlinear_arith)
            requires
                num < mb * m + mb,
                c > 0,
        ;
        assert(((mb * m) * c == num * c) <==> (mb * m == num)) by (nonlinear_arith)
            requires
                c > 0,
        ;
        if rem != 0 && m < 4 * lead(p as int) {
            if ma == 0 {
                assert(num == 0) by (nonlinear_arith)
                    requires
                        norm == 0,
                        num == norm * scale,
                ;
                lemma_small_mod(0, mb as nat);
            }
            assert(num >= lead(p as int) * 0x40_0000_0000_0000_0000) by (nonlinear_arith)
                requires
                    norm >= lead(p as int),
                    scale == 0x40_0000_0000_0000_0000,
                    num == norm * scale,
            ;
            assert(mb * m <= (2 * lead(p as int)) * (4 * lead(p as int))) by (nonlinear_arith)
                requires
                    0 <= mb <= 2 * lead(p as int),
                    0 <= m <= 4 * lead(p as int),
            ;
            if p == 24 {
                assert(lead(p as int) == 0x80_0000);
            } else {
                assert(lead(p as int) == 0x10_0000_0000_0000);
            }
            assert(num == mb * m + rem);
            assert(false);
        }
        assert(ub > 0) by (nonlinear_arith)
            requires
                ub == mb * y,
                mb > 0,
                y > 0,
        ;
    }
    let mag: u64 = pack(p, m, sa + u, sb + 70 + z, rem != 0, Ghost(n), Ghost(ub));
    Raw { neg, mag }
}

/// `n` units as a magnitude with the significand `m` and the exponent `s`.
fn pack_exact(p: u32, m: u64, s: u32, Ghost(n): Ghost<nat>) -> (r: u64)
    requires
        is_prec(p as int),
        s <= 10_000,
        n == m * pow2(s as nat),
    ensures
        r == round_bits(n, 1, p as int),
        r <= inf_bits(p as int),
{
    proof {
        lemma2_to64();
        lemma_pow2_pos(s as nat);
        let w = pow2(s as nat);
        assert(1 * m * w == m * w) by (nonlinear_arith);
        assert(1 * (m + 1) * w == m * w + w) by (nonlinear_arith);
    }
    pack(p, m as u128, s, 0, false, Ghost(n), Ghost(1nat))
}

/// The whole number `v`.
pub open spec fn integer_spec(v: int, p: int) -> Raw {
    round_value(v * pow2(unit_exp(p)), false, p)
}

/// The number nearest to the whole number with the given sign and magnitude.
pub fn integer(neg: bool, v: u64, p: u32) -> (r: Raw)
    requires
        is_prec(p as int),
        v == 0 ==> !neg,
    ensures
        r == integer_spec(
            if neg {
                -(v as int)
            } else {
                v as int
            },
            p as int,
        ),
{
    let u: u32 = unit_exponent(p);
    let ghost w = pow2(u as nat);
    proof {
        lemma_pow2_pos(u as nat);
        assert(v > 0 ==> v * w > 0) by (nonlinear_arith)
            requires
                w > 0,
        ;
        assert((-(v as int)) * w == -(v * w)) by (nonlinear_arith);
        assert(v == 0 ==> v * w == 0) by (nonlinear_arith);
    }
    let mag: u64 = pack_exact(p, v, u, Ghost((v * w) as nat));
    if v == 0 {
        Raw { neg: false, mag: 0 }
    } else {
        Raw { neg, mag }
    }
}

/// The nearest number of precision `q` to a number of precision `p`.
pub open spec fn convert_spec(a: Raw, p: int, q: int) -> Raw {
    if a.nan(p) {
        nan_raw(q)
    } else if a.infinite(p) {
        Raw { neg: a.neg, mag: inf_bits(q) as u64 }
    } else {
        round_raw(
            a.neg,
            units(a.mag as nat, p) * pow2(unit_exp(q)),
            pow2(unit_exp(p)),
            q,
        )
    }
}

/// The nearest number of precision `q`.
pub fn convert(a: Raw, p: u32, q: u32) -> (r: Raw)
    requires
        is_prec(p as int),
        is_prec(q as int),
    ensures
        r == convert_spec(a, p as int, q as int),
{
    let inf: u64 = infinity(p);
    if a.mag > inf {
        return not_a_number(q);
    }
    if a.mag == inf {
        return Raw { neg: a.neg, mag: infinity(q) };
    }
    let (m, s): (u64, u32) = open_mag(a.mag, p);
    let u: u32 = unit_exponent(p);
    let v: u32 = unit_exponent(q);
    let ghost n = (units(a.mag as nat, p as int) * pow2(v as nat)) as nat;
    let ghost d = pow2(u as nat);
    proof {
        lemma_pow2_pos(u as nat);
        lemma_pow2_pos(s as nat);
        lemma_pow2_pos(v as nat);
        lemma_pow2_adds(s as nat, v as nat);
        let (x, y) = (pow2(s as nat), pow2(v as nat));
        let z = x * y;
        assert(d * m * z == n * d) by (nonlinear_arith)
            requires
                n == m * x * y,
                z == x * y,
        ;
        assert(d * (m + 1) * z == d * m * z + d * z) by (nonlinear_arith);
        assert(d * z > 0) by (nonlinear_arith)
            requires
                d > 0,
                z == x * y,
                x > 0,
                y > 0,
        ;
    }
    let mag: u64 = pack(q, m as u128, s + v, u, false, Ghost(n), Ghost(d));
    Raw { neg: a.neg, mag }
}

/// What is left of `a` after the whole multiples of `b` nearest to zero are
/// taken off; it has the sign of `a`.
pub open spec fn remainder_spec(a: Raw, b: Raw, p: int) -> Raw {
    if a.nan(p) || b.nan(p) || a.infinite(p) || b.mag == 0 {
        nan_raw(p)
    } else if b.infinite(p) {
        a
    } else {
        round_raw(a.neg, units(a.mag as nat, p) % units(b.mag as nat, p), 1, p)
    }
}

pub proof fn mod_scales(m: nat, d: nat, w: nat)
    requires
        d > 0,
        w > 0,
    ensures
        (m * w) % (d * w) == (m % d) * w,
        (m * w) / (d * w) == m / d,
{
    lemma_fundamental_div_mod(m as int, d as int);
    let (q, r) = (m / d, m % d);
    assert(m * w == q * (d * w) + r * w) by (nonlinear_arith)
        requires
            m == d * q + r,
    ;
    assert(r * w < d * w) by (nonlinear_arith)
        requires
            r < d,
            w > 0,
    ;
    lemma_fundamental_div_mod_converse((m * w) as int, (d * w) as int, q as int, (r * w) as int);
}

/// `a % b`.
pub fn remainder(a: Raw, b: Raw, p: u32) -> (r: Raw)
    requires
        is_prec(p as int),
    ensures
        r == remainder_spec(a, b, p as int),
{
    let inf: u64 = infinity(p);
    if a.mag >= inf || b.mag > inf || b.mag == 0 {
        return not_a_number(p);
    }
    if b.mag == inf {
        return a;
    }
    let (ma, sa): (u64, u32) = open_mag(a.mag, p);
    let (mb, sb): (u64, u32) = open_mag(b.mag, p);
    let ghost ua = units(a.mag as nat, p as int);
    let ghost ub = units(b.mag as nat, p as int);
    if sa < sb {
        proof {
            let (x, y) = (pow2(sa as nat), pow2(sb as nat));
            lemma_pow2_pos(sa as nat);
            lemma_pow2_unfold((sa + 1) as nat);
            if sa + 1 < sb {
                lemma_pow2_strictly_increases((sa + 1) as nat, sb as nat);
            }
            let h = lead(p as int);
            assert(ma * x < h * (2 * x)) by (nonlinear_arith)
                requires
                    ma < 2 * h,
                    x > 0,
            ;
            assert(h * (2 * x) <= mb * y) by (nonlinear_arith)
                requires
                    h <= mb,
                    2 * x <= y,
                    x > 0,
            ;
            lemma_small_mod(ua, ub);
        }
        let mag: u64 = pack_exact(p, ma, sa, Ghost(ua));
        return Raw { neg: a.neg, mag };
    }
    let steps: u32 = sa - sb;
    let mut rest: u64 = ma % mb;
    let mut i: u32 = 0;
    proof {
        lemma2_to64();
    }
    while i < steps
        invariant
            i <= steps <= 2047,
            0 < mb < 0x20_0000_0000_0000,
            rest < mb,
            rest == (ma * pow2(i as nat)) % (mb as int),
        decreases steps - i,
    {
        proof {
            lemma_pow2_unfold((i + 1) as nat);
            let w = pow2(i as nat);
            assert(ma * (2 * w) == 2 * (ma * w)) by (nonlinear_arith);
            lemma_mul_mod_noop_right(2, ma * w, mb as int);
        }
        rest = (2 * rest) % mb;
        i = i + 1;
    }
    proof {
        let (w, y) = (pow2(steps as nat), pow2(sb as nat));
        lemma_pow2_adds(steps as nat, sb as nat);
        lemma_pow2_pos(sb as nat);
        mod_scales((ma * w) as nat, mb as nat, y);
        assert(ma * (w * y) == (ma * w) * y) by (nonlinear_arith);
    }
    let mag: u64 = pack_exact(p, rest, sb, Ghost(ua % ub));
    Raw { neg: a.neg, mag }
}

/// The whole part of a finite magnitude, no more than `2^64`; whether there is a
/// fraction; and whether it is at least a half.
pub fn whole_part(mag: u64, p: u32) -> (r: (u128, bool, bool))
    requires
        is_prec(p as int),
        mag < inf_bits(p as int),
    ensures
        ({
            let n = units(mag as nat, p as int);
            let d = pow2(unit_exp(p as int));
            &&& r.0 == if n / d < 0x1_0000_0000_0000_0000 {
                n / d
            } else {
                0x1_0000_0000_0000_0000
            }
            &&& r.1 <==> n % d != 0
            &&& r.2 <==> 2 * (n % d) >= d
        }),
{
    let (m, s): (u64, u32) = open_mag(mag, p);
    let u: u32 = unit_exponent(p);
    proof {
        lemma2_to64();
        lemma2_to64_rest();
        lemma_pow2_pos(u as nat);
        lemma_pow2_pos(s as nat);
    }
    if s >= u {
        let shift: u32 = s - u;
        let ghost c = pow2(shift as nat);
        let ghost d = pow2(u as nat);
        proof {
            lemma_pow2_adds(shift as nat, u as nat);
            lemma_pow2_pos(shift as nat);
            assert(m * (c * d) == d * (m * c)) by (nonlinear_arith);
            lemma_div_multiples_vanish(m * c, d as int);
            lemma_mod_multiples_basic(m * c, d as int);
            lemma_mul_is_commutative(m * c, d as int);
        }
        if shift >= 64 {
            proof {
                if shift > 64 {
                    lemma_pow2_strictly_increases(64, shift as nat);
                }
                assert(m * c >= c) by (nonlinear_arith)
                    requires
                        m >= 1,
                        c >= 0,
                ;
            }
            return (0x1_0000_0000_0000_0000, false, false);
        }
        let cc: u128 = power_of_two(shift);
        proof {
            lemma_pow2_strictly_increases(shift as nat, 64);
            assert(m * c <= 0x20_0000_0000_0000 * 0x1_0000_0000_0000_0000) by (nonlinear_arith)
                requires
                    0 <= m <= 0x20_0000_0000_0000,
                    0 <= c <= 0x1_0000_0000_0000_0000,
            ;
        }
        let q: u128 = m as u128 * cc;
        return (
            if q < 0x1_0000_0000_0000_0000 {
                q
            } else {
                0x1_0000_0000_0000_0000
            },
            false,
            false,
        );
    }
    let j: u32 = u - s;
    let ghost w = pow2(s as nat);
    let ghost c = pow2(j as nat);
    proof {
        lemma_pow2_adds(j as nat, s as nat);
        lemma_pow2_pos(j as nat);
        mod_scales(m as nat, c, w);
        let r = (m as nat % c);
        assert(r * w == 0 <==> r == 0) by (nonlinear_arith)
            requires
                w > 0,
        ;
        assert(2 * (r * w) >= c * w <==> 2 * r >= c) by (nonlinear_arith)
            requires
                w > 0,
        ;
    }
    if j >= 64 {
        proof {
            if j > 64 {
                lemma_pow2_strictly_increases(64, j as nat);
            }
            lemma_small_mod(m as nat, c);
            lemma_basic_div(m as int, c as int);
        }
        return (0, m != 0, false);
    }
    let cc: u128 = power_of_two(j);
    proof {
        lemma_div_nonincreasing(m as int, c as int);
        lemma_pow2_strictly_increases(j as nat, 64);
    }
    let q: u128 = m as u128 / cc;
    let r: u128 = m as u128 % cc;
    (q, r != 0, 2 * r >= cc)
}

/// The ways to make a number whole.
#[derive(Clone, Copy, Debug, PartialEq, Eq, Structural)]
pub enum Whole {
    /// Towards zero.
    Trunc,
    /// Downwards.
    Floor,
    /// Upwards.
    Ceil,
    /// To the nearest, halves away from zero.
    Round,
}

/// A finite number made whole.
pub open spec fn whole_spec(a: Raw, how: Whole, p: int) -> int {
    let n = units(a.mag as nat, p);
    let d = pow2(unit_exp(p));
    let q = n / d;
    let away = match how {
        Whole::Trunc => false,
        Whole::Floor => a.neg && n % d != 0,
        Whole::Ceil => !a.neg && n % d != 0,
        Whole::Round => 2 * (n % d) >= d,
    };
    let size = if away {
        q + 1
    } else {
        q
    };
    if a.neg {
        -(size as int)
    } else {
        size as int
    }
}

/// `v` brought into `lo..=hi`.
pub open spec fn within(v: int, lo: int, hi: int) -> int {
    if v < lo {
        lo
    } else if v > hi {
        hi
    } else {
        v
    }
}

/// A number made whole and brought into `lo..=hi`; not-a-number gives zero.
pub open spec fn whole_within_spec(a: Raw, how: Whole, lo: int, hi: int, p: int) -> int {
    if a.nan(p) {
        0
    } else if a.infinite(p) {
        if a.neg {
            lo
        } else {
            hi
        }
    } else {
        within(whole_spec(a, how, p), lo, hi)
    }
}

/// A number made whole and brought into `lo..=hi`.
pub fn whole_within(a: Raw, how: Whole, lo: i128, hi: i128, p: u32) -> (r: i128)
    requires
        is_prec(p as int),
        -0x1_0000_0000_0000_0000 <= lo <= 0 <= hi <= 0x1_0000_0000_0000_0000,
    ensures
        r == whole_within_spec(a, how, lo as int, hi as int, p as int),
        lo <= r <= hi,
{
    let inf: u64 = infinity(p);
    if a.mag > inf {
        return 0;
    }
    if a.mag == inf {
        return if a.neg {
            lo
        } else {
            hi
        };
    }
    let (q, frac, half): (u128, bool, bool) = whole_part(a.mag, p);
    let away: bool = match how {
        Whole::Trunc => false,
        Whole::Floor => a.neg && frac,
        Whole::Ceil => !a.neg && frac,
        Whole::Round => half,
    };
    let size: i128 = if away {
        q as i128 + 1
    } else {
        q as i128
    };
    let v: i128 = if a.neg {
        -size
    } else {
        size
    };
    if v < lo {
        lo
    } else if v > hi {
        hi
    } else {
        v
    }
}

/// The integer square root.
pub open spec fn root(n: nat) -> nat
    decreases n,
{
    if n == 0 {
        0
    } else {
        let r = root((n - 1) as nat);
        if (r + 1) * (r + 1) <= n {
            r + 1
        } else {
            r
        }
    }
}

/// The integer square root is the largest integer whose square is no more than
/// `n`.
pub proof fn root_bounds(n: nat)
    ensures
        root(n) * root(n) <= n < (root(n) + 1) * (root(n) + 1),
    decreases n,
{
    if n > 0 {
        root_bounds((n - 1) as nat);
        let r = root((n - 1) as nat);
        let q = root(n);
        if q == r + 1 {
            assert((q + 1) * (q + 1) >= (r + 1) * (r + 1) + 1) by (nonlinear_arith)
                requires
                    q == r + 1,
            ;
            assert(q * q <= n);
            assert((r + 1) * (r + 1) >= n);
        } else {
            assert(q == r);
            assert((q + 1) * (q + 1) > n);
            assert(r * r <= n);
        }
    } else {
        let q = root(0);
        assert(q * q == 0 && (q + 1) * (q + 1) == 1) by (nonlinear_arith)
            requires
                q == 0,
        ;
    }
}

proof fn square_order(x: nat, y: nat)
    requires
        x * x < y * y,
    ensures
        x < y,
{
    assert(x < y) by (nonlinear_arith)
        requires
            x * x < y * y,
            x >= 0,
            y >= 0,
    ;
}

/// The square root. Its integer part in units decides the rounding, together
/// with whether the root is whole.
pub open spec fn square_root_spec(a: Raw, p: int) -> Raw {
    if a.nan(p) {
        nan_raw(p)
    } else if a.mag == 0 {
        a
    } else if a.neg {
        nan_raw(p)
    } else if a.infinite(p) {
        a
    } else {
        let n = units(a.mag as nat, p) * pow2(unit_exp(p));
        let q = root(n);
        let rest: nat = if q * q == n {
            0
        } else {
            1
        };
        round_raw(false, 2 * q + rest, 2, p)
    }
}

/// The integer square root of a number below `2^126`.
pub fn int_root(m: u128) -> (r: u128)
    requires
        m < 0x4000_0000_0000_0000_0000_0000_0000_0000,
    ensures
        r * r <= m < (r + 1) * (r + 1),
        r < 0x8000_0000_0000_0000,
{
    let mut lo: u128 = 0;
    let mut hi: u128 = 0x8000_0000_0000_0000;
    assert(hi * hi == 0x4000_0000_0000_0000_0000_0000_0000_0000) by (nonlinear_arith)
        requires
            hi == 0x8000_0000_0000_0000,
    ;
    while hi - lo > 1
        invariant
            lo < hi <= 0x8000_0000_0000_0000,
            lo * lo <= m < hi * hi,
        decreases hi - lo,
    {
        let mid: u128 = lo + (hi - lo) / 2;
        assert(mid * mid <= 0x8000_0000_0000_0000 * 0x8000_0000_0000_0000) by (nonlinear_arith)
            requires
                0 <= mid <= 0x8000_0000_0000_0000,
        ;
        if mid * mid <= m {
            lo = mid;
        } else {
            hi = mid;
        }
    }
    lo
}

/// The square root.
pub fn square_root(a: Raw, p: u32) -> (r: Raw)
    requires
        is_prec(p as int),
    ensures
        r == square_root_spec(a, p as int),
{
    let inf: u64 = infinity(p);
    if a.mag > inf {
        return not_a_number(p);
    }
    if a.mag == 0 {
        return a;
    }
    if a.neg {
        return not_a_number(p);
    }
    if a.mag == inf {
        return a;
    }
    let (m, s): (u64, u32) = open_mag(a.mag, p);
    let u: u32 = unit_exponent(p);
    let e: u32 = s + u;
    let len: u32 = bit_length(m as u128);
    let ghost n = (units(a.mag as nat, p as int) * pow2(u as nat)) as nat;
    proof {
        lead_is_pow2(p as int);
        lemma2_to64();
        lemma2_to64_rest();
        if len > p {
            if len - 1 > p {
                lemma_pow2_strictly_increases(p as nat, (len - 1) as nat);
            }
        }
    }
    // `x` has 125 or 126 bits and `e - t` is even.
    let t: u32 = if (e + len) % 2 == 0 {
        126 - len
    } else {
        125 - len
    };
    let c: u128 = power_of_two(t);
    proof {
        lemma_pow2_adds(len as nat, t as nat);
        lemma_pow2_adds((len - 1) as nat, t as nat);
        lemma_pow2_adds(63, 63);
        lemma_pow2_adds(63, 61);
        lemma_pow2_adds(63, 62);
        let (x, y) = (pow2(len as nat), pow2((len - 1) as nat));
        assert(m * c < x * c) by (nonlinear_arith)
            requires
                m < x,
                c > 0,
        ;
        assert(m * c >= y * c) by (nonlinear_arith)
            requires
                m >= y,
                c > 0,
        ;
    }
    let x: u128 = m as u128 * c;
    let q: u128 = int_root(x);
    let sticky: bool = q * q != x;
    let half: u32 = (e - t) / 2;
    proof {
        let w = pow2(half as nat);
        lemma_pow2_pos(half as nat);
        lemma_pow2_adds(half as nat, half as nat);
        lemma_pow2_adds(t as nat, (e - t) as nat);
        lemma_pow2_adds(s as nat, u as nat);
        assert(n == x * (w * w)) by (nonlinear_arith)
            requires
                n == m * pow2(s as nat) * pow2(u as nat),
                x == m * c,
                c * (w * w) == pow2(s as nat) * pow2(u as nat),
        ;
        let g = root(n);
        root_bounds(n);
        let (lo, hi) = ((q * w) as nat, ((q + 1) * w) as nat);
        assert(lo * lo == (q * q) * (w * w)) by (nonlinear_arith)
            requires
                lo == q * w,
        ;
        assert(hi * hi == ((q + 1) * (q + 1)) * (w * w)) by (nonlinear_arith)
            requires
                hi == (q + 1) * w,
        ;
        let ww = w * w;
        assert(ww > 0) by (nonlinear_arith)
            requires
                w > 0,
                ww == w * w,
        ;
        assert((q * q) * ww <= x * ww) by (nonlinear_arith)
            requires
                q * q <= x,
                ww > 0,
        ;
        assert(x * ww < ((q + 1) * (q + 1)) * ww) by (nonlinear_arith)
            requires
                x < (q + 1) * (q + 1),
                ww > 0,
        ;
        assert((q * q) * ww == x * ww <==> q * q == x) by (nonlinear_arith)
            requires
                ww > 0,
        ;
        square_order(lo, g + 1);
        square_order(g, hi);
        if !sticky {
            assert(lo * lo == n);
            if lo != g {
                assert(lo * lo < g * g) by (nonlinear_arith)
                    requires
                        lo < g,
                ;
            }
        }
        let rest: nat = if g * g == n {
            0
        } else {
            1
        };
        let v = 2 * g + rest;
        assert(v * 1 == v);
        assert(2 * q * w == 2 * lo) by (nonlinear_arith)
            requires
                lo == q * w,
        ;
        assert(2 * (q + 1) * w == 2 * hi) by (nonlinear_arith)
            requires
                hi == (q + 1) * w,
        ;
        if sticky {
            assert(q >= 0x2000_0000_0000_0000) by {
                if q + 1 <= 0x2000_0000_0000_0000 {
                    assert((q + 1) * (q + 1) <= 0x2000_0000_0000_0000 * 0x2000_0000_0000_0000)
                        by (nonlinear_arith)
                        requires
                            0 <= q + 1 <= 0x2000_0000_0000_0000,
                    ;
                }
            }
        }
    }
    let ghost g = root(n);
    let ghost v = 2 * g + if g * g == n {
        0nat
    } else {
        1nat
    };
    let mag: u64 = pack(p, q, half, 0, sticky, Ghost(v), Ghost(2nat));
    Raw { neg: false, mag }
}

/// A finite number rounds to itself.
pub proof fn representable_rounds_to_itself(mag: nat, p: int)
    requires
        is_prec(p),
        mag < inf_bits(p),
    ensures
        round_bits(units(mag, p), 1, p) == mag,
{
    let h = lead(p);
    let e = mag / h;
    let frac = mag % h;
    lemma_fundamental_div_mod(mag as int, h as int);
    lemma2_to64();
    if e == 0 {
        spacing_is(frac, 1, p, 0);
        assert(nearest(frac, 1 * pow2(0)) == frac);
    } else {
        let k = (e - 1) as nat;
        let w = pow2(k);
        lemma_pow2_pos(k);
        let n = (h + frac) * w;
        assert(n < 2 * h * 1 * w) by (nonlinear_arith)
            requires
                n == (h + frac) * w,
                frac < h,
                w > 0,
        ;
        assert(n >= h * 1 * w) by (nonlinear_arith)
            requires
                n == (h + frac) * w,
                frac >= 0,
                w > 0,
        ;
        spacing_is(n, 1, p, k);
        lemma_div_multiples_vanish((h + frac) as int, w as int);
        lemma_mod_multiples_basic((h + frac) as int, w as int);
        lemma_mul_is_commutative((h + frac) as int, w as int);
        assert(1 * w == w);
        assert(nearest(n, 1 * w) == h + frac);
        assert(k * h + h == e * h) by (nonlinear_arith)
            requires
                k == e - 1,
        ;
        lemma_mul_is_commutative(e as int, h as int);
    }
}

/// A larger magnitude has more units.
pub proof fn units_increase(x: nat, y: nat, p: int)
    requires
        is_prec(p),
        x < y < inf_bits(p),
    ensures
        units(x, p) < units(y, p),
{
    let h = lead(p);
    let (ex, ey) = (x / h, y / h);
    let (fx, fy) = (x % h, y % h);
    lemma_fundamental_div_mod(x as int, h as int);
    lemma_fundamental_div_mod(y as int, h as int);
    lemma2_to64();
    if ex == ey {
        if ex > 0 {
            let w = pow2((ex - 1) as nat);
            lemma_pow2_pos((ex - 1) as nat);
            assert((h + fx) * w < (h + fy) * w) by (nonlinear_arith)
                requires
                    fx < fy,
                    w > 0,
            ;
        }
    } else {
        assert(ex < ey) by {
            if ey < ex {
                assert(h * ex >= h * ey + h) by (nonlinear_arith)
                    requires
                        ex >= ey + 1,
                        h > 0,
                ;
            }
        }
        let v = pow2((ey - 1) as nat);
        lemma_pow2_pos((ey - 1) as nat);
        assert((h + fy) * v >= h * v) by (nonlinear_arith)
            requires
                fy >= 0,
                v > 0,
        ;
        if ex == 0 {
            assert(h * v >= h) by (nonlinear_arith)
                requires
                    v >= 1,
                    h >= 0,
            ;
        } else {
            let w = pow2((ex - 1) as nat);
            lemma_pow2_pos((ex - 1) as nat);
            lemma_pow2_unfold(ex);
            if ex < ey - 1 {
                lemma_pow2_strictly_increases(ex, (ey - 1) as nat);
            }
            assert((h + fx) * w < h * (2 * w)) by (nonlinear_arith)
                requires
                    fx < h,
                    w > 0,
            ;
            assert(h * (2 * w) <= h * v) by (nonlinear_arith)
                requires
                    2 * w <= v,
                    h >= 0,
            ;
        }
    }
}

} // verus!
