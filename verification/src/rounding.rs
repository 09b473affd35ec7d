//! Binary floating-point numbers by their bit patterns.
//!
//! A pixel, a coordinate or a header value is a binary floating-point number of
//! IEEE 754. This module computes on the bit patterns with integers alone, so
//! that what an operation returns can be stated exactly: the result of `+`, `-`,
//! `*` or `/` is the representable number nearest to the exact result, ties to
//! the even significand.
//!
//! Two formats are in use, told apart by their precision `p` in bits: 24
//! ([`Single`](crate::num::Single)) and 53 ([`Double`](crate::num::Double)).
//! Every finite number of a format is a whole multiple of the format's smallest
//! positive number, its unit.

use vstd::arithmetic::div_mod::*;
use vstd::arithmetic::mul::*;
use vstd::arithmetic::power2::*;
use vstd::arithmetic::power::*;
use vstd::prelude::*;

verus! {

/// The precisions in use.
pub open spec fn is_prec(p: int) -> bool {
    p == 24 || p == 53
}

/// The weight of the leading significand bit, `2^(p-1)`.
pub open spec fn lead(p: int) -> nat {
    if p == 24 {
        0x80_0000
    } else {
        0x10_0000_0000_0000
    }
}

/// The magnitude bits of infinity.
pub open spec fn inf_bits(p: int) -> nat {
    if p == 24 {
        0x7f80_0000
    } else {
        0x7ff0_0000_0000_0000
    }
}

/// The magnitude bits of the quiet not-a-number that operations return.
pub open spec fn nan_bits(p: int) -> nat {
    if p == 24 {
        0x7fc0_0000
    } else {
        0x7ff8_0000_0000_0000
    }
}

/// The unit of the format is `2^-unit_exp(p)`.
pub open spec fn unit_exp(p: int) -> nat {
    if p == 24 {
        149
    } else {
        1074
    }
}

/// The number of units in the finite magnitude with the bits `mag`.
pub open spec fn units(mag: nat, p: int) -> nat {
    let e = mag / lead(p);
    let frac = mag % lead(p);
    if e == 0 {
        frac
    } else {
        (lead(p) + frac) * pow2((e - 1) as nat)
    }
}

/// `n / d` rounded to the nearest integer, ties to even.
pub open spec fn nearest(n: nat, d: nat) -> nat {
    let q = n / d;
    let r = n % d;
    if 2 * r > d || (2 * r == d && q % 2 == 1) {
        q + 1
    } else {
        q
    }
}

/// The exponent of the spacing that the format has around `n / d` units: the
/// least `k` with `n / d < 2^(p + k)`.
pub open spec fn spacing(n: nat, d: nat, p: int) -> nat
    decreases n - d,
    via spacing_terminates
{
    if d == 0 || n < 2 * lead(p) * d {
        0
    } else {
        1 + spacing(n, 2 * d, p)
    }
}

#[via_fn]
proof fn spacing_terminates(n: nat, d: nat, p: int) {
    if d > 0 && n >= 2 * lead(p) * d {
        assert(2 * lead(p) * d >= 2 * d) by (nonlinear_arith)
            requires
                lead(p) >= 1,
        ;
    }
}

/// The magnitude bits of the representable number nearest to `n / d` units, ties
/// to the even significand; infinity past the largest.
pub open spec fn round_bits(n: nat, d: nat, p: int) -> nat {
    let k = spacing(n, d, p);
    let bits = k * lead(p) + nearest(n, d * pow2(k));
    if bits < inf_bits(p) {
        bits
    } else {
        inf_bits(p)
    }
}

pub proof fn lead_is_pow2(p: int)
    requires
        is_prec(p),
    ensures
        lead(p) == pow2((p - 1) as nat),
        2 * lead(p) == pow2(p as nat),
{
    lemma2_to64();
    lemma2_to64_rest();
}

pub proof fn spacing_is(n: nat, d: nat, p: int, k: nat)
    requires
        is_prec(p),
        d > 0,
        n < 2 * lead(p) * d * pow2(k),
        k > 0 ==> n >= lead(p) * d * pow2(k),
    ensures
        spacing(n, d, p) == k,
    decreases k,
{
    lemma2_to64();
    if k > 0 {
        let h = lead(p);
        let k1 = (k - 1) as nat;
        lemma_pow2_unfold(k);
        lemma_pow2_pos(k1);
        let x = pow2(k1);
        assert(h * d * (2 * x) >= 2 * h * d) by (nonlinear_arith)
            requires
                x >= 1,
                h >= 0,
                d >= 0,
        ;
        assert(2 * h * (2 * d) * x == 2 * h * d * (2 * x)) by (nonlinear_arith);
        assert(h * (2 * d) * x == h * d * (2 * x)) by (nonlinear_arith);
        assert(2 * h * d * x == h * d * (2 * x)) by (nonlinear_arith);
        spacing_is(n, 2 * d, p, k1);
    } else {
        assert(2 * lead(p) * d * pow2(0) == 2 * lead(p) * d) by (nonlinear_arith)
            requires
                pow2(0) == 1,
        ;
    }
}

/// `m` with the exponent `a - b`, and a part of the last place that is zero
/// unless `sticky`, is `n / d`.
pub open spec fn between(n: nat, d: nat, m: nat, a: nat, b: nat, sticky: bool) -> bool {
    &&& d * m * pow2(a) <= n * pow2(b)
    &&& n * pow2(b) < d * (m + 1) * pow2(a)
    &&& sticky <==> d * m * pow2(a) != n * pow2(b)
}

/// A power of two.
pub fn power_of_two(e: u32) -> (r: u128)
    requires
        e < 128,
    ensures
        r == pow2(e as nat),
        r > 0,
{
    proof {
        shift_is_pow2(e);
        lemma_pow2_pos(e as nat);
    }
    1u128 << e
}

proof fn shift_is_pow2(e: u32)
    requires
        e < 128,
    ensures
        (1u128 << e) == pow2(e as nat),
    decreases e,
{
    lemma2_to64();
    if e == 0 {
        assert(1u128 << 0u32 == 1u128) by (bit_vector);
    } else {
        let f = (e - 1) as u32;
        shift_is_pow2(f);
        lemma_pow2_unfold(e as nat);
        assert((1u128 << e) == 2 * (1u128 << f)) by (bit_vector)
            requires
                0 < e < 128,
                f == e - 1,
        ;
    }
}

/// The number of bits that `m` takes.
pub fn bit_length(m: u128) -> (r: u32)
    ensures
        r <= 128,
        m < pow2(r as nat),
        r > 0 ==> m >= pow2((r - 1) as nat),
        r == 0 <==> m == 0,
{
    let mut x: u128 = m;
    let mut r: u32 = 0;
    proof {
        lemma2_to64();
        lemma2_to64_rest();
    }
    while x >= 0x1_0000_0000
        invariant
            r <= 96,
            r % 32 == 0,
            r > 0 ==> x > 0,
            x * pow2(r as nat) <= m < (x + 1) * pow2(r as nat),
            m > 0 ==> x > 0,
        decreases x,
    {
        proof {
            let w = pow2(r as nat);
            lemma_pow2_adds(r as nat, 32);
            lemma2_to64();
            lemma_pow2_pos(r as nat);
            let y = x / 0x1_0000_0000;
            assert(y * (w * 0x1_0000_0000) <= x * w) by (nonlinear_arith)
                requires
                    y * 0x1_0000_0000 <= x,
                    w >= 0,
            ;
            assert((x + 1) * w <= (y + 1) * (w * 0x1_0000_0000)) by (nonlinear_arith)
                requires
                    x + 1 <= (y + 1) * 0x1_0000_0000,
                    w >= 0,
            ;
            if r >= 96 {
                lemma_pow2_adds(64, 32);
                lemma_pow2_adds(96, 32);
                lemma_pow2_adds(64, 64);
                lemma2_to64_rest();
                assert(x * w >= 0x1_0000_0000 * w) by (nonlinear_arith)
                    requires
                        x >= 0x1_0000_0000,
                        w >= 0,
                ;
            }
        }
        x = x / 0x1_0000_0000;
        r = r + 32;
    }
    let ghost r0 = r;
    let mut i: u32 = 0;
    while x > 0
        invariant
            r0 <= 96,
            r == r0 + i,
            i <= 32,
            (x == 0 && i > 0) ==> m >= pow2((r - 1) as nat),
            x * pow2(i as nat) < 0x1_0000_0000,
            x * pow2(r as nat) <= m < (x + 1) * pow2(r as nat),
            m > 0 ==> x > 0 || i > 0,
            r0 > 0 ==> x > 0 || i > 0,
        decreases x,
    {
        proof {
            let w = pow2(r as nat);
            let v = pow2(i as nat);
            lemma_pow2_unfold((r + 1) as nat);
            lemma_pow2_unfold((i + 1) as nat);
            lemma_pow2_pos(r as nat);
            lemma_pow2_pos(i as nat);
            let y = x / 2;
            assert(y * (2 * w) <= x * w) by (nonlinear_arith)
                requires
                    2 * y <= x,
                    w >= 0,
            ;
            assert((x + 1) * w <= (y + 1) * (2 * w)) by (nonlinear_arith)
                requires
                    x + 1 <= 2 * (y + 1),
                    w >= 0,
            ;
            assert(y * (2 * v) <= x * v) by (nonlinear_arith)
                requires
                    2 * y <= x,
                    v >= 0,
            ;
            assert(x * w >= w && x * v >= v) by (nonlinear_arith)
                requires
                    x >= 1,
                    w >= 0,
                    v >= 0,
            ;
            if i >= 32 {
                if i > 32 {
                    lemma_pow2_strictly_increases(32, i as nat);
                }
                lemma2_to64();
            }
        }
        x = x / 2;
        r = r + 1;
        i = i + 1;
    }
    assert((0 + 1) * pow2(r as nat) == pow2(r as nat)) by (nonlinear_arith);
    proof {
        lemma_pow2_pos(r as nat);
        if r > 0 {
            lemma_pow2_pos((r - 1) as nat);
        }
        lemma2_to64();
    }
    r
}

proof fn nearest_is(n: nat, d: nat, q: nat)
    requires
        d > 0,
        q * d <= n < (q + 1) * d,
    ensures
        n / d == q,
        n % d == n - q * d,
{
    assert((q + 1) * d == q * d + d) by (nonlinear_arith);
    lemma_fundamental_div_mod_converse(n as int, d as int, q as int, n - q * d);
}

proof fn cancel_le(x: int, y: int, b: int)
    requires
        b > 0,
        x * b <= y * b,
    ensures
        x <= y,
{
    assert(x <= y) by (nonlinear_arith)
        requires
            b > 0,
            x * b <= y * b,
    ;
}

proof fn cancel_lt(x: int, y: int, b: int)
    requires
        b > 0,
        x * b < y * b,
    ensures
        x < y,
{
    assert(x < y) by (nonlinear_arith)
        requires
            b > 0,
            x * b < y * b,
    ;
}

/// The spacing around a number given by its leading bits.
proof fn spacing_from_length(
    n: nat,
    d: nat,
    p: int,
    m: nat,
    a: nat,
    b: nat,
    sticky: bool,
    len: nat,
    k: nat,
)
    requires
        is_prec(p),
        d > 0,
        between(n, d, m, a, b, sticky),
        len > 0,
        pow2((len - 1) as nat) <= m < pow2(len),
        k >= len + a - b - p,
        k > 0 ==> k == len + a - b - p,
    ensures
        spacing(n, d, p) == k,
        n < 2 * lead(p) * d * pow2(k),
{
    lead_is_pow2(p);
    let (aa, bb, kk) = (pow2(a), pow2(b), pow2(k));
    lemma_pow2_pos(a);
    lemma_pow2_pos(b);
    lemma_pow2_pos(k);
    let h = lead(p);
    // Upper bound.
    let top = pow2(len);
    assert(d * (m + 1) * aa <= d * top * aa) by (nonlinear_arith)
        requires
            m + 1 <= top,
            d >= 0,
            aa >= 0,
    ;
    lemma_pow2_adds(len, a);
    lemma_pow2_adds(p as nat, k);
    lemma_pow2_adds((p + k) as nat, b);
    if len + a < p + k + b {
        lemma_pow2_strictly_increases(len + a, (p + k + b) as nat);
    }
    let s = top * aa;
    let t = 2 * h * kk * bb;
    assert(s <= t);
    assert(d * top * aa == d * s) by (nonlinear_arith)
        requires
            s == top * aa,
    ;
    assert(d * s <= d * t) by (nonlinear_arith)
        requires
            s <= t,
            d >= 0,
    ;
    assert(d * t == (2 * h * d * kk) * bb) by (nonlinear_arith)
        requires
            t == 2 * h * kk * bb,
    ;
    cancel_lt(n as int, (2 * h * d * kk) as int, bb as int);
    if k > 0 {
        let low = pow2((len - 1) as nat);
        lemma_pow2_adds((len - 1) as nat, a);
        lemma_pow2_adds((p - 1) as nat, k);
        lemma_pow2_adds((p - 1 + k) as nat, b);
        let s2 = low * aa;
        let t2 = h * kk * bb;
        assert(s2 == t2);
        assert(d * m * aa >= d * low * aa) by (nonlinear_arith)
            requires
                m >= low,
                d >= 0,
                aa >= 0,
        ;
        assert(d * low * aa == d * s2) by (nonlinear_arith)
            requires
                s2 == low * aa,
        ;
        assert(d * t2 == (h * d * kk) * bb) by (nonlinear_arith)
            requires
                t2 == h * kk * bb,
        ;
        cancel_le((h * d * kk) as int, n as int, bb as int);
    }
    spacing_is(n, d, p, k);
}

/// The rounded quotient from the leading bits, where the last of them lie below
/// the spacing.
proof fn nearest_below(
    n: nat,
    d: nat,
    m: nat,
    a: nat,
    b: nat,
    sticky: bool,
    k: nat,
    j: nat,
    q: nat,
    r: nat,
)
    requires
        d > 0,
        between(n, d, m, a, b, sticky),
        j + a == k + b,
        m == q * pow2(j) + r,
        r < pow2(j),
        sticky ==> j > 0,
    ensures
        nearest(n, d * pow2(k)) == q + (if 2 * r > pow2(j) || (2 * r == pow2(j) && (sticky || q % 2
            == 1)) {
            1int
        } else {
            0
        }),
        q * (d * pow2(k)) <= n,
{
    let (aa, bb, kk, jj) = (pow2(a), pow2(b), pow2(k), pow2(j));
    lemma_pow2_pos(a);
    lemma_pow2_pos(b);
    lemma_pow2_pos(k);
    lemma_pow2_pos(j);
    lemma_pow2_adds(j, a);
    lemma_pow2_adds(k, b);
    assert(jj * aa == kk * bb);
    let dd = d * kk;
    assert(dd > 0) by (nonlinear_arith)
        requires
            d > 0,
            kk > 0,
            dd == d * kk,
    ;
    // `x / jj` against `n / dd`, for the multiples `x` of interest.
    assert forall|x: int, y: int| x == y * jj implies #[trigger] (d * x * aa) == #[trigger] (y * dd)
        * bb by {
        assert(d * (y * jj) * aa == d * y * (jj * aa)) by (nonlinear_arith);
        assert(d * y * (kk * bb) == (y * (d * kk)) * bb) by (nonlinear_arith);
    }
    let x0 = q * jj;
    assert(d * x0 * aa == (q * dd) * bb);
    assert(d * m * aa >= d * x0 * aa) by (nonlinear_arith)
        requires
            m >= x0,
            d >= 0,
            aa >= 0,
    ;
    cancel_le((q * dd) as int, n as int, bb as int);
    let x1 = (q + 1) * jj;
    assert(d * x1 * aa == ((q + 1) * dd) * bb);
    assert(x1 == x0 + jj) by (nonlinear_arith)
        requires
            x1 == (q + 1) * jj,
            x0 == q * jj,
    ;
    assert(d * (m + 1) * aa <= d * x1 * aa) by (nonlinear_arith)
        requires
            m + 1 <= x1,
            d >= 0,
            aa >= 0,
    ;
    cancel_lt(n as int, ((q + 1) * dd) as int, bb as int);
    nearest_is(n, dd, q);
    let rem = n - q * dd;
    // Twice the remainder against the divisor.
    let g = (2 * q + 1) * jj;
    assert(d * g * aa == ((2 * q + 1) * dd) * bb);
    assert((2 * q + 1) * dd == 2 * (q * dd) + dd) by (nonlinear_arith);
    assert(g == 2 * x0 + jj) by (nonlinear_arith)
        requires
            g == (2 * q + 1) * jj,
            x0 == q * jj,
    ;
    let nb = n * bb;
    assert(2 * n * bb == 2 * nb) by (nonlinear_arith)
        requires
            nb == n * bb,
    ;
    let dma = d * m * aa;
    assert(d * (2 * m) * aa == 2 * dma) by (nonlinear_arith)
        requires
            dma == d * m * aa,
    ;
    if 2 * r > jj {
        assert(d * (2 * m) * aa > d * g * aa) by (nonlinear_arith)
            requires
                2 * m > g,
                d > 0,
                aa > 0,
        ;
        cancel_lt(((2 * q + 1) * dd) as int, (2 * n) as int, bb as int);
    } else if 2 * r == jj {
        assert(2 * m == g);
        if sticky {
            cancel_lt(((2 * q + 1) * dd) as int, (2 * n) as int, bb as int);
        } else {
            cancel_le(((2 * q + 1) * dd) as int, (2 * n) as int, bb as int);
            cancel_le((2 * n) as int, ((2 * q + 1) * dd) as int, bb as int);
        }
    } else {
        if j > 0 {
            lemma_pow2_unfold(j);
            assert(2 * r + 2 <= jj);
            assert(d * (2 * (m + 1)) * aa <= d * g * aa) by (nonlinear_arith)
                requires
                    2 * (m + 1) <= g,
                    d >= 0,
                    aa >= 0,
            ;
            let dna = d * (m + 1) * aa;
            assert(d * (2 * (m + 1)) * aa == 2 * dna) by (nonlinear_arith)
                requires
                    dna == d * (m + 1) * aa,
            ;
            cancel_lt((2 * n) as int, ((2 * q + 1) * dd) as int, bb as int);
        } else {
            assert(d * (2 * m) * aa < d * g * aa) by (nonlinear_arith)
                requires
                    2 * m < g,
                    d > 0,
                    aa > 0,
            ;
            cancel_lt((2 * n) as int, ((2 * q + 1) * dd) as int, bb as int);
        }
    }
}

/// The rounded quotient from the leading bits, where all of them lie above the
/// spacing.
proof fn nearest_above(n: nat, d: nat, m: nat, a: nat, b: nat, k: nat, j: nat)
    requires
        d > 0,
        between(n, d, m, a, b, false),
        a == k + b + j,
    ensures
        nearest(n, d * pow2(k)) == m * pow2(j),
        m * pow2(j) * (d * pow2(k)) == n,
{
    let (aa, bb, kk, jj) = (pow2(a), pow2(b), pow2(k), pow2(j));
    lemma_pow2_pos(b);
    lemma_pow2_pos(k);
    lemma_pow2_adds(k, b);
    lemma_pow2_adds((k + b) as nat, j);
    let dd = d * kk;
    assert(dd > 0) by (nonlinear_arith)
        requires
            d > 0,
            kk > 0,
            dd == d * kk,
    ;
    assert(d * m * (kk * bb * jj) == (m * jj * (d * kk)) * bb) by (nonlinear_arith);
    cancel_le((m * jj * dd) as int, n as int, bb as int);
    cancel_le(n as int, (m * jj * dd) as int, bb as int);
    let q = m * jj;
    assert((q + 1) * dd == q * dd + dd) by (nonlinear_arith);
    nearest_is(n, dd, q);
}

/// The magnitude bits of the number that `m`, `a`, `b` and `sticky` describe.
pub fn pack(
    p: u32,
    m: u128,
    a: u32,
    b: u32,
    sticky: bool,
    Ghost(n): Ghost<nat>,
    Ghost(d): Ghost<nat>,
) -> (r: u64)
    requires
        is_prec(p as int),
        d > 0,
        m < 0x8000_0000_0000_0000_0000_0000_0000_0000,
        a <= 10_000,
        b <= 10_000,
        between(n, d, m as nat, a as nat, b as nat, sticky),
        sticky ==> m >= 4 * lead(p as int),
    ensures
        r == round_bits(n, d, p as int),
        r <= inf_bits(p as int),
{
    let (lead_w, inf): (u64, u64) = if p == 24 {
        (0x80_0000, 0x7f80_0000)
    } else {
        (0x10_0000_0000_0000, 0x7ff0_0000_0000_0000)
    };
    proof {
        lead_is_pow2(p as int);
        lemma2_to64();
        lemma_pow2_pos(a as nat);
        lemma_pow2_pos(b as nat);
    }
    if m == 0 {
        proof {
            assert(d * 0 * pow2(a as nat) == 0) by (nonlinear_arith);
            assert(n == 0) by (nonlinear_arith)
                requires
                    n * pow2(b as nat) == 0,
                    pow2(b as nat) > 0,
            ;
            assert(2 * lead(p as int) * d > 0) by (nonlinear_arith)
                requires
                    lead(p as int) > 0,
                    d > 0,
            ;
            nearest_is(0, d * pow2(0), 0);
        }
        return 0;
    }
    let len: u32 = bit_length(m);
    let k: u32 = if len + a > b + p {
        len + a - b - p
    } else {
        0
    };
    proof {
        spacing_from_length(
            n,
            d,
            p as int,
            m as nat,
            a as nat,
            b as nat,
            sticky,
            len as nat,
            k as nat,
        );
    }
    if k > 2100 {
        proof {
            let w = lead(p as int);
            assert(k * w >= 2100 * w) by (nonlinear_arith)
                requires
                    k >= 2100,
                    w >= 0,
            ;
        }
        return inf;
    }
    let mut q: u64 = 0;
    let mut up: u64 = 0;
    let ghost dk = d * pow2(k as nat);
    proof {
        lemma_pow2_pos(k as nat);
        assert(dk > 0) by (nonlinear_arith)
            requires
                d > 0,
                pow2(k as nat) > 0,
                dk == d * pow2(k as nat),
        ;
        assert(2 * lead(p as int) * d * pow2(k as nat) == 2 * lead(p as int) * dk)
            by (nonlinear_arith)
            requires
                dk == d * pow2(k as nat),
        ;
    }
    if k + b >= a {
        let j: u32 = k + b - a;
        proof {
            if sticky && len <= p + 1 {
                if len < p + 1 {
                    lemma_pow2_strictly_increases(len as nat, (p + 1) as nat);
                }
                lemma_pow2_unfold((p + 1) as nat);
            }
        }
        if j >= 128 {
            proof {
                lemma_pow2_adds(64, 64);
                lemma2_to64_rest();
                if j > 128 {
                    lemma_pow2_strictly_increases(128, j as nat);
                }
                nearest_below(
                    n,
                    d,
                    m as nat,
                    a as nat,
                    b as nat,
                    sticky,
                    k as nat,
                    j as nat,
                    0,
                    m as nat,
                );
            }
        } else {
            let jj: u128 = power_of_two(j);
            let q0: u128 = m / jj;
            let r0: u128 = m % jj;
            proof {
                lemma_fundamental_div_mod(m as int, jj as int);
                assert(m == q0 * pow2(j as nat) + r0) by {
                    lemma_mul_is_commutative(jj as int, q0 as int);
                }
                nearest_below(
                    n,
                    d,
                    m as nat,
                    a as nat,
                    b as nat,
                    sticky,
                    k as nat,
                    j as nat,
                    q0 as nat,
                    r0 as nat,
                );
                cancel_lt(q0 as int, (2 * lead(p as int)) as int, dk as int);
                lemma_pow2_adds(64, 63);
                lemma2_to64_rest();
                if j < 127 {
                    lemma_pow2_strictly_increases(j as nat, 127);
                }
            }
            q = q0 as u64;
            if r0 > jj - r0 || (r0 == jj - r0 && (sticky || q % 2 == 1)) {
                up = 1;
            }
        }
    } else {
        let j: u32 = a - k - b;
        proof {
            if sticky {
                if len < p + 1 {
                    lemma_pow2_strictly_increases(len as nat, (p + 1) as nat);
                }
                lemma_pow2_unfold((p + 1) as nat);
            }
            nearest_above(n, d, m as nat, a as nat, b as nat, k as nat, j as nat);
            let qq = m * pow2(j as nat);
            cancel_lt(qq as int, (2 * lead(p as int)) as int, dk as int);
            lemma_pow2_pos(j as nat);
            assert(pow2(j as nat) <= qq) by (nonlinear_arith)
                requires
                    qq == m * pow2(j as nat),
                    m >= 1,
            ;
            if j >= 54 {
                if j > 54 {
                    lemma_pow2_strictly_increases(54, j as nat);
                }
                lemma2_to64_rest();
            }
        }
        let jj: u128 = power_of_two(j);
        q = (m * jj) as u64;
    }
    proof {
        let w = lead(p as int);
        assert(k * w <= 2100 * w) by (nonlinear_arith)
            requires
                k <= 2100,
                w >= 0,
        ;
    }
    let bits: u64 = k as u64 * lead_w + q + up;
    if bits < inf {
        bits
    } else {
        inf
    }
}

} // verus!
