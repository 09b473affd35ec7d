//! What operations on numbers give, measured against exact arithmetic.

use crate::arith::{
    convert_spec, integer_spec, product_spec, quotient_spec, representable_rounds_to_itself, root, root_bounds,
    square_root_spec, sum_spec, units_increase, Raw, Whole,
};
use crate::num::{Double, Single};
use crate::rounding::{
    inf_bits, is_prec, lead, lead_is_pow2, nearest, round_bits, spacing, unit_exp, units,
};
use vstd::arithmetic::div_mod::*;
use vstd::arithmetic::power2::*;
use vstd::prelude::*;

verus! {

// ---------------------------------------------------------------------------
// Rounding
// ---------------------------------------------------------------------------

/// The spacing of the format around a fraction fits the fraction.
pub proof fn spacing_fits(n: nat, d: nat, p: int)
    requires
        is_prec(p),
        d > 0,
    ensures
        n < 2 * lead(p) * d * pow2(spacing(n, d, p)),
        spacing(n, d, p) > 0 ==> n >= lead(p) * d * pow2(spacing(n, d, p)),
    decreases n - d,
{
    lemma2_to64();
    let h = lead(p) as int;
    if n < 2 * lead(p) * d {
        assert(2 * h * d * 1 == 2 * h * d);
    } else {
        assert(2 * h * d >= 2 * d) by (nonlinear_arith)
            requires
                h >= 1,
        ;
        let k = spacing(n, 2 * d, p);
        spacing_fits(n, 2 * d, p);
        lemma_pow2_unfold(k + 1);
        let w = pow2(k) as int;
        assert(2 * h * (2 * d) * w == 2 * h * d * (2 * w)) by (nonlinear_arith);
        assert(h * (2 * d) * w == h * d * (2 * w)) by (nonlinear_arith);
        if k == 0 {
            assert(h * d * (2 * 1) == 2 * h * d) by (nonlinear_arith);
        }
    }
}

/// The magnitude with the spacing `2^k` and the significand `q`.
pub proof fn packed_units(k: nat, q: nat, p: int)
    requires
        is_prec(p),
        q <= 2 * lead(p),
        k > 0 ==> q >= lead(p),
    ensures
        units((k * lead(p) + q) as nat, p) == q * pow2(k),
{
    let h = lead(p) as int;
    let bits = k * h + q;
    lemma2_to64();
    if q < h {
        lemma_fundamental_div_mod_converse(bits, h, 0, q as int);
        assert(q * 1 == q);
    } else if q < 2 * h {
        assert(bits == (k + 1) * h + (q - h)) by (nonlinear_arith)
            requires
                bits == k * h + q,
        ;
        lemma_fundamental_div_mod_converse(bits, h, k as int + 1, q - h);
    } else {
        assert(bits == (k + 2) * h + 0) by (nonlinear_arith)
            requires
                bits == k * h + q,
                q == 2 * h,
        ;
        lemma_fundamental_div_mod_converse(bits, h, k as int + 2, 0);
        lemma_pow2_unfold(k + 1);
        let w = pow2(k) as int;
        assert((h + 0) * (2 * w) == (2 * h) * w) by (nonlinear_arith);
    }
}

/// Rounding a fraction moves it by at most half the spacing.
pub proof fn nearest_error(n: nat, d: nat)
    requires
        d > 0,
    ensures
        -d <= 2 * (nearest(n, d) * d - n) <= d,
{
    lemma_fundamental_div_mod(n as int, d as int);
    let q = n as int / d as int;
    assert(d * q == q * d && (q + 1) * d == q * d + d) by (nonlinear_arith);
}

/// The significand of a rounded fraction.
pub proof fn significand(n: nat, d: nat, p: int)
    requires
        is_prec(p),
        d > 0,
    ensures
        ({
            let k = spacing(n, d, p);
            let q = nearest(n, (d * pow2(k)) as nat);
            &&& q <= 2 * lead(p)
            &&& k > 0 ==> q >= lead(p)
            &&& units((k * lead(p) + q) as nat, p) == q * pow2(k)
            &&& d * pow2(k) > 0
        }),
{
    let h = lead(p) as int;
    let k = spacing(n, d, p);
    let w = pow2(k) as int;
    lemma_pow2_pos(k);
    spacing_fits(n, d, p);
    let g = d as int * w;
    assert(g > 0) by (nonlinear_arith)
        requires
            d > 0,
            w > 0,
            g == d as int * w,
    ;
    assert(2 * h * d * w == (2 * h) * g && h * d * w == h * g) by (nonlinear_arith)
        requires
            g == d as int * w,
    ;
    let q = nearest(n, g as nat) as int;
    nearest_error(n, g as nat);
    assert(q <= 2 * h) by (nonlinear_arith)
        requires
            2 * (q * g - n) <= g,
            n < (2 * h) * g,
            g > 0,
    ;
    if k > 0 {
        assert(q >= h) by (nonlinear_arith)
            requires
                -g <= 2 * (q * g - n),
                n >= h * g,
                g > 0,
        ;
    }
    packed_units(k, q as nat, p);
}

/// Of two fractions the greater one is not rounded to a smaller whole number.
proof fn nearest_grows(a: nat, b: nat, c: nat, d: nat)
    requires
        b > 0,
        d > 0,
        a * d <= c * b,
    ensures
        nearest(a, b) <= nearest(c, d),
{
    let (r, s) = (nearest(a, b) as int, nearest(c, d) as int);
    nearest_error(a, b);
    nearest_error(c, d);
    if r > s {
        // Both lie in the middle between two whole numbers, and each is rounded to an even one.
        assert((2 * r - 1) * b <= 2 * a && 2 * c <= (2 * s + 1) * d) by (nonlinear_arith)
            requires
                2 * (r * b - a) <= b,
                -d <= 2 * (s * d - c),
        ;
        let bd = b * d;
        assert(((2 * r - 1) * b) * d <= (2 * a) * d) by (nonlinear_arith)
            requires
                (2 * r - 1) * b <= 2 * a,
                d > 0,
        ;
        assert((2 * c) * b <= ((2 * s + 1) * d) * b) by (nonlinear_arith)
            requires
                2 * c <= (2 * s + 1) * d,
                b > 0,
        ;
        assert(((2 * r - 1) * b) * d == (2 * r - 1) * bd) by (nonlinear_arith)
            requires
                bd == b * d,
        ;
        assert(((2 * s + 1) * d) * b == (2 * s + 1) * bd) by (nonlinear_arith)
            requires
                bd == b * d,
        ;
        assert((2 * a) * d == 2 * (a * d) && (2 * c) * b == 2 * (c * b)) by (nonlinear_arith);
        assert(bd > 0) by (nonlinear_arith)
            requires
                b > 0,
                d > 0,
                bd == b * d,
        ;
        assert(2 * r - 1 <= 2 * s + 1) by (nonlinear_arith)
            requires
                (2 * r - 1) * bd <= (2 * s + 1) * bd,
                bd > 0,
        ;
        assert(r == s + 1);
        assert((2 * r - 1) * b == 2 * a) by (nonlinear_arith)
            requires
                (2 * r - 1) * b <= 2 * a,
                2 * (a * d) <= (2 * r - 1) * bd,
                bd == b * d,
                d > 0,
        ;
        assert((2 * s + 1) * d == 2 * c) by (nonlinear_arith)
            requires
                2 * c <= (2 * s + 1) * d,
                2 * (c * b) >= (2 * s + 1) * bd,
                bd == b * d,
                b > 0,
        ;
        in_the_middle(a, b, r - 1);
        in_the_middle(c, d, s);
    }
}

/// A fraction in the middle between two whole numbers is rounded to the even one.
proof fn in_the_middle(n: nat, d: nat, q: int)
    requires
        d > 0,
        q >= 0,
        2 * n == (2 * q + 1) * d,
    ensures
        nearest(n, d) % 2 == 0,
        nearest(n, d) == q || nearest(n, d) == q + 1,
{
    let r = n - q * d;
    assert(2 * r == d) by (nonlinear_arith)
        requires
            2 * n == (2 * q + 1) * d,
            r == n - q * d,
    ;
    lemma_fundamental_div_mod_converse(n as int, d as int, q, r);
}

/// Of two fractions the greater one is not rounded to a smaller magnitude.
pub proof fn round_grows(n: nat, d: nat, m: nat, e: nat, p: int)
    requires
        is_prec(p),
        d > 0,
        e > 0,
        n * e <= m * d,
    ensures
        round_bits(n, d, p) <= round_bits(m, e, p),
{
    let h = lead(p) as int;
    let (k, j) = (spacing(n, d, p), spacing(m, e, p));
    let (w, z) = (pow2(k) as int, pow2(j) as int);
    lemma_pow2_pos(k);
    lemma_pow2_pos(j);
    significand(n, d, p);
    significand(m, e, p);
    let (a, b) = (nearest(n, (d * w) as nat) as int, nearest(m, (e * z) as nat) as int);
    if k == j {
        assert(n * (e * w) <= m * (d * w)) by (nonlinear_arith)
            requires
                n * e <= m * d,
                w > 0,
        ;
        nearest_grows(n, (d * w) as nat, m, (e * z) as nat);
    } else if k < j {
        assert(k * h + 2 * h <= j * h + h) by (nonlinear_arith)
            requires
                k + 1 <= j,
                h >= 0,
        ;
    } else {
        spacing_fits(n, d, p);
        spacing_fits(m, e, p);
        lemma_pow2_unfold(k);
        let w1 = pow2((k - 1) as nat) as int;
        if j < k - 1 {
            lemma_pow2_strictly_increases(j, (k - 1) as nat);
        }
        assert(h * d * w * e <= n * e) by (nonlinear_arith)
            requires
                n >= h * d * w,
                e > 0,
        ;
        assert(m * d < 2 * h * e * z * d) by (nonlinear_arith)
            requires
                m < 2 * h * e * z,
                d > 0,
        ;
        assert(2 * h * e * z * d <= h * d * w * e) by (nonlinear_arith)
            requires
                2 * z <= w,
                h >= 0,
                d > 0,
                e > 0,
        ;
    }
}

/// A fraction with both sides multiplied is rounded to the same.
proof fn multiple_rounds_alike(n: nat, w: nat, p: int)
    requires
        is_prec(p),
        w > 0,
    ensures
        round_bits(n * w, w, p) == round_bits(n, 1, p),
{
    assert((n * w) * 1 == n * w && n * w == (n * w) * 1);
    round_grows(n * w, w, n, 1, p);
    round_grows(n, 1, n * w, w, p);
}

/// A fraction that is no more than a magnitude is rounded to no more than it.
pub proof fn round_at_most(n: nat, d: nat, m: nat, p: int)
    requires
        is_prec(p),
        d > 0,
        m < inf_bits(p),
        n <= units(m, p) * d,
    ensures
        round_bits(n, d, p) <= m,
{
    assert(n * 1 == n);
    round_grows(n, d, units(m, p), 1, p);
    representable_rounds_to_itself(m, p);
}

/// A fraction that is no less than a magnitude is rounded to no less than it.
pub proof fn round_at_least(n: nat, d: nat, m: nat, p: int)
    requires
        is_prec(p),
        d > 0,
        m < inf_bits(p),
        n >= units(m, p) * d,
    ensures
        round_bits(n, d, p) >= m,
{
    assert(n * 1 == n);
    round_grows(units(m, p), 1, n, d, p);
    representable_rounds_to_itself(m, p);
}

// ---------------------------------------------------------------------------
// Numbers that differ by a small part
// ---------------------------------------------------------------------------

/// Whether two numbers that are not negative differ by at most `k` parts in `b`.
pub open spec fn alike(x: int, y: int, k: int, b: int) -> bool {
    &&& 0 <= x
    &&& 0 <= y
    &&& x * b <= y * (b + k)
    &&& y * b <= x * (b + k)
}

/// What is alike to two things makes them alike.
pub proof fn alike_chain(x: int, y: int, z: int, k: int, j: int, b: int)
    requires
        alike(x, y, k, b),
        alike(y, z, j, b),
        0 <= k <= 1000,
        0 <= j <= 1000,
        b >= 1_000_000,
    ensures
        alike(x, z, k + j + 1, b),
{
    let s = b + k + j + 1;
    assert((b + k) * (b + j) <= b * s) by (nonlinear_arith)
        requires
            s == b + k + j + 1,
            0 <= k <= 1000,
            0 <= j <= 1000,
            b >= 1_000_000,
    ;
    one_way(x, y, z, b + k, b + j, b, s);
    assert((b + j) * (b + k) <= b * s) by (nonlinear_arith)
        requires
            (b + k) * (b + j) <= b * s,
    ;
    one_way(z, y, x, b + j, b + k, b, s);
}

proof fn one_way(x: int, y: int, z: int, p: int, q: int, b: int, s: int)
    requires
        x * b <= y * p,
        y * b <= z * q,
        p * q <= b * s,
        p >= 0,
        b > 0,
        z >= 0,
    ensures
        x * b <= z * s,
{
    assert((x * b) * b <= (y * p) * b) by (nonlinear_arith)
        requires
            x * b <= y * p,
            b > 0,
    ;
    assert((y * b) * p <= (z * q) * p) by (nonlinear_arith)
        requires
            y * b <= z * q,
            p >= 0,
    ;
    assert((y * p) * b == (y * b) * p && (z * q) * p == z * (p * q)) by (nonlinear_arith);
    assert(z * (p * q) <= z * (b * s)) by (nonlinear_arith)
        requires
            p * q <= b * s,
            z >= 0,
    ;
    assert(z * (b * s) == (z * s) * b) by (nonlinear_arith);
    assert(x * b <= z * s) by (nonlinear_arith)
        requires
            (x * b) * b <= (z * s) * b,
            b > 0,
    ;
}

/// Products of alike numbers with one number are alike.
pub proof fn alike_times(x: int, y: int, c: int, k: int, b: int)
    requires
        alike(x, y, k, b),
        c >= 0,
    ensures
        alike(x * c, y * c, k, b),
{
    assert((x * c) * b == (x * b) * c && (y * c) * b == (y * b) * c) by (nonlinear_arith);
    assert((x * c) * (b + k) == (x * (b + k)) * c && (y * c) * (b + k) == (y * (b + k)) * c)
        by (nonlinear_arith);
    assert((x * b) * c <= (y * (b + k)) * c && (y * b) * c <= (x * (b + k)) * c)
        by (nonlinear_arith)
        requires
            x * b <= y * (b + k),
            y * b <= x * (b + k),
            c >= 0,
    ;
    assert(x * c >= 0 && y * c >= 0) by (nonlinear_arith)
        requires
            x >= 0,
            y >= 0,
            c >= 0,
    ;
}

/// A common factor of alike numbers can be left out.
pub proof fn alike_cancel(x: int, y: int, c: int, k: int, b: int)
    requires
        alike(x * c, y * c, k, b),
        c > 0,
        x >= 0,
        y >= 0,
    ensures
        alike(x, y, k, b),
{
    assert((x * c) * b == (x * b) * c && (y * c) * b == (y * b) * c) by (nonlinear_arith);
    assert((x * c) * (b + k) == (x * (b + k)) * c && (y * c) * (b + k) == (y * (b + k)) * c)
        by (nonlinear_arith);
    assert(x * b <= y * (b + k) && y * b <= x * (b + k)) by (nonlinear_arith)
        requires
            (x * b) * c <= (y * (b + k)) * c,
            (y * b) * c <= (x * (b + k)) * c,
            c > 0,
    ;
}

/// Products of alike numbers are alike.
pub proof fn alike_product(x: int, y: int, k: int, z: int, w: int, j: int, b: int)
    requires
        alike(x, y, k, b),
        alike(z, w, j, b),
        0 <= k <= 1000,
        0 <= j <= 1000,
        b >= 1_000_000,
    ensures
        alike(x * z, y * w, k + j + 1, b),
{
    alike_times(x, y, z, k, b);
    alike_times(z, w, y, j, b);
    assert(z * y == y * z && w * y == y * w) by (nonlinear_arith);
    alike_chain(x * z, y * z, y * w, k, j, b);
}

/// Sums of alike numbers are alike.
pub proof fn alike_sum(x: int, y: int, z: int, w: int, k: int, b: int)
    requires
        alike(x, y, k, b),
        alike(z, w, k, b),
    ensures
        alike(x + z, y + w, k, b),
{
    assert((x + z) * b == x * b + z * b && (y + w) * b == y * b + w * b) by (nonlinear_arith);
    assert((x + z) * (b + k) == x * (b + k) + z * (b + k)) by (nonlinear_arith);
    assert((y + w) * (b + k) == y * (b + k) + w * (b + k)) by (nonlinear_arith);
}

/// Alike numbers are so to a larger part too.
pub proof fn alike_wider(x: int, y: int, k: int, j: int, b: int)
    requires
        alike(x, y, k, b),
        k <= j,
    ensures
        alike(x, y, j, b),
{
    assert(y * (b + k) <= y * (b + j) && x * (b + k) <= x * (b + j)) by (nonlinear_arith)
        requires
            k <= j,
            x >= 0,
            y >= 0,
    ;
}

/// A number is alike to itself.
pub proof fn alike_self(x: int, k: int, b: int)
    requires
        x >= 0,
        k >= 0,
    ensures
        alike(x, x, k, b),
{
    assert(x * b <= x * (b + k)) by (nonlinear_arith)
        requires
            x >= 0,
            k >= 0,
    ;
}

/// Alike numbers are at most twice as large as each other.
pub proof fn alike_bound(x: int, y: int, k: int, b: int)
    requires
        alike(x, y, k, b),
        0 <= k <= b,
        0 < b,
    ensures
        x <= 2 * y,
        y <= 2 * x,
{
    assert(x <= 2 * y && y <= 2 * x) by (nonlinear_arith)
        requires
            x * b <= y * (b + k),
            y * b <= x * (b + k),
            x >= 0,
            y >= 0,
            0 <= k <= b,
            0 < b,
    ;
}

/// The parts that a rounding of a number is measured in.
pub open spec fn parts(p: int) -> int {
    2 * lead(p) as int
}

/// The exponent of a bound far below the largest number.
pub open spec fn top(p: int) -> nat {
    if p == 24 {
        240
    } else {
        2000
    }
}

/// A fraction that is not too small, nor too large, is alike to what it is rounded to.
pub proof fn rounded_alike(n: nat, d: nat, p: int)
    requires
        is_prec(p),
        d > 0,
        n < d * pow2(top(p)),
        n == 0 || n >= lead(p) * d || d == 1,
    ensures
        round_bits(n, d, p) < inf_bits(p),
        alike(units(round_bits(n, d, p), p) as int * d as int, n as int, 2, parts(p)),
{
    let h = lead(p) as int;
    let k = spacing(n, d, p);
    let w = pow2(k) as int;
    lemma_pow2_pos(k);
    lemma2_to64();
    significand(n, d, p);
    spacing_fits(n, d, p);
    let g = d as int * w;
    let q = nearest(n, g as nat) as int;
    nearest_error(n, g as nat);
    assert(h * d * w == h * g) by (nonlinear_arith)
        requires
            g == d as int * w,
    ;
    let t = pow2(top(p)) as int;
    if k > top(p) {
        lemma_pow2_strictly_increases(top(p), k);
        assert(h * g >= d * t) by (nonlinear_arith)
            requires
                g == d as int * w,
                w > t,
                t >= 0,
                h >= 1,
                d > 0,
        ;
    }
    assert(k * h + 2 * h <= (top(p) + 2) * h) by (nonlinear_arith)
        requires
            k <= top(p),
            h >= 0,
    ;
    let a = (q * w) * d;
    assert(a == q * g) by (nonlinear_arith)
        requires
            a == (q * w) * d,
            g == d as int * w,
    ;
    let b = parts(p);
    if k == 0 && n < h * d {
        assert(g == d) by (nonlinear_arith)
            requires
                g == d as int * w,
                w == 1,
        ;
        if n == 0 {
            assert(nearest(0, g as nat) == 0);
            assert(a == 0) by (nonlinear_arith)
                requires
                    a == q * g,
                    q == 0,
            ;
        } else {
            assert(n % 1 == 0 && n / 1 == n);
            assert(a == n) by (nonlinear_arith)
                requires
                    a == q * g,
                    g == 1,
                    q == n,
            ;
        }
        alike_self(a, 2, b);
    } else {
        if k == 0 {
            assert(h * g == h * d) by (nonlinear_arith)
                requires
                    g == d as int * w,
                    w == 1,
            ;
        }
        assert(n >= h * g);
        // The error is at most half of `g`.
        assert(-n <= b * (a - n) <= n) by (nonlinear_arith)
            requires
                b == 2 * h,
                n >= h * g,
                -g <= 2 * (a - n) <= g,
                h >= 1,
        ;
        assert(b * (a - n) == a * b - n * b) by (nonlinear_arith);
        assert(n * (b + 2) == n * b + 2 * n && a * (b + 2) == a * b + 2 * a) by (nonlinear_arith);
        assert(2 * a >= n) by (nonlinear_arith)
            requires
                -n <= b * (a - n),
                b >= 2,
                n >= 0,
        ;
    }
}

// ---------------------------------------------------------------------------
// Operations
// ---------------------------------------------------------------------------

/// The number of units in one.
pub open spec fn one(p: int) -> int {
    pow2(unit_exp(p)) as int
}

/// The number of units in the size of a number.
pub open spec fn size(a: Raw, p: int) -> int {
    units(a.mag as nat, p) as int
}

/// The size of a whole number.
pub open spec fn abs(v: int) -> int {
    if v < 0 {
        -v
    } else {
        v
    }
}

/// Whether a fraction of units is neither too small nor too large to be rounded by a small part.
pub open spec fn is_ample(n: int, d: int, p: int) -> bool {
    &&& n < d * pow2(top(p))
    &&& n == 0 || n >= lead(p) * d
}

pub proof fn raw_product(a: Raw, b: Raw, p: int)
    requires
        is_prec(p),
        a.finite(p),
        b.finite(p),
        is_ample(size(a, p) * size(b, p), one(p), p),
    ensures
        ({
            let r = product_spec(a, b, p);
            &&& r.finite(p)
            &&& r.neg == (a.neg != b.neg)
            &&& alike(size(r, p) * one(p), size(a, p) * size(b, p), 2, parts(p))
        }),
{
    let n = size(a, p) * size(b, p);
    assert(n >= 0) by (nonlinear_arith)
        requires
            n == size(a, p) * size(b, p),
            size(a, p) >= 0,
            size(b, p) >= 0,
    ;
    lemma_pow2_pos(unit_exp(p));
    rounded_alike(n as nat, pow2(unit_exp(p)), p);
}

pub proof fn raw_quotient(a: Raw, b: Raw, p: int)
    requires
        is_prec(p),
        a.finite(p),
        b.finite(p),
        size(b, p) > 0,
        is_ample(size(a, p) * one(p), size(b, p), p),
    ensures
        ({
            let r = quotient_spec(a, b, p);
            &&& r.finite(p)
            &&& r.neg == (a.neg != b.neg)
            &&& alike(size(r, p) * size(b, p), size(a, p) * one(p), 2, parts(p))
        }),
{
    let n = size(a, p) * one(p);
    lemma_pow2_pos(unit_exp(p));
    assert(n >= 0) by (nonlinear_arith)
        requires
            n == size(a, p) * one(p),
            size(a, p) >= 0,
            one(p) > 0,
    ;
    assert(units(0, p) == 0);
    rounded_alike(n as nat, size(b, p) as nat, p);
}

pub proof fn raw_sum(a: Raw, b: Raw, p: int)
    requires
        is_prec(p),
        a.finite(p),
        b.finite(p),
        -(pow2(top(p)) as int) < a.value(p) + b.value(p) < pow2(top(p)),
    ensures
        ({
            let r = sum_spec(a, b, p);
            let v = a.value(p) + b.value(p);
            &&& r.finite(p)
            &&& v > 0 ==> !r.neg
            &&& v < 0 ==> r.neg
            &&& v == 0 ==> r.mag == 0
            &&& !a.neg && !b.neg ==> !r.neg
            &&& alike(size(r, p), abs(v), 2, parts(p))
        }),
{
    let v = a.value(p) + b.value(p);
    let n = abs(v) as nat;
    rounded_alike(n, 1, p);
    assert(units(0, p) == 0);
    alike_self(0, 2, parts(p));
}

pub proof fn raw_integer(v: int, p: int)
    requires
        is_prec(p),
        0 <= v < 0x1_0000_0000_0000_0000,
    ensures
        ({
            let r = integer_spec(v, p);
            &&& r.finite(p)
            &&& !r.neg
            &&& alike(size(r, p), v * one(p), 2, parts(p))
        }),
{
    let n = v * one(p);
    lemma_pow2_pos(unit_exp(p));
    lemma2_to64_rest();
    lemma_pow2_adds(64, unit_exp(p));
    lemma_pow2_strictly_increases((64 + unit_exp(p)) as nat, top(p));
    assert(0 <= n < 0x1_0000_0000_0000_0000 * one(p)) by (nonlinear_arith)
        requires
            n == v * one(p),
            0 <= v < 0x1_0000_0000_0000_0000,
            one(p) > 0,
    ;
    rounded_alike(n as nat, 1, p);
    assert(units(0, p) == 0);
    alike_self(0, 2, parts(p));
    if v > 0 {
        assert(n > 0) by (nonlinear_arith)
            requires
                n == v * one(p),
                v > 0,
                one(p) > 0,
        ;
    } else {
        assert(n == 0) by (nonlinear_arith)
            requires
                n == v * one(p),
                v == 0,
        ;
    }
}

/// A root cut off to a large whole number, with half a step where it is not whole, is alike to the
/// root.
proof fn cut_root(n: int, q: int, k: int, b: int)
    requires
        q * q <= n < (q + 1) * (q + 1),
        k == if q * q == n {
            2 * q
        } else {
            2 * q + 1
        },
        q >= 8 * b,
        b >= 1,
    ensures
        alike(k * k, 4 * n, 1, b),
{
    let s = q * q;
    assert((q + 1) * (q + 1) == s + 2 * q + 1) by (nonlinear_arith)
        requires
            s == q * q,
    ;
    assert(k * k == 4 * s || k * k == 4 * s + 4 * q + 1) by (nonlinear_arith)
        requires
            s == q * q,
            k == 2 * q || k == 2 * q + 1,
    ;
    if s == n {
        assert(k * k == 4 * s) by (nonlinear_arith)
            requires
                s == q * q,
                k == 2 * q,
        ;
        alike_self(4 * n, 1, b);
    } else {
        assert(k * k == 4 * s + 4 * q + 1) by (nonlinear_arith)
            requires
                s == q * q,
                k == 2 * q + 1,
        ;
        assert((4 * q + 4) * (8 * b) <= (4 * q + 4) * q) by (nonlinear_arith)
            requires
                8 * b <= q,
                q >= 0,
        ;
        assert((4 * q + 4) * q == 4 * s + 4 * q) by (nonlinear_arith)
            requires
                s == q * q,
        ;
        assert(q <= s) by (nonlinear_arith)
            requires
                s == q * q,
                q >= 1,
        ;
        assert((4 * q + 4) * (8 * b) == 8 * ((4 * q + 4) * b)) by (nonlinear_arith);
        let (x, y) = (k * k, 4 * n);
        assert((x - y) * b <= (4 * q + 4) * b && (y - x) * b <= (4 * q + 4) * b)
            by (nonlinear_arith)
            requires
                x - y <= 4 * q + 4,
                y - x <= 4 * q + 4,
                b >= 1,
        ;
        assert((x - y) * b == x * b - y * b && (y - x) * b == y * b - x * b) by (nonlinear_arith);
        assert(x * (b + 1) == x * b + x && y * (b + 1) == y * b + y) by (nonlinear_arith);
    }
}

pub proof fn raw_root(a: Raw, p: int)
    requires
        is_prec(p),
        !a.neg,
        0 < a.mag,
        a.finite(p),
        size(a, p) < pow2(top(p)),
    ensures
        ({
            let r = square_root_spec(a, p);
            &&& r.finite(p)
            &&& !r.neg
            &&& alike(size(r, p) * size(r, p), size(a, p) * one(p), 7, parts(p))
        }),
{
    let b = parts(p);
    let o = one(p);
    let n = size(a, p) * o;
    lemma_pow2_pos(unit_exp(p));
    units_increase(0, a.mag as nat, p);
    assert(units(0, p) == 0);
    assert(n >= o) by (nonlinear_arith)
        requires
            n == size(a, p) * o,
            size(a, p) >= 1,
            o > 0,
    ;
    let q = root(n as nat) as int;
    root_bounds(n as nat);
    // The root has many more digits than the format keeps.
    let m: nat = if p == 24 {
        74
    } else {
        537
    };
    lemma_pow2_pos(m);
    lemma_pow2_adds(m, m);
    let g = pow2(m) as int;
    assert(g * g <= o) by {
        if p == 24 {
            lemma_pow2_strictly_increases(148, 149);
        }
    }
    if q < g {
        assert((q + 1) * (q + 1) <= g * g) by (nonlinear_arith)
            requires
                0 <= q,
                q + 1 <= g,
        ;
    }
    assert(g >= 8 * b && b >= 1_000_000) by {
        lemma2_to64();
        lemma2_to64_rest();
        lemma_pow2_strictly_increases(60, m);
    }
    let k = if q * q == n {
        2 * q
    } else {
        2 * q + 1
    };
    cut_root(n, q, k, b);
    // It is not too large either.
    let t = pow2(top(p)) as int;
    lemma_pow2_strictly_increases(unit_exp(p), top(p));
    if q >= t {
        assert(q * q >= t * t) by (nonlinear_arith)
            requires
                q >= t,
                t >= 0,
        ;
        assert(n < t * t) by (nonlinear_arith)
            requires
                n == size(a, p) * o,
                0 <= size(a, p) < t,
                0 < o <= t,
        ;
    }
    assert(k < 2 * t);
    let h = lead(p) as int;
    assert(k >= h * 2);
    rounded_alike(k as nat, 2, p);
    let r = square_root_spec(a, p);
    let s = size(r, p);
    alike_product(s * 2, k, 2, s * 2, k, 2, b);
    alike_chain((s * 2) * (s * 2), k * k, 4 * n, 5, 1, b);
    assert((s * 2) * (s * 2) == (s * s) * 4) by (nonlinear_arith);
    assert(4 * n == n * 4);
    assert(s * s >= 0) by (nonlinear_arith);
    alike_cancel(s * s, n, 4, 7, b);
}

/// A whole number that the format holds is kept exactly.
pub proof fn raw_exact_integer(v: int, p: int)
    requires
        is_prec(p),
        -parts(p) <= v <= parts(p),
    ensures
        ({
            let r = integer_spec(v, p);
            &&& r.finite(p)
            &&& r.neg == (v < 0)
            &&& size(r, p) == abs(v) * one(p)
        }),
{
    let o = one(p);
    lemma_pow2_pos(unit_exp(p));
    let n = abs(v) * o;
    assert(n >= 0) by (nonlinear_arith)
        requires
            n == abs(v) * o,
            abs(v) >= 0,
            o > 0,
    ;
    if v < 0 {
        assert(-(v * o) == n) by (nonlinear_arith)
            requires
                n == (-v) * o,
        ;
        assert(n > 0) by (nonlinear_arith)
            requires
                n == (-v) * o,
                -v > 0,
                o > 0,
        ;
    } else if v > 0 {
        assert(n > 0) by (nonlinear_arith)
            requires
                n == v * o,
                v > 0,
                o > 0,
        ;
    } else {
        assert(n == 0) by (nonlinear_arith)
            requires
                n == v * o,
                v == 0,
        ;
    }
    multiple_of_units(abs(v) as nat, unit_exp(p), p);
    assert(units(0, p) == 0);
}

/// A number of few digits, with zeros behind them, is kept exactly.
#[verifier::spinoff_prover]
pub proof fn multiple_of_units(m: nat, j: nat, p: int)
    requires
        is_prec(p),
        m <= parts(p),
        j <= top(p) - 60,
    ensures
        round_bits(m * pow2(j), 1, p) < inf_bits(p),
        units(round_bits(m * pow2(j), 1, p), p) == m * pow2(j),
{
    let h = lead(p) as int;
    let w = pow2(j) as int;
    lemma_pow2_pos(j);
    let n = m * pow2(j);
    let k = spacing(n, 1, p);
    let z = pow2(k) as int;
    lemma_pow2_pos(k);
    lemma2_to64();
    spacing_fits(n, 1, p);
    assert(h * 1 * z == h * z);
    assert(n <= 2 * h * w) by (nonlinear_arith)
        requires
            n == m * w,
            m <= 2 * h,
            w > 0,
    ;
    if k > j + 1 {
        lemma_pow2_unfold((j + 1) as nat);
        lemma_pow2_strictly_increases((j + 1) as nat, k);
        assert(h * z > 2 * h * w) by (nonlinear_arith)
            requires
                z > 2 * w,
                h > 0,
        ;
    }
    // The spacing divides the number.
    let q: int = if k <= j {
        lemma_pow2_adds(k, (j - k) as nat);
        let c = pow2((j - k) as nat) as int;
        assert(n == (m * c) * z) by (nonlinear_arith)
            requires
                n == m * w,
                w == z * c,
        ;
        m * c
    } else {
        lemma_pow2_unfold((j + 1) as nat);
        assert(m == 2 * h) by (nonlinear_arith)
            requires
                n == m * w,
                n >= h * z,
                z == 2 * w,
                w > 0,
                m <= 2 * h,
        ;
        assert(n == h * z) by (nonlinear_arith)
            requires
                n == m * w,
                z == 2 * w,
                m == 2 * h,
        ;
        h
    };
    assert(q >= 0) by (nonlinear_arith)
        requires
            n == q * z,
            z > 0,
            n >= 0,
    ;
    lemma_fundamental_div_mod_converse(n as int, z, q, 0);
    assert(1 * pow2(k) == pow2(k));
    assert(nearest(n, 1 * pow2(k)) == q);
    significand(n, 1, p);
    packed_units(k, q as nat, p);
    assert(k * h + 2 * h <= (j + 3) * h) by (nonlinear_arith)
        requires
            k <= j + 1,
            h >= 0,
    ;
    assert((j + 3) * h <= (top(p) - 50) * h) by (nonlinear_arith)
        requires
            j + 3 <= top(p) - 50,
            h >= 0,
    ;
    assert((top(p) - 50) * h < inf_bits(p));
    assert(round_bits(n, 1, p) == k * lead(p) + q);
}

/// The size of a number by its bits.
pub proof fn size_by_bits(m: nat, e: nat, f: nat, p: int)
    requires
        is_prec(p),
        e > 0,
        f < lead(p),
        m == e * lead(p) + f,
    ensures
        units(m, p) == (lead(p) + f) * pow2((e - 1) as nat),
{
    lemma_fundamental_div_mod_converse(m as int, lead(p) as int, e as int, f as int);
}

/// The bounds of a number by its bits.
pub proof fn bounds_by_bits(m: nat, e: nat, p: int)
    requires
        is_prec(p),
        m < inf_bits(p),
    ensures
        e > 0 && m >= e * lead(p) && e * lead(p) < inf_bits(p) ==> units(m, p) >= lead(p) * pow2(
            (e - 1) as nat,
        ),
        e > 0 && m <= e * lead(p) && e * lead(p) < inf_bits(p) ==> units(m, p) <= lead(p) * pow2(
            (e - 1) as nat,
        ),
{
    let c = (e * lead(p)) as nat;
    if e > 0 && c < inf_bits(p) {
        size_by_bits(c, e, 0, p);
        if m > c {
            units_increase(c, m, p);
        } else if m < c {
            units_increase(m, c, p);
        }
    }
}

// ---------------------------------------------------------------------------
// Ranges
// ---------------------------------------------------------------------------

/// Whether a number lies between two powers of two.
pub open spec fn in_range(x: int, lo: int, hi: int) -> bool {
    &&& 0 <= lo
    &&& 0 <= hi
    &&& pow2(lo as nat) <= x <= pow2(hi as nat)
}

/// Powers of two stand in the order of their exponents.
pub proof fn powers_grow(a: int, b: int)
    requires
        0 <= a <= b,
    ensures
        pow2(a as nat) <= pow2(b as nat),
        pow2(a as nat) > 0,
{
    lemma_pow2_pos(a as nat);
    if a < b {
        lemma_pow2_strictly_increases(a as nat, b as nat);
    }
}

/// A product of numbers between powers of two.
pub proof fn range_product(x: int, y: int, a: int, b: int, c: int, d: int)
    requires
        in_range(x, a, b),
        in_range(y, c, d),
    ensures
        in_range(x * y, a + c, b + d),
{
    lemma_pow2_adds(a as nat, c as nat);
    lemma_pow2_adds(b as nat, d as nat);
    lemma_pow2_pos(a as nat);
    lemma_pow2_pos(c as nat);
    let (p, q, r, s) = (
        pow2(a as nat) as int,
        pow2(b as nat) as int,
        pow2(c as nat) as int,
        pow2(d as nat) as int,
    );
    assert(p * r <= x * y <= q * s) by (nonlinear_arith)
        requires
            0 < p <= x <= q,
            0 < r <= y <= s,
    ;
}

/// A number by a product that is alike to one between powers of two.
pub proof fn range_quotient(z: int, y: int, n: int, lo: int, hi: int, c: int, d: int, k: int, b: int)
    requires
        alike(z * y, n, k, b),
        0 <= k <= b,
        0 < b,
        in_range(n, lo, hi),
        in_range(y, c, d),
        d < lo,
        c <= hi,
        z >= 0,
    ensures
        in_range(z, lo - d - 1, hi - c + 1),
{
    let m = z * y;
    assert(m <= 2 * n && n <= 2 * m) by (nonlinear_arith)
        requires
            m * b <= n * (b + k),
            n * b <= m * (b + k),
            m >= 0,
            n >= 0,
            0 <= k <= b,
            0 < b,
    ;
    let (p, q) = (pow2(c as nat) as int, pow2(d as nat) as int);
    powers_grow(c, c);
    let u = pow2((lo - d - 1) as nat) as int;
    let v = pow2((hi - c + 1) as nat) as int;
    lemma_pow2_adds((lo - d - 1) as nat, (d + 1) as nat);
    lemma_pow2_adds((hi - c + 1) as nat, c as nat);
    lemma_pow2_unfold((d + 1) as nat);
    lemma_pow2_unfold((hi + 1) as nat);
    lemma_pow2_pos((lo - d - 1) as nat);
    assert(u * (2 * q) == pow2(lo as nat));
    assert(v * p == 2 * pow2(hi as nat));
    assert(z >= u) by (nonlinear_arith)
        requires
            u * (2 * q) <= n,
            n <= 2 * (z * y),
            y <= q,
            z >= 0,
            q > 0,
    ;
    assert(z * p <= z * y) by (nonlinear_arith)
        requires
            p <= y,
            z >= 0,
    ;
    assert(z <= v) by (nonlinear_arith)
        requires
            z * p <= v * p,
            p > 0,
    ;
}

/// When a fraction can be rounded by a small part.
pub proof fn range_ample(n: int, d: int, lo: int, hi: int, c: int, e: int, p: int)
    requires
        is_prec(p),
        in_range(n, lo, hi),
        in_range(d, c, e),
        lo >= e + p - 1,
        hi < c + top(p),
    ensures
        is_ample(n, d, p),
{
    lemma2_to64();
    lead_is_pow2(p);
    lemma_pow2_adds((p - 1) as nat, e as nat);
    lemma_pow2_adds(c as nat, top(p));
    powers_grow(e + p - 1, lo);
    lemma_pow2_strictly_increases(hi as nat, (c + top(p)) as nat);
    let (h, q, r, t) = (
        lead(p) as int,
        pow2(e as nat) as int,
        pow2(c as nat) as int,
        pow2(top(p)) as int,
    );
    lemma_pow2_pos(top(p));
    assert(h * d <= h * q) by (nonlinear_arith)
        requires
            d <= q,
            h > 0,
    ;
    assert(r * t <= d * t) by (nonlinear_arith)
        requires
            r <= d,
            t > 0,
    ;
}

/// A number whose square is alike to one between powers of two.
pub proof fn range_root(d: int, m: int, lo: int, hi: int, k: int, b: int)
    requires
        alike(d * d, m, k, b),
        0 <= k <= b,
        0 < b,
        1 <= lo,
        in_range(m, 2 * lo, 2 * hi),
        d >= 0,
    ensures
        in_range(d, lo - 1, hi + 1),
{
    let s = d * d;
    assert(s <= 2 * m && m <= 2 * s) by (nonlinear_arith)
        requires
            s * b <= m * (b + k),
            m * b <= s * (b + k),
            s >= 0,
            m >= 0,
            0 <= k <= b,
            0 < b,
    ;
    lemma_pow2_adds(lo as nat, lo as nat);
    lemma_pow2_adds(hi as nat, hi as nat);
    lemma_pow2_unfold(lo as nat);
    lemma_pow2_unfold((hi + 1) as nat);
    let (p, q) = (pow2((lo - 1) as nat) as int, pow2(hi as nat) as int);
    powers_grow(lo - 1, lo - 1);
    powers_grow(hi, hi);
    assert(pow2((2 * lo) as nat) == 4 * (p * p)) by (nonlinear_arith)
        requires
            pow2((2 * lo) as nat) == pow2(lo as nat) * pow2(lo as nat),
            pow2(lo as nat) == 2 * p,
    ;
    if d < p {
        assert(d * d <= p * p) by (nonlinear_arith)
            requires
                0 <= d < p,
        ;
        assert(p * p > 0) by (nonlinear_arith)
            requires
                p > 0,
        ;
    }
    if d > 2 * q {
        assert(d * d >= (2 * q) * (2 * q)) by (nonlinear_arith)
            requires
                d > 2 * q,
                q > 0,
        ;
        assert((2 * q) * (2 * q) == 4 * (q * q)) by (nonlinear_arith);
        assert(q * q > 0) by (nonlinear_arith)
            requires
                q > 0,
        ;
    }
}

/// Only nothing is alike to nothing.
pub proof fn alike_nothing(x: int, k: int, b: int)
    requires
        alike(x, 0, k, b) || alike(0, x, k, b),
        b > 0,
    ensures
        x == 0,
{
    assert(0 * (b + k) == 0 && 0 * b == 0) by (nonlinear_arith);
    assert(x == 0) by (nonlinear_arith)
        requires
            x * b <= 0,
            x >= 0,
            b > 0,
    ;
}

/// Nothing can always be rounded.
pub proof fn nothing_is_ample(d: int, p: int)
    requires
        d > 0,
    ensures
        is_ample(0, d, p),
{
    lemma_pow2_pos(top(p));
    assert(d * pow2(top(p)) > 0) by (nonlinear_arith)
        requires
            d > 0,
            pow2(top(p)) > 0,
    ;
}

// ---------------------------------------------------------------------------
// Errors of bounded numbers
// ---------------------------------------------------------------------------

/// The largest error of a rounded number up to `2^m`, in units.
pub open spec fn spot(m: int, p: int) -> int {
    pow2((m + unit_exp(p) - p) as nat) as int
}

/// A bounded fraction is rounded with a bounded error.
pub proof fn rounded_within(n: nat, d: nat, m: int, p: int)
    requires
        is_prec(p),
        d > 0,
        0 <= m <= 60,
        n <= pow2(m as nat) * one(p) * d,
    ensures
        round_bits(n, d, p) < inf_bits(p),
        ({
            let u = units(round_bits(n, d, p), p) as int;
            -(d * spot(m, p)) <= u * d - n <= d * spot(m, p)
        }),
{
    let h = lead(p) as int;
    let k = spacing(n, d, p);
    let w = pow2(k) as int;
    lemma_pow2_pos(k);
    lemma2_to64();
    lead_is_pow2(p);
    significand(n, d, p);
    spacing_fits(n, d, p);
    let g = d as int * w;
    let q = nearest(n, g as nat) as int;
    nearest_error(n, g as nat);
    assert(h * d * w == h * g) by (nonlinear_arith)
        requires
            g == d as int * w,
    ;
    assert((q * w) * d == q * g) by (nonlinear_arith)
        requires
            g == d as int * w,
    ;
    let e = spot(m, p);
    lemma_pow2_pos((m + unit_exp(p) - p) as nat);
    lemma_pow2_adds((m + unit_exp(p) - p) as nat, p as nat);
    lemma_pow2_adds(m as nat, unit_exp(p));
    let t = pow2((m + unit_exp(p)) as nat) as int;
    assert(t == 2 * h * e) by (nonlinear_arith)
        requires
            t == e * pow2(p as nat),
            pow2(p as nat) == 2 * h,
    ;
    assert(n <= t * d);
    assert(g <= 2 * (d * e)) by {
        if k == 0 {
            assert(g <= d * e) by (nonlinear_arith)
                requires
                    g == d as int * w,
                    w == 1,
                    e >= 1,
                    d > 0,
            ;
            assert(d * e >= 0) by (nonlinear_arith)
                requires
                    d >= 0,
                    e >= 0,
            ;
        } else {
            assert(h * g <= h * (2 * (d * e))) by (nonlinear_arith)
                requires
                    h * g <= n,
                    n <= t * d,
                    t == 2 * h * e,
            ;
            assert(g <= 2 * (d * e)) by (nonlinear_arith)
                requires
                    h * g <= h * (2 * (d * e)),
                    h > 0,
            ;
        }
    }
    let z = (m + unit_exp(p)) as nat;
    if k > z {
        lemma_pow2_strictly_increases(z, k);
        assert(h * g > t * d) by (nonlinear_arith)
            requires
                g == d as int * w,
                w > t,
                t >= 0,
                h >= 1,
                d > 0,
        ;
    }
    assert(k * h + 2 * h <= (z + 2) * h) by (nonlinear_arith)
        requires
            k <= z,
            h >= 0,
    ;
    assert((z + 2) * h <= (unit_exp(p) + 62) * h) by (nonlinear_arith)
        requires
            z <= unit_exp(p) + 60,
            h >= 0,
    ;
}

/// A product of bounded numbers.
pub proof fn raw_product_within(a: Raw, b: Raw, m: int, p: int)
    requires
        is_prec(p),
        a.finite(p),
        b.finite(p),
        0 <= m <= 60,
        abs(a.value(p) * b.value(p)) <= pow2(m as nat) * one(p) * one(p),
    ensures
        ({
            let r = product_spec(a, b, p);
            let z = a.value(p) * b.value(p);
            &&& r.finite(p)
            &&& -(one(p) * spot(m, p)) <= r.value(p) * one(p) - z <= one(p) * spot(m, p)
        }),
{
    let (x, y) = (size(a, p), size(b, p));
    let n = x * y;
    let o = one(p);
    lemma_pow2_pos(unit_exp(p));
    assert(n >= 0) by (nonlinear_arith)
        requires
            n == x * y,
            x >= 0,
            y >= 0,
    ;
    assert((-x) * y == -n && x * (-y) == -n && (-x) * (-y) == n) by (nonlinear_arith)
        requires
            n == x * y,
    ;
    rounded_within(n as nat, o as nat, m, p);
    let r = product_spec(a, b, p);
    let u = size(r, p);
    assert((-u) * o == -(u * o)) by (nonlinear_arith);
}

/// A quotient of bounded numbers by a positive one.
pub proof fn raw_quotient_within(a: Raw, b: Raw, m: int, p: int)
    requires
        is_prec(p),
        a.finite(p),
        b.finite(p),
        b.value(p) > 0,
        0 <= m <= 60,
        abs(a.value(p)) <= pow2(m as nat) * b.value(p),
    ensures
        ({
            let r = quotient_spec(a, b, p);
            let (x, y) = (a.value(p), b.value(p));
            &&& r.finite(p)
            &&& -(y * spot(m, p)) <= r.value(p) * y - x * one(p) <= y * spot(m, p)
        }),
{
    let (x, y) = (size(a, p), size(b, p));
    let o = one(p);
    let n = x * o;
    lemma_pow2_pos(unit_exp(p));
    assert(n >= 0) by (nonlinear_arith)
        requires
            n == x * o,
            x >= 0,
            o >= 0,
    ;
    let t = pow2(m as nat) as int;
    assert(n <= t * o * y) by (nonlinear_arith)
        requires
            n == x * o,
            x <= t * y,
            o > 0,
    ;
    assert((-x) * o == -n) by (nonlinear_arith)
        requires
            n == x * o,
    ;
    assert(units(0, p) == 0);
    rounded_within(n as nat, y as nat, m, p);
    let r = quotient_spec(a, b, p);
    let u = size(r, p);
    assert((-u) * y == -(u * y)) by (nonlinear_arith);
}

/// A sum of bounded numbers.
pub proof fn raw_sum_within(a: Raw, b: Raw, m: int, p: int)
    requires
        is_prec(p),
        a.finite(p),
        b.finite(p),
        0 <= m <= 60,
        abs(a.value(p) + b.value(p)) <= pow2(m as nat) * one(p),
    ensures
        ({
            let r = sum_spec(a, b, p);
            let z = a.value(p) + b.value(p);
            &&& r.finite(p)
            &&& -spot(m, p) <= r.value(p) - z <= spot(m, p)
        }),
{
    let z = a.value(p) + b.value(p);
    let n = abs(z) as nat;
    assert(pow2(m as nat) * one(p) * 1 == pow2(m as nat) * one(p));
    rounded_within(n, 1, m, p);
    assert(units(0, p) == 0);
    lemma_pow2_pos((m + unit_exp(p) - p) as nat);
}

// ---------------------------------------------------------------------------
// Whole numbers
// ---------------------------------------------------------------------------

/// Whether a number is the whole number `n`.
pub open spec fn is_whole(a: Raw, n: int, p: int) -> bool {
    &&& a.finite(p)
    &&& a.value(p) == n * one(p)
}

/// A fraction that is a whole number the format holds is kept exactly.
proof fn whole_rounds(n: nat, d: nat, v: nat, p: int)
    requires
        is_prec(p),
        d > 0,
        v <= parts(p),
        n == v * one(p) * d,
    ensures
        round_bits(n, d, p) < inf_bits(p),
        units(round_bits(n, d, p), p) == v * one(p),
{
    let m = (v * one(p)) as nat;
    lemma_pow2_pos(unit_exp(p));
    assert(v * one(p) >= 0) by (nonlinear_arith)
        requires
            v >= 0,
            one(p) > 0,
    ;
    assert(n * 1 == m * d && m * d == n * 1);
    round_grows(n, d, m, 1, p);
    round_grows(m, 1, n, d, p);
    multiple_of_units(v, unit_exp(p), p);
}

/// The sign and size of a whole number.
proof fn whole_size(a: Raw, n: int, p: int)
    requires
        is_prec(p),
        is_whole(a, n, p),
    ensures
        size(a, p) == abs(n) * one(p),
        n < 0 ==> a.neg,
        n > 0 ==> !a.neg,
{
    let o = one(p);
    lemma_pow2_pos(unit_exp(p));
    if n < 0 {
        assert(n * o < 0) by (nonlinear_arith)
            requires
                n < 0,
                o > 0,
        ;
        assert((-n) * o == -(n * o)) by (nonlinear_arith);
    } else if n > 0 {
        assert(n * o > 0) by (nonlinear_arith)
            requires
                n > 0,
                o > 0,
        ;
    } else {
        assert(0 * o == 0) by (nonlinear_arith);
    }
}

/// What a size and a sign stand for.
proof fn signed_size(r: Raw, n: int, p: int)
    requires
        is_prec(p),
        r.finite(p),
        size(r, p) == abs(n) * one(p),
        n < 0 ==> r.neg,
        n > 0 ==> !r.neg,
    ensures
        is_whole(r, n, p),
{
    let o = one(p);
    assert((-n) * o == -(n * o)) by (nonlinear_arith);
    if n == 0 {
        assert(0 * o == 0) by (nonlinear_arith);
    }
}

pub proof fn raw_whole_sum(a: Raw, b: Raw, m: int, n: int, p: int)
    requires
        is_prec(p),
        is_whole(a, m, p),
        is_whole(b, n, p),
        -parts(p) <= m + n <= parts(p),
    ensures
        is_whole(sum_spec(a, b, p), m + n, p),
{
    let o = one(p);
    let z = m + n;
    lemma_pow2_pos(unit_exp(p));
    assert(z * o == m * o + n * o) by (nonlinear_arith)
        requires
            z == m + n,
    ;
    assert(units(0, p) == 0);
    assert((-z) * o == -(z * o)) by (nonlinear_arith);
    if z < 0 {
        assert(z * o < 0) by (nonlinear_arith)
            requires
                z < 0,
                o > 0,
        ;
    } else {
        assert(z * o >= 0) by (nonlinear_arith)
            requires
                z >= 0,
                o > 0,
        ;
    }
    assert(abs(z) * o == abs(z * o));
    if z == 0 {
        assert(0 * o == 0) by (nonlinear_arith);
    } else {
        let k = abs(z) * o;
        assert(k * 1 == k);
        whole_rounds(k as nat, 1, abs(z) as nat, p);
        if z > 0 {
            assert(z * o > 0) by (nonlinear_arith)
                requires
                    z > 0,
                    o > 0,
            ;
        } else {
            assert(z * o < 0) by (nonlinear_arith)
                requires
                    z < 0,
                    o > 0,
            ;
        }
    }
    signed_size(sum_spec(a, b, p), z, p);
}

pub proof fn raw_whole_product(a: Raw, b: Raw, m: int, n: int, p: int)
    requires
        is_prec(p),
        is_whole(a, m, p),
        is_whole(b, n, p),
        -parts(p) <= m * n <= parts(p),
    ensures
        is_whole(product_spec(a, b, p), m * n, p),
{
    let o = one(p);
    lemma_pow2_pos(unit_exp(p));
    whole_size(a, m, p);
    whole_size(b, n, p);
    let v = abs(m) * abs(n);
    assert(v == abs(m * n) && (m * n < 0 ==> m < 0 && n > 0 || m > 0 && n < 0) && (m * n > 0 ==> m
        < 0 && n < 0 || m > 0 && n > 0)) by (nonlinear_arith)
        requires
            v == abs(m) * abs(n),
            abs(m) == m && m >= 0 || abs(m) == -m && m <= 0,
            abs(n) == n && n >= 0 || abs(n) == -n && n <= 0,
            abs(m * n) == m * n && m * n >= 0 || abs(m * n) == -(m * n) && m * n <= 0,
    ;
    let k = size(a, p) * size(b, p);
    assert(k == v * o * o) by (nonlinear_arith)
        requires
            k == (abs(m) * o) * (abs(n) * o),
            v == abs(m) * abs(n),
    ;
    assert(k >= 0) by (nonlinear_arith)
        requires
            k == v * o * o,
            v >= 0,
            o > 0,
    ;
    whole_rounds(k as nat, o as nat, v as nat, p);
    signed_size(product_spec(a, b, p), m * n, p);
}

pub proof fn raw_whole_quotient(a: Raw, b: Raw, m: int, n: int, p: int)
    requires
        is_prec(p),
        is_whole(a, m * n, p),
        is_whole(b, n, p),
        n > 0,
        -parts(p) <= m <= parts(p),
    ensures
        is_whole(quotient_spec(a, b, p), m, p),
{
    let o = one(p);
    lemma_pow2_pos(unit_exp(p));
    whole_size(a, m * n, p);
    whole_size(b, n, p);
    assert(abs(m * n) == abs(m) * n && (m < 0 ==> m * n < 0) && (m > 0 ==> m * n > 0))
        by (nonlinear_arith)
        requires
            n > 0,
            abs(m) == m && m >= 0 || abs(m) == -m && m <= 0,
            abs(m * n) == m * n && m * n >= 0 || abs(m * n) == -(m * n) && m * n <= 0,
    ;
    let v = abs(m);
    let k = size(a, p) * o;
    let d = size(b, p);
    assert(k == v * o * d) by (nonlinear_arith)
        requires
            k == ((v * n) * o) * o,
            d == n * o,
    ;
    assert(d > 0) by (nonlinear_arith)
        requires
            d == n * o,
            n > 0,
            o > 0,
    ;
    assert(k >= 0) by (nonlinear_arith)
        requires
            k == v * o * d,
            v >= 0,
            o > 0,
            d > 0,
    ;
    assert(units(0, p) == 0);
    whole_rounds(k as nat, d as nat, v as nat, p);
    signed_size(quotient_spec(a, b, p), m, p);
}

pub proof fn raw_whole_convert(a: Raw, n: int, p: int, q: int)
    requires
        is_prec(p),
        is_prec(q),
        is_whole(a, n, p),
        -parts(q) <= n <= parts(q),
    ensures
        is_whole(convert_spec(a, p, q), n, q),
{
    let (o, w) = (one(p), one(q));
    lemma_pow2_pos(unit_exp(p));
    lemma_pow2_pos(unit_exp(q));
    whole_size(a, n, p);
    let v = abs(n);
    let k = size(a, p) * w;
    assert(k == v * w * o) by (nonlinear_arith)
        requires
            k == (v * o) * w,
    ;
    assert(k >= 0) by (nonlinear_arith)
        requires
            k == v * w * o,
            v >= 0,
            o > 0,
            w > 0,
    ;
    whole_rounds(k as nat, o as nat, v as nat, q);
    signed_size(convert_spec(a, p, q), n, q);
}

pub proof fn raw_whole_cut(a: Raw, n: int, how: Whole, p: int)
    requires
        is_prec(p),
        is_whole(a, n, p),
    ensures
        crate::arith::whole_spec(a, how, p) == n,
{
    let o = one(p);
    lemma_pow2_pos(unit_exp(p));
    whole_size(a, n, p);
    let k = size(a, p);
    lemma_fundamental_div_mod_converse(k, o, abs(n), 0);
    if n == 0 {
        assert(0 * o == 0) by (nonlinear_arith);
    }
}

// ---------------------------------------------------------------------------
// Numbers of single precision
// ---------------------------------------------------------------------------

/// The number of units in the size of a number.
pub open spec fn coarse(x: Single) -> int {
    size(x.raw(), 24)
}

/// A product is alike to the product of the sizes.
pub proof fn coarse_times(x: Single, y: Single)
    requires
        x.is_finite(),
        y.is_finite(),
        is_ample(coarse(x) * coarse(y), one(24), 24),
    ensures
        x.times(y).is_finite(),
        x.times(y).raw().neg == (x.raw().neg != y.raw().neg),
        alike(coarse(x.times(y)) * one(24), coarse(x) * coarse(y), 2, parts(24)),
{
    reveal(Single::times_spec);
    raw_product(x.raw(), y.raw(), 24);
    coarse_of(product_spec(x.raw(), y.raw(), 24));
}

/// A quotient is alike to the quotient of the sizes.
pub proof fn coarse_over(x: Single, y: Single)
    requires
        x.is_finite(),
        y.is_finite(),
        coarse(y) > 0,
        is_ample(coarse(x) * one(24), coarse(y), 24),
    ensures
        x.over(y).is_finite(),
        x.over(y).raw().neg == (x.raw().neg != y.raw().neg),
        alike(coarse(x.over(y)) * coarse(y), coarse(x) * one(24), 2, parts(24)),
{
    reveal(Single::over_spec);
    raw_quotient(x.raw(), y.raw(), 24);
    coarse_of(quotient_spec(x.raw(), y.raw(), 24));
}

/// A sum is alike to the exact sum.
pub proof fn coarse_plus(x: Single, y: Single)
    requires
        x.is_finite(),
        y.is_finite(),
        -(pow2(top(24)) as int) < x.raw().value(24) + y.raw().value(24) < pow2(top(24)),
    ensures
        ({
            let r = x.plus(y);
            let v = x.raw().value(24) + y.raw().value(24);
            &&& r.is_finite()
            &&& v > 0 ==> !r.raw().neg
            &&& v < 0 ==> r.raw().neg
            &&& v == 0 ==> r.raw().mag == 0
            &&& !x.raw().neg && !y.raw().neg ==> !r.raw().neg
            &&& alike(coarse(r), abs(v), 2, parts(24))
        }),
{
    reveal(Single::plus_spec);
    raw_sum(x.raw(), y.raw(), 24);
    coarse_of(sum_spec(x.raw(), y.raw(), 24));
}

/// A difference is alike to the exact difference.
pub proof fn coarse_minus(x: Single, y: Single)
    requires
        x.is_finite(),
        y.is_finite(),
        -(pow2(top(24)) as int) < x.raw().value(24) - y.raw().value(24) < pow2(top(24)),
    ensures
        ({
            let r = x.minus(y);
            let v = x.raw().value(24) - y.raw().value(24);
            &&& r.is_finite()
            &&& v > 0 ==> !r.raw().neg
            &&& v < 0 ==> r.raw().neg
            &&& v == 0 ==> r.raw().mag == 0
            &&& alike(coarse(r), abs(v), 2, parts(24))
        }),
{
    reveal(Single::minus_spec);
    assert(y.negate().raw() == (Raw { neg: !y.raw().neg, mag: y.raw().mag }));
    coarse_plus(x, y.negate());
}

/// A whole number is alike to what stands for it.
pub proof fn coarse_integer(v: int)
    requires
        0 <= v < 0x1_0000_0000_0000_0000,
    ensures
        Single::from_int_spec(v).is_finite(),
        !Single::from_int_spec(v).raw().neg,
        alike(coarse(Single::from_int_spec(v)), v * one(24), 2, parts(24)),
{
    reveal(Single::from_int_spec);
    raw_integer(v, 24);
    coarse_of(integer_spec(v, 24));
}

/// The square of a root is alike to what the root was taken of.
pub proof fn coarse_root(x: Single)
    requires
        x.is_finite(),
        !x.raw().neg,
        coarse(x) < pow2(top(24)),
    ensures
        x.sqrt().is_finite(),
        !x.sqrt().raw().neg,
        alike(coarse(x.sqrt()) * coarse(x.sqrt()), coarse(x) * one(24), 7, parts(24)),
{
    reveal(Single::sqrt_spec);
    if x.raw().mag > 0 {
        raw_root(x.raw(), 24);
        coarse_of(square_root_spec(x.raw(), 24));
    } else {
        coarse_of(x.raw());
        assert(coarse(x) == 0 && coarse(x.sqrt()) == 0);
        assert(0 * one(24) == 0 && 0int * 0int == 0) by (nonlinear_arith);
        alike_self(0, 7, parts(24));
    }
}

/// A number that is not negative, cut off to a whole number.
pub proof fn coarse_whole(x: Single, how: Whole, hi: int)
    requires
        x.is_finite(),
        !x.raw().neg,
        how == Whole::Trunc || how == Whole::Floor,
        hi >= 0,
    ensures
        ({
            let k = x.whole_spec(how, 0, hi);
            &&& 0 <= k <= hi
            &&& k * one(24) <= coarse(x)
            &&& k < hi ==> coarse(x) < (k + 1) * one(24)
        }),
{
    reveal(Single::whole_spec);
    let d = one(24);
    let n = coarse(x);
    lemma_pow2_pos(unit_exp(24));
    lemma_fundamental_div_mod(n, d);
    let q = n / d;
    let k = x.whole_spec(how, 0, hi);
    assert(d * q == q * d && (q + 1) * d == q * d + d) by (nonlinear_arith);
    assert(q >= 0) by (nonlinear_arith)
        requires
            n == d * q + n % d,
            0 <= n % d < d,
            n >= 0,
            d > 0,
    ;
    assert(k == if q > hi { hi } else { q });
    if q > hi {
        assert(hi * d <= q * d) by (nonlinear_arith)
            requires
                hi <= q,
                d > 0,
        ;
    }
}

/// A number that is not negative, rounded up to a whole number.
pub proof fn coarse_ceil(x: Single, hi: int)
    requires
        x.is_finite(),
        !x.raw().neg,
        hi >= 0,
    ensures
        ({
            let k = x.whole_spec(Whole::Ceil, 0, hi);
            &&& 0 <= k <= hi
            &&& k < hi ==> coarse(x) <= k * one(24)
            &&& k > 0 ==> (k - 1) * one(24) < coarse(x)
        }),
{
    reveal(Single::whole_spec);
    let d = one(24);
    let n = coarse(x);
    lemma_pow2_pos(unit_exp(24));
    lemma_fundamental_div_mod(n, d);
    let q = n / d;
    let k = x.whole_spec(Whole::Ceil, 0, hi);
    assert(d * q == q * d && (q + 1) * d == q * d + d) by (nonlinear_arith);
    assert(q >= 0) by (nonlinear_arith)
        requires
            n == d * q + n % d,
            0 <= n % d < d,
            n >= 0,
            d > 0,
    ;
    let c = if n % d == 0 {
        q
    } else {
        q + 1
    };
    assert(k == if c > hi { hi } else { c });
    assert((k - 1) * d <= (c - 1) * d) by (nonlinear_arith)
        requires
            k <= c,
            d > 0,
    ;
    assert((q - 1) * d == q * d - d) by (nonlinear_arith);
}

/// A whole number that the format holds is kept exactly.
pub proof fn coarse_exact_integer(v: int)
    requires
        -parts(24) <= v <= parts(24),
    ensures
        Single::from_int_spec(v).is_finite(),
        Single::from_int_spec(v).raw().neg == (v < 0),
        coarse(Single::from_int_spec(v)) == abs(v) * one(24),
{
    reveal(Single::from_int_spec);
    raw_exact_integer(v, 24);
    coarse_of(integer_spec(v, 24));
}

/// The number of units that a number stands for, with its sign.
pub open spec fn coarse_worth(x: Single) -> int {
    x.raw().value(24)
}

/// The error of a bounded product.
pub proof fn coarse_times_within(x: Single, y: Single, m: int)
    requires
        x.is_finite(),
        y.is_finite(),
        0 <= m <= 60,
        abs(coarse_worth(x) * coarse_worth(y)) <= pow2(m as nat) * one(24) * one(24),
    ensures
        x.times(y).is_finite(),
        -(one(24) * spot(m, 24)) <= coarse_worth(x.times(y)) * one(24) - coarse_worth(x) * coarse_worth(y)
            <= one(24) * spot(m, 24),
{
    reveal(Single::times_spec);
    raw_product_within(x.raw(), y.raw(), m, 24);
    coarse_of(product_spec(x.raw(), y.raw(), 24));
}

/// The error of a bounded quotient.
pub proof fn coarse_over_within(x: Single, y: Single, m: int)
    requires
        x.is_finite(),
        y.is_finite(),
        coarse_worth(y) > 0,
        0 <= m <= 60,
        abs(coarse_worth(x)) <= pow2(m as nat) * coarse_worth(y),
    ensures
        x.over(y).is_finite(),
        -(coarse_worth(y) * spot(m, 24)) <= coarse_worth(x.over(y)) * coarse_worth(y) - coarse_worth(x) * one(24)
            <= coarse_worth(y) * spot(m, 24),
{
    reveal(Single::over_spec);
    raw_quotient_within(x.raw(), y.raw(), m, 24);
    coarse_of(quotient_spec(x.raw(), y.raw(), 24));
}

/// The error of a bounded sum.
pub proof fn coarse_plus_within(x: Single, y: Single, m: int)
    requires
        x.is_finite(),
        y.is_finite(),
        0 <= m <= 60,
        abs(coarse_worth(x) + coarse_worth(y)) <= pow2(m as nat) * one(24),
    ensures
        x.plus(y).is_finite(),
        -spot(m, 24) <= coarse_worth(x.plus(y)) - (coarse_worth(x) + coarse_worth(y)) <= spot(m, 24),
{
    reveal(Single::plus_spec);
    raw_sum_within(x.raw(), y.raw(), m, 24);
    coarse_of(sum_spec(x.raw(), y.raw(), 24));
}

/// The error of a bounded difference.
pub proof fn coarse_minus_within(x: Single, y: Single, m: int)
    requires
        x.is_finite(),
        y.is_finite(),
        0 <= m <= 60,
        abs(coarse_worth(x) - coarse_worth(y)) <= pow2(m as nat) * one(24),
    ensures
        x.minus(y).is_finite(),
        -spot(m, 24) <= coarse_worth(x.minus(y)) - (coarse_worth(x) - coarse_worth(y)) <= spot(m, 24),
{
    reveal(Single::minus_spec);
    assert(y.negate().raw() == (Raw { neg: !y.raw().neg, mag: y.raw().mag }));
    coarse_plus_within(x, y.negate(), m);
}

/// The order of numbers is that of what they stand for.
pub proof fn coarse_order(x: Single, y: Single)
    requires
        x.is_finite(),
        y.is_finite(),
    ensures
        x.lt(y) == (coarse_worth(x) < coarse_worth(y)),
        x.le(y) == (coarse_worth(x) <= coarse_worth(y)),
        x.same(y) == (coarse_worth(x) == coarse_worth(y)),
{
    let (a, b) = (x.raw().mag as nat, y.raw().mag as nat);
    if a < b {
        units_increase(a, b, 24);
    }
    if b < a {
        units_increase(b, a, 24);
    }
    if 0 < a {
        units_increase(0, a, 24);
    }
    if 0 < b {
        units_increase(0, b, 24);
    }
    assert(units(0, 24) == 0);
}

/// Whether a number is the whole number `n`.
pub open spec fn coarse_is(x: Single, n: int) -> bool {
    is_whole(x.raw(), n, 24)
}

/// Whole numbers are added, taken away, multiplied and divided exactly.
pub proof fn coarse_whole_plus(x: Single, y: Single, m: int, n: int)
    requires
        coarse_is(x, m),
        coarse_is(y, n),
        -parts(24) <= m + n <= parts(24),
    ensures
        coarse_is(x.plus(y), m + n),
{
    reveal(Single::plus_spec);
    raw_whole_sum(x.raw(), y.raw(), m, n, 24);
    coarse_of(sum_spec(x.raw(), y.raw(), 24));
}

pub proof fn coarse_whole_minus(x: Single, y: Single, m: int, n: int)
    requires
        coarse_is(x, m),
        coarse_is(y, n),
        -parts(24) <= m - n <= parts(24),
    ensures
        coarse_is(x.minus(y), m - n),
{
    reveal(Single::minus_spec);
    assert(y.negate().raw() == (Raw { neg: !y.raw().neg, mag: y.raw().mag }));
    assert((-n) * one(24) == -(n * one(24))) by (nonlinear_arith);
    coarse_whole_plus(x, y.negate(), m, -n);
}

pub proof fn coarse_whole_times(x: Single, y: Single, m: int, n: int)
    requires
        coarse_is(x, m),
        coarse_is(y, n),
        -parts(24) <= m * n <= parts(24),
    ensures
        coarse_is(x.times(y), m * n),
{
    reveal(Single::times_spec);
    raw_whole_product(x.raw(), y.raw(), m, n, 24);
    coarse_of(product_spec(x.raw(), y.raw(), 24));
}

pub proof fn coarse_whole_over(x: Single, y: Single, m: int, n: int)
    requires
        coarse_is(x, m * n),
        coarse_is(y, n),
        n > 0,
        -parts(24) <= m <= parts(24),
    ensures
        coarse_is(x.over(y), m),
{
    reveal(Single::over_spec);
    raw_whole_quotient(x.raw(), y.raw(), m, n, 24);
    coarse_of(quotient_spec(x.raw(), y.raw(), 24));
}

pub proof fn coarse_whole_int(n: int)
    requires
        -parts(24) <= n <= parts(24),
    ensures
        coarse_is(Single::from_int_spec(n), n),
{
    coarse_exact_integer(n);
    assert((-n) * one(24) == -(n * one(24))) by (nonlinear_arith);
}

pub proof fn coarse_whole_widen(x: Single, n: int)
    requires
        coarse_is(x, n),
        -parts(53) <= n <= parts(53),
    ensures
        fine_is(x.widen(), n),
{
    reveal(Single::widen_spec);
    raw_whole_convert(x.raw(), n, 24, 53);
    fine_of(convert_spec(x.raw(), 24, 53));
}

pub proof fn coarse_whole_cut(x: Single, n: int, how: Whole, lo: int, hi: int)
    requires
        coarse_is(x, n),
        lo <= n <= hi,
    ensures
        x.whole_spec(how, lo, hi) == n,
{
    reveal(Single::whole_spec);
    raw_whole_cut(x.raw(), n, how, 24);
}

/// Numbers that are the same whole number are equal, and the same but for the sign of zero.
#[verifier::spinoff_prover]
pub proof fn coarse_whole_same(x: Single, y: Single, n: int)
    requires
        coarse_is(x, n),
        coarse_is(y, n),
    ensures
        x.same(y),
        n != 0 ==> x == y,
{
    coarse_order(x, y);
    whole_size(x.raw(), n, 24);
    whole_size(y.raw(), n, 24);
    let (a, b) = (x.raw().mag as nat, y.raw().mag as nat);
    if a < b {
        units_increase(a, b, 24);
    }
    if b < a {
        units_increase(b, a, 24);
    }
    assert(a == b);
    if n != 0 {
        assert(x.raw().neg == y.raw().neg);
        assert(x.bits % 0x8000_0000 == y.bits % 0x8000_0000);
        assert(x.bits == y.bits);
    }
}

/// The order of whole numbers.
pub proof fn coarse_whole_order(x: Single, y: Single, m: int, n: int)
    requires
        coarse_is(x, m),
        coarse_is(y, n),
    ensures
        x.lt(y) == (m < n),
        x.le(y) == (m <= n),
{
    coarse_order(x, y);
    let o = one(24);
    lemma_pow2_pos(unit_exp(24));
    assert((m < n) == (m * o < n * o) && (m <= n) == (m * o <= n * o)) by (nonlinear_arith)
        requires
            o > 0,
    ;
}

/// The number with a given sign and magnitude.
pub proof fn coarse_of(a: Raw)
    requires
        a.finite(24),
    ensures
        Single::of(a).raw() == a,
        Single::of(a).is_finite(),
{
}

// ---------------------------------------------------------------------------
// Numbers of double precision
// ---------------------------------------------------------------------------

/// The number of units in the size of a number.
pub open spec fn fine(x: Double) -> int {
    size(x.raw(), 53)
}

/// A product is alike to the product of the sizes.
pub proof fn fine_times(x: Double, y: Double)
    requires
        x.is_finite(),
        y.is_finite(),
        is_ample(fine(x) * fine(y), one(53), 53),
    ensures
        x.times(y).is_finite(),
        x.times(y).raw().neg == (x.raw().neg != y.raw().neg),
        alike(fine(x.times(y)) * one(53), fine(x) * fine(y), 2, parts(53)),
{
    reveal(Double::times_spec);
    raw_product(x.raw(), y.raw(), 53);
    fine_of(product_spec(x.raw(), y.raw(), 53));
}

/// A quotient is alike to the quotient of the sizes.
pub proof fn fine_over(x: Double, y: Double)
    requires
        x.is_finite(),
        y.is_finite(),
        fine(y) > 0,
        is_ample(fine(x) * one(53), fine(y), 53),
    ensures
        x.over(y).is_finite(),
        x.over(y).raw().neg == (x.raw().neg != y.raw().neg),
        alike(fine(x.over(y)) * fine(y), fine(x) * one(53), 2, parts(53)),
{
    reveal(Double::over_spec);
    raw_quotient(x.raw(), y.raw(), 53);
    fine_of(quotient_spec(x.raw(), y.raw(), 53));
}

/// A sum is alike to the exact sum.
pub proof fn fine_plus(x: Double, y: Double)
    requires
        x.is_finite(),
        y.is_finite(),
        -(pow2(top(53)) as int) < x.raw().value(53) + y.raw().value(53) < pow2(top(53)),
    ensures
        ({
            let r = x.plus(y);
            let v = x.raw().value(53) + y.raw().value(53);
            &&& r.is_finite()
            &&& v > 0 ==> !r.raw().neg
            &&& v < 0 ==> r.raw().neg
            &&& v == 0 ==> r.raw().mag == 0
            &&& !x.raw().neg && !y.raw().neg ==> !r.raw().neg
            &&& alike(fine(r), abs(v), 2, parts(53))
        }),
{
    reveal(Double::plus_spec);
    raw_sum(x.raw(), y.raw(), 53);
    fine_of(sum_spec(x.raw(), y.raw(), 53));
}

/// A difference is alike to the exact difference.
pub proof fn fine_minus(x: Double, y: Double)
    requires
        x.is_finite(),
        y.is_finite(),
        -(pow2(top(53)) as int) < x.raw().value(53) - y.raw().value(53) < pow2(top(53)),
    ensures
        ({
            let r = x.minus(y);
            let v = x.raw().value(53) - y.raw().value(53);
            &&& r.is_finite()
            &&& v > 0 ==> !r.raw().neg
            &&& v < 0 ==> r.raw().neg
            &&& v == 0 ==> r.raw().mag == 0
            &&& alike(fine(r), abs(v), 2, parts(53))
        }),
{
    reveal(Double::minus_spec);
    assert(y.negate().raw() == (Raw { neg: !y.raw().neg, mag: y.raw().mag }));
    fine_plus(x, y.negate());
}

/// A whole number is alike to what stands for it.
pub proof fn fine_integer(v: int)
    requires
        0 <= v < 0x1_0000_0000_0000_0000,
    ensures
        Double::from_int_spec(v).is_finite(),
        !Double::from_int_spec(v).raw().neg,
        alike(fine(Double::from_int_spec(v)), v * one(53), 2, parts(53)),
{
    reveal(Double::from_int_spec);
    raw_integer(v, 53);
    fine_of(integer_spec(v, 53));
}

/// The square of a root is alike to what the root was taken of.
pub proof fn fine_root(x: Double)
    requires
        x.is_finite(),
        !x.raw().neg,
        fine(x) < pow2(top(53)),
    ensures
        x.sqrt().is_finite(),
        !x.sqrt().raw().neg,
        alike(fine(x.sqrt()) * fine(x.sqrt()), fine(x) * one(53), 7, parts(53)),
{
    reveal(Double::sqrt_spec);
    if x.raw().mag > 0 {
        raw_root(x.raw(), 53);
        fine_of(square_root_spec(x.raw(), 53));
    } else {
        fine_of(x.raw());
        assert(fine(x) == 0 && fine(x.sqrt()) == 0);
        assert(0 * one(53) == 0 && 0int * 0int == 0) by (nonlinear_arith);
        alike_self(0, 7, parts(53));
    }
}

/// A number that is not negative, cut off to a whole number.
pub proof fn fine_whole(x: Double, how: Whole, hi: int)
    requires
        x.is_finite(),
        !x.raw().neg,
        how == Whole::Trunc || how == Whole::Floor,
        hi >= 0,
    ensures
        ({
            let k = x.whole_spec(how, 0, hi);
            &&& 0 <= k <= hi
            &&& k * one(53) <= fine(x)
            &&& k < hi ==> fine(x) < (k + 1) * one(53)
        }),
{
    reveal(Double::whole_spec);
    let d = one(53);
    let n = fine(x);
    lemma_pow2_pos(unit_exp(53));
    lemma_fundamental_div_mod(n, d);
    let q = n / d;
    let k = x.whole_spec(how, 0, hi);
    assert(d * q == q * d && (q + 1) * d == q * d + d) by (nonlinear_arith);
    assert(q >= 0) by (nonlinear_arith)
        requires
            n == d * q + n % d,
            0 <= n % d < d,
            n >= 0,
            d > 0,
    ;
    assert(k == if q > hi { hi } else { q });
    if q > hi {
        assert(hi * d <= q * d) by (nonlinear_arith)
            requires
                hi <= q,
                d > 0,
        ;
    }
}

/// A number that is not negative, rounded up to a whole number.
pub proof fn fine_ceil(x: Double, hi: int)
    requires
        x.is_finite(),
        !x.raw().neg,
        hi >= 0,
    ensures
        ({
            let k = x.whole_spec(Whole::Ceil, 0, hi);
            &&& 0 <= k <= hi
            &&& k < hi ==> fine(x) <= k * one(53)
            &&& k > 0 ==> (k - 1) * one(53) < fine(x)
        }),
{
    reveal(Double::whole_spec);
    let d = one(53);
    let n = fine(x);
    lemma_pow2_pos(unit_exp(53));
    lemma_fundamental_div_mod(n, d);
    let q = n / d;
    let k = x.whole_spec(Whole::Ceil, 0, hi);
    assert(d * q == q * d && (q + 1) * d == q * d + d) by (nonlinear_arith);
    assert(q >= 0) by (nonlinear_arith)
        requires
            n == d * q + n % d,
            0 <= n % d < d,
            n >= 0,
            d > 0,
    ;
    let c = if n % d == 0 {
        q
    } else {
        q + 1
    };
    assert(k == if c > hi { hi } else { c });
    assert((k - 1) * d <= (c - 1) * d) by (nonlinear_arith)
        requires
            k <= c,
            d > 0,
    ;
    assert((q - 1) * d == q * d - d) by (nonlinear_arith);
}

/// A whole number that the format holds is kept exactly.
pub proof fn fine_exact_integer(v: int)
    requires
        -parts(53) <= v <= parts(53),
    ensures
        Double::from_int_spec(v).is_finite(),
        Double::from_int_spec(v).raw().neg == (v < 0),
        fine(Double::from_int_spec(v)) == abs(v) * one(53),
{
    reveal(Double::from_int_spec);
    raw_exact_integer(v, 53);
    fine_of(integer_spec(v, 53));
}

/// The number of units that a number stands for, with its sign.
pub open spec fn fine_worth(x: Double) -> int {
    x.raw().value(53)
}

/// The error of a bounded product.
pub proof fn fine_times_within(x: Double, y: Double, m: int)
    requires
        x.is_finite(),
        y.is_finite(),
        0 <= m <= 60,
        abs(fine_worth(x) * fine_worth(y)) <= pow2(m as nat) * one(53) * one(53),
    ensures
        x.times(y).is_finite(),
        -(one(53) * spot(m, 53)) <= fine_worth(x.times(y)) * one(53) - fine_worth(x) * fine_worth(y)
            <= one(53) * spot(m, 53),
{
    reveal(Double::times_spec);
    raw_product_within(x.raw(), y.raw(), m, 53);
    fine_of(product_spec(x.raw(), y.raw(), 53));
}

/// The error of a bounded quotient.
pub proof fn fine_over_within(x: Double, y: Double, m: int)
    requires
        x.is_finite(),
        y.is_finite(),
        fine_worth(y) > 0,
        0 <= m <= 60,
        abs(fine_worth(x)) <= pow2(m as nat) * fine_worth(y),
    ensures
        x.over(y).is_finite(),
        -(fine_worth(y) * spot(m, 53)) <= fine_worth(x.over(y)) * fine_worth(y) - fine_worth(x) * one(53)
            <= fine_worth(y) * spot(m, 53),
{
    reveal(Double::over_spec);
    raw_quotient_within(x.raw(), y.raw(), m, 53);
    fine_of(quotient_spec(x.raw(), y.raw(), 53));
}

/// The error of a bounded sum.
pub proof fn fine_plus_within(x: Double, y: Double, m: int)
    requires
        x.is_finite(),
        y.is_finite(),
        0 <= m <= 60,
        abs(fine_worth(x) + fine_worth(y)) <= pow2(m as nat) * one(53),
    ensures
        x.plus(y).is_finite(),
        -spot(m, 53) <= fine_worth(x.plus(y)) - (fine_worth(x) + fine_worth(y)) <= spot(m, 53),
{
    reveal(Double::plus_spec);
    raw_sum_within(x.raw(), y.raw(), m, 53);
    fine_of(sum_spec(x.raw(), y.raw(), 53));
}

/// The error of a bounded difference.
pub proof fn fine_minus_within(x: Double, y: Double, m: int)
    requires
        x.is_finite(),
        y.is_finite(),
        0 <= m <= 60,
        abs(fine_worth(x) - fine_worth(y)) <= pow2(m as nat) * one(53),
    ensures
        x.minus(y).is_finite(),
        -spot(m, 53) <= fine_worth(x.minus(y)) - (fine_worth(x) - fine_worth(y)) <= spot(m, 53),
{
    reveal(Double::minus_spec);
    assert(y.negate().raw() == (Raw { neg: !y.raw().neg, mag: y.raw().mag }));
    fine_plus_within(x, y.negate(), m);
}

/// The order of numbers is that of what they stand for.
pub proof fn fine_order(x: Double, y: Double)
    requires
        x.is_finite(),
        y.is_finite(),
    ensures
        x.lt(y) == (fine_worth(x) < fine_worth(y)),
        x.le(y) == (fine_worth(x) <= fine_worth(y)),
        x.same(y) == (fine_worth(x) == fine_worth(y)),
{
    let (a, b) = (x.raw().mag as nat, y.raw().mag as nat);
    if a < b {
        units_increase(a, b, 53);
    }
    if b < a {
        units_increase(b, a, 53);
    }
    if 0 < a {
        units_increase(0, a, 53);
    }
    if 0 < b {
        units_increase(0, b, 53);
    }
    assert(units(0, 53) == 0);
}

/// Whether a number is the whole number `n`.
pub open spec fn fine_is(x: Double, n: int) -> bool {
    is_whole(x.raw(), n, 53)
}

/// Whole numbers are added, taken away, multiplied and divided exactly.
pub proof fn fine_whole_plus(x: Double, y: Double, m: int, n: int)
    requires
        fine_is(x, m),
        fine_is(y, n),
        -parts(53) <= m + n <= parts(53),
    ensures
        fine_is(x.plus(y), m + n),
{
    reveal(Double::plus_spec);
    raw_whole_sum(x.raw(), y.raw(), m, n, 53);
    fine_of(sum_spec(x.raw(), y.raw(), 53));
}

pub proof fn fine_whole_minus(x: Double, y: Double, m: int, n: int)
    requires
        fine_is(x, m),
        fine_is(y, n),
        -parts(53) <= m - n <= parts(53),
    ensures
        fine_is(x.minus(y), m - n),
{
    reveal(Double::minus_spec);
    assert(y.negate().raw() == (Raw { neg: !y.raw().neg, mag: y.raw().mag }));
    assert((-n) * one(53) == -(n * one(53))) by (nonlinear_arith);
    fine_whole_plus(x, y.negate(), m, -n);
}

pub proof fn fine_whole_times(x: Double, y: Double, m: int, n: int)
    requires
        fine_is(x, m),
        fine_is(y, n),
        -parts(53) <= m * n <= parts(53),
    ensures
        fine_is(x.times(y), m * n),
{
    reveal(Double::times_spec);
    raw_whole_product(x.raw(), y.raw(), m, n, 53);
    fine_of(product_spec(x.raw(), y.raw(), 53));
}

pub proof fn fine_whole_over(x: Double, y: Double, m: int, n: int)
    requires
        fine_is(x, m * n),
        fine_is(y, n),
        n > 0,
        -parts(53) <= m <= parts(53),
    ensures
        fine_is(x.over(y), m),
{
    reveal(Double::over_spec);
    raw_whole_quotient(x.raw(), y.raw(), m, n, 53);
    fine_of(quotient_spec(x.raw(), y.raw(), 53));
}

pub proof fn fine_whole_int(n: int)
    requires
        -parts(53) <= n <= parts(53),
    ensures
        fine_is(Double::from_int_spec(n), n),
{
    fine_exact_integer(n);
    assert((-n) * one(53) == -(n * one(53))) by (nonlinear_arith);
}

pub proof fn fine_whole_narrow(x: Double, n: int)
    requires
        fine_is(x, n),
        -parts(24) <= n <= parts(24),
    ensures
        coarse_is(x.narrow(), n),
{
    reveal(Double::narrow_spec);
    raw_whole_convert(x.raw(), n, 53, 24);
    coarse_of(convert_spec(x.raw(), 53, 24));
}

pub proof fn fine_whole_cut(x: Double, n: int, how: Whole, lo: int, hi: int)
    requires
        fine_is(x, n),
        lo <= n <= hi,
    ensures
        x.whole_spec(how, lo, hi) == n,
{
    reveal(Double::whole_spec);
    raw_whole_cut(x.raw(), n, how, 53);
}

/// Numbers that are the same whole number are equal, and the same but for the sign of zero.
#[verifier::spinoff_prover]
pub proof fn fine_whole_same(x: Double, y: Double, n: int)
    requires
        fine_is(x, n),
        fine_is(y, n),
    ensures
        x.same(y),
        n != 0 ==> x == y,
{
    fine_order(x, y);
    whole_size(x.raw(), n, 53);
    whole_size(y.raw(), n, 53);
    let (a, b) = (x.raw().mag as nat, y.raw().mag as nat);
    if a < b {
        units_increase(a, b, 53);
    }
    if b < a {
        units_increase(b, a, 53);
    }
    assert(a == b);
    if n != 0 {
        assert(x.raw().neg == y.raw().neg);
        assert(x.bits % 0x8000_0000_0000_0000 == y.bits % 0x8000_0000_0000_0000);
        assert(x.bits == y.bits);
    }
}

/// The order of whole numbers.
pub proof fn fine_whole_order(x: Double, y: Double, m: int, n: int)
    requires
        fine_is(x, m),
        fine_is(y, n),
    ensures
        x.lt(y) == (m < n),
        x.le(y) == (m <= n),
{
    fine_order(x, y);
    let o = one(53);
    lemma_pow2_pos(unit_exp(53));
    assert((m < n) == (m * o < n * o) && (m <= n) == (m * o <= n * o)) by (nonlinear_arith)
        requires
            o > 0,
    ;
}

/// The number with a given sign and magnitude.
pub proof fn fine_of(a: Raw)
    requires
        a.finite(53),
    ensures
        Double::of(a).raw() == a,
        Double::of(a).is_finite(),
{
}

// ---------------------------------------------------------------------------
// From single to double precision
// ---------------------------------------------------------------------------

/// The wider format holds the same number.
pub proof fn widened_is_the_same(x: Single)
    requires
        x.is_finite(),
    ensures
        x.widen().is_finite(),
        x.widen().raw().neg == x.raw().neg,
        fine(x.widen()) == coarse(x) * pow2(925),
        fine_worth(x.widen()) == coarse_worth(x) * pow2(925),
{
    reveal(Single::widen_spec);
    let m = x.raw().mag as nat;
    let u = units(m, 24);
    let h = lead(24) as int;
    let (e, f) = (m as int / h, m as int % h);
    lemma_fundamental_div_mod(m as int, h);
    let w = pow2(925);
    lemma_pow2_adds(925, 149);
    lemma_pow2_pos(149);
    lemma2_to64();
    let n = (u * w) as nat;
    assert(n >= 0) by (nonlinear_arith)
        requires
            n == u * w,
    ;
    assert(u * pow2(1074) == n * pow2(149)) by (nonlinear_arith)
        requires
            n == u * w,
            pow2(1074) == w * pow2(149),
    ;
    multiple_rounds_alike(n, pow2(149), 53);
    if e == 0 {
        multiple_of_units(f as nat, 925, 53);
    } else {
        let k = (e - 1) as nat;
        lemma_pow2_adds(k, 925);
        assert(n == (h + f) * pow2((k + 925) as nat)) by (nonlinear_arith)
            requires
                n == ((h + f) * pow2(k)) * w,
                pow2((k + 925) as nat) == pow2(k) * w,
        ;
        multiple_of_units((h + f) as nat, (k + 925) as nat, 53);
    }
    fine_of(convert_spec(x.raw(), 24, 53));
    assert((-(u as int)) * w == -(u * w)) by (nonlinear_arith);
}

/// Half of an even number is kept exactly.
pub proof fn half_of_even(x: Double, n: int)
    requires
        fine_is(x, 2 * n),
        -0x20_0000_0000_0000 <= n <= 0x20_0000_0000_0000,
    ensures
        fine_is(x.times(Double { bits: 0x3fe0_0000_0000_0000 }), n),
{
    reveal(Double::times_spec);
    let h = Double { bits: 0x3fe0_0000_0000_0000 };
    let o = one(53);
    lemma2_to64();
    lemma2_to64_rest();
    lemma_pow2_pos(1074);
    size_by_bits(0x3fe0_0000_0000_0000, 1022, 0, 53);
    lemma_pow2_adds(52, 1021);
    lemma_pow2_unfold(1074);
    let g = fine(h);
    assert(o == 2 * g);
    whole_size(x.raw(), 2 * n, 53);
    let k = fine(x) * g;
    let v = abs(n);
    assert(k == v * o * o) by (nonlinear_arith)
        requires
            k == ((2 * v) * o) * g,
            o == 2 * g,
    ;
    assert(k >= 0) by (nonlinear_arith)
        requires
            k == v * o * o,
            v >= 0,
            o > 0,
    ;
    whole_rounds(k as nat, o as nat, v as nat, 53);
    let r = product_spec(x.raw(), h.raw(), 53);
    signed_size(r, n, 53);
    fine_of(r);
}

/// The root of a square is kept exactly.
pub proof fn fine_whole_root(x: Double, r: int)
    requires
        fine_is(x, r * r),
        0 <= r <= 0x4000_0000,
    ensures
        fine_is(x.sqrt(), r),
{
    reveal(Double::sqrt_spec);
    let o = one(53);
    lemma_pow2_pos(1074);
    let m = r * r;
    assert(m >= 0 && (r > 0 ==> m > 0)) by (nonlinear_arith)
        requires
            m == r * r,
            r >= 0,
    ;
    whole_size(x.raw(), m, 53);
    assert(units(0, 53) == 0);
    if r == 0 {
        assert(m == 0) by (nonlinear_arith)
            requires
                m == r * r,
                r == 0,
        ;
        assert(0 * o == 0) by (nonlinear_arith);
        let k = x.raw().mag as nat;
        if k > 0 {
            units_increase(0, k, 53);
        }
        fine_of(x.raw());
    } else {
        let n = fine(x) * o;
        let q = r * o;
        assert(n == q * q) by (nonlinear_arith)
            requires
                n == (m * o) * o,
                m == r * r,
                q == r * o,
        ;
        assert(q > 0 && m * o > 0) by (nonlinear_arith)
            requires
                q == r * o,
                r > 0,
                o > 0,
                m > 0,
        ;
        let z = root(n as nat) as int;
        root_bounds(n as nat);
        assert(z == q) by (nonlinear_arith)
            requires
                z * z <= n < (z + 1) * (z + 1),
                n == q * q,
                z >= 0,
                q >= 0,
        ;
        assert(2 * q == r * o * 2) by (nonlinear_arith)
            requires
                q == r * o,
        ;
        whole_rounds((2 * q) as nat, 2, r as nat, 53);
        let s = square_root_spec(x.raw(), 53);
        signed_size(s, r, 53);
        fine_of(s);
    }
}

/// What is left of a whole number by another is kept exactly, with the sign of the first.
pub proof fn fine_whole_modulo(x: Double, y: Double, k: int, n: int)
    requires
        fine_is(x, k),
        fine_is(y, n),
        0 < n <= parts(53),
    ensures
        fine_is(
            x.modulo(y),
            if k < 0 {
                -((-k) % n)
            } else {
                k % n
            },
        ),
{
    reveal(Double::modulo_spec);
    let o = one(53);
    lemma_pow2_pos(1074);
    whole_size(x.raw(), k, 53);
    whole_size(y.raw(), n, 53);
    assert(units(0, 53) == 0);
    assert(n * o > 0) by (nonlinear_arith)
        requires
            n > 0,
            o > 0,
    ;
    let a = abs(k);
    crate::arith::mod_scales(a as nat, n as nat, o as nat);
    let v = a % n;
    assert((v * o) * 1 == v * o);
    assert(v * o >= 0) by (nonlinear_arith)
        requires
            v >= 0,
            o > 0,
    ;
    whole_rounds((v * o) as nat, 1, v as nat, 53);
    let r = crate::arith::remainder_spec(x.raw(), y.raw(), 53);
    if k == 0 {
        lemma_small_mod(0, n as nat);
    }
    assert(v > 0 ==> k != 0);
    signed_size(
        r,
        if k < 0 {
            -v
        } else {
            v
        },
        53,
    );
    fine_of(r);
}

} // verus!
