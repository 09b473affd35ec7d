//! Floating-point numbers of two formats, by their bits.
//!
//! A number in the code is written by its bits. The numbers nearest to these are meant:
//!
//! | `Single` | |
//! |---|---|
//! | `0xff80_0000` | minus infinity |
//! | `0x7fc0_0000` | not a number |
//! | `0x0da2_4260` | ten to the power of -30 |
//! | `0x3400_0000` | two to the power of -23 |
//! | `0x3ca3_d70a` | 1/50 |
//! | `0x3ccc_cccd` | 1/40 |
//! | `0x3d4c_cccd` | 1/20 |
//! | `0x3d80_0000` | 1/16 |
//! | `0x3e4c_cccd` | 1/5 |
//! | `0x3e80_0000` | 1/4 |
//! | `0x3ea8_f5c3` | 33/100 |
//! | `0x3eb3_3333` | 7/20 |
//! | `0x3ecc_cccd` | 2/5 |
//! | `0x3ee0_0000` | 7/16 |
//! | `0x3f00_0000` | 1/2 |
//! | `0x3f19_999a` | 3/5 |
//! | `0x3f26_6666` | 13/20 |
//! | `0x3f28_f5c3` | 33/50 |
//! | `0x3f40_0000` | 3/4 |
//! | `0x3f79_999a` | 39/40 |
//! | `0x3f80_0000` | 1 |
//! | `0x3f99_999a` | 6/5 |
//! | `0x3fb3_3333` | 7/5 |
//! | `0x3fc0_0000` | 3/2 |
//! | `0x3fcc_cccd` | 8/5 |
//! | `0x3fd9_999a` | 17/10 |
//! | `0x4000_0000` | 2 |
//! | `0x4020_0000` | 5/2 |
//! | `0x4040_0000` | 3 |
//! | `0x4080_0000` | 4 |
//! | `0x40c0_0000` | 6 |
//! | `0x4100_0000` | 8 |
//! | `0x4120_0000` | 10 |
//! | `0x4200_0000` | 32 |
//! | `0x4270_0000` | 60 |
//! | `0x4280_0000` | 64 |
//! | `0x437f_0000` | 255 |
//! | `0x438c_0000` | 280 |
//! | `0x43b4_0000` | 360 |
//! | `0x4416_0000` | 600 |
//! | `0x4448_0000` | 800 |
//! | `0x4479_c000` | 999 |
//! | `0x7f80_0000` | infinity |
//!
//! | `Double` | |
//! |---|---|
//! | `0xfff0_0000_0000_0000` | minus infinity |
//! | `0xc000_0000_0000_0000` | -2 |
//! | `0xbff0_0000_0000_0000` | -1 |
//! | `0x7ff8_0000_0000_0000` | not a number |
//! | `0x39b4_484b_feeb_c2a0` | ten to the power of -30 |
//! | `0x3cb0_0000_0000_0000` | two to the power of -52 |
//! | `0x3cd2_03af_9ee7_5616` | ten to the power of -15 |
//! | `0x3f91_df46_a252_9d39` | radians in a degree |
//! | `0x3fa9_9999_9999_999a` | 1/20 |
//! | `0x3fd9_9999_9999_999a` | 2/5 |
//! | `0x3fe0_0000_0000_0000` | 1/2 |
//! | `0x3ff0_0000_0000_0000` | 1 |
//! | `0x4000_0000_0000_0000` | 2 |
//! | `0x4010_0000_0000_0000` | 4 |
//! | `0x4014_0000_0000_0000` | 5 |
//! | `0x4018_0000_0000_0000` | 6 |
//! | `0x4019_21fb_5444_2d18` | a full turn in radians |
//! | `0x4020_0000_0000_0000` | 8 |
//! | `0x4022_0000_0000_0000` | 9 |
//! | `0x4024_0000_0000_0000` | 10 |
//! | `0x402e_0000_0000_0000` | 15 |
//! | `0x4030_0000_0000_0000` | 16 |
//! | `0x403b_20da_a0ca_e643` | 27128336/1000000 |
//! | `0x403e_0000_0000_0000` | 30 |
//! | `0x404c_a5dc_1a63_c1f8` | degrees in a radian |
//! | `0x404e_0000_0000_0000` | 60 |
//! | `0x405e_bba5_e353_f7cf` | 122932/1000 |
//! | `0x4060_0000_0000_0000` | 128 |
//! | `0x4066_8000_0000_0000` | 180 |
//! | `0x4068_1b81_16eb_d4d0` | 192859508/1000000 |
//! | `0x4069_0000_0000_0000` | 200 |
//! | `0x406f_e000_0000_0000` | 255 |
//! | `0x4076_8000_0000_0000` | 360 |
//! | `0x4080_e000_0000_0000` | 540 |
//! | `0x4083_2000_0000_0000` | 612 |
//! | `0x4088_c000_0000_0000` | 792 |
//! | `0x40ac_2000_0000_0000` | 3600 |
//! | `0x4330_0000_0000_0000` | two to the power of 52 |
//! | `0x7ff0_0000_0000_0000` | infinity |

use crate::arith::{
    convert, convert_spec, integer, integer_spec, product, product_spec, quotient, quotient_spec,
    remainder, remainder_spec, square_root, square_root_spec, sum, sum_spec, whole_within,
    whole_within_spec, Raw, Whole,
};
use crate::decimal::{fixed, fixed_spec, float_spec, parse_float};
use crate::digits::{scientific, scientific_spec, shortest, shortest_spec};
use crate::rounding::{inf_bits, is_prec, nan_bits, round_bits};
use crate::text::put_chars;
use vstd::prelude::*;

verus! {

proof fn results_bounded(a: Raw, b: Raw, p: int)
    requires
        is_prec(p),
        a.mag <= 2 * inf_bits(p),
        b.mag <= 2 * inf_bits(p),
    ensures
        sum_spec(a, b, p).mag <= nan_bits(p),
        product_spec(a, b, p).mag <= nan_bits(p),
        quotient_spec(a, b, p).mag <= nan_bits(p),
        remainder_spec(a, b, p).mag <= nan_bits(p),
        square_root_spec(a, p).mag <= nan_bits(p),
{
    assert forall|n: nat, d: nat| #[trigger] round_bits(n, d, p) <= inf_bits(p) by {}
}

proof fn integer_bounded(v: int, p: int)
    requires
        is_prec(p),
    ensures
        integer_spec(v, p).mag <= inf_bits(p),
{
}

/// A number of the 64-bit format, by its bits. `==` compares the bits.
#[derive(Clone, Copy, Debug, PartialEq, Eq, Structural)]
pub struct Double {
    pub bits: u64,
}

impl Double {
    /// The sign and the magnitude bits.
    pub open spec fn raw_spec(self) -> Raw {
        Raw { neg: self.bits >= 0x8000_0000_0000_0000, mag: (self.bits % 0x8000_0000_0000_0000) as u64 }
    }

    /// The sign and the magnitude bits.
    #[verifier::when_used_as_spec(raw_spec)]
    pub fn raw(self) -> (r: Raw)
        ensures
            r == self.raw_spec(),
    {
        Raw { neg: self.bits >= 0x8000_0000_0000_0000, mag: (self.bits % 0x8000_0000_0000_0000) as u64 }
    }

    /// The number with the given sign and magnitude bits.
    pub open spec fn of_spec(a: Raw) -> Double {
        Double {
            bits: (a.mag + if a.neg {
                0x8000_0000_0000_0000int
            } else {
                0
            }) as u64,
        }
    }

    /// The number with the given sign and magnitude bits.
    #[verifier::when_used_as_spec(of_spec)]
    pub fn of(a: Raw) -> (r: Double)
        requires
            a.mag < 0x8000_0000_0000_0000,
        ensures
            r == Double::of_spec(a),
    {
        Double {
            bits: a.mag as u64 + if a.neg {
                0x8000_0000_0000_0000
            } else {
                0
            },
        }
    }

    /// Whether this is not a number.
    pub open spec fn is_nan_spec(self) -> bool {
        self.raw().nan(53)
    }

    /// Whether this is not a number.
    #[verifier::when_used_as_spec(is_nan_spec)]
    pub fn is_nan(self) -> (r: bool)
        ensures
            r == self.is_nan_spec(),
    {
        self.raw().mag > 0x7ff0_0000_0000_0000
    }

    /// Whether this is a number, and not an infinite one.
    pub open spec fn is_finite_spec(self) -> bool {
        self.raw().finite(53)
    }

    /// Whether this is a number, and not an infinite one.
    #[verifier::when_used_as_spec(is_finite_spec)]
    pub fn is_finite(self) -> (r: bool)
        ensures
            r == self.is_finite_spec(),
    {
        self.raw().mag < 0x7ff0_0000_0000_0000
    }

    /// `self < other`; false where either is not a number.
    pub open spec fn lt_spec(self, other: Double) -> bool {
        !self.is_nan() && !other.is_nan() && self.raw().place() < other.raw().place()
    }

    /// `self < other`.
    #[verifier::when_used_as_spec(lt_spec)]
    pub fn lt(self, other: Double) -> (r: bool)
        ensures
            r == self.lt_spec(other),
    {
        let (a, b): (Raw, Raw) = (self.raw(), other.raw());
        if self.is_nan() || other.is_nan() {
            return false;
        }
        match (a.neg, b.neg) {
            (false, false) => a.mag < b.mag,
            (true, true) => a.mag > b.mag,
            (true, false) => a.mag > 0 || b.mag > 0,
            (false, true) => false,
        }
    }

    /// Equality as numbers: both zeroes are equal, and not-a-number equals nothing.
    pub open spec fn same_spec(self, other: Double) -> bool {
        !self.is_nan() && !other.is_nan() && self.raw().place() == other.raw().place()
    }

    /// Equality as numbers.
    #[verifier::when_used_as_spec(same_spec)]
    pub fn same(self, other: Double) -> (r: bool)
        ensures
            r == self.same_spec(other),
    {
        let (a, b): (Raw, Raw) = (self.raw(), other.raw());
        !self.is_nan() && !other.is_nan() && a.mag == b.mag && (a.neg == b.neg || a.mag == 0)
    }

    /// `self <= other`.
    pub open spec fn le_spec(self, other: Double) -> bool {
        !self.is_nan() && !other.is_nan() && self.raw().place() <= other.raw().place()
    }

    /// `self <= other`.
    #[verifier::when_used_as_spec(le_spec)]
    pub fn le(self, other: Double) -> (r: bool)
        ensures
            r == self.le_spec(other),
    {
        self.lt(other) || self.same(other)
    }

    /// The number with the other sign.
    pub open spec fn negate_spec(self) -> Double {
        Double::of(Raw { neg: !self.raw().neg, mag: self.raw().mag })
    }

    /// The number with the other sign.
    #[verifier::when_used_as_spec(negate_spec)]
    pub fn negate(self) -> (r: Double)
        ensures
            r == self.negate_spec(),
    {
        let a = self.raw();
        Double::of(Raw { neg: !a.neg, mag: a.mag })
    }

    /// The number without its sign.
    pub open spec fn abs_spec(self) -> Double {
        Double::of(Raw { neg: false, mag: self.raw().mag })
    }

    /// The number without its sign.
    #[verifier::when_used_as_spec(abs_spec)]
    pub fn abs(self) -> (r: Double)
        ensures
            r == self.abs_spec(),
    {
        let a = self.raw();
        Double::of(Raw { neg: false, mag: a.mag })
    }

    /// The larger of two numbers; of a number and not-a-number, the number.
    pub open spec fn max_spec(self, other: Double) -> Double {
        if self.is_nan() || self.lt(other) {
            other
        } else {
            self
        }
    }

    /// The larger of two numbers.
    #[verifier::when_used_as_spec(max_spec)]
    pub fn max(self, other: Double) -> (r: Double)
        ensures
            r == self.max_spec(other),
    {
        if self.is_nan() || self.lt(other) {
            other
        } else {
            self
        }
    }

    /// The smaller of two numbers; of a number and not-a-number, the number.
    pub open spec fn min_spec(self, other: Double) -> Double {
        if self.is_nan() || other.lt(self) {
            other
        } else {
            self
        }
    }

    /// The smaller of two numbers.
    #[verifier::when_used_as_spec(min_spec)]
    pub fn min(self, other: Double) -> (r: Double)
        ensures
            r == self.min_spec(other),
    {
        if self.is_nan() || other.lt(self) {
            other
        } else {
            self
        }
    }

    /// The number brought into `lo..=hi`; not-a-number stays.
    pub open spec fn clamp_spec(self, lo: Double, hi: Double) -> Double {
        if self.lt(lo) {
            lo
        } else if hi.lt(self) {
            hi
        } else {
            self
        }
    }

    /// The number brought into `lo..=hi`.
    #[verifier::when_used_as_spec(clamp_spec)]
    pub fn clamp(self, lo: Double, hi: Double) -> (r: Double)
        ensures
            r == self.clamp_spec(lo, hi),
    {
        if self.lt(lo) {
            lo
        } else if hi.lt(self) {
            hi
        } else {
            self
        }
    }

    /// `self + other`.
    #[verifier::opaque]
    pub open spec fn plus_spec(self, other: Double) -> Double {
        Double::of(sum_spec(self.raw(), other.raw(), 53))
    }

    /// `self + other`.
    #[verifier::when_used_as_spec(plus_spec)]
    pub fn plus(self, other: Double) -> (r: Double)
        ensures
            r == self.plus_spec(other),
    {
        reveal(Double::plus_spec);
        proof {
            results_bounded(self.raw(), other.raw(), 53);
        }
        Double::of(sum(self.raw(), other.raw(), 53))
    }

    /// `self * other`.
    #[verifier::opaque]
    pub open spec fn times_spec(self, other: Double) -> Double {
        Double::of(product_spec(self.raw(), other.raw(), 53))
    }

    /// `self * other`.
    #[verifier::when_used_as_spec(times_spec)]
    pub fn times(self, other: Double) -> (r: Double)
        ensures
            r == self.times_spec(other),
    {
        reveal(Double::times_spec);
        proof {
            results_bounded(self.raw(), other.raw(), 53);
        }
        Double::of(product(self.raw(), other.raw(), 53))
    }

    /// `self / other`.
    #[verifier::opaque]
    pub open spec fn over_spec(self, other: Double) -> Double {
        Double::of(quotient_spec(self.raw(), other.raw(), 53))
    }

    /// `self / other`.
    #[verifier::when_used_as_spec(over_spec)]
    pub fn over(self, other: Double) -> (r: Double)
        ensures
            r == self.over_spec(other),
    {
        reveal(Double::over_spec);
        proof {
            results_bounded(self.raw(), other.raw(), 53);
        }
        Double::of(quotient(self.raw(), other.raw(), 53))
    }

    /// `self % other`, with the sign of `self`.
    #[verifier::opaque]
    pub open spec fn modulo_spec(self, other: Double) -> Double {
        Double::of(remainder_spec(self.raw(), other.raw(), 53))
    }

    /// `self % other`, with the sign of `self`.
    #[verifier::when_used_as_spec(modulo_spec)]
    pub fn modulo(self, other: Double) -> (r: Double)
        ensures
            r == self.modulo_spec(other),
    {
        reveal(Double::modulo_spec);
        proof {
            results_bounded(self.raw(), other.raw(), 53);
        }
        Double::of(remainder(self.raw(), other.raw(), 53))
    }

    /// `self - other`.
    #[verifier::opaque]
    pub open spec fn minus_spec(self, other: Double) -> Double {
        self.plus(other.negate())
    }

    /// `self - other`.
    #[verifier::when_used_as_spec(minus_spec)]
    pub fn minus(self, other: Double) -> (r: Double)
        ensures
            r == self.minus_spec(other),
    {
        reveal(Double::minus_spec);
        self.plus(other.negate())
    }

    /// The square root.
    #[verifier::opaque]
    pub open spec fn sqrt_spec(self) -> Double {
        Double::of(square_root_spec(self.raw(), 53))
    }

    /// The square root.
    #[verifier::when_used_as_spec(sqrt_spec)]
    pub fn sqrt(self) -> (r: Double)
        ensures
            r == self.sqrt_spec(),
    {
        reveal(Double::sqrt_spec);
        proof {
            results_bounded(self.raw(), self.raw(), 53);
        }
        Double::of(square_root(self.raw(), 53))
    }

    /// The whole number nearest to zero past which the fraction lies, or another
    /// way to make the number whole, brought into `lo..=hi`.
    #[verifier::opaque]
    pub open spec fn whole_spec(self, how: Whole, lo: int, hi: int) -> int {
        whole_within_spec(self.raw(), how, lo, hi, 53)
    }

    /// The number made whole in the way `how` and brought into `lo..=hi`.
    pub fn whole(self, how: Whole, lo: i128, hi: i128) -> (r: i128)
        requires
            -0x1_0000_0000_0000_0000 <= lo <= 0 <= hi <= 0x1_0000_0000_0000_0000,
        ensures
            r == self.whole_spec(how, lo as int, hi as int),
            lo <= r <= hi,
    {
        reveal(Double::whole_spec);
        whole_within(self.raw(), how, lo, hi, 53)
    }

    /// The number nearest to a whole number.
    #[verifier::opaque]
    pub open spec fn from_int_spec(v: int) -> Double {
        Double::of(integer_spec(v, 53))
    }

    /// The number nearest to a whole number.
    pub fn from_int(v: i64) -> (r: Double)
        ensures
            r == Double::from_int_spec(v as int),
    {
        reveal(Double::from_int_spec);
        proof {
            integer_bounded(v as int, 53);
        }
        if v < 0 {
            let m: u64 = (-(v as i128)) as u64;
            Double::of(integer(true, m, 53))
        } else {
            Double::of(integer(false, v as u64, 53))
        }
    }

    /// The number nearest to a natural number.
    pub fn from_nat(v: u64) -> (r: Double)
        ensures
            r == Double::from_int_spec(v as int),
    {
        reveal(Double::from_int_spec);
        proof {
            integer_bounded(v as int, 53);
        }
        Double::of(integer(false, v, 53))
    }

    /// The number that a text spells.
    #[verifier::opaque]
    pub open spec fn parse_spec(s: Seq<char>) -> Option<Double> {
        match float_spec(s, 53) {
            Some(a) => Some(Double::of(a)),
            None => None,
        }
    }

    /// The number that a text spells.
    pub fn parse(v: &Vec<char>) -> (r: Option<Double>)
        ensures
            r == Double::parse_spec(v@),
    {
        reveal(Double::parse_spec);
        match parse_float(v, 53) {
            Some(a) => Some(Double::of(a)),
            None => None,
        }
    }

    /// The number in decimal with `k` digits after the point.
    #[verifier::opaque]
    pub open spec fn fixed_spec(self, k: nat) -> Seq<char> {
        fixed_spec(self.raw(), k, 53)
    }

    /// The number in decimal with `k` digits after the point.
    pub fn fixed(self, k: u32) -> (r: Vec<char>)
        requires
            k <= 20,
        ensures
            r@ == self.fixed_spec(k as nat),
    {
        reveal(Double::fixed_spec);
        fixed(self.raw(), k, 53)
    }

    /// The shortest text that stands for this number and no other.
    #[verifier::opaque]
    pub open spec fn shortest_spec(self) -> Seq<char> {
        shortest_spec(self.raw(), 53)
    }

    /// The shortest text that stands for this number and no other.
    pub fn shortest(self) -> (r: Vec<char>)
        ensures
            r@ == self.shortest_spec(),
    {
        reveal(Double::shortest_spec);
        shortest(self.raw(), 53)
    }

    /// The number with `k` digits behind the point and an exponent.
    #[verifier::opaque]
    pub open spec fn scientific_spec(self, k: nat) -> Seq<char> {
        scientific_spec(self.raw(), k, 53)
    }

    /// The number with `k` digits behind the point and an exponent.
    pub fn scientific(self, k: u32) -> (r: Vec<char>)
        requires
            1 <= k <= 16,
        ensures
            r@ == self.scientific_spec(k as nat),
    {
        reveal(Double::scientific_spec);
        scientific(self.raw(), k, 53)
    }

    /// The number in decimal with `k` digits after the point, a plus sign before
    /// it where there is no minus sign; not-a-number has no sign.
    pub open spec fn signed_spec(self, k: nat) -> Seq<char> {
        if self.is_nan() || self.raw().neg {
            self.fixed_spec(k)
        } else {
            seq!['+'] + self.fixed_spec(k)
        }
    }

    /// The number in decimal with a sign and `k` digits after the point.
    pub fn signed(self, k: u32) -> (r: Vec<char>)
        requires
            k <= 20,
        ensures
            r@ == self.signed_spec(k as nat),
    {
        let t = self.fixed(k);
        if self.is_nan() || self.raw().neg {
            t
        } else {
            let mut r: Vec<char> = Vec::new();
            r.push('+');
            put_chars(&mut r, &t);
            assert(r@ =~= self.signed_spec(k as nat));
            r
        }
    }
}

/// A number of the 32-bit format, by its bits. `==` compares the bits.
#[derive(Clone, Copy, Debug, PartialEq, Eq, Structural)]
pub struct Single {
    pub bits: u32,
}

impl Single {
    /// The sign and the magnitude bits.
    pub open spec fn raw_spec(self) -> Raw {
        Raw { neg: self.bits >= 0x8000_0000, mag: (self.bits % 0x8000_0000) as u64 }
    }

    /// The sign and the magnitude bits.
    #[verifier::when_used_as_spec(raw_spec)]
    pub fn raw(self) -> (r: Raw)
        ensures
            r == self.raw_spec(),
    {
        Raw { neg: self.bits >= 0x8000_0000, mag: (self.bits % 0x8000_0000) as u64 }
    }

    /// The number with the given sign and magnitude bits.
    pub open spec fn of_spec(a: Raw) -> Single {
        Single {
            bits: (a.mag + if a.neg {
                0x8000_0000int
            } else {
                0
            }) as u32,
        }
    }

    /// The number with the given sign and magnitude bits.
    #[verifier::when_used_as_spec(of_spec)]
    pub fn of(a: Raw) -> (r: Single)
        requires
            a.mag < 0x8000_0000,
        ensures
            r == Single::of_spec(a),
    {
        Single {
            bits: a.mag as u32 + if a.neg {
                0x8000_0000
            } else {
                0
            },
        }
    }

    /// Whether this is not a number.
    pub open spec fn is_nan_spec(self) -> bool {
        self.raw().nan(24)
    }

    /// Whether this is not a number.
    #[verifier::when_used_as_spec(is_nan_spec)]
    pub fn is_nan(self) -> (r: bool)
        ensures
            r == self.is_nan_spec(),
    {
        self.raw().mag > 0x7f80_0000
    }

    /// Whether this is a number, and not an infinite one.
    pub open spec fn is_finite_spec(self) -> bool {
        self.raw().finite(24)
    }

    /// Whether this is a number, and not an infinite one.
    #[verifier::when_used_as_spec(is_finite_spec)]
    pub fn is_finite(self) -> (r: bool)
        ensures
            r == self.is_finite_spec(),
    {
        self.raw().mag < 0x7f80_0000
    }

    /// `self < other`; false where either is not a number.
    pub open spec fn lt_spec(self, other: Single) -> bool {
        !self.is_nan() && !other.is_nan() && self.raw().place() < other.raw().place()
    }

    /// `self < other`.
    #[verifier::when_used_as_spec(lt_spec)]
    pub fn lt(self, other: Single) -> (r: bool)
        ensures
            r == self.lt_spec(other),
    {
        let (a, b): (Raw, Raw) = (self.raw(), other.raw());
        if self.is_nan() || other.is_nan() {
            return false;
        }
        match (a.neg, b.neg) {
            (false, false) => a.mag < b.mag,
            (true, true) => a.mag > b.mag,
            (true, false) => a.mag > 0 || b.mag > 0,
            (false, true) => false,
        }
    }

    /// Equality as numbers: both zeroes are equal, and not-a-number equals nothing.
    pub open spec fn same_spec(self, other: Single) -> bool {
        !self.is_nan() && !other.is_nan() && self.raw().place() == other.raw().place()
    }

    /// Equality as numbers.
    #[verifier::when_used_as_spec(same_spec)]
    pub fn same(self, other: Single) -> (r: bool)
        ensures
            r == self.same_spec(other),
    {
        let (a, b): (Raw, Raw) = (self.raw(), other.raw());
        !self.is_nan() && !other.is_nan() && a.mag == b.mag && (a.neg == b.neg || a.mag == 0)
    }

    /// `self <= other`.
    pub open spec fn le_spec(self, other: Single) -> bool {
        !self.is_nan() && !other.is_nan() && self.raw().place() <= other.raw().place()
    }

    /// `self <= other`.
    #[verifier::when_used_as_spec(le_spec)]
    pub fn le(self, other: Single) -> (r: bool)
        ensures
            r == self.le_spec(other),
    {
        self.lt(other) || self.same(other)
    }

    /// The number with the other sign.
    pub open spec fn negate_spec(self) -> Single {
        Single::of(Raw { neg: !self.raw().neg, mag: self.raw().mag })
    }

    /// The number with the other sign.
    #[verifier::when_used_as_spec(negate_spec)]
    pub fn negate(self) -> (r: Single)
        ensures
            r == self.negate_spec(),
    {
        let a = self.raw();
        Single::of(Raw { neg: !a.neg, mag: a.mag })
    }

    /// The number without its sign.
    pub open spec fn abs_spec(self) -> Single {
        Single::of(Raw { neg: false, mag: self.raw().mag })
    }

    /// The number without its sign.
    #[verifier::when_used_as_spec(abs_spec)]
    pub fn abs(self) -> (r: Single)
        ensures
            r == self.abs_spec(),
    {
        let a = self.raw();
        Single::of(Raw { neg: false, mag: a.mag })
    }

    /// The larger of two numbers; of a number and not-a-number, the number.
    pub open spec fn max_spec(self, other: Single) -> Single {
        if self.is_nan() || self.lt(other) {
            other
        } else {
            self
        }
    }

    /// The larger of two numbers.
    #[verifier::when_used_as_spec(max_spec)]
    pub fn max(self, other: Single) -> (r: Single)
        ensures
            r == self.max_spec(other),
    {
        if self.is_nan() || self.lt(other) {
            other
        } else {
            self
        }
    }

    /// The smaller of two numbers; of a number and not-a-number, the number.
    pub open spec fn min_spec(self, other: Single) -> Single {
        if self.is_nan() || other.lt(self) {
            other
        } else {
            self
        }
    }

    /// The smaller of two numbers.
    #[verifier::when_used_as_spec(min_spec)]
    pub fn min(self, other: Single) -> (r: Single)
        ensures
            r == self.min_spec(other),
    {
        if self.is_nan() || other.lt(self) {
            other
        } else {
            self
        }
    }

    /// The number brought into `lo..=hi`; not-a-number stays.
    pub open spec fn clamp_spec(self, lo: Single, hi: Single) -> Single {
        if self.lt(lo) {
            lo
        } else if hi.lt(self) {
            hi
        } else {
            self
        }
    }

    /// The number brought into `lo..=hi`.
    #[verifier::when_used_as_spec(clamp_spec)]
    pub fn clamp(self, lo: Single, hi: Single) -> (r: Single)
        ensures
            r == self.clamp_spec(lo, hi),
    {
        if self.lt(lo) {
            lo
        } else if hi.lt(self) {
            hi
        } else {
            self
        }
    }

    /// `self + other`.
    #[verifier::opaque]
    pub open spec fn plus_spec(self, other: Single) -> Single {
        Single::of(sum_spec(self.raw(), other.raw(), 24))
    }

    /// `self + other`.
    #[verifier::when_used_as_spec(plus_spec)]
    pub fn plus(self, other: Single) -> (r: Single)
        ensures
            r == self.plus_spec(other),
    {
        reveal(Single::plus_spec);
        proof {
            results_bounded(self.raw(), other.raw(), 24);
        }
        Single::of(sum(self.raw(), other.raw(), 24))
    }

    /// `self * other`.
    #[verifier::opaque]
    pub open spec fn times_spec(self, other: Single) -> Single {
        Single::of(product_spec(self.raw(), other.raw(), 24))
    }

    /// `self * other`.
    #[verifier::when_used_as_spec(times_spec)]
    pub fn times(self, other: Single) -> (r: Single)
        ensures
            r == self.times_spec(other),
    {
        reveal(Single::times_spec);
        proof {
            results_bounded(self.raw(), other.raw(), 24);
        }
        Single::of(product(self.raw(), other.raw(), 24))
    }

    /// `self / other`.
    #[verifier::opaque]
    pub open spec fn over_spec(self, other: Single) -> Single {
        Single::of(quotient_spec(self.raw(), other.raw(), 24))
    }

    /// `self / other`.
    #[verifier::when_used_as_spec(over_spec)]
    pub fn over(self, other: Single) -> (r: Single)
        ensures
            r == self.over_spec(other),
    {
        reveal(Single::over_spec);
        proof {
            results_bounded(self.raw(), other.raw(), 24);
        }
        Single::of(quotient(self.raw(), other.raw(), 24))
    }

    /// `self % other`, with the sign of `self`.
    #[verifier::opaque]
    pub open spec fn modulo_spec(self, other: Single) -> Single {
        Single::of(remainder_spec(self.raw(), other.raw(), 24))
    }

    /// `self % other`, with the sign of `self`.
    #[verifier::when_used_as_spec(modulo_spec)]
    pub fn modulo(self, other: Single) -> (r: Single)
        ensures
            r == self.modulo_spec(other),
    {
        reveal(Single::modulo_spec);
        proof {
            results_bounded(self.raw(), other.raw(), 24);
        }
        Single::of(remainder(self.raw(), other.raw(), 24))
    }

    /// `self - other`.
    #[verifier::opaque]
    pub open spec fn minus_spec(self, other: Single) -> Single {
        self.plus(other.negate())
    }

    /// `self - other`.
    #[verifier::when_used_as_spec(minus_spec)]
    pub fn minus(self, other: Single) -> (r: Single)
        ensures
            r == self.minus_spec(other),
    {
        reveal(Single::minus_spec);
        self.plus(other.negate())
    }

    /// The square root.
    #[verifier::opaque]
    pub open spec fn sqrt_spec(self) -> Single {
        Single::of(square_root_spec(self.raw(), 24))
    }

    /// The square root.
    #[verifier::when_used_as_spec(sqrt_spec)]
    pub fn sqrt(self) -> (r: Single)
        ensures
            r == self.sqrt_spec(),
    {
        reveal(Single::sqrt_spec);
        proof {
            results_bounded(self.raw(), self.raw(), 24);
        }
        Single::of(square_root(self.raw(), 24))
    }

    /// The whole number nearest to zero past which the fraction lies, or another
    /// way to make the number whole, brought into `lo..=hi`.
    #[verifier::opaque]
    pub open spec fn whole_spec(self, how: Whole, lo: int, hi: int) -> int {
        whole_within_spec(self.raw(), how, lo, hi, 24)
    }

    /// The number made whole in the way `how` and brought into `lo..=hi`.
    pub fn whole(self, how: Whole, lo: i128, hi: i128) -> (r: i128)
        requires
            -0x1_0000_0000_0000_0000 <= lo <= 0 <= hi <= 0x1_0000_0000_0000_0000,
        ensures
            r == self.whole_spec(how, lo as int, hi as int),
            lo <= r <= hi,
    {
        reveal(Single::whole_spec);
        whole_within(self.raw(), how, lo, hi, 24)
    }

    /// The number nearest to a whole number.
    #[verifier::opaque]
    pub open spec fn from_int_spec(v: int) -> Single {
        Single::of(integer_spec(v, 24))
    }

    /// The number nearest to a whole number.
    pub fn from_int(v: i64) -> (r: Single)
        ensures
            r == Single::from_int_spec(v as int),
    {
        reveal(Single::from_int_spec);
        proof {
            integer_bounded(v as int, 24);
        }
        if v < 0 {
            let m: u64 = (-(v as i128)) as u64;
            Single::of(integer(true, m, 24))
        } else {
            Single::of(integer(false, v as u64, 24))
        }
    }

    /// The number nearest to a natural number.
    pub fn from_nat(v: u64) -> (r: Single)
        ensures
            r == Single::from_int_spec(v as int),
    {
        reveal(Single::from_int_spec);
        proof {
            integer_bounded(v as int, 24);
        }
        Single::of(integer(false, v, 24))
    }

    /// The number that a text spells.
    #[verifier::opaque]
    pub open spec fn parse_spec(s: Seq<char>) -> Option<Single> {
        match float_spec(s, 24) {
            Some(a) => Some(Single::of(a)),
            None => None,
        }
    }

    /// The number that a text spells.
    pub fn parse(v: &Vec<char>) -> (r: Option<Single>)
        ensures
            r == Single::parse_spec(v@),
    {
        reveal(Single::parse_spec);
        match parse_float(v, 24) {
            Some(a) => Some(Single::of(a)),
            None => None,
        }
    }

    /// The number in decimal with `k` digits after the point.
    #[verifier::opaque]
    pub open spec fn fixed_spec(self, k: nat) -> Seq<char> {
        fixed_spec(self.raw(), k, 24)
    }

    /// The number in decimal with `k` digits after the point.
    pub fn fixed(self, k: u32) -> (r: Vec<char>)
        requires
            k <= 20,
        ensures
            r@ == self.fixed_spec(k as nat),
    {
        reveal(Single::fixed_spec);
        fixed(self.raw(), k, 24)
    }

    /// The shortest text that stands for this number and no other.
    #[verifier::opaque]
    pub open spec fn shortest_spec(self) -> Seq<char> {
        shortest_spec(self.raw(), 24)
    }

    /// The shortest text that stands for this number and no other.
    pub fn shortest(self) -> (r: Vec<char>)
        ensures
            r@ == self.shortest_spec(),
    {
        reveal(Single::shortest_spec);
        shortest(self.raw(), 24)
    }

    /// The number with `k` digits behind the point and an exponent.
    #[verifier::opaque]
    pub open spec fn scientific_spec(self, k: nat) -> Seq<char> {
        scientific_spec(self.raw(), k, 24)
    }

    /// The number with `k` digits behind the point and an exponent.
    pub fn scientific(self, k: u32) -> (r: Vec<char>)
        requires
            1 <= k <= 16,
        ensures
            r@ == self.scientific_spec(k as nat),
    {
        reveal(Single::scientific_spec);
        scientific(self.raw(), k, 24)
    }

    /// The number in decimal with `k` digits after the point, a plus sign before
    /// it where there is no minus sign; not-a-number has no sign.
    pub open spec fn signed_spec(self, k: nat) -> Seq<char> {
        if self.is_nan() || self.raw().neg {
            self.fixed_spec(k)
        } else {
            seq!['+'] + self.fixed_spec(k)
        }
    }

    /// The number in decimal with a sign and `k` digits after the point.
    pub fn signed(self, k: u32) -> (r: Vec<char>)
        requires
            k <= 20,
        ensures
            r@ == self.signed_spec(k as nat),
    {
        let t = self.fixed(k);
        if self.is_nan() || self.raw().neg {
            t
        } else {
            let mut r: Vec<char> = Vec::new();
            r.push('+');
            put_chars(&mut r, &t);
            assert(r@ =~= self.signed_spec(k as nat));
            r
        }
    }
}

impl Single {
    /// The same number in the wider format.
    #[verifier::opaque]
    pub open spec fn widen_spec(self) -> Double {
        Double::of(convert_spec(self.raw(), 24, 53))
    }

    /// The same number in the wider format.
    #[verifier::when_used_as_spec(widen_spec)]
    pub fn widen(self) -> (r: Double)
        ensures
            r == self.widen_spec(),
    {
        reveal(Single::widen_spec);
        Double::of(convert(self.raw(), 24, 53))
    }
}

impl Double {
    /// The nearest number of the narrower format.
    #[verifier::opaque]
    pub open spec fn narrow_spec(self) -> Single {
        Single::of(convert_spec(self.raw(), 53, 24))
    }

    /// The nearest number of the narrower format.
    #[verifier::when_used_as_spec(narrow_spec)]
    pub fn narrow(self) -> (r: Single)
        ensures
            r == self.narrow_spec(),
    {
        reveal(Double::narrow_spec);
        Single::of(convert(self.raw(), 53, 24))
    }
}

} // verus!
