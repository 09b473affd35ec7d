//! What ranks say of a list of numbers: how many lie below, and how many above.

use crate::arith::Whole;
use crate::exact::{
    alike, alike_cancel, alike_chain, alike_times, coarse, coarse_integer, coarse_times,
    coarse_whole, in_range, one, parts, powers_grow, range_ample, range_product, range_quotient,
    size_by_bits,
};
use crate::filters::{is_median, rect_spec, window_spec};
use crate::fits::FitsImage;
use crate::image::{finite_values, is_zscale, rank_spec, Limits};
use crate::num::Single;
use crate::rounding::unit_exp;
use crate::sorting::ascending;
use vstd::arithmetic::power2::*;
use vstd::prelude::*;

verus! {

/// How many numbers of a list are below `x`.
pub open spec fn how_many_below(s: Seq<Single>, x: Single) -> nat
    decreases s.len(),
{
    if s.len() == 0 {
        0
    } else {
        how_many_below(s.drop_last(), x) + if s.last().lt(x) {
            1nat
        } else {
            0
        }
    }
}

/// How many numbers of a list are above `x`.
pub open spec fn how_many_above(s: Seq<Single>, x: Single) -> nat
    decreases s.len(),
{
    if s.len() == 0 {
        0
    } else {
        how_many_above(s.drop_last(), x) + if x.lt(s.last()) {
            1nat
        } else {
            0
        }
    }
}

/// Places of numbers that are not below `x`, each named once, are no more than such numbers.
proof fn places_not_below(s: Seq<Single>, x: Single, q: Seq<int>)
    requires
        q.no_duplicates(),
        forall|j: int| 0 <= j < q.len() ==> 0 <= #[trigger] q[j] < s.len() && !s[q[j]].lt(x),
    ensures
        how_many_below(s, x) + q.len() <= s.len(),
    decreases s.len(),
{
    if s.len() == 0 {
        if q.len() > 0 {
            assert(0 <= q[0] < s.len());
        }
    } else {
        let t = s.drop_last();
        let n = s.len() - 1;
        if exists|j: int| 0 <= j < q.len() && q[j] == n {
            let j = choose|j: int| 0 <= j < q.len() && q[j] == n;
            let r = q.remove(j);
            others(q, j, n);
            assert forall|i: int| 0 <= i < r.len() implies 0 <= #[trigger] r[i] < t.len()
                && !t[r[i]].lt(x) by {
                let k = if i < j {
                    i
                } else {
                    i + 1
                };
                assert(r[i] == q[k]);
                assert(q[k] != n);
            }
            places_not_below(t, x, r);
        } else {
            assert forall|i: int| 0 <= i < q.len() implies 0 <= #[trigger] q[i] < t.len()
                && !t[q[i]].lt(x) by {
                assert(q[i] != n);
            }
            places_not_below(t, x, q);
        }
    }
}

/// So are places of numbers that are not above `x`.
proof fn places_not_above(s: Seq<Single>, x: Single, q: Seq<int>)
    requires
        q.no_duplicates(),
        forall|j: int| 0 <= j < q.len() ==> 0 <= #[trigger] q[j] < s.len() && !x.lt(s[q[j]]),
    ensures
        how_many_above(s, x) + q.len() <= s.len(),
    decreases s.len(),
{
    if s.len() == 0 {
        if q.len() > 0 {
            assert(0 <= q[0] < s.len());
        }
    } else {
        let t = s.drop_last();
        let n = s.len() - 1;
        if exists|j: int| 0 <= j < q.len() && q[j] == n {
            let j = choose|j: int| 0 <= j < q.len() && q[j] == n;
            let r = q.remove(j);
            others(q, j, n);
            assert forall|i: int| 0 <= i < r.len() implies 0 <= #[trigger] r[i] < t.len()
                && !x.lt(t[r[i]]) by {
                let k = if i < j {
                    i
                } else {
                    i + 1
                };
                assert(r[i] == q[k]);
                assert(q[k] != n);
            }
            places_not_above(t, x, r);
        } else {
            assert forall|i: int| 0 <= i < q.len() implies 0 <= #[trigger] q[i] < t.len()
                && !x.lt(t[q[i]]) by {
                assert(q[i] != n);
            }
            places_not_above(t, x, q);
        }
    }
}

/// A list without one of its items has no duplicates either, and not that item.
proof fn others(q: Seq<int>, j: int, n: int)
    requires
        q.no_duplicates(),
        0 <= j < q.len(),
        q[j] == n,
    ensures
        q.remove(j).no_duplicates(),
        q.remove(j).len() == q.len() - 1,
        forall|k: int| 0 <= k < q.len() && k != j ==> #[trigger] q[k] != n,
        forall|i: int|
            0 <= i < q.len() - 1 ==> #[trigger] q.remove(j)[i] == q[if i < j {
                i
            } else {
                i + 1
            }],
{
    let r = q.remove(j);
    assert forall|a: int, b: int| 0 <= a < r.len() && 0 <= b < r.len() && a != b implies r[a]
        != r[b] by {
        let c = if a < j {
            a
        } else {
            a + 1
        };
        let d = if b < j {
            b
        } else {
            b + 1
        };
        assert(r[a] == q[c] && r[b] == q[d]);
    }
}

/// The number of rank `k` has no more than `k` numbers below it, and no more than those behind its
/// rank above it.
pub proof fn a_rank_counts(s: Seq<Single>, p: Seq<usize>, k: int)
    requires
        ascending(s, p),
        0 <= k < s.len(),
    ensures
        how_many_below(s, s[p[k] as int]) <= k,
        how_many_above(s, s[p[k] as int]) <= s.len() - 1 - k,
{
    let n = s.len() as int;
    let x = s[p[k] as int];
    let up = Seq::new((n - k) as nat, |i: int| p[k + i] as int);
    let down = Seq::new((k + 1) as nat, |i: int| p[i] as int);
    assert forall|i: int| 0 <= i < up.len() implies 0 <= #[trigger] up[i] < s.len() && !s[up[i]].lt(
        x,
    ) by {
        assert(0 <= p[k + i] < n);
        if i > 0 {
            let (a, b) = (s[p[k] as int], s[p[k + i] as int]);
            assert(a.lt(b) || (!b.lt(a) && p[k] < p[k + i]));
        }
    }
    assert forall|i: int| 0 <= i < down.len() implies 0 <= #[trigger] down[i] < s.len() && !x.lt(
        s[down[i]],
    ) by {
        assert(0 <= p[i] < n);
        if i < k {
            let (a, b) = (s[p[i] as int], s[p[k] as int]);
            assert(a.lt(b) || (!b.lt(a) && p[i] < p[k]));
        }
    }
    assert forall|i: int, j: int| 0 <= i < up.len() && 0 <= j < up.len() && i != j implies up[i]
        != up[j] by {
        assert(p[k + i] != p[k + j]);
    }
    assert forall|i: int, j: int| 0 <= i < down.len() && 0 <= j < down.len() && i != j implies down[i]
        != down[j] by {
        assert(p[i] != p[j]);
    }
    places_not_below(s, x, up);
    places_not_above(s, x, down);
}

/// A median is in the middle of the finite pixels of its window: no more than half of them are
/// below it, and fewer than half above.
pub proof fn a_median_is_in_the_middle(
    data: Seq<Single>,
    w: int,
    h: int,
    n: int,
    i: int,
    v: Single,
)
    requires
        is_median(data, w, h, n, i, v),
    ensures
        ({
            let (x0, x1) = window_spec(i % w, n, w);
            let (y0, y1) = window_spec(i / w, n, h);
            let s = finite_values(rect_spec(data, w, x0, x1, y0, y1));
            s.len() > 0 ==> {
                &&& 2 * how_many_below(s, v) <= s.len()
                &&& 2 * how_many_above(s, v) < s.len()
                &&& s.contains(v)
            }
        }),
{
    let (x0, x1) = window_spec(i % w, n, w);
    let (y0, y1) = window_spec(i / w, n, h);
    let s = finite_values(rect_spec(data, w, x0, x1, y0, y1));
    if s.len() > 0 {
        let k = (s.len() / 2) as int;
        let p = choose|p: Seq<usize>| #[trigger] ascending(s, p) && v == s[p[k] as int];
        a_rank_counts(s, p, k);
        assert(0 <= p[k] < s.len());
    }
}

/// A window of `n` holds the pixels around its middle: of an odd number as many to either side, of
/// an even number one more before it, as far as the image goes.
pub proof fn windows_are_around_their_middle(x: int, n: int, size: int, i: int)
    requires
        0 <= x < size,
        n > 1,
        0 <= i < size,
    ensures
        ({
            let (a, b) = window_spec(x, n, size);
            &&& 0 <= a <= x < b <= size
            &&& b - a <= n
            &&& a <= i < b <==> -n <= 2 * (i - x) < n
        }),
{
}

// ---------------------------------------------------------------------------
// Limits
// ---------------------------------------------------------------------------

/// The place at a fortieth of a list, or at thirty-nine fortieths, to rounding.
proof fn rank_of_fortieths(n: int, share: Single, c: int)
    requires
        0 < n <= usize::MAX,
        c == 1 || c == 39,
        share.is_finite(),
        !share.raw().neg,
        in_range(coarse(share), 143, 149),
        alike(40 * coarse(share), c * one(24), 1, parts(24)),
    ensures
        ({
            let (k, b) = (rank_spec(n, share), parts(24));
            &&& 0 <= k < n
            &&& 40 * k * b <= c * n * (b + 7)
            &&& c * n * b <= 40 * (k + 1) * (b + 7)
        }),
{
    let (o, b) = (one(24), parts(24));
    let s = coarse(share);
    lemma_pow2_pos(unit_exp(24));
    lemma2_to64();
    lemma2_to64_rest();
    let count = Single::from_int_spec(n);
    coarse_integer(n);
    let m = coarse(count);
    let no = n * o;
    assert(in_range(n, 0, 64));
    range_product(n, o, 0, 64, 149, 149);
    assert(m * 1 == m);
    range_quotient(m, 1, no, 149, 213, 0, 0, 2, b);
    range_product(m, s, 148, 214, 143, 149);
    range_ample(m * s, o, 291, 363, 149, 149, 24);
    coarse_times(count, share);
    let z = count.times(share);
    let y = coarse(z);
    // Forty times the place is alike to the share.
    alike_times(y * o, m * s, 40, 2, b);
    alike_times(40 * s, c * o, m, 1, b);
    assert((m * s) * 40 == (40 * s) * m && (c * o) * m == (c * m) * o && (y * o) * 40 == (40 * y)
        * o) by (nonlinear_arith);
    alike_chain((40 * y) * o, (40 * s) * m, (c * m) * o, 2, 1, b);
    assert(c * m >= 0) by (nonlinear_arith)
        requires
            c >= 0,
            m >= 0,
    ;
    alike_cancel(40 * y, c * m, o, 4, b);
    alike_times(m, no, c, 2, b);
    assert(m * c == c * m && no * c == c * no) by (nonlinear_arith);
    alike_chain(40 * y, c * m, c * no, 4, 2, b);
    // The whole place.
    let hi = usize::MAX as int;
    coarse_whole(z, Whole::Trunc, hi);
    let k = z.whole_spec(Whole::Trunc, 0, hi);
    let cn = c * n;
    assert(c * no == cn * o) by (nonlinear_arith)
        requires
            no == n * o,
            cn == c * n,
    ;
    assert(40 * k * b <= cn * (b + 7)) by {
        assert((40 * k * b) * o <= (40 * y) * b) by (nonlinear_arith)
            requires
                k * o <= y,
                b > 0,
        ;
        assert((cn * o) * (b + 7) == (cn * (b + 7)) * o) by (nonlinear_arith);
        assert(40 * k * b <= cn * (b + 7)) by (nonlinear_arith)
            requires
                (40 * k * b) * o <= (cn * (b + 7)) * o,
                o > 0,
        ;
    }
    assert(k < n) by {
        if k >= n {
            assert(40 * n * b <= 40 * k * b) by (nonlinear_arith)
                requires
                    n <= k,
                    b > 0,
            ;
            assert(cn * (b + 7) <= 39 * n * (b + 7)) by (nonlinear_arith)
                requires
                    cn == c * n,
                    c <= 39,
                    n > 0,
                    b > 0,
            ;
            assert(39 * n * (b + 7) < 40 * n * b) by (nonlinear_arith)
                requires
                    n > 0,
                    b == 0x100_0000,
            ;
        }
    }
    assert(cn * b <= 40 * (k + 1) * (b + 7)) by {
        assert((40 * y) * (b + 7) <= (40 * (k + 1) * (b + 7)) * o) by (nonlinear_arith)
            requires
                y <= (k + 1) * o,
                b > 0,
        ;
        assert((cn * o) * b == (cn * b) * o) by (nonlinear_arith);
        assert(cn * b <= 40 * (k + 1) * (b + 7)) by (nonlinear_arith)
            requires
                (cn * b) * o <= (40 * (k + 1) * (b + 7)) * o,
                o > 0,
        ;
    }
}

/// The shares by which the limits are chosen.
proof fn shares()
    ensures
        ({
            let (s, t, o, b) = (
                coarse(Single { bits: 0x3ccc_cccd }),
                coarse(Single { bits: 0x3f79_999a }),
                one(24),
                parts(24),
            );
            &&& in_range(s, 143, 149)
            &&& in_range(t, 143, 149)
            &&& alike(40 * s, 1 * o, 1, b)
            &&& alike(40 * t, 39 * o, 1, b)
        }),
{
    lemma2_to64();
    size_by_bits(0x3ccc_cccd, 121, 0x4c_cccd, 24);
    size_by_bits(0x3f79_999a, 126, 0x79_999a, 24);
    lemma_pow2_adds(29, 120);
    lemma_pow2_adds(24, 125);
    lemma_pow2_adds(23, 120);
    lemma_pow2_adds(24, 120);
    lemma_pow2_adds(23, 125);
    powers_grow(144, 149);
    powers_grow(143, 148);
    let (w, z) = (pow2(120) as int, pow2(125) as int);
    lemma_pow2_pos(120);
    lemma_pow2_pos(125);
    let (s, t, o, b) = (0xcc_cccd * w, 0xf9_999a * z, one(24), parts(24));
    assert(o == 0x2000_0000 * w && o == 0x100_0000 * z);
    assert((40 * s) * b <= (1 * o) * (b + 1) && (1 * o) * b <= (40 * s) * (b + 1))
        by (nonlinear_arith)
        requires
            s == 0xcc_cccd * w,
            o == 0x2000_0000 * w,
            w > 0,
            b == 0x100_0000,
    ;
    assert((40 * t) * b <= (39 * o) * (b + 1) && (39 * o) * b <= (40 * t) * (b + 1))
        by (nonlinear_arith)
        requires
            t == 0xf9_999a * z,
            o == 0x100_0000 * z,
            z > 0,
            b == 0x100_0000,
    ;
}

/// Whether two numbers of a list leave out a fortieth part of it at either end, to rounding: no more
/// than a fortieth is below the lower one, but at least a fortieth is no more than it, and so at the
/// upper end.
pub open spec fn leave_out_a_fortieth(s: Seq<Single>, low: Single, high: Single) -> bool {
    let (n, b) = (s.len() as int, parts(24));
    &&& s.contains(low)
    &&& s.contains(high)
    &&& 40 * how_many_below(s, low) * b <= n * (b + 7)
    &&& n * b <= 40 * (n - how_many_above(s, low)) * (b + 7)
    &&& 39 * n * b <= 40 * (n - how_many_above(s, high)) * (b + 7)
    &&& 40 * how_many_below(s, high) * b <= 39 * n * (b + 7)
}

/// The limits are such numbers among the finite pixels, or, where these are not in order, the least
/// and the greatest pixel.
pub proof fn limits_leave_out_a_fortieth(img: FitsImage, r: Limits)
    requires
        is_zscale(img, r),
        0 < finite_values(img.data@).len() <= usize::MAX,
    ensures
        exists|low: Single, high: Single|
            #![trigger leave_out_a_fortieth(finite_values(img.data@), low, high)]
            leave_out_a_fortieth(finite_values(img.data@), low, high) && r == if high.le(low) {
                Limits { low: img.min, high: img.max }
            } else {
                Limits { low, high }
            },
{
    let s = finite_values(img.data@);
    let n = s.len() as int;
    let (a, b) = (Single { bits: 0x3ccc_cccd }, Single { bits: 0x3f79_999a });
    shares();
    rank_of_fortieths(n, a, 1);
    rank_of_fortieths(n, b, 39);
    let (i, j) = (rank_spec(n, a), rank_spec(n, b));
    let p = choose|p: Seq<usize>| #[trigger]
        ascending(s, p) && ({
            let low = s[p[i] as int];
            let high = s[p[j] as int];
            r == if high.le(low) {
                Limits { low: img.min, high: img.max }
            } else {
                Limits { low, high }
            }
        });
    let (low, high) = (s[p[i] as int], s[p[j] as int]);
    a_rank_counts(s, p, i);
    a_rank_counts(s, p, j);
    assert(0 <= p[i] < n && 0 <= p[j] < n);
    let c = parts(24);
    let (below, above) = (how_many_below(s, low) as int, how_many_above(s, low) as int);
    assert(40 * below * c <= 40 * i * c) by (nonlinear_arith)
        requires
            below <= i,
            c > 0,
    ;
    assert(40 * (i + 1) * (c + 7) <= 40 * (n - above) * (c + 7)) by (nonlinear_arith)
        requires
            i + 1 <= n - above,
            c > 0,
    ;
    let (under, over) = (how_many_below(s, high) as int, how_many_above(s, high) as int);
    assert(40 * under * c <= 40 * j * c) by (nonlinear_arith)
        requires
            under <= j,
            c > 0,
    ;
    assert(40 * (j + 1) * (c + 7) <= 40 * (n - over) * (c + 7)) by (nonlinear_arith)
        requires
            j + 1 <= n - over,
            c > 0,
    ;
    assert(leave_out_a_fortieth(s, low, high));
}

} // verus!
