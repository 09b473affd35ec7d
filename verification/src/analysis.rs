//! Measurements: statistics, centroids, radial profiles, tables of pixels.

use crate::arith::Whole;
use crate::filters::pixel;
use crate::fits::{missing, FitsImage};
use crate::frame::Frame;
use crate::image::{finite_of, finite_values};
use crate::marker::{Marker, Shape};
use crate::num::{Double, Single};
use crate::pointer::{shown_value, value_shown};
use crate::show::{put_right, right_aligned};
use crate::sorting::{ascending, ascending_order};
use crate::text::put_text;
use vstd::prelude::*;

verus! {

// ---------------------------------------------------------------------------
// Statistics
// ---------------------------------------------------------------------------

/// The numbers of `v` in the order that `p` gives.
pub open spec fn arranged(v: Seq<Single>, p: Seq<usize>) -> Seq<Single> {
    Seq::new(p.len(), |i: int| v[p[i] as int])
}

/// The sum of the numbers, one after the other.
pub open spec fn sum_spec(v: Seq<Single>) -> Double
    decreases v.len(),
{
    if v.len() == 0 {
        Double { bits: 0 }
    } else {
        sum_spec(v.drop_last()).plus(v.last().widen())
    }
}

/// The sum of the squares of the distances from `mean`, one after the other.
pub open spec fn squares_spec(v: Seq<Single>, mean: Double) -> Double
    decreases v.len(),
{
    if v.len() == 0 {
        Double { bits: 0 }
    } else {
        let d = v.last().widen().minus(mean);
        squares_spec(v.drop_last(), mean).plus(d.times(d))
    }
}

/// The statistics of an image.
#[derive(Clone, Copy, Debug, PartialEq, Eq, Structural)]
pub struct Stats {
    pub min: Double,
    pub max: Double,
    pub mean: Double,
    pub median: Double,
    pub std: Double,
}

/// The statistics of numbers in ascending order: the extremes, the mean, the one in the
/// middle or the mean of the two, and the root of the mean square distance from the mean.
pub open spec fn stats_spec(s: Seq<Single>) -> Stats {
    let n = s.len();
    let count = Double::from_int_spec(n as int);
    let mean = sum_spec(s).over(count);
    Stats {
        min: s[0].widen(),
        max: s[n - 1].widen(),
        mean,
        median: if n % 2 == 1 {
            s[n as int / 2].widen()
        } else {
            s[n as int / 2 - 1].widen().plus(s[n as int / 2].widen()).times(Double { bits: 0x3fe0_0000_0000_0000 })
        },
        std: squares_spec(s, mean).over(count).sqrt(),
    }
}

/// Whether a result holds the statistics of an image's finite pixels: of the pixels in
/// ascending order, or nothing where there are none.
pub open spec fn is_stats_of(img: FitsImage, r: Option<Stats>) -> bool {
    let v = finite_values(img.data@);
    match r {
        Some(st) => v.len() > 0 && exists|p: Seq<usize>| #[trigger]
            ascending(v, p) && st == stats_spec(arranged(v, p)),
        None => v.len() == 0,
    }
}

/// The statistics of the finite pixels of an image, if there are any.
pub fn image_stats(img: &FitsImage) -> (r: Option<Stats>)
    ensures
        is_stats_of(*img, r),
{
    let v = finite_of(&img.data);
    let n: usize = v.len();
    if n == 0 {
        return None;
    }
    let keys = v.clone();
    assert(keys@ =~= v@);
    let p = ascending_order(keys);
    let ghost want = arranged(v@, p@);
    let mut s: Vec<Single> = Vec::new();
    for i in 0..n
        invariant
            n == v@.len() == p@.len(),
            ascending(v@, p@),
            want == arranged(v@, p@),
            s@ =~= want.take(i as int),
    {
        assert(p@[i as int] < n);
        s.push(v[p[i]]);
    }
    assert(s@ =~= want);
    let count: Double = Double::from_nat(n as u64);
    let mut sum: Double = Double { bits: 0 };
    assert(s@.take(0) =~= Seq::empty());
    for i in 0..n
        invariant
            n == s@.len(),
            sum == sum_spec(s@.take(i as int)),
    {
        assert(s@.take(i + 1).drop_last() =~= s@.take(i as int));
        sum = sum.plus(s[i].widen());
    }
    let mean: Double = sum.over(count);
    let mut squares: Double = Double { bits: 0 };
    for i in 0..n
        invariant
            n == s@.len(),
            squares == squares_spec(s@.take(i as int), mean),
    {
        assert(s@.take(i + 1).drop_last() =~= s@.take(i as int));
        let d: Double = s[i].widen().minus(mean);
        squares = squares.plus(d.times(d));
    }
    assert(s@.take(n as int) =~= s@);
    let median: Double = if n % 2 == 1 {
        s[n / 2].widen()
    } else {
        s[n / 2 - 1].widen().plus(s[n / 2].widen()).times(Double { bits: 0x3fe0_0000_0000_0000 })
    };
    assert(ascending(finite_values(img.data@), p@));
    Some(
        Stats {
            min: s[0].widen(),
            max: s[n - 1].widen(),
            mean,
            median,
            std: squares.over(count).sqrt(),
        },
    )
}

// ---------------------------------------------------------------------------
// Apertures
// ---------------------------------------------------------------------------

/// A pixel in an aperture: its position, counted from one, and its value.
#[derive(Clone, Copy, Debug, PartialEq, Eq, Structural)]
pub struct Sample {
    pub x: Double,
    pub y: Double,
    pub v: Single,
}

/// A circle on the image.
#[derive(Clone, Copy, Debug, PartialEq, Eq, Structural)]
pub struct Aperture {
    pub x: Double,
    pub y: Double,
    pub r: Double,
}

impl Aperture {
    /// The first column or row that the circle can reach.
    pub open spec fn first(center: Double, r: Double) -> int {
        let n = center.minus(r).whole_spec(Whole::Floor, i64::MIN as int, i64::MAX as int);
        if n > 1 {
            n
        } else {
            1
        }
    }

    /// The last column or row that the circle can reach.
    pub open spec fn last(center: Double, r: Double, size: int) -> int {
        let n = center.plus(r).whole_spec(Whole::Ceil, i64::MIN as int, i64::MAX as int);
        if n < size {
            n
        } else {
            size
        }
    }

    /// The sample at a column and a row, both counted from one, if it is in the circle and
    /// finite.
    pub open spec fn sample(self, img: FitsImage, x: int, y: int) -> Option<Sample> {
        let fx = Double::from_int_spec(x);
        let fy = Double::from_int_spec(y);
        let dx = fx.minus(self.x);
        let dy = fy.minus(self.y);
        let v = img.data@[(y - 1) * img.width + (x - 1)];
        if self.r.times(self.r).lt(dx.times(dx).plus(dy.times(dy))) || !v.is_finite() {
            None
        } else {
            Some(Sample { x: fx, y: fy, v })
        }
    }

    /// The samples of a row, up to but not at the column `x`.
    pub open spec fn row(self, img: FitsImage, x: int, y: int) -> Seq<Sample>
        decreases x - Aperture::first(self.x, self.r),
    {
        if x <= Aperture::first(self.x, self.r) {
            Seq::empty()
        } else {
            match self.sample(img, x - 1, y) {
                Some(s) => self.row(img, x - 1, y).push(s),
                None => self.row(img, x - 1, y),
            }
        }
    }

    /// The samples of the rows, up to but not at the row `y`.
    pub open spec fn rows(self, img: FitsImage, y: int) -> Seq<Sample>
        decreases y - Aperture::first(self.y, self.r),
    {
        if y <= Aperture::first(self.y, self.r) {
            Seq::empty()
        } else {
            self.rows(img, y - 1) + self.row(
                img,
                Aperture::last(self.x, self.r, img.width as int) + 1,
                y - 1,
            )
        }
    }

    /// The finite pixels in the circle, row by row.
    pub open spec fn samples(self, img: FitsImage) -> Seq<Sample> {
        self.rows(img, Aperture::last(self.y, self.r, img.height as int) + 1)
    }
}

fn reach(center: Double, r: Double, size: usize) -> (r2: (i128, i128))
    ensures
        r2.0 == Aperture::first(center, r),
        r2.1 == Aperture::last(center, r, size as int),
        r2.0 >= 1,
        r2.1 <= size,
        r2.1 <= i64::MAX,
        r2.1 >= i64::MIN,
        r2.0 <= i64::MAX,
{
    let a: i128 = center.minus(r).whole(Whole::Floor, i64::MIN as i128, i64::MAX as i128);
    let b: i128 = center.plus(r).whole(Whole::Ceil, i64::MIN as i128, i64::MAX as i128);
    let lo: i128 = if a > 1 {
        a
    } else {
        1
    };
    let hi: i128 = if b < size as i128 {
        b
    } else {
        size as i128
    };
    (lo, hi)
}

/// The finite pixels in a circle, row by row.
pub fn aperture_iter(img: &FitsImage, a: Aperture) -> (r: Vec<Sample>)
    requires
        img.wf(),
    ensures
        r@ == a.samples(*img),
        forall|i: int| 0 <= i < r@.len() ==> (#[trigger] r@[i]).v.is_finite(),
{
    let (w, h): (usize, usize) = (img.width, img.height);
    let r2: Double = a.r.times(a.r);
    let (x_lo, x_hi): (i128, i128) = reach(a.x, a.r, w);
    let (y_lo, y_hi): (i128, i128) = reach(a.y, a.r, h);
    let mut out: Vec<Sample> = Vec::new();
    let mut y: i128 = y_lo;
    while y <= y_hi
        invariant
            img.wf(),
            w == img.width,
            h == img.height,
            r2 == a.r.times(a.r),
            x_lo == Aperture::first(a.x, a.r) >= 1,
            x_hi == Aperture::last(a.x, a.r, w as int) <= w,
            y_lo == Aperture::first(a.y, a.r) >= 1,
            y_hi == Aperture::last(a.y, a.r, h as int) <= h,
            y_lo <= y,
            y <= y_hi + 1 || y == y_lo,
            y_hi <= i64::MAX,
            x_hi <= i64::MAX,
            y_lo <= i64::MAX,
            x_lo <= i64::MAX,
            out@ == a.rows(*img, y as int),
            forall|i: int| 0 <= i < out@.len() ==> (#[trigger] out@[i]).v.is_finite(),
        decreases y_hi + 1 - y,
    {
        let ghost before = out@;
        let mut x: i128 = x_lo;
        assert(out@ =~= before + a.row(*img, x as int, y as int));
        while x <= x_hi
            invariant
                img.wf(),
                w == img.width,
                h == img.height,
                r2 == a.r.times(a.r),
                x_lo == Aperture::first(a.x, a.r) >= 1,
                x_hi == Aperture::last(a.x, a.r, w as int) <= w,
                1 <= y <= h,
                y <= i64::MAX,
                x_hi <= i64::MAX,
                x_lo <= x,
                x <= x_hi + 1 || x == x_lo,
                x_lo <= i64::MAX,
                out@ == before + a.row(*img, x as int, y as int),
                forall|i: int| 0 <= i < out@.len() ==> (#[trigger] out@[i]).v.is_finite(),
            decreases x_hi + 1 - x,
        {
            let fx: Double = Double::from_int(x as i64);
            let fy: Double = Double::from_int(y as i64);
            let dx: Double = fx.minus(a.x);
            let dy: Double = fy.minus(a.y);
            let v: Single = pixel(&img.data, w, h, (x - 1) as usize, (y - 1) as usize);
            if !r2.lt(dx.times(dx).plus(dy.times(dy))) && v.is_finite() {
                out.push(Sample { x: fx, y: fy, v });
                assert(out@ =~= before + a.row(*img, x + 1, y as int));
            }
            x = x + 1;
        }
        proof {
            row_past_end(a, *img, x as int, x_hi + 1, y as int);
        }
        y = y + 1;
    }
    proof {
        if y > y_hi + 1 {
            rows_past_end(a, *img, y as int, y_hi + 1);
        }
    }
    out
}

/// No column comes before the first.
proof fn row_past_end(a: Aperture, img: FitsImage, x: int, end: int, y: int)
    requires
        x == end || (x == Aperture::first(a.x, a.r) && end <= x),
    ensures
        a.row(img, x, y) == a.row(img, end, y),
{
}

/// No row comes before the first.
proof fn rows_past_end(a: Aperture, img: FitsImage, y: int, end: int)
    requires
        y == Aperture::first(a.y, a.r),
        end <= y,
    ensures
        a.rows(img, y) == a.rows(img, end),
{
}

/// The values of samples.
pub open spec fn sample_values(s: Seq<Sample>) -> Seq<Single> {
    Seq::new(s.len(), |i: int| s[i].v)
}

/// The sums of a centroid: of the weights, of the weighted positions, and the number of
/// samples with a weight.
pub struct Moments {
    pub w: Double,
    pub x: Double,
    pub y: Double,
    pub n: nat,
}

/// The sums over the first `k` samples in the order of `p`. A sample weighs as much as it
/// lies above the background.
pub open spec fn moments(s: Seq<Sample>, p: Seq<usize>, bg: Single, k: nat) -> Moments
    decreases k,
{
    if k == 0 {
        Moments { w: Double { bits: 0 }, x: Double { bits: 0 }, y: Double { bits: 0 }, n: 0 }
    } else {
        let m = moments(s, p, bg, (k - 1) as nat);
        let q = s[p[k - 1] as int];
        let weight = q.v.minus(bg).max(Single { bits: 0 }).widen();
        if weight.le(Double { bits: 0 }) {
            m
        } else {
            Moments {
                w: m.w.plus(weight),
                x: m.x.plus(weight.times(q.x)),
                y: m.y.plus(weight.times(q.y)),
                n: m.n + 1,
            }
        }
    }
}

/// The centroid of samples taken in the order of `p`: the mean position weighted by the
/// height above the median; none where fewer than three samples have a weight.
pub open spec fn centroid_spec(s: Seq<Sample>, p: Seq<usize>) -> Option<(Double, Double)> {
    let bg = s[p[s.len() as int / 2] as int].v;
    let m = moments(s, p, bg, s.len());
    if m.n < 3 || m.w.le(Double { bits: 0 }) {
        None
    } else {
        Some((m.x.over(m.w), m.y.over(m.w)))
    }
}

/// Whether a result is the centroid of the pixels in a circle, with their background taken from
/// the pixels in ascending order; there is none for fewer than four pixels.
pub open spec fn is_centroid(img: FitsImage, a: Aperture, r: Option<(Double, Double)>) -> bool {
    let s = a.samples(img);
    if s.len() < 4 {
        r is None
    } else {
        exists|p: Seq<usize>| #[trigger]
            ascending(sample_values(s), p) && r == centroid_spec(s, p)
    }
}

/// The centroid of the pixels in a circle; none where there are fewer than four.
pub fn compute_centroid(img: &FitsImage, a: Aperture) -> (r: Option<(Double, Double)>)
    requires
        img.wf(),
    ensures
        is_centroid(*img, a, r),
{
    let s = aperture_iter(img, a);
    let n: usize = s.len();
    if n < 4 {
        return None;
    }
    let mut keys: Vec<Single> = Vec::new();
    for i in 0..n
        invariant
            n == s@.len(),
            forall|k: int| 0 <= k < s@.len() ==> (#[trigger] s@[k]).v.is_finite(),
            keys@ =~= sample_values(s@).take(i as int),
            forall|k: int| 0 <= k < keys@.len() ==> !(#[trigger] keys@[k]).is_nan(),
    {
        assert(s@[i as int].v.is_finite());
        keys.push(s[i].v);
    }
    assert(keys@ =~= sample_values(s@));
    let p = ascending_order(keys);
    assert(p@[n as int / 2] < n);
    let bg: Single = s[p[n / 2]].v;
    let mut sw: Double = Double { bits: 0 };
    let mut sx: Double = Double { bits: 0 };
    let mut sy: Double = Double { bits: 0 };
    let mut count: usize = 0;
    for i in 0..n
        invariant
            n == s@.len() == p@.len(),
            ascending(sample_values(s@), p@),
            count <= i,
            moments(s@, p@, bg, i as nat) == (Moments { w: sw, x: sx, y: sy, n: count as nat }),
    {
        assert(p@[i as int] < n);
        let q: Sample = s[p[i]];
        let weight: Double = q.v.minus(bg).max(Single { bits: 0 }).widen();
        if !weight.le(Double { bits: 0 }) {
            sw = sw.plus(weight);
            sx = sx.plus(weight.times(q.x));
            sy = sy.plus(weight.times(q.y));
            count = count + 1;
        }
    }
    assert(ascending(sample_values(a.samples(*img)), p@));
    if count < 3 || sw.le(Double { bits: 0 }) {
        None
    } else {
        Some((sx.over(sw), sy.over(sw)))
    }
}

/// The bin of `n` that a sample falls into, by its distance from the centre.
pub open spec fn ring_spec(a: Aperture, s: Sample, n: int) -> int {
    let dx = s.x.minus(a.x);
    let dy = s.y.minus(a.y);
    let d = dx.times(dx).plus(dy.times(dy)).sqrt();
    let b = d.over(a.r).times(Double::from_int_spec(n)).whole_spec(
        Whole::Floor,
        0,
        usize::MAX as int,
    );
    if b < n - 1 {
        b
    } else {
        n - 1
    }
}

/// The sum and the number of the samples in the bin `b`.
pub open spec fn ring_sum(a: Aperture, s: Seq<Sample>, n: int, b: int) -> (Double, nat)
    decreases s.len(),
{
    if s.len() == 0 {
        (Double { bits: 0 }, 0)
    } else {
        let (sum, count) = ring_sum(a, s.drop_last(), n, b);
        if ring_spec(a, s.last(), n) == b {
            (sum.plus(s.last().v.widen()), count + 1)
        } else {
            (sum, count)
        }
    }
}

/// The mean of the samples in the bin `b`; missing where there is none.
pub open spec fn ring_mean(a: Aperture, s: Seq<Sample>, n: int, b: int) -> Single {
    let (sum, count) = ring_sum(a, s, n, b);
    if count == 0 {
        missing()
    } else {
        sum.over(Double::from_int_spec(count as int)).narrow()
    }
}

/// The circle with a radius of at least one pixel.
pub open spec fn at_least_one(a: Aperture) -> Aperture {
    Aperture { r: a.r.max(Double { bits: 0x3ff0_0000_0000_0000 }), ..a }
}

/// The mean pixel in each of `bins` rings of equal width around a position, from the innermost ring
/// to the outermost.
pub open spec fn profile_spec(img: FitsImage, a: Aperture, bins: int) -> Seq<Single> {
    Seq::new(
        bins as nat,
        |b: int| ring_mean(at_least_one(a), at_least_one(a).samples(img), bins, b),
    )
}

/// The mean pixel in each of `bins` rings of equal width around a position.
pub fn compute_radial_profile(img: &FitsImage, a: Aperture, bins: usize) -> (r: Vec<Single>)
    requires
        img.wf(),
        bins > 0,
    ensures
        r@ == profile_spec(*img, a, bins as int),
{
    let a = Aperture { r: a.r.max(Double { bits: 0x3ff0_0000_0000_0000 }), ..a };
    let s = aperture_iter(img, a);
    let mut sums: Vec<Double> = vec![Double { bits: 0 }; bins];
    let mut counts: Vec<usize> = vec![0usize; bins];
    assert(s@.take(0) =~= Seq::empty());
    for i in 0..s.len()
        invariant
            bins > 0,
            sums@.len() == bins,
            counts@.len() == bins,
            forall|b: int|
                #![trigger sums@[b]]
                #![trigger counts@[b]]
                0 <= b < bins ==> (sums@[b], counts@[b] as nat) == ring_sum(
                    a,
                    s@.take(i as int),
                    bins as int,
                    b,
                ) && counts@[b] <= i,
    {
        assert(s@.take(i + 1).drop_last() =~= s@.take(i as int));
        let dx: Double = s[i].x.minus(a.x);
        let dy: Double = s[i].y.minus(a.y);
        let d: Double = dx.times(dx).plus(dy.times(dy)).sqrt();
        let k: usize = d.over(a.r).times(Double::from_nat(bins as u64)).whole(
            Whole::Floor,
            0,
            usize::MAX as i128,
        ) as usize;
        let b: usize = if k < bins - 1 {
            k
        } else {
            bins - 1
        };
        assert(b == ring_spec(a, s@[i as int], bins as int));
        let ghost (s0, c0) = (sums@, counts@);
        sums[b] = sums[b].plus(s[i].v.widen());
        counts[b] = counts[b] + 1;
        assert forall|j: int|
            #![trigger sums@[j]]
            #![trigger counts@[j]]
            0 <= j < bins implies (sums@[j], counts@[j] as nat) == ring_sum(
            a,
            s@.take(i + 1),
            bins as int,
            j,
        ) && counts@[j] <= i + 1 by {
            assert((s0[j], c0[j] as nat) == ring_sum(a, s@.take(i as int), bins as int, j));
        }
    }
    assert(s@.take(s@.len() as int) =~= s@);
    let mut out: Vec<Single> = Vec::new();
    for b in 0..bins
        invariant
            sums@.len() == bins,
            counts@.len() == bins,
            forall|j: int|
                #![trigger sums@[j]]
                #![trigger counts@[j]]
                0 <= j < bins ==> (sums@[j], counts@[j] as nat) == ring_sum(a, s@, bins as int, j),
            out@ =~= Seq::new(b as nat, |j: int| ring_mean(a, s@, bins as int, j)),
    {
        let x: Single = if counts[b] == 0 {
            Single { bits: 0x7fc0_0000 }
        } else {
            sums[b].over(Double::from_nat(counts[b] as u64)).narrow()
        };
        assert((sums@[b as int], counts@[b as int] as nat) == ring_sum(a, s@, bins as int, b as int));
        out.push(x);
    }
    out
}

/// The circle that stands for a region, if it has a natural one.
pub open spec fn aperture_spec(s: Shape) -> Option<Aperture> {
    match s {
        Shape::Circle { center, r } => Some(Aperture { x: center.x, y: center.y, r }),
        Shape::Annulus { center, r_outer, .. } => Some(
            Aperture { x: center.x, y: center.y, r: r_outer },
        ),
        Shape::Ellipse { center, a, b, .. } => Some(
            Aperture { x: center.x, y: center.y, r: a.max(b) },
        ),
        Shape::Box { center, w, h, .. } => Some(
            Aperture { x: center.x, y: center.y, r: w.max(h).times(Double { bits: 0x3fe0_0000_0000_0000 }) },
        ),
        _ => None,
    }
}

/// The circle that stands for a region: its own, the outer one of an annulus, one of the
/// longer axis of an ellipse, or one of half the longer side of a box.
pub fn marker_aperture(m: &Marker) -> (r: Option<Aperture>)
    ensures
        r == aperture_spec(m.shape),
{
    match &m.shape {
        Shape::Circle { center, r } => Some(Aperture { x: center.x, y: center.y, r: *r }),
        Shape::Annulus { center, r_inner, r_outer } => Some(
            Aperture { x: center.x, y: center.y, r: *r_outer },
        ),
        Shape::Ellipse { center, a, b, theta_deg } => Some(
            Aperture { x: center.x, y: center.y, r: a.max(*b) },
        ),
        Shape::Box { center, w, h, theta_deg } => Some(
            Aperture { x: center.x, y: center.y, r: w.max(*h).times(Double { bits: 0x3fe0_0000_0000_0000 }) },
        ),
        _ => None,
    }
}

/// Whether a region has a circle.
pub open spec fn has_aperture(m: Marker) -> bool {
    aperture_spec(m.shape) is Some
}

/// The place of the region to measure: the selected one if it has a circle, else the first
/// that has one.
pub open spec fn is_measured(f: Frame, r: Option<usize>) -> bool {
    let selected = f.selected_marker matches Some(i) && i < f.markers@.len() && has_aperture(
        f.markers@[i as int],
    );
    match r {
        Some(i) => {
            &&& i < f.markers@.len()
            &&& has_aperture(f.markers@[i as int])
            &&& if selected {
                f.selected_marker == Some(i)
            } else {
                forall|j: int| 0 <= j < i ==> !has_aperture(#[trigger] f.markers@[j])
            }
        },
        None => forall|j: int| 0 <= j < f.markers@.len() ==> !has_aperture(#[trigger] f.markers@[j]),
    }
}

/// The place of the region to measure.
pub fn measured_region(f: &Frame) -> (r: Option<usize>)
    ensures
        is_measured(*f, r),
{
    if let Some(i) = f.selected_marker {
        if i < f.markers.len() && marker_aperture(&f.markers[i]).is_some() {
            return Some(i);
        }
    }
    for i in 0..f.markers.len()
        invariant
            forall|j: int| 0 <= j < i ==> !has_aperture(#[trigger] f.markers@[j]),
            !(f.selected_marker matches Some(k) && k < f.markers@.len() && has_aperture(
                f.markers@[k as int],
            )),
    {
        if marker_aperture(&f.markers[i]).is_some() {
            return Some(i);
        }
    }
    None
}

// ---------------------------------------------------------------------------
// Pixel table
// ---------------------------------------------------------------------------

/// The text of a cell of the pixel table: the pixel that is shown at a point of the display.
pub open spec fn table_cell(f: Frame, x: Double, y: Double) -> Seq<char> {
    match shown_value(f, x, y) {
        Some(v) => right_aligned(v.fixed_spec(3), 9).push(' '),
        None => "    ——   "@,
    }
}

/// A coordinate of the display, so many pixels on.
pub open spec fn beside(x: Double, d: int) -> Double {
    x.plus(Double::from_int_spec(d))
}

/// The first `n` cells of a row of the pixel table around a column.
pub open spec fn table_row(f: Frame, x: Double, y: Double, n: nat) -> Seq<char>
    decreases n,
{
    if n == 0 {
        Seq::empty()
    } else {
        table_row(f, x, y, (n - 1) as nat) + table_cell(f, beside(x, n - 3), y)
    }
}

/// The first `n` rows of the pixel table around a point of the display, from the top.
pub open spec fn table_rows(f: Frame, x: Double, y: Double, n: nat) -> Seq<char>
    decreases n,
{
    if n == 0 {
        Seq::empty()
    } else {
        table_rows(f, x, y, (n - 1) as nat) + table_row(f, x, beside(y, n - 3), 5) + " │ "@
    }
}

/// The five by five pixels that are shown around a point of the display, in three decimals.
pub fn pixel_table(f: &Frame, x: Double, y: Double) -> (r: Vec<char>)
    requires
        f.wf(),
    ensures
        r@ == table_rows(*f, x, y, 5),
{
    let mut out: Vec<char> = Vec::new();
    for j in 0..5i64
        invariant
            f.wf(),
            out@ == table_rows(*f, x, y, j as nat),
    {
        let ghost before = out@;
        let row: Double = y.plus(Double::from_int(j - 2));
        assert(row == beside(y, j - 2));
        assert(out@ =~= before + table_row(*f, x, row, 0));
        for i in 0..5i64
            invariant
                f.wf(),
                0 <= j < 5,
                out@ == before + table_row(*f, x, row, i as nat),
        {
            let column: Double = x.plus(Double::from_int(i - 2));
            assert(column == beside(x, i - 2));
            let ghost was = out@;
            match value_shown(f, column, row) {
                Some(v) => {
                    let t = v.fixed(3);
                    put_right(&mut out, &t, 9);
                    out.push(' ');
                },
                None => {
                    put_text(&mut out, "    ——   ");
                },
            }
            assert(out@ =~= was + table_cell(*f, column, row));
            assert(out@ =~= before + table_row(*f, x, row, (i + 1) as nat));
        }
        put_text(&mut out, " │ ");
        assert(out@ =~= table_rows(*f, x, y, (j + 1) as nat));
    }
    out
}

} // verus!
