//! Filters: smoothing and block binning. The size of the image and its coordinate
//! system stay; a missing pixel counts for nothing.

use crate::arith::Whole;
use crate::color::{pixel_place, place_pixel};
use crate::fits::{finite_minmax, minmax_spec, missing, FitsImage};
use crate::image::{clone_image, copy_wcs, finite_of, finite_values, same_image, same_wcs};
use crate::num::{Double, Single};
use crate::sorting::{ascending, ascending_order, ranked};
use vstd::prelude::*;

verus! {

/// Whether `r` is `img` with other pixels.
pub open spec fn is_filtered(r: FitsImage, img: FitsImage, data: Seq<Single>) -> bool {
    &&& r.width == img.width
    &&& r.height == img.height
    &&& r.data@ == data
    &&& (r.min, r.max) == minmax_spec(data)
    &&& same_wcs(r.wcs, img.wcs)
}

fn with_data(img: &FitsImage, data: Vec<Single>) -> (r: FitsImage)
    ensures
        is_filtered(r, *img, data@),
{
    let (min, max): (Single, Single) = finite_minmax(&data);
    FitsImage { width: img.width, height: img.height, data, min, max, wcs: copy_wcs(&img.wcs) }
}

// ---------------------------------------------------------------------------
// Filters along a line
// ---------------------------------------------------------------------------

/// A filter along a line of pixels.
pub enum LineFilter {
    /// A mean with the given weights, the middle one at the pixel itself.
    Weighted(Vec<Single>),
    /// A mean over as many pixels, the middle one being the pixel itself or, of an even
    /// number, the one before the middle.
    Mean(u32),
}

/// The sum of the weighted pixels and of the weights, after the first `t` weights.
pub open spec fn weighted_sums(line: Seq<Single>, x: int, kernel: Seq<Single>, t: nat) -> (
    Single,
    Single,
)
    decreases t,
{
    if t == 0 {
        (Single { bits: 0 }, Single { bits: 0 })
    } else {
        let (acc, weight) = weighted_sums(line, x, kernel, (t - 1) as nat);
        let at = x + (t - 1) - kernel.len() / 2;
        let k = kernel[t - 1];
        if 0 <= at < line.len() && line[at].is_finite() {
            (acc.plus(line[at].times(k)), weight.plus(k))
        } else {
            (acc, weight)
        }
    }
}

/// The sum of the pixels of a window of `n`, and their number, after the first `t`.
pub open spec fn window_sums(line: Seq<Single>, x: int, n: int, t: nat) -> (Single, nat)
    decreases t,
{
    if t == 0 {
        (Single { bits: 0 }, 0)
    } else {
        let (sum, count) = window_sums(line, x, n, (t - 1) as nat);
        let at = x + (t - 1) - n / 2;
        if 0 <= at < line.len() && line[at].is_finite() {
            (sum.plus(line[at]), count + 1)
        } else {
            (sum, count)
        }
    }
}

impl LineFilter {
    /// The filtered pixel at the place `x` of a line.
    pub open spec fn out_spec(self, line: Seq<Single>, x: int) -> Single {
        match self {
            LineFilter::Weighted(kernel) => {
                let (acc, weight) = weighted_sums(line, x, kernel@, kernel@.len());
                if (Single { bits: 0 }).lt(weight) {
                    acc.over(weight)
                } else {
                    missing()
                }
            },
            LineFilter::Mean(n) => {
                let (sum, count) = window_sums(line, x, n as int, n as nat);
                if count > 0 {
                    sum.over(Single::from_int_spec(count as int))
                } else {
                    missing()
                }
            },
        }
    }

    fn out(&self, line: &Vec<Single>, x: usize) -> (r: Single)
        ensures
            r == self.out_spec(line@, x as int),
    {
        match self {
            LineFilter::Weighted(kernel) => {
                let mut acc: Single = Single { bits: 0 };
                let mut weight: Single = Single { bits: 0 };
                let half: usize = kernel.len() / 2;
                for t in 0..kernel.len()
                    invariant
                        half == kernel@.len() / 2,
                        (acc, weight) == weighted_sums(line@, x as int, kernel@, t as nat),
                {
                    let at: i128 = x as i128 + t as i128 - half as i128;
                    if 0 <= at && at < line.len() as i128 {
                        let v: Single = line[at as usize];
                        if v.is_finite() {
                            acc = acc.plus(v.times(kernel[t]));
                            weight = weight.plus(kernel[t]);
                        }
                    }
                }
                if (Single { bits: 0 }).lt(weight) {
                    acc.over(weight)
                } else {
                    Single { bits: 0x7fc0_0000 }
                }
            },
            LineFilter::Mean(n) => {
                let mut sum: Single = Single { bits: 0 };
                let mut count: u32 = 0;
                for t in 0..*n
                    invariant
                        count <= t,
                        (sum, count as nat) == window_sums(
                            line@,
                            x as int,
                            *n as int,
                            t as nat,
                        ),
                {
                    let at: i128 = x as i128 + t as i128 - (*n / 2) as i128;
                    if 0 <= at && at < line.len() as i128 {
                        let v: Single = line[at as usize];
                        if v.is_finite() {
                            sum = sum.plus(v);
                            count = count + 1;
                        }
                    }
                }
                if count > 0 {
                    sum.over(Single::from_int(count as i64))
                } else {
                    Single { bits: 0x7fc0_0000 }
                }
            },
        }
    }
}

/// The pixel `(x, y)` of an image.
pub fn pixel(data: &Vec<Single>, w: usize, h: usize, x: usize, y: usize) -> (r: Single)
    requires
        data@.len() == w * h,
        x < w,
        y < h,
    ensures
        r == data@[y * w + x],
        0 <= y * w + x < data@.len(),
{
    let n: usize = data.len();
    proof {
        pixel_place(x as int, y as int, w as int, h as int);
        assert(0 <= y * w) by (nonlinear_arith)
            requires
                y >= 0,
                w >= 0,
        ;
    }
    data[y * w + x]
}

/// The row `y` of an image.
pub open spec fn row_spec(data: Seq<Single>, w: int, y: int) -> Seq<Single> {
    Seq::new(w as nat, |x: int| data[y * w + x])
}

/// The column `x` of an image.
pub open spec fn column_spec(data: Seq<Single>, w: int, h: int, x: int) -> Seq<Single> {
    Seq::new(h as nat, |y: int| data[y * w + x])
}

/// Each row of an image filtered.
pub open spec fn rows_filtered(data: Seq<Single>, w: int, h: int, f: LineFilter) -> Seq<Single> {
    Seq::new((w * h) as nat, |i: int| f.out_spec(row_spec(data, w, i / w), i % w))
}

/// Each column of an image filtered.
pub open spec fn columns_filtered(data: Seq<Single>, w: int, h: int, f: LineFilter) -> Seq<Single> {
    Seq::new((w * h) as nat, |i: int| f.out_spec(column_spec(data, w, h, i % w), i / w))
}

fn filter_rows(data: &Vec<Single>, w: usize, h: usize, f: &LineFilter) -> (r: Vec<Single>)
    requires
        data@.len() == w * h,
    ensures
        r@ == rows_filtered(data@, w as int, h as int, *f),
{
    let mut out: Vec<Single> = Vec::new();
    let ghost want = rows_filtered(data@, w as int, h as int, *f);
    let mut y: usize = 0;
    assert(0 * w == 0) by (nonlinear_arith);
    while y < h
        invariant
            data@.len() == w * h,
            want == rows_filtered(data@, w as int, h as int, *f),
            y <= h,
            out@ =~= want.take(y * w),
            y * w <= w * h,
        decreases h - y,
    {
        let mut line: Vec<Single> = Vec::new();
        for x in 0..w
            invariant
                data@.len() == w * h,
                y < h,
                line@ =~= row_spec(data@, w as int, y as int).take(x as int),
        {
            line.push(pixel(data, w, h, x, y));
        }
        assert(line@ =~= row_spec(data@, w as int, y as int));
        for x in 0..w
            invariant
                data@.len() == w * h,
                want == rows_filtered(data@, w as int, h as int, *f),
                y < h,
                line@ == row_spec(data@, w as int, y as int),
                out@ =~= want.take(y * w + x),
                y * w + x <= w * h,
        {
            proof {
                pixel_place(x as int, y as int, w as int, h as int);
            }
            let ghost before = out@;
            out.push(f.out(&line, x));
            assert(out@ =~= before.push(want[y * w + x]));
        }
        proof {
            assert((y + 1) * w == y * w + w) by (nonlinear_arith);
            assert((y + 1) * w <= w * h) by (nonlinear_arith)
                requires
                    y + 1 <= h,
                    w >= 0,
            ;
        }
        y = y + 1;
    }
    assert(h * w == w * h) by (nonlinear_arith);
    assert(out@ =~= want);
    out
}

fn filter_columns(data: &Vec<Single>, w: usize, h: usize, f: &LineFilter) -> (r: Vec<Single>)
    requires
        data@.len() == w * h,
    ensures
        r@ == columns_filtered(data@, w as int, h as int, *f),
{
    let n: usize = data.len();
    let mut out: Vec<Single> = vec![Single { bits: 0x7fc0_0000 }; n];
    let ghost want = columns_filtered(data@, w as int, h as int, *f);
    assert forall|i: int| 0 <= i < n && i % (w as int) < 0 implies #[trigger] out@[i] == want[i] by {
        place_pixel(i, w as int, h as int);
    }
    for x in 0..w
        invariant
            n == data@.len() == w * h,
            out@.len() == n,
            want == columns_filtered(data@, w as int, h as int, *f),
            forall|i: int| 0 <= i < n && i % (w as int) < x ==> #[trigger] out@[i] == want[i],
    {
        let mut line: Vec<Single> = Vec::new();
        for y in 0..h
            invariant
                data@.len() == w * h,
                x < w,
                line@ =~= column_spec(data@, w as int, h as int, x as int).take(y as int),
        {
            line.push(pixel(data, w, h, x, y));
        }
        assert(line@ =~= column_spec(data@, w as int, h as int, x as int));
        for y in 0..h
            invariant
                n == data@.len() == w * h,
                out@.len() == n,
                x < w,
                want == columns_filtered(data@, w as int, h as int, *f),
                line@ == column_spec(data@, w as int, h as int, x as int),
                forall|i: int| 0 <= i < n && i % (w as int) < x ==> #[trigger] out@[i] == want[i],
                forall|i: int|
                    0 <= i < n && i % (w as int) == x && i / (w as int) < y ==> #[trigger] out@[i]
                        == want[i],
        {
            proof {
                pixel_place(x as int, y as int, w as int, h as int);
                assert(0 <= y * w) by (nonlinear_arith)
                    requires
                        y >= 0,
                        w >= 0,
                ;
            }
            let ghost before = out@;
            let v: Single = f.out(&line, y);
            out[y * w + x] = v;
            assert forall|i: int|
                0 <= i < n && i % (w as int) == x && i / (w as int) < y + 1 implies #[trigger] out@[i]
                == want[i] by {
                place_pixel(i, w as int, h as int);
            }
        }
        assert forall|i: int| 0 <= i < n && i % (w as int) < x + 1 implies #[trigger] out@[i]
            == want[i] by {
            place_pixel(i, w as int, h as int);
        }
    }
    assert forall|i: int| 0 <= i < n implies out@[i] == want[i] by {
        place_pixel(i, w as int, h as int);
    }
    assert(out@ =~= want);
    out
}

/// An image filtered along its rows and then along its columns.
pub open spec fn smoothed(data: Seq<Single>, w: int, h: int, f: LineFilter) -> Seq<Single> {
    columns_filtered(rows_filtered(data, w, h, f), w, h, f)
}

fn smooth(img: &FitsImage, f: &LineFilter) -> (r: FitsImage)
    requires
        img.wf(),
    ensures
        is_filtered(r, *img, smoothed(img.data@, img.width as int, img.height as int, *f)),
{
    let rows = filter_rows(&img.data, img.width, img.height, f);
    let data = filter_columns(&rows, img.width, img.height, f);
    with_data(img, data)
}

// ---------------------------------------------------------------------------
// Smoothing
// ---------------------------------------------------------------------------

/// Whether a width is one to smooth with: a positive finite number.
pub open spec fn smooths(sigma: Single) -> bool {
    !sigma.le(Single { bits: 0 }) && sigma.is_finite()
}

/// The radius of the kernel of the given width: three times the width, rounded up.
pub open spec fn radius_spec(sigma: Single) -> int {
    Single { bits: 0x4040_0000 }.times(sigma).whole_spec(Whole::Ceil, 0, i32::MAX as int)
}

/// The exponent of the kernel at the distance `k`.
pub open spec fn exponent_spec(sigma: Single, k: int) -> Single {
    let inv = Single { bits: 0x3f80_0000 }.over(Single { bits: 0x4000_0000 }.times(sigma).times(sigma));
    let d = Single::from_int_spec(k);
    d.times(d).negate().times(inv)
}

/// The exponents of the kernel of the given width, from one end to the other.
pub open spec fn exponents_spec(sigma: Single) -> Seq<Single> {
    Seq::new(
        (2 * radius_spec(sigma) + 1) as nat,
        |i: int| exponent_spec(sigma, i - radius_spec(sigma)),
    )
}

/// The exponents of the kernel of the given width, from one end to the other. The weights
/// of the kernel are their exponentials.
pub fn kernel_exponents(sigma: Single) -> (r: Vec<Single>)
    ensures
        r@ == exponents_spec(sigma),
        r@.len() % 2 == 1,
{
    let radius: i64 = (Single { bits: 0x4040_0000 }).times(sigma).whole(Whole::Ceil, 0, i32::MAX as i128) as i64;
    let inv: Single = (Single { bits: 0x3f80_0000 }).over((Single { bits: 0x4000_0000 }).times(sigma).times(sigma));
    let mut r: Vec<Single> = Vec::new();
    let mut i: i64 = 0;
    while i < 2 * radius + 1
        invariant
            0 <= radius == radius_spec(sigma) <= i32::MAX,
            inv == (Single { bits: 0x3f80_0000 }).over((Single { bits: 0x4000_0000 }).times(sigma).times(sigma)),
            0 <= i <= 2 * radius + 1,
            r@ =~= Seq::new(
                i as nat,
                |k: int| exponent_spec(sigma, k - radius_spec(sigma)),
            ),
        decreases 2 * radius + 1 - i,
    {
        let d: Single = Single::from_int(i - radius);
        r.push(d.times(d).negate().times(inv));
        i = i + 1;
    }
    r
}

/// The image smoothed by a kernel, which holds the exponentials of the
/// [`kernel_exponents`] of the width. A width that is not positive and finite leaves the
/// image as it is.
pub fn smooth_gaussian(img: &FitsImage, sigma: Single, kernel: Vec<Single>) -> (r: FitsImage)
    requires
        img.wf(),
        smooths(sigma) ==> kernel@.len() == 2 * radius_spec(sigma) + 1,
    ensures
        if smooths(sigma) {
            is_filtered(
                r,
                *img,
                smoothed(
                    img.data@,
                    img.width as int,
                    img.height as int,
                    LineFilter::Weighted(kernel),
                ),
            )
        } else {
            same_image(r, *img)
        },
{
    if sigma.le(Single { bits: 0 }) || !sigma.is_finite() {
        return clone_image(img);
    }
    let f = LineFilter::Weighted(kernel);
    smooth(img, &f)
}

/// The image smoothed by a mean over a window of `n` by `n` pixels.
pub fn smooth_boxcar(img: &FitsImage, n: u32) -> (r: FitsImage)
    requires
        img.wf(),
    ensures
        if n > 1 {
            is_filtered(
                r,
                *img,
                smoothed(img.data@, img.width as int, img.height as int, LineFilter::Mean(n)),
            )
        } else {
            same_image(r, *img)
        },
{
    if n <= 1 {
        return clone_image(img);
    }
    let f = LineFilter::Mean(n);
    smooth(img, &f)
}

/// The pixels of a rectangle, row by row.
pub open spec fn rect_spec(data: Seq<Single>, w: int, x0: int, x1: int, y0: int, y1: int) -> Seq<
    Single,
> {
    Seq::new(
        ((y1 - y0) * (x1 - x0)) as nat,
        |i: int| data[(y0 + i / (x1 - x0)) * w + x0 + i % (x1 - x0)],
    )
}

/// The pixels of a rectangle, row by row.
pub fn rect_of(
    data: &Vec<Single>,
    w: usize,
    h: usize,
    x0: usize,
    x1: usize,
    y0: usize,
    y1: usize,
) -> (r: Vec<Single>)
    requires
        data@.len() == w * h,
        x0 <= x1 <= w,
        y0 <= y1 <= h,
    ensures
        r@ == rect_spec(data@, w as int, x0 as int, x1 as int, y0 as int, y1 as int),
{
    let mut r: Vec<Single> = Vec::new();
    let ghost want = rect_spec(data@, w as int, x0 as int, x1 as int, y0 as int, y1 as int);
    let ghost (rw, rh) = (x1 - x0, y1 - y0);
    assert(0 * rw == 0) by (nonlinear_arith);
    assert(rw * rh == rh * rw) by (nonlinear_arith);
    for y in y0..y1
        invariant
            data@.len() == w * h,
            x0 <= x1 <= w,
            y0 <= y1 <= h,
            rw == x1 - x0,
            rh == y1 - y0,
            rw * rh == rh * rw,
            want == rect_spec(data@, w as int, x0 as int, x1 as int, y0 as int, y1 as int),
            (y - y0) * rw <= rh * rw,
            r@ =~= want.take((y - y0) * rw),
    {
        for x in x0..x1
            invariant
                data@.len() == w * h,
                x0 <= x1 <= w,
                y0 <= y < y1 <= h,
                rw == x1 - x0,
                rh == y1 - y0,
                rw * rh == rh * rw,
                want == rect_spec(data@, w as int, x0 as int, x1 as int, y0 as int, y1 as int),
                (y - y0) * rw + (x - x0) <= rh * rw,
                r@ =~= want.take((y - y0) * rw + (x - x0)),
        {
            proof {
                pixel_place(x as int, y as int, w as int, h as int);
                pixel_place(x - x0, y - y0, rw, rh);
            }
            let ghost before = r@;
            r.push(pixel(data, w, h, x, y));
            assert(r@ =~= before.push(want[(y - y0) * rw + (x - x0)]));
        }
        proof {
            assert((y + 1 - y0) * rw == (y - y0) * rw + rw) by (nonlinear_arith);
            assert((y + 1 - y0) * rw <= rh * rw) by (nonlinear_arith)
                requires
                    y + 1 - y0 <= rh,
                    rw >= 0,
            ;
        }
    }
    assert(r@ =~= want);
    r
}

/// Where a window of `n` around the place `x` starts and ends, within `size`.
pub open spec fn window_spec(x: int, n: int, size: int) -> (int, int) {
    (
        if x > n / 2 {
            x - n / 2
        } else {
            0
        },
        if x - n / 2 + n < size {
            x - n / 2 + n
        } else {
            size
        },
    )
}

fn window(x: usize, n: u32, size: usize) -> (r: (usize, usize))
    requires
        x < size,
        n > 1,
    ensures
        (r.0 as int, r.1 as int) == window_spec(x as int, n as int, size as int),
        r.0 <= r.1 <= size,
{
    let half: usize = (n / 2) as usize;
    let lo: usize = if x > half {
        x - half
    } else {
        0
    };
    let end: i128 = x as i128 - half as i128 + n as i128;
    let hi: usize = if end < size as i128 {
        end as usize
    } else {
        size
    };
    (lo, hi)
}

/// Whether `v` is the median of the finite pixels of a window of `n` by `n` around the
/// place `i`: the one in the middle, of an even number the later one; missing where there
/// is none.
pub open spec fn is_median(data: Seq<Single>, w: int, h: int, n: int, i: int, v: Single) -> bool {
    let (x0, x1) = window_spec(i % w, n, w);
    let (y0, y1) = window_spec(i / w, n, h);
    let s = finite_values(rect_spec(data, w, x0, x1, y0, y1));
    if s.len() == 0 {
        v == missing()
    } else {
        ranked(s, (s.len() / 2) as int, v)
    }
}

/// The image smoothed by a median over a window of `n` by `n` pixels.
pub fn smooth_median(img: &FitsImage, n: u32) -> (r: FitsImage)
    requires
        img.wf(),
    ensures
        n <= 1 ==> same_image(r, *img),
        n > 1 ==> is_filtered(r, *img, r.data@) && r.data@.len() == img.data@.len() && forall|
            i: int,
        |
            0 <= i < r.data@.len() ==> is_median(
                img.data@,
                img.width as int,
                img.height as int,
                n as int,
                i,
                #[trigger] r.data@[i],
            ),
{
    if n <= 1 {
        return clone_image(img);
    }
    let (w, h): (usize, usize) = (img.width, img.height);
    let mut out: Vec<Single> = Vec::new();
    let mut x: usize = 0;
    let mut y: usize = 0;
    let total: usize = img.data.len();
    assert(total > 0 ==> w > 0 && h > 0) by (nonlinear_arith)
        requires
            total == w * h,
            w >= 0,
            h >= 0,
    ;
    assert(0 * w == 0) by (nonlinear_arith);
    while out.len() < total
        invariant
            n > 1,
            img.wf(),
            w == img.width,
            h == img.height,
            total == img.data@.len(),
            out@.len() <= total,
            out@.len() < total ==> x < w && y < h && out@.len() == y * w + x,
            forall|i: int|
                0 <= i < out@.len() ==> is_median(
                    img.data@,
                    w as int,
                    h as int,
                    n as int,
                    i,
                    #[trigger] out@[i],
                ),
        decreases total - out@.len(),
    {
        let (x0, x1): (usize, usize) = window(x, n, w);
        let (y0, y1): (usize, usize) = window(y, n, h);
        let cells = rect_of(&img.data, w, h, x0, x1, y0, y1);
        let s = finite_of(&cells);
        let k: usize = s.len();
        let v: Single = if k == 0 {
            Single { bits: 0x7fc0_0000 }
        } else {
            let keys = s.clone();
            assert(keys@ =~= s@);
            let p = ascending_order(keys);
            assert(p@[k as int / 2] < k);
            assert(ascending(s@, p@));
            s[p[k / 2]]
        };
        proof {
            pixel_place(x as int, y as int, w as int, h as int);
            assert((y + 1) * w == y * w + w) by (nonlinear_arith);
        }
        out.push(v);
        if x + 1 < w {
            x = x + 1;
        } else {
            x = 0;
            proof {
                if out@.len() < total {
                    assert(y + 1 < h) by (nonlinear_arith)
                        requires
                            y * w + w < w * h,
                            w > 0,
                    ;
                }
            }
            if y < h - 1 {
                y = y + 1;
            }
        }
    }
    with_data(img, out)
}

// ---------------------------------------------------------------------------
// Binning
// ---------------------------------------------------------------------------

/// How the pixels of a block become one.
#[derive(Clone, Copy, Debug, PartialEq, Eq, Structural)]
pub enum BinMode {
    Average,
    Sum,
    Subsample,
}

impl BinMode {
    /// The name of the mode.
    pub open spec fn label_spec(self) -> Seq<char> {
        match self {
            BinMode::Average => "average"@,
            BinMode::Sum => "sum"@,
            BinMode::Subsample => "sub-sample"@,
        }
    }

    /// The name of the mode.
    pub fn label(self) -> (r: &'static str)
        ensures
            r@ == self.label_spec(),
    {
        match self {
            BinMode::Average => "average",
            BinMode::Sum => "sum",
            BinMode::Subsample => "sub-sample",
        }
    }
}

/// The sum of the finite numbers of `v`, one after the other, and their number.
pub open spec fn finite_sum(v: Seq<Single>) -> (Double, nat)
    decreases v.len(),
{
    if v.len() == 0 {
        (Double { bits: 0 }, 0)
    } else {
        let (sum, count) = finite_sum(v.drop_last());
        if v.last().is_finite() {
            (sum.plus(v.last().widen()), count + 1)
        } else {
            (sum, count)
        }
    }
}

/// The sum of the finite numbers of `v`, one after the other, and their number.
pub fn sum_finite(v: &Vec<Single>) -> (r: (Double, usize))
    ensures
        (r.0, r.1 as nat) == finite_sum(v@),
        r.1 <= v@.len(),
{
    let mut sum: Double = Double { bits: 0 };
    let mut count: usize = 0;
    assert(v@.take(0) =~= Seq::empty());
    for i in 0..v.len()
        invariant
            count <= i,
            (sum, count as nat) == finite_sum(v@.take(i as int)),
    {
        assert(v@.take(i + 1).drop_last() =~= v@.take(i as int));
        if v[i].is_finite() {
            sum = sum.plus(v[i].widen());
            count = count + 1;
        }
    }
    assert(v@.take(v@.len() as int) =~= v@);
    (sum, count)
}

/// The end of the block that starts at `x0`.
pub open spec fn block_end(x0: int, n: int, size: int) -> int {
    if x0 + n < size {
        x0 + n
    } else {
        size
    }
}

/// The value of the block of `n` by `n` pixels whose first pixel is `(x0, y0)`.
pub open spec fn block_spec(
    data: Seq<Single>,
    w: int,
    h: int,
    n: int,
    mode: BinMode,
    x0: int,
    y0: int,
) -> Single {
    let (sum, count) = finite_sum(
        rect_spec(data, w, x0, block_end(x0, n, w), y0, block_end(y0, n, h)),
    );
    match mode {
        BinMode::Average => if count > 0 {
            sum.over(Double::from_int_spec(count as int)).narrow()
        } else {
            missing()
        },
        BinMode::Sum => if count > 0 {
            sum.narrow()
        } else {
            missing()
        },
        BinMode::Subsample => data[y0 * w + x0],
    }
}

/// An image with each block of `n` by `n` pixels filled with its value.
pub open spec fn binned(data: Seq<Single>, w: int, h: int, n: int, mode: BinMode) -> Seq<Single> {
    Seq::new(
        (w * h) as nat,
        |i: int| block_spec(data, w, h, n, mode, (i % w) / n * n, (i / w) / n * n),
    )
}

fn block_value(
    data: &Vec<Single>,
    w: usize,
    h: usize,
    n: usize,
    mode: BinMode,
    x0: usize,
    y0: usize,
) -> (r: Single)
    requires
        data@.len() == w * h,
        x0 < w,
        y0 < h,
        n > 0,
    ensures
        r == block_spec(data@, w as int, h as int, n as int, mode, x0 as int, y0 as int),
{
    match mode {
        BinMode::Subsample => {
            pixel(data, w, h, x0, y0)
        },
        _ => {
            let x1: usize = if n < w - x0 {
                x0 + n
            } else {
                w
            };
            let y1: usize = if n < h - y0 {
                y0 + n
            } else {
                h
            };
            let cells = rect_of(data, w, h, x0, x1, y0, y1);
            let (sum, count): (Double, usize) = sum_finite(&cells);
            if count == 0 {
                Single { bits: 0x7fc0_0000 }
            } else {
                match mode {
                    BinMode::Average => sum.over(Double::from_nat(count as u64)).narrow(),
                    _ => sum.narrow(),
                }
            }
        },
    }
}

/// Where a block starts, and that it starts in the image.
proof fn block_starts(x: int, n: int, size: int)
    requires
        0 <= x < size,
        n > 0,
    ensures
        0 <= x / n * n <= x,
        x - x / n * n < n,
{
    vstd::arithmetic::div_mod::lemma_fundamental_div_mod(x, n);
    vstd::arithmetic::div_mod::lemma_mod_bound(x, n);
    assert(x / n * n == n * (x / n)) by (nonlinear_arith);
    assert(x / n >= 0) by (nonlinear_arith)
        requires
            x == n * (x / n) + x % n,
            x >= 0,
            x % n < n,
            n > 0,
    ;
    assert(x / n * n >= 0) by (nonlinear_arith)
        requires
            x / n >= 0,
            n > 0,
    ;
}

/// The image with each block of `n` by `n` pixels filled with its value.
pub fn bin(img: &FitsImage, n: u32, mode: BinMode) -> (r: FitsImage)
    requires
        img.wf(),
    ensures
        if n > 1 {
            is_filtered(
                r,
                *img,
                binned(img.data@, img.width as int, img.height as int, n as int, mode),
            )
        } else {
            same_image(r, *img)
        },
{
    if n <= 1 {
        return clone_image(img);
    }
    let (w, h): (usize, usize) = (img.width, img.height);
    let k: usize = n as usize;
    let mut out: Vec<Single> = Vec::new();
    let ghost want = binned(img.data@, w as int, h as int, n as int, mode);
    let mut y: usize = 0;
    assert(0 * w == 0) by (nonlinear_arith);
    while y < h
        invariant
            img.wf(),
            w == img.width,
            h == img.height,
            k == n > 1,
            want == binned(img.data@, w as int, h as int, n as int, mode),
            y <= h,
            out@ =~= want.take(y * w),
            y * w <= w * h,
        decreases h - y,
    {
        // The values of the blocks of this row of blocks.
        proof {
            block_starts(y as int, k as int, h as int);
        }
        let y0: usize = y / k * k;
        let mut values: Vec<Single> = Vec::new();
        let mut x0: usize = 0;
        let mut b: usize = 0;
        while x0 < w
            invariant
                img.wf(),
                w == img.width,
                h == img.height,
                k == n > 1,
                y0 < h,
                values@.len() == b,
                x0 == b * k || (x0 == w && b * k >= w),
                forall|j: int|
                    0 <= j < b ==> #[trigger] values@[j] == block_spec(
                        img.data@,
                        w as int,
                        h as int,
                        n as int,
                        mode,
                        j * k,
                        y0 as int,
                    ),
            decreases w - x0,
        {
            values.push(block_value(&img.data, w, h, k, mode, x0, y0));
            proof {
                assert((b + 1) * k == b * k + k) by (nonlinear_arith);
                assert(b < w) by (nonlinear_arith)
                    requires
                        b * k < w,
                        k >= 1,
                        b >= 0,
                ;
            }
            x0 = if k < w - x0 {
                x0 + k
            } else {
                w
            };
            b = b + 1;
        }
        for x in 0..w
            invariant
                img.wf(),
                w == img.width,
                h == img.height,
                k == n > 1,
                y < h,
                y0 == y as int / k as int * k,
                want == binned(img.data@, w as int, h as int, n as int, mode),
                values@.len() == b,
                b * k >= w,
                forall|j: int|
                    0 <= j < b ==> #[trigger] values@[j] == block_spec(
                        img.data@,
                        w as int,
                        h as int,
                        n as int,
                        mode,
                        j * k,
                        y0 as int,
                    ),
                out@ =~= want.take(y * w + x),
                y * w + x <= w * h,
        {
            proof {
                pixel_place(x as int, y as int, w as int, h as int);
                block_starts(x as int, k as int, w as int);
                let q = x as int / k as int;
                assert(q < b) by (nonlinear_arith)
                    requires
                        q * k <= x,
                        x < w,
                        w <= b * k,
                        k >= 1,
                ;
                assert(q >= 0);
            }
            let ghost before = out@;
            out.push(values[x / k]);
            assert(out@ =~= before.push(want[y * w + x]));
        }
        proof {
            assert((y + 1) * w == y * w + w) by (nonlinear_arith);
            assert((y + 1) * w <= w * h) by (nonlinear_arith)
                requires
                    y + 1 <= h,
                    w >= 0,
            ;
        }
        y = y + 1;
    }
    assert(h * w == w * h) by (nonlinear_arith);
    assert(out@ =~= want);
    with_data(img, out)
}

/// The image with each block of `n` by `n` pixels filled with the mean of its finite
/// pixels.
pub fn bin_average(img: &FitsImage, n: u32) -> (r: FitsImage)
    requires
        img.wf(),
    ensures
        n <= 1 ==> same_image(r, *img),
        n > 1 ==> is_filtered(
            r,
            *img,
            binned(img.data@, img.width as int, img.height as int, n as int, BinMode::Average),
        ),
{
    bin(img, n, BinMode::Average)
}

/// The image with each block of `n` by `n` pixels filled with the sum of its finite
/// pixels.
pub fn bin_sum(img: &FitsImage, n: u32) -> (r: FitsImage)
    requires
        img.wf(),
    ensures
        n <= 1 ==> same_image(r, *img),
        n > 1 ==> is_filtered(
            r,
            *img,
            binned(img.data@, img.width as int, img.height as int, n as int, BinMode::Sum),
        ),
{
    bin(img, n, BinMode::Sum)
}

/// The image with each block of `n` by `n` pixels filled with its first pixel.
pub fn bin_subsample(img: &FitsImage, n: u32) -> (r: FitsImage)
    requires
        img.wf(),
    ensures
        n <= 1 ==> same_image(r, *img),
        n > 1 ==> is_filtered(
            r,
            *img,
            binned(img.data@, img.width as int, img.height as int, n as int, BinMode::Subsample),
        ),
{
    bin(img, n, BinMode::Subsample)
}

} // verus!
