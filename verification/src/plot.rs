//! Plots: the histogram of an image and the course of values along a line.

use crate::arith::Whole;
use crate::draw::{line_spec, Canvas, CanvasView, Line, Rgba};
use crate::fits::{finite_minmax, greatest, least, missing, FitsImage};
use crate::image::{finite_of, finite_values, Limits};
use crate::num::{Double, Single};
use vstd::prelude::*;

verus! {

/// The background of a plot.
pub open spec fn plot_ground() -> Rgba {
    Rgba { r: 0x0f, g: 0x13, b: 0x19, a: 0xff }
}

/// The frame of a plot.
pub open spec fn plot_frame() -> Rgba {
    Rgba { r: 0x2a, g: 0x32, b: 0x42, a: 0xff }
}

/// The bars and lines of a plot.
pub open spec fn plot_ink() -> Rgba {
    Rgba { r: 0x4e, g: 0xc9, b: 0xb0, a: 0xff }
}

/// An empty plot with its frame.
pub open spec fn empty_plot(w: int, h: int) -> CanvasView {
    CanvasView::blank(w, h, plot_ground()).framed(plot_frame())
}

fn new_plot(w: usize, h: usize) -> (r: Canvas)
    requires
        w > 0,
        h > 0,
        w * h <= usize::MAX,
    ensures
        r@ == empty_plot(w as int, h as int),
        r@.wf(),
{
    let mut c = Canvas::new(w, h, Rgba { r: 0x0f, g: 0x13, b: 0x19, a: 0xff });
    c.draw_frame(Rgba { r: 0x2a, g: 0x32, b: 0x42, a: 0xff });
    c
}

// ---------------------------------------------------------------------------
// Histogram
// ---------------------------------------------------------------------------

/// The bin of 128 that a pixel falls into; none for one that is not finite or lies outside
/// the limits.
pub open spec fn bin_spec(v: Single, lim: Limits) -> Option<int> {
    let lo = lim.low.widen();
    let span = lim.high.widen().minus(lo).max(Double { bits: 0x3cb0_0000_0000_0000 });
    let t = v.widen().minus(lo).over(span);
    let b = t.times(Double { bits: 0x4060_0000_0000_0000 }).whole_spec(Whole::Trunc, 0, usize::MAX as int);
    if v.is_finite() && (Double { bits: 0 }).le(t) && t.le(Double { bits: 0x3ff0_0000_0000_0000 }) {
        Some(
            if b < 128 {
                b
            } else {
                127
            },
        )
    } else {
        None
    }
}

/// The number of pixels in the bin `b`.
pub open spec fn bin_count(data: Seq<Single>, lim: Limits, b: int) -> nat
    decreases data.len(),
{
    if data.len() == 0 {
        0
    } else {
        bin_count(data.drop_last(), lim, b) + if bin_spec(data.last(), lim) == Some(b) {
            1nat
        } else {
            0nat
        }
    }
}

/// The number of pixels in the first `n` bins.
pub open spec fn first_bins(data: Seq<Single>, lim: Limits, n: nat) -> nat
    decreases n,
{
    if n == 0 {
        0
    } else {
        first_bins(data, lim, (n - 1) as nat) + bin_count(data, lim, n - 1)
    }
}

/// The number of pixels that fall into a bin.
pub open spec fn binned_pixels(data: Seq<Single>, lim: Limits) -> nat
    decreases data.len(),
{
    if data.len() == 0 {
        0
    } else {
        binned_pixels(data.drop_last(), lim) + if bin_spec(data.last(), lim) is Some {
            1nat
        } else {
            0nat
        }
    }
}

proof fn one_more_pixel(data: Seq<Single>, lim: Limits, n: nat)
    requires
        data.len() > 0,
    ensures
        first_bins(data, lim, n) == first_bins(data.drop_last(), lim, n) + match bin_spec(
            data.last(),
            lim,
        ) {
            Some(b) if 0 <= b < n => 1nat,
            _ => 0nat,
        },
    decreases n,
{
    if n > 0 {
        one_more_pixel(data, lim, (n - 1) as nat);
    }
}

proof fn no_pixels(lim: Limits, n: nat)
    ensures
        first_bins(Seq::empty(), lim, n) == 0,
    decreases n,
{
    if n > 0 {
        no_pixels(lim, (n - 1) as nat);
    }
}

/// The bins of a histogram hold each finite pixel between the limits once, and no other.
pub proof fn bins_hold_each_pixel_once(data: Seq<Single>, lim: Limits)
    ensures
        first_bins(data, lim, 128) == binned_pixels(data, lim),
    decreases data.len(),
{
    if data.len() == 0 {
        assert(data =~= Seq::empty());
        no_pixels(lim, 128);
    } else {
        bins_hold_each_pixel_once(data.drop_last(), lim);
        one_more_pixel(data, lim, 128);
        reveal(Double::whole_spec);
    }
}

/// The number of pixels in each of 128 bins between the limits.
pub fn histogram_bins(data: &Vec<Single>, lim: Limits) -> (r: Vec<u64>)
    ensures
        r@.len() == 128,
        forall|b: int| 0 <= b < 128 ==> #[trigger] r@[b] == bin_count(data@, lim, b),
{
    let lo: Double = lim.low.widen();
    let span: Double = lim.high.widen().minus(lo).max(Double { bits: 0x3cb0_0000_0000_0000 });
    let mut bins: Vec<u64> = vec![0u64; 128];
    assert(data@.take(0) =~= Seq::empty());
    for i in 0..data.len()
        invariant
            lo == lim.low.widen(),
            span == lim.high.widen().minus(lo).max(Double { bits: 0x3cb0_0000_0000_0000 }),
            bins@.len() == 128,
            forall|b: int|
                0 <= b < 128 ==> #[trigger] bins@[b] == bin_count(data@.take(i as int), lim, b)
                    && bins@[b] <= i,
    {
        assert(data@.take(i + 1).drop_last() =~= data@.take(i as int));
        let v: Single = data[i];
        if v.is_finite() {
            let t: Double = v.widen().minus(lo).over(span);
            if (Double { bits: 0 }).le(t) && t.le(Double { bits: 0x3ff0_0000_0000_0000 }) {
                let k: usize = t.times(Double { bits: 0x4060_0000_0000_0000 }).whole(Whole::Trunc, 0, usize::MAX as i128) as usize;
                let b: usize = if k < 128 {
                    k
                } else {
                    127
                };
                let ghost was = bins@;
                bins[b] = bins[b] + 1;
                assert forall|j: int| 0 <= j < 128 implies #[trigger] bins@[j] == bin_count(
                    data@.take(i + 1),
                    lim,
                    j,
                ) && bins@[j] <= i + 1 by {
                    assert(was[j] == bin_count(data@.take(i as int), lim, j));
                }
            }
        }
    }
    assert(data@.take(data@.len() as int) =~= data@);
    bins
}

/// The place of the greatest count; of equal ones the first.
pub open spec fn peak_spec(bins: Seq<u64>) -> int
    decreases bins.len(),
{
    if bins.len() <= 1 {
        0
    } else {
        let p = peak_spec(bins.drop_last());
        if bins.last() > bins[p] {
            bins.len() - 1
        } else {
            p
        }
    }
}

fn peak(bins: &Vec<u64>) -> (r: usize)
    requires
        bins@.len() > 0,
    ensures
        r == peak_spec(bins@),
        r < bins@.len(),
{
    let mut p: usize = 0;
    for i in 1..bins.len()
        invariant
            i <= bins@.len(),
            p < i,
            p == peak_spec(bins@.take(i as int)),
    {
        assert(bins@.take(i + 1).drop_last() =~= bins@.take(i as int));
        if bins[i] > bins[p] {
            p = i;
        }
    }
    assert(bins@.take(bins@.len() as int) =~= bins@);
    p
}

/// The height of the plot's inside and its lower edge.
pub open spec fn plot_bottom(h: int) -> int {
    if h > 8 {
        h - 8
    } else {
        0
    }
}

/// The height that the highest bar has.
pub open spec fn bar_room(h: int) -> int {
    if plot_bottom(h) > 9 {
        plot_bottom(h) - 8
    } else {
        1
    }
}

/// The width of a bar.
pub open spec fn bar_width(w: int) -> Double {
    Double::from_int_spec(w).over(Double { bits: 0x4060_0000_0000_0000 }).max(Double { bits: 0x3ff0_0000_0000_0000 })
}

/// The left edge of the bar `b`.
pub open spec fn bar_left(w: int, b: int) -> int {
    Double::from_int_spec(b).times(bar_width(w)).whole_spec(Whole::Floor, 0, usize::MAX as int)
}

/// The plot with the bar `b`, whose height is to the whole as its logarithm to the
/// greatest.
pub open spec fn with_bar(c: CanvasView, b: int, count: u64, log: Double, top: Double) -> CanvasView {
    let height = log.over(top).times(Double::from_int_spec(bar_room(c.height))).whole_spec(
        Whole::Round,
        0,
        usize::MAX as int,
    );
    let bottom = plot_bottom(c.height);
    let y0 = if bottom > height {
        bottom - height
    } else {
        0
    };
    let x1 = bar_left(c.width, b + 1);
    if count == 0 {
        c
    } else {
        c.filled(
            bar_left(c.width, b),
            if x1 < c.width - 1 {
                x1
            } else {
                c.width - 1
            },
            y0,
            bottom,
            plot_ink(),
        )
    }
}

/// The plot with the first `n` bars.
pub open spec fn with_bars(
    c: CanvasView,
    bins: Seq<u64>,
    logs: Seq<Double>,
    n: nat,
) -> CanvasView
    decreases n,
{
    if n == 0 {
        c
    } else {
        with_bar(
            with_bars(c, bins, logs, (n - 1) as nat),
            n - 1,
            bins[n - 1],
            logs[n - 1],
            logs[peak_spec(bins)],
        )
    }
}

proof fn bars_keep_size(c: CanvasView, bins: Seq<u64>, logs: Seq<Double>, n: nat)
    ensures
        with_bars(c, bins, logs, n).width == c.width,
        with_bars(c, bins, logs, n).height == c.height,
    decreases n,
{
    if n > 0 {
        bars_keep_size(c, bins, logs, (n - 1) as nat);
    }
}

/// The histogram with the given counts. `logs` has the logarithm of each count plus one.
/// The height of a bar is its logarithm over that of the greatest count.
pub fn render_histogram_image(bins: &Vec<u64>, logs: &Vec<Double>, w: usize, h: usize) -> (r: Canvas)
    requires
        bins@.len() == 128,
        logs@.len() == 128,
        w > 0,
        h > 0,
        w * h <= usize::MAX,
    ensures
        r@ == with_bars(empty_plot(w as int, h as int), bins@, logs@, 128),
        r@.wf(),
{
    let mut c = new_plot(w, h);
    let ghost c0 = c@;
    let top: Double = logs[peak(bins)];
    let wide: Double = Double::from_nat(w as u64).over(Double { bits: 0x4060_0000_0000_0000 }).max(Double { bits: 0x3ff0_0000_0000_0000 });
    let bottom: usize = if h > 8 {
        h - 8
    } else {
        0
    };
    let room: usize = if bottom > 9 {
        bottom - 8
    } else {
        1
    };
    for b in 0..128usize
        invariant
            bins@.len() == 128,
            logs@.len() == 128,
            c0 == empty_plot(w as int, h as int),
            top == logs@[peak_spec(bins@)],
            wide == bar_width(w as int),
            bottom == plot_bottom(h as int),
            room == bar_room(h as int),
            w > 0,
            c@.wf(),
            c@.width == w,
            c@.height == h,
            c@ == with_bars(c0, bins@, logs@, b as nat),
    {
        if bins[b] != 0 {
            let height: usize = logs[b].over(top).times(Double::from_nat(room as u64)).whole(
                Whole::Round,
                0,
                usize::MAX as i128,
            ) as usize;
            let y0: usize = if bottom > height {
                bottom - height
            } else {
                0
            };
            let x0: usize = Double::from_int(b as i64).times(wide).whole(
                Whole::Floor,
                0,
                usize::MAX as i128,
            ) as usize;
            let x1: usize = Double::from_int(b as i64 + 1).times(wide).whole(
                Whole::Floor,
                0,
                usize::MAX as i128,
            ) as usize;
            let xe: usize = if x1 < w - 1 {
                x1
            } else {
                w - 1
            };
            c.fill(x0, xe, y0, bottom, Rgba { r: 0x4e, g: 0xc9, b: 0xb0, a: 0xff });
        }
        proof {
            bars_keep_size(c0, bins@, logs@, (b + 1) as nat);
        }
    }
    c
}

// ---------------------------------------------------------------------------
// Values along a line
// ---------------------------------------------------------------------------

/// A stretch between two image positions.
pub struct Section {
    pub x0: Double,
    pub y0: Double,
    pub x1: Double,
    pub y1: Double,
}

impl Section {
    /// The length in pixels.
    pub open spec fn length(self) -> Double {
        let dx = self.x1.minus(self.x0);
        let dy = self.y1.minus(self.y0);
        dx.times(dx).plus(dy.times(dy)).sqrt()
    }

    /// The number of samples: one for each pixel, and at least two.
    pub open spec fn count(self) -> int {
        let n = self.length().whole_spec(Whole::Ceil, 0, usize::MAX as int);
        if n > 2 {
            n
        } else {
            2
        }
    }

    /// The sample `i` of the image: the pixel nearest to its place; missing outside the image.
    pub open spec fn sample(self, img: FitsImage, i: int) -> Single {
        let t = Double::from_int_spec(i).over(Double::from_int_spec(self.count() - 1));
        let fx = self.x0.plus(self.x1.minus(self.x0).times(t));
        let fy = self.y0.plus(self.y1.minus(self.y0).times(t));
        let ix = fx.minus(Double { bits: 0x3ff0_0000_0000_0000 }).whole_spec(Whole::Round, i64::MIN as int, i64::MAX as int);
        let iy = fy.minus(Double { bits: 0x3ff0_0000_0000_0000 }).whole_spec(
            Whole::Round,
            i64::MIN as int,
            i64::MAX as int,
        );
        if 0 <= ix < img.width && 0 <= iy < img.height {
            img.data@[iy * img.width + ix]
        } else {
            missing()
        }
    }
}

impl Section {
    /// The samples, from the start to the end.
    pub open spec fn samples(self, img: FitsImage) -> Seq<Single> {
        Seq::new(self.count() as nat, |i: int| self.sample(img, i))
    }
}

/// The pixels along a straight line at steps of a pixel, and its length.
pub fn sample_line(img: &FitsImage, s: Section) -> (r: (Vec<Single>, Double))
    requires
        img.wf(),
    ensures
        r.0@ == s.samples(*img),
        r.1 == s.length(),
{
    let (w, h): (usize, usize) = (img.width, img.height);
    let dx: Double = s.x1.minus(s.x0);
    let dy: Double = s.y1.minus(s.y0);
    let len: Double = dx.times(dx).plus(dy.times(dy)).sqrt();
    let k: usize = len.whole(Whole::Ceil, 0, usize::MAX as i128) as usize;
    let n: usize = if k > 2 {
        k
    } else {
        2
    };
    let mut out: Vec<Single> = Vec::new();
    for i in 0..n
        invariant
            img.wf(),
            w == img.width,
            h == img.height,
            dx == s.x1.minus(s.x0),
            dy == s.y1.minus(s.y0),
            n == s.count() >= 2,
            out@ =~= Seq::new(i as nat, |j: int| s.sample(*img, j)),
    {
        let t: Double = Double::from_nat(i as u64).over(Double::from_nat((n - 1) as u64));
        let fx: Double = s.x0.plus(dx.times(t));
        let fy: Double = s.y0.plus(dy.times(t));
        let ix: i128 = fx.minus(Double { bits: 0x3ff0_0000_0000_0000 }).whole(Whole::Round, i64::MIN as i128, i64::MAX as i128);
        let iy: i128 = fy.minus(Double { bits: 0x3ff0_0000_0000_0000 }).whole(
            Whole::Round,
            i64::MIN as i128,
            i64::MAX as i128,
        );
        if 0 <= ix && ix < w as i128 && 0 <= iy && iy < h as i128 {
            out.push(crate::filters::pixel(&img.data, w, h, ix as usize, iy as usize));
        } else {
            out.push(Single { bits: 0x7fc0_0000 });
        }
    }
    (out, len)
}

/// The scale of a line plot: the least value and the distance to the greatest.
pub open spec fn value_scale(samples: Seq<Single>) -> (Single, Single) {
    let f = finite_values(samples);
    let (lo, hi) = (least(f)->0, greatest(f)->0);
    (lo, hi.minus(lo).max(Single { bits: 0x3400_0000 }))
}

/// The room for the line inside a plot of the given size.
pub open spec fn inner(size: int, pad: int) -> int {
    if size > 2 * pad + 1 {
        size - 2 * pad
    } else {
        1
    }
}

/// The pixel of the sample `i`.
pub open spec fn plot_point(samples: Seq<Single>, i: int, w: int, h: int) -> (int, int) {
    let (lo, span) = value_scale(samples);
    let x = Double { bits: 0x4018_0000_0000_0000 }.plus(
        Double::from_int_spec(i).times(Double::from_int_spec(inner(w, 6))).over(
            Double::from_int_spec(samples.len() - 1),
        ),
    );
    let y = Double { bits: 0x4020_0000_0000_0000 }.plus(
        Double { bits: 0x3ff0_0000_0000_0000 }.minus(samples[i].minus(lo).over(span).widen()).times(
            Double::from_int_spec(inner(h, 8)),
        ),
    );
    (
        x.whole_spec(Whole::Round, i32::MIN as int, i32::MAX as int),
        y.whole_spec(Whole::Round, i32::MIN as int, i32::MAX as int),
    )
}

/// The plot with the first `n` samples joined; a sample that is not finite breaks the line.
pub open spec fn plotted(c: CanvasView, samples: Seq<Single>, n: nat) -> CanvasView
    decreases n,
{
    if n == 0 {
        c
    } else {
        let before = plotted(c, samples, (n - 1) as nat);
        if n >= 2 && samples[n - 1].is_finite() && samples[n - 2].is_finite() {
            let a = plot_point(samples, n - 2, c.width, c.height);
            let b = plot_point(samples, n - 1, c.width, c.height);
            line_spec(
                before,
                Line {
                    x0: a.0,
                    y0: a.1,
                    x1: b.0,
                    y1: b.1,
                    color: plot_ink(),
                    cap: u64::MAX as int,
                },
            )
        } else {
            before
        }
    }
}

/// The plot of values: only the frame where there are fewer than two, or none is finite.
pub open spec fn line_plot_spec(samples: Seq<Single>, w: int, h: int) -> CanvasView {
    if finite_values(samples).len() == 0 || samples.len() < 2 {
        empty_plot(w, h)
    } else {
        plotted(empty_plot(w, h), samples, samples.len())
    }
}

fn inner_of(size: usize, pad: usize) -> (r: usize)
    requires
        pad <= 100,
    ensures
        r == inner(size as int, pad as int),
{
    if size > 2 * pad + 1 {
        size - 2 * pad
    } else {
        1
    }
}

/// Some value is finite exactly where a least one is.
proof fn finite_has_least(v: Seq<Single>)
    requires
        forall|i: int| 0 <= i < v.len() ==> (#[trigger] v[i]).is_finite(),
    ensures
        v.len() > 0 ==> least(v) is Some && greatest(v) is Some,
{
    if v.len() > 0 {
        crate::fits::least_is_least(v);
        crate::fits::greatest_is_greatest(v);
        assert(v[0].is_finite());
    }
}

/// The plot of values against their place.
pub fn render_line_plot(samples: &Vec<Single>, w: usize, h: usize) -> (r: Canvas)
    requires
        w > 0,
        h > 0,
        w * h <= usize::MAX,
    ensures
        r@ == line_plot_spec(samples@, w as int, h as int),
        r@.wf(),
{
    let mut c = new_plot(w, h);
    let finite = finite_of(samples);
    let n: usize = samples.len();
    if finite.len() == 0 || n < 2 {
        return c;
    }
    let (lo, hi): (Single, Single) = finite_minmax(&finite);
    proof {
        finite_has_least(finite@);
    }
    let span: Single = hi.minus(lo).max(Single { bits: 0x3400_0000 });
    assert((lo, span) == value_scale(samples@));
    let pw: Double = Double::from_nat(inner_of(w, 6) as u64);
    let ph: Double = Double::from_nat(inner_of(h, 8) as u64);
    let last: Double = Double::from_nat((n - 1) as u64);
    let ghost c0 = c@;
    let mut prev: Option<(i64, i64)> = None;
    for i in 0..n
        invariant
            n == samples@.len() >= 2,
            c0 == empty_plot(w as int, h as int),
            c@.wf(),
            (lo, span) == value_scale(samples@),
            pw == Double::from_int_spec(inner(w as int, 6)),
            ph == Double::from_int_spec(inner(h as int, 8)),
            last == Double::from_int_spec(samples@.len() - 1),
            c@ == plotted(c0, samples@, i as nat),
            match prev {
                Some(p) => i > 0 && samples@[i - 1].is_finite() && (p.0 as int, p.1 as int)
                    == plot_point(samples@, i - 1, w as int, h as int) && i32::MIN <= p.0
                    <= i32::MAX && i32::MIN <= p.1 <= i32::MAX,
                None => i == 0 || !samples@[i - 1].is_finite(),
            },
    {
        let v: Single = samples[i];
        if v.is_finite() {
            let x: Double = (Double { bits: 0x4018_0000_0000_0000 }).plus(Double::from_nat(i as u64).times(pw).over(last));
            let y: Double = (Double { bits: 0x4020_0000_0000_0000 }).plus(
                (Double { bits: 0x3ff0_0000_0000_0000 }).minus(v.minus(lo).over(span).widen()).times(ph),
            );
            let p: (i64, i64) = (
                x.whole(Whole::Round, i32::MIN as i128, i32::MAX as i128) as i64,
                y.whole(Whole::Round, i32::MIN as i128, i32::MAX as i128) as i64,
            );
            if let Some(a) = prev {
                c.draw_line(
                    a.0,
                    a.1,
                    p.0,
                    p.1,
                    Rgba { r: 0x4e, g: 0xc9, b: 0xb0, a: 0xff },
                    u64::MAX,
                );
            }
            prev = Some(p);
        } else {
            prev = None;
        }
    }
    c
}

} // verus!
