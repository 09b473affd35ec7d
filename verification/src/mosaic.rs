//! Composites: a mosaic of frames on one sky, and three frames as the colours of one picture.

use crate::arith::Whole;
use crate::filters::pixel;
use crate::fits::{missing, FitsImage, Wcs, WcsNumbers};
use crate::frame::Frame;
use crate::num::{Double, Single};
use crate::text::{chars_of, nat_text, put_nat, put_text, string_of};
use vstd::prelude::*;

verus! {

// ---------------------------------------------------------------------------
// Mosaic
// ---------------------------------------------------------------------------

/// The most pixels of a mosaic.
pub const MAX_MOSAIC_PX: usize = 64_000_000;

/// The places of the frames with coordinates, up to but not at the place `n`.
pub open spec fn with_wcs(frames: Seq<Frame>, n: nat) -> Seq<usize>
    decreases n,
{
    if n == 0 {
        Seq::empty()
    } else if frames[n - 1].fits.wcs is Some {
        with_wcs(frames, (n - 1) as nat).push((n - 1) as usize)
    } else {
        with_wcs(frames, (n - 1) as nat)
    }
}

/// The places of the frames with coordinates.
pub fn frames_with_wcs(frames: &Vec<Frame>) -> (r: Vec<usize>)
    ensures
        r@ == with_wcs(frames@, frames@.len()),
        forall|i: int|
            0 <= i < r@.len() ==> (#[trigger] r@[i]) < frames@.len()
                && frames@[r@[i] as int].fits.wcs is Some,
{
    let mut r: Vec<usize> = Vec::new();
    for i in 0..frames.len()
        invariant
            r@ == with_wcs(frames@, i as nat),
            forall|k: int|
                0 <= k < r@.len() ==> (#[trigger] r@[k]) < i && frames@[r@[k] as int].fits.wcs is Some,
    {
        if frames[i].fits.wcs.is_some() {
            r.push(i);
        }
    }
    r
}

/// The corners of an image, counted from one.
pub open spec fn corners_spec(img: FitsImage) -> Seq<(Double, Double)> {
    let one = Double { bits: 0x3ff0_0000_0000_0000 };
    let w = Double::from_int_spec(img.width as int);
    let h = Double::from_int_spec(img.height as int);
    seq![(one, one), (w, one), (one, h), (w, h)]
}

/// The corners of an image, counted from one.
pub fn corners(img: &FitsImage) -> (r: Vec<(Double, Double)>)
    ensures
        r@ == corners_spec(*img),
{
    let one = Double { bits: 0x3ff0_0000_0000_0000 };
    let w: Double = Double::from_nat(img.width as u64);
    let h: Double = Double::from_nat(img.height as u64);
    let mut r: Vec<(Double, Double)> = Vec::new();
    r.push((one, one));
    r.push((w, one));
    r.push((one, h));
    r.push((w, h));
    assert(r@ =~= corners_spec(*img));
    r
}

/// The box around places.
#[derive(Clone, Copy, Debug, PartialEq, Eq, Structural)]
pub struct Bounds {
    pub min_x: Double,
    pub min_y: Double,
    pub max_x: Double,
    pub max_y: Double,
}

/// The box around the places that are there and finite.
pub open spec fn bounds_spec(v: Seq<Option<(Double, Double)>>) -> Bounds
    decreases v.len(),
{
    if v.len() == 0 {
        Bounds {
            min_x: Double { bits: 0x7ff0_0000_0000_0000 },
            min_y: Double { bits: 0x7ff0_0000_0000_0000 },
            max_x: Double { bits: 0xfff0_0000_0000_0000 },
            max_y: Double { bits: 0xfff0_0000_0000_0000 },
        }
    } else {
        let b = bounds_spec(v.drop_last());
        match v.last() {
            Some((x, y)) if x.is_finite() && y.is_finite() => Bounds {
                min_x: b.min_x.min(x),
                min_y: b.min_y.min(y),
                max_x: b.max_x.max(x),
                max_y: b.max_y.max(y),
            },
            _ => b,
        }
    }
}

fn bounds_of(v: &Vec<Option<(Double, Double)>>) -> (r: Bounds)
    ensures
        r == bounds_spec(v@),
{
    let mut b = Bounds {
        min_x: Double { bits: 0x7ff0_0000_0000_0000 },
        min_y: Double { bits: 0x7ff0_0000_0000_0000 },
        max_x: Double { bits: 0xfff0_0000_0000_0000 },
        max_y: Double { bits: 0xfff0_0000_0000_0000 },
    };
    assert(v@.take(0) =~= Seq::empty());
    for i in 0..v.len()
        invariant
            b == bounds_spec(v@.take(i as int)),
    {
        assert(v@.take(i + 1).drop_last() =~= v@.take(i as int));
        if let Some((x, y)) = v[i] {
            if x.is_finite() && y.is_finite() {
                b = Bounds {
                    min_x: b.min_x.min(x),
                    min_y: b.min_y.min(y),
                    max_x: b.max_x.max(x),
                    max_y: b.max_y.max(y),
                };
            }
        }
    }
    assert(v@.take(v@.len() as int) =~= v@);
    b
}

/// The size of a mosaic along an axis: the distance rounded up, and one.
pub open spec fn extent(lo: Double, hi: Double) -> int {
    let n = hi.minus(lo).whole_spec(Whole::Ceil, 0, usize::MAX as int);
    if n < usize::MAX {
        n + 1
    } else {
        usize::MAX as int
    }
}

fn extent_of(lo: Double, hi: Double) -> (r: usize)
    ensures
        r == extent(lo, hi),
        r >= 1,
{
    let n: usize = hi.minus(lo).whole(Whole::Ceil, 0, usize::MAX as i128) as usize;
    if n < usize::MAX {
        n + 1
    } else {
        usize::MAX
    }
}

/// Why there is no mosaic.
pub enum MosaicError {
    /// Fewer than two frames have coordinates.
    TooFew,
    /// No corner lies in the projection.
    NoCorner,
    /// The pixels cannot be counted.
    Overflow,
    /// There are too many pixels.
    TooLarge { width: usize, height: usize },
}

impl MosaicError {
    /// The reason in words.
    pub open spec fn message_spec(self) -> Seq<char> {
        match self {
            MosaicError::TooFew => "mosaic: need at least 2 frames with WCS"@,
            MosaicError::NoCorner => "mosaic: could not project any corner — check WCS"@,
            MosaicError::Overflow => "mosaic: overflow"@,
            MosaicError::TooLarge { width, height } => "mosaic: output "@ + nat_text(width as nat)
                + "×"@ + nat_text(height as nat) + " = "@ + nat_text((width * height) as nat)
                + " px exceeds cap (64000000)"@,
        }
    }

    /// The reason in words.
    pub fn message(&self) -> (r: String)
        ensures
            r@ == self.message_spec(),
    {
        let mut v: Vec<char> = Vec::new();
        match self {
            MosaicError::TooFew => {
                put_text(&mut v, "mosaic: need at least 2 frames with WCS");
            },
            MosaicError::NoCorner => {
                put_text(&mut v, "mosaic: could not project any corner — check WCS");
            },
            MosaicError::Overflow => {
                put_text(&mut v, "mosaic: overflow");
            },
            MosaicError::TooLarge { width, height } => {
                put_text(&mut v, "mosaic: output ");
                put_nat(&mut v, *width as u128);
                put_text(&mut v, "×");
                put_nat(&mut v, *height as u128);
                put_text(&mut v, " = ");
                assert(0 <= *width * *height <= 0xffff_ffff_ffff_ffff * 0xffff_ffff_ffff_ffff)
                    by (nonlinear_arith)
                    requires
                        0 <= *width <= 0xffff_ffff_ffff_ffff,
                        0 <= *height <= 0xffff_ffff_ffff_ffff,
                ;
                put_nat(&mut v, *width as u128 * *height as u128);
                put_text(&mut v, " px exceeds cap (64000000)");
            },
        }
        assert(v@ =~= self.message_spec());
        string_of(&v)
    }
}

/// The canvas of a mosaic: its size and its coordinate system.
pub struct MosaicPlan {
    pub width: usize,
    pub height: usize,
    pub wcs: Wcs,
}

/// The coordinate system of a reference frame, moved so that the first pixel is the corner of
/// the box.
pub open spec fn moved_wcs(w: WcsNumbers, b: Bounds) -> WcsNumbers {
    WcsNumbers {
        crpix1: w.crpix1.minus(b.min_x).plus(Double { bits: 0x3ff0_0000_0000_0000 }),
        crpix2: w.crpix2.minus(b.min_y).plus(Double { bits: 0x3ff0_0000_0000_0000 }),
        ..w
    }
}

/// The outcome of planning a mosaic from the places of all corners in the projection of the
/// first frame.
pub open spec fn plan_error(n: nat, b: Bounds) -> Option<MosaicError> {
    let (w, h) = (extent(b.min_x, b.max_x), extent(b.min_y, b.max_y));
    if n < 2 {
        Some(MosaicError::TooFew)
    } else if !(b.min_x.is_finite() && b.max_x.is_finite()) {
        Some(MosaicError::NoCorner)
    } else if w * h > usize::MAX {
        Some(MosaicError::Overflow)
    } else if w * h > MAX_MOSAIC_PX {
        Some(MosaicError::TooLarge { width: w as usize, height: h as usize })
    } else {
        None
    }
}

/// The canvas of a mosaic of `n` frames. `reference` is the coordinate system of the first of
/// them, `places` are the places in it of all corners of all frames.
pub fn plan_mosaic(n: usize, reference: &Wcs, places: &Vec<Option<(Double, Double)>>) -> (r: Result<
    MosaicPlan,
    MosaicError,
>)
    ensures
        ({
            let b = bounds_spec(places@);
            match r {
                Ok(p) => {
                    &&& plan_error(n as nat, b) is None
                    &&& p.width == extent(b.min_x, b.max_x)
                    &&& p.height == extent(b.min_y, b.max_y)
                    &&& p.wcs.numbers() == moved_wcs(reference.numbers(), b)
                    &&& p.wcs.ctype1@ == reference.ctype1@
                    &&& p.wcs.ctype2@ == reference.ctype2@
                    &&& p.wcs.radesys@ == reference.radesys@
                    &&& p.width * p.height <= MAX_MOSAIC_PX
                    &&& p.width > 0 && p.height > 0
                },
                Err(e) => plan_error(n as nat, b) == Some(e),
            }
        }),
{
    if n < 2 {
        return Err(MosaicError::TooFew);
    }
    let b = bounds_of(places);
    if !(b.min_x.is_finite() && b.max_x.is_finite()) {
        return Err(MosaicError::NoCorner);
    }
    let width: usize = extent_of(b.min_x, b.max_x);
    let height: usize = extent_of(b.min_y, b.max_y);
    assert(0 <= width * height <= 0xffff_ffff_ffff_ffff * 0xffff_ffff_ffff_ffff)
        by (nonlinear_arith)
        requires
            0 <= width <= 0xffff_ffff_ffff_ffff,
            0 <= height <= 0xffff_ffff_ffff_ffff,
    ;
    let total: u128 = width as u128 * height as u128;
    if total > usize::MAX as u128 {
        return Err(MosaicError::Overflow);
    }
    if total > MAX_MOSAIC_PX as u128 {
        return Err(MosaicError::TooLarge { width, height });
    }
    let one = Double { bits: 0x3ff0_0000_0000_0000 };
    let wcs = Wcs {
        ctype1: copied(&reference.ctype1),
        ctype2: copied(&reference.ctype2),
        radesys: copied(&reference.radesys),
        crpix1: reference.crpix1.minus(b.min_x).plus(one),
        crpix2: reference.crpix2.minus(b.min_y).plus(one),
        crval1: reference.crval1,
        crval2: reference.crval2,
        cd11: reference.cd11,
        cd12: reference.cd12,
        cd21: reference.cd21,
        cd22: reference.cd22,
    };
    Ok(MosaicPlan { width, height, wcs })
}

fn copied(s: &String) -> (r: String)
    ensures
        r@ == s@,
{
    let v = chars_of(s.as_str());
    string_of(&v)
}

/// A mosaic in the making: the sum and the number of the pixels at each place.
pub struct MosaicSum {
    pub sum: Vec<Double>,
    pub count: Vec<u32>,
}

impl MosaicSum {
    pub open spec fn wf(self) -> bool {
        self.sum@.len() == self.count@.len()
    }

    /// A mosaic before any frame.
    pub fn new(n: usize) -> (r: MosaicSum)
        ensures
            r.wf(),
            r.sum@ == Seq::new(n as nat, |i: int| Double { bits: 0 }),
            r.count@ == Seq::new(n as nat, |i: int| 0u32),
    {
        let sum: Vec<Double> = vec![Double { bits: 0 }; n];
        let count: Vec<u32> = vec![0u32; n];
        assert(sum@ =~= Seq::new(n as nat, |i: int| Double { bits: 0 }));
        assert(count@ =~= Seq::new(n as nat, |i: int| 0u32));
        MosaicSum { sum, count }
    }
}

/// The pixel of an image nearest to a place, counted from one; none outside the image or where
/// it is not finite.
pub open spec fn nearest_pixel(img: FitsImage, place: Option<(Double, Double)>) -> Option<Single> {
    match place {
        Some((fx, fy)) if fx.is_finite() && fy.is_finite() => {
            let x = fx.whole_spec(Whole::Round, i64::MIN as int, i64::MAX as int) - 1;
            let y = fy.whole_spec(Whole::Round, i64::MIN as int, i64::MAX as int) - 1;
            if 0 <= x < img.width && 0 <= y < img.height && img.data@[y * img.width
                + x].is_finite() {
                Some(img.data@[y * img.width + x])
            } else {
                None
            }
        },
        _ => None,
    }
}

/// The pixel of an image nearest to a place.
pub fn pixel_near(img: &FitsImage, place: Option<(Double, Double)>) -> (r: Option<Single>)
    requires
        img.wf(),
    ensures
        r == nearest_pixel(*img, place),
{
    match place {
        Some((fx, fy)) => {
            if !fx.is_finite() || !fy.is_finite() {
                return None;
            }
            let x: i128 = fx.whole(Whole::Round, i64::MIN as i128, i64::MAX as i128) - 1;
            let y: i128 = fy.whole(Whole::Round, i64::MIN as i128, i64::MAX as i128) - 1;
            if x < 0 || y < 0 || x >= img.width as i128 || y >= img.height as i128 {
                return None;
            }
            let v: Single = pixel(&img.data, img.width, img.height, x as usize, y as usize);
            if v.is_finite() {
                Some(v)
            } else {
                None
            }
        },
        None => None,
    }
}

/// Adds the pixel of a frame at `place` to the mosaic's pixel `i`.
pub fn add_sample(m: &mut MosaicSum, i: usize, img: &FitsImage, place: Option<(Double, Double)>)
    requires
        old(m).wf(),
        i < old(m).sum@.len(),
        old(m).count@[i as int] < u32::MAX,
        img.wf(),
    ensures
        final(m).wf(),
        match nearest_pixel(*img, place) {
            Some(v) => {
                &&& final(m).sum@ == old(m).sum@.update(
                    i as int,
                    old(m).sum@[i as int].plus(v.widen()),
                )
                &&& final(m).count@ == old(m).count@.update(
                    i as int,
                    (old(m).count@[i as int] + 1) as u32,
                )
            },
            None => final(m).sum@ == old(m).sum@ && final(m).count@ == old(m).count@,
        },
{
    if let Some(v) = pixel_near(img, place) {
        let s: Double = m.sum[i].plus(v.widen());
        m.sum[i] = s;
        let c: u32 = m.count[i];
        m.count[i] = c + 1;
    }
}

/// A sum with one more pixel, if there is one.
pub open spec fn sum_with(s: Double, p: Option<Single>) -> Double {
    match p {
        Some(v) => s.plus(v.widen()),
        None => s,
    }
}

/// A number of pixels with one more, if there is one.
pub open spec fn count_with(n: u32, p: Option<Single>) -> int {
    match p {
        Some(_) => n + 1,
        None => n as int,
    }
}

/// Adds the pixels of a frame at `places` to the mosaic's pixels from `at` on, one for each.
pub fn add_row(m: &mut MosaicSum, at: usize, img: &FitsImage, places: &Vec<Option<(Double, Double)>>)
    requires
        old(m).wf(),
        at + places@.len() <= old(m).sum@.len(),
        forall|i: int| at <= i < at + places@.len() ==> #[trigger] old(m).count@[i] < u32::MAX,
        img.wf(),
    ensures
        final(m).wf(),
        final(m).sum@.len() == old(m).sum@.len(),
        forall|i: int|
            0 <= i < old(m).sum@.len() ==> #[trigger] final(m).sum@[i] == if at <= i < at
                + places@.len() {
                sum_with(old(m).sum@[i], nearest_pixel(*img, places@[i - at]))
            } else {
                old(m).sum@[i]
            },
        forall|i: int|
            0 <= i < old(m).sum@.len() ==> #[trigger] final(m).count@[i] == if at <= i < at
                + places@.len() {
                count_with(old(m).count@[i], nearest_pixel(*img, places@[i - at]))
            } else {
                old(m).count@[i] as int
            },
{
    let n: usize = places.len();
    let size: usize = m.sum.len();
    let ghost before = *m;
    for k in 0..n
        invariant
            n == places@.len(),
            size == m.sum@.len(),
            m.wf(),
            before.wf(),
            img.wf(),
            m.sum@.len() == before.sum@.len(),
            at + n <= m.sum@.len(),
            forall|i: int| at <= i < at + n ==> #[trigger] before.count@[i] < u32::MAX,
            forall|i: int|
                0 <= i < m.sum@.len() ==> #[trigger] m.sum@[i] == if at <= i < at + k {
                    sum_with(before.sum@[i], nearest_pixel(*img, places@[i - at]))
                } else {
                    before.sum@[i]
                },
            forall|i: int|
                0 <= i < m.sum@.len() ==> #[trigger] m.count@[i] == if at <= i < at + k {
                    count_with(before.count@[i], nearest_pixel(*img, places@[i - at]))
                } else {
                    before.count@[i] as int
                },
    {
        assert(m.count@[at + k] == before.count@[at + k]);
        add_sample(m, at + k, img, places[k]);
    }
}

/// The pixel of a mosaic: the mean of the frames' pixels, missing where there is none.
pub open spec fn mean_spec(sum: Double, count: u32) -> Single {
    if count > 0 {
        sum.over(Double::from_int_spec(count as int)).narrow()
    } else {
        missing()
    }
}

/// The least and the greatest mean so far.
pub open spec fn mean_range(sum: Seq<Double>, count: Seq<u32>, n: nat) -> (Single, Single)
    decreases n,
{
    if n == 0 {
        (Single { bits: 0x7f80_0000 }, Single { bits: 0xff80_0000 })
    } else {
        let (lo, hi) = mean_range(sum, count, (n - 1) as nat);
        let v = mean_spec(sum[n - 1], count[n - 1]);
        if count[n - 1] > 0 {
            (
                if v.lt(lo) {
                    v
                } else {
                    lo
                },
                if hi.lt(v) {
                    v
                } else {
                    hi
                },
            )
        } else {
            (lo, hi)
        }
    }
}

/// The image of a mosaic.
pub fn finish_mosaic(plan: MosaicPlan, m: &MosaicSum) -> (r: FitsImage)
    requires
        m.wf(),
        m.sum@.len() == plan.width * plan.height,
    ensures
        r.wf(),
        r.width == plan.width,
        r.height == plan.height,
        r.wcs == Some(plan.wcs),
        r.data@ == Seq::new(m.sum@.len(), |i: int| mean_spec(m.sum@[i], m.count@[i])),
        ({
            let (lo, hi) = mean_range(m.sum@, m.count@, m.sum@.len());
            (r.min, r.max) == if lo.is_finite() {
                (lo, hi)
            } else {
                (Single { bits: 0 }, Single { bits: 0x3f80_0000 })
            }
        }),
{
    let n: usize = m.sum.len();
    let mut data: Vec<Single> = Vec::new();
    let mut lo = Single { bits: 0x7f80_0000 };
    let mut hi = Single { bits: 0xff80_0000 };
    for i in 0..n
        invariant
            m.wf(),
            n == m.sum@.len(),
            (lo, hi) == mean_range(m.sum@, m.count@, i as nat),
            data@ =~= Seq::new(i as nat, |k: int| mean_spec(m.sum@[k], m.count@[k])),
    {
        if m.count[i] > 0 {
            let v: Single = m.sum[i].over(Double::from_nat(m.count[i] as u64)).narrow();
            data.push(v);
            if v.lt(lo) {
                lo = v;
            }
            if hi.lt(v) {
                hi = v;
            }
        } else {
            data.push(Single { bits: 0x7fc0_0000 });
        }
    }
    let (min, max): (Single, Single) = if lo.is_finite() {
        (lo, hi)
    } else {
        (Single { bits: 0 }, Single { bits: 0x3f80_0000 })
    };
    FitsImage { width: plan.width, height: plan.height, data, min, max, wcs: Some(plan.wcs) }
}

// ---------------------------------------------------------------------------
// Three colours
// ---------------------------------------------------------------------------

/// Whether frames have the same size.
pub open spec fn same_size(a: Frame, b: Frame) -> bool {
    a.fits.width == b.fits.width && a.fits.height == b.fits.height
}

/// Whether three frames can be the colours of one picture: they have the same size.
pub fn composable(a: &Frame, b: &Frame, c: &Frame) -> (r: bool)
    ensures
        r == (same_size(*a, *b) && same_size(*a, *c)),
{
    b.fits.width == a.fits.width && b.fits.height == a.fits.height && c.fits.width == a.fits.width
        && c.fits.height == a.fits.height
}

/// The greater of two bytes.
pub open spec fn greater(a: u8, b: u8) -> u8 {
    if a > b {
        a
    } else {
        b
    }
}

/// The byte `i` of the composite of three pictures in shades of grey.
pub open spec fn composite_byte(r: Seq<u8>, g: Seq<u8>, b: Seq<u8>, i: int) -> u8 {
    let p = i / 4 * 4;
    if i % 4 == 0 {
        r[p]
    } else if i % 4 == 1 {
        greater(g[p + 1], g[p])
    } else if i % 4 == 2 {
        greater(b[p + 2], b[p])
    } else {
        255
    }
}

fn greater_of(a: u8, b: u8) -> (r: u8)
    ensures
        r == greater(a, b),
{
    if a > b {
        a
    } else {
        b
    }
}

/// The composite of three pictures in shades of grey.
pub open spec fn composite_spec(r: Seq<u8>, g: Seq<u8>, b: Seq<u8>) -> Seq<u8> {
    Seq::new(r.len(), |i: int| composite_byte(r, g, b, i))
}

/// The bytes of a picture whose red, green and blue are the brightness of three pictures in
/// shades of grey.
pub fn build_rgb_composite(r: &Vec<u8>, g: &Vec<u8>, b: &Vec<u8>) -> (out: Vec<u8>)
    requires
        r@.len() == g@.len() == b@.len(),
        r@.len() % 4 == 0,
    ensures
        out@ == composite_spec(r@, g@, b@),
{
    let n: usize = r.len() / 4;
    let total: usize = r.len();
    let mut out: Vec<u8> = Vec::new();
    for i in 0..n
        invariant
            total == r@.len() == g@.len() == b@.len(),
            4 * n == total,
            out@ =~= Seq::new((4 * i) as nat, |k: int| composite_byte(r@, g@, b@, k)),
    {
        let p: usize = 4 * i;
        out.push(r[p]);
        out.push(greater_of(g[p + 1], g[p]));
        out.push(greater_of(b[p + 2], b[p]));
        out.push(255);
        assert(out@ =~= Seq::new((4 * (i + 1)) as nat, |k: int| composite_byte(r@, g@, b@, k)));
    }
    out
}

} // verus!
