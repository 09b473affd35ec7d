//! From pixels to colours: limits, stretch, colour table.

use crate::arith::{units_increase, Whole};
use crate::color::{byte_spec, pixel_place, rgba_byte, Colormap};
use crate::fits::{FitsImage, Wcs};
use crate::num::Single;
use crate::rounding::{lead, nearest, round_bits, spacing_is, unit_exp, units};
use crate::sorting::{ascending, ascending_order};
use crate::text::{chars_of, string_of};
use vstd::arithmetic::power2::*;
use vstd::prelude::*;

verus! {

/// How pixel values between the limits are spread over the colours.
#[derive(Clone, Copy, Debug, PartialEq, Eq, Structural)]
pub enum Stretch {
    Linear,
    Log,
    /// A power with the given exponent.
    Power(Single),
    Sqrt,
    Squared,
    Asinh,
    Sinh,
}

impl Default for Stretch {
    fn default() -> (r: Stretch)
        ensures
            r == Stretch::Linear,
    {
        Stretch::Linear
    }
}

/// The pixel values that get the first and the last colour.
#[derive(Clone, Copy, Debug, PartialEq, Eq, Structural)]
pub struct Limits {
    pub low: Single,
    pub high: Single,
}

/// The finite numbers of `v`, in order.
pub open spec fn finite_values(v: Seq<Single>) -> Seq<Single>
    decreases v.len(),
{
    if v.len() == 0 {
        Seq::empty()
    } else if v.last().is_finite() {
        finite_values(v.drop_last()).push(v.last())
    } else {
        finite_values(v.drop_last())
    }
}

/// The finite numbers of `data`, in order.
pub fn finite_of(data: &Vec<Single>) -> (r: Vec<Single>)
    ensures
        r@ == finite_values(data@),
        forall|i: int| 0 <= i < r@.len() ==> (#[trigger] r@[i]).is_finite(),
{
    let mut r: Vec<Single> = Vec::new();
    assert(data@.take(0) =~= Seq::empty());
    for i in 0..data.len()
        invariant
            r@ == finite_values(data@.take(i as int)),
            forall|k: int| 0 <= k < r@.len() ==> (#[trigger] r@[k]).is_finite(),
    {
        assert(data@.take(i + 1).drop_last() =~= data@.take(i as int));
        if data[i].is_finite() {
            r.push(data[i]);
        }
    }
    assert(data@.take(data@.len() as int) =~= data@);
    r
}

/// The place at a share of a list of `n` numbers.
pub open spec fn rank_spec(n: int, share: Single) -> int {
    let k = Single::from_int_spec(n).times(share).whole_spec(Whole::Trunc, 0, usize::MAX as int);
    if k < n {
        k
    } else {
        n - 1
    }
}

fn rank(n: usize, share: Single) -> (r: usize)
    requires
        n > 0,
    ensures
        r == rank_spec(n as int, share),
        r < n,
{
    let k: usize = Single::from_nat(n as u64).times(share).whole(
        Whole::Trunc,
        0,
        usize::MAX as i128,
    ) as usize;
    if k < n {
        k
    } else {
        n - 1
    }
}

/// The limits that leave out the fortieth part at either end of the finite pixels, or
/// all of them where that leaves nothing.
pub open spec fn is_zscale(img: FitsImage, r: Limits) -> bool {
    let s = finite_values(img.data@);
    if s.len() == 0 {
        r == (Limits { low: Single { bits: 0 }, high: Single { bits: 0x3f80_0000 } })
    } else {
        exists|p: Seq<usize>| #[trigger]
            ascending(s, p) && ({
                let low = s[p[rank_spec(s.len() as int, Single { bits: 0x3ccc_cccd })] as int];
                let high = s[p[rank_spec(s.len() as int, Single { bits: 0x3f79_999a })] as int];
                r == if high.le(low) {
                    Limits { low: img.min, high: img.max }
                } else {
                    Limits { low, high }
                }
            })
    }
}

impl Limits {
    /// The least and the greatest pixel.
    pub fn minmax(img: &FitsImage) -> (r: Limits)
        ensures
            r == (Limits { low: img.min, high: img.max }),
    {
        Limits { low: img.min, high: img.max }
    }

    /// The limits that leave out the fortieth part at either end.
    pub fn zscale(img: &FitsImage) -> (r: Limits)
        ensures
            is_zscale(*img, r),
    {
        let s = finite_of(&img.data);
        let n: usize = s.len();
        if n == 0 {
            return Limits { low: Single { bits: 0 }, high: Single { bits: 0x3f80_0000 } };
        }
        let keys = s.clone();
        assert(keys@ =~= s@);
        let p = ascending_order(keys);
        let a: usize = rank(n, Single { bits: 0x3ccc_cccd });
        let b: usize = rank(n, Single { bits: 0x3f79_999a });
        assert(p@[a as int] < n && p@[b as int] < n);
        let low: Single = s[p[a]];
        let high: Single = s[p[b]];
        assert(ascending(finite_values(img.data@), p@));
        if high.le(low) {
            Limits { low: img.min, high: img.max }
        } else {
            Limits { low, high }
        }
    }
}

// ---------------------------------------------------------------------------
// Stretch
// ---------------------------------------------------------------------------

/// Values of the function that a stretch is made with: the logarithm, the power, the
/// inverse hyperbolic sine or the hyperbolic sine of each argument of
/// [`curve_arguments`], and the value of that function at the end of its range.
pub struct Curve {
    pub values: Vec<Single>,
    pub end: Single,
}

impl Stretch {
    /// Whether the stretch is made with a function whose values a [`Curve`] holds.
    pub open spec fn is_curved(self) -> bool {
        match self {
            Stretch::Linear | Stretch::Sqrt | Stretch::Squared => false,
            _ => true,
        }
    }

    /// The argument of the function for a level.
    pub open spec fn argument_spec(self, n: Single) -> Single {
        match self {
            Stretch::Log => n.times(Single { bits: 0x4479_c000 }).plus(Single { bits: 0x3f80_0000 }),
            Stretch::Asinh => n.times(Single { bits: 0x4120_0000 }),
            _ => n,
        }
    }

    fn argument(self, n: Single) -> (r: Single)
        ensures
            r == self.argument_spec(n),
    {
        match self {
            Stretch::Log => n.times(Single { bits: 0x4479_c000 }).plus(Single { bits: 0x3f80_0000 }),
            Stretch::Asinh => n.times(Single { bits: 0x4120_0000 }),
            _ => n,
        }
    }

    /// The exponent of a power: at least a twentieth.
    pub fn exponent(g: Single) -> (r: Single)
        ensures
            r == g.max(Single { bits: 0x3d4c_cccd }),
    {
        g.max(Single { bits: 0x3d4c_cccd })
    }

    /// The stretched level, given the function's value `y` for the level `n` and its
    /// value at the end of the range. A power needs no scaling. Each function starts at zero.
    pub open spec fn level_spec(self, n: Single, y: Single, end: Single) -> Single {
        match self {
            Stretch::Linear => n,
            Stretch::Sqrt => n.sqrt(),
            Stretch::Squared => n.times(n),
            _ if n.same(Single { bits: 0 }) => Single { bits: 0 },
            Stretch::Power(_) => y,
            _ => y.over(end),
        }
    }

    fn level(self, n: Single, y: Single, end: Single) -> (r: Single)
        ensures
            r == self.level_spec(n, y, end),
    {
        match self {
            Stretch::Linear => n,
            Stretch::Sqrt => n.sqrt(),
            Stretch::Squared => n.times(n),
            _ if n.same(Single { bits: 0 }) => Single { bits: 0 },
            Stretch::Power(_) => y,
            _ => y.over(end),
        }
    }
}

/// The distance between the limits, at least a tiny positive number.
pub open spec fn span_spec(lim: Limits) -> Single {
    lim.high.minus(lim.low).max(Single { bits: 0x0da2_4260 })
}

/// The level of a pixel between the limits, from zero to one; zero for one that is not
/// finite.
pub open spec fn normal_spec(v: Single, lim: Limits) -> Single {
    let n = if v.is_finite() {
        v.minus(lim.low).over(span_spec(lim))
    } else {
        Single { bits: 0 }
    };
    n.clamp(Single { bits: 0 }, Single { bits: 0x3f80_0000 })
}

fn normal(v: Single, lim: Limits, span: Single) -> (r: Single)
    requires
        span == span_spec(lim),
    ensures
        r == normal_spec(v, lim),
{
    let n: Single = if v.is_finite() {
        v.minus(lim.low).over(span)
    } else {
        Single { bits: 0 }
    };
    n.clamp(Single { bits: 0 }, Single { bits: 0x3f80_0000 })
}

fn span_of(lim: Limits) -> (r: Single)
    ensures
        r == span_spec(lim),
{
    lim.high.minus(lim.low).max(Single { bits: 0x0da2_4260 })
}

/// The arguments of the function that the stretch is made with, one for each pixel.
pub open spec fn arguments_spec(img: FitsImage, lim: Limits, s: Stretch) -> Seq<Single> {
    Seq::new(img.data@.len(), |i: int| s.argument_spec(normal_spec(img.data@[i], lim)))
}

/// The arguments of the function that the stretch is made with, one for each pixel.
pub fn curve_arguments(img: &FitsImage, lim: Limits, stretch: Stretch) -> (r: Vec<Single>)
    ensures
        r@ == arguments_spec(*img, lim, stretch),
{
    let span: Single = span_of(lim);
    let mut r: Vec<Single> = Vec::new();
    for i in 0..img.data.len()
        invariant
            span == span_spec(lim),
            r@ =~= Seq::new(
                i as nat,
                |k: int| stretch.argument_spec(normal_spec(img.data@[k], lim)),
            ),
    {
        r.push(stretch.argument(normal(img.data[i], lim, span)));
    }
    r
}

/// The value of the function for the pixel `i`; zero where the stretch needs none.
pub open spec fn curve_value(c: Curve, i: int) -> Single {
    if 0 <= i < c.values@.len() {
        c.values@[i]
    } else {
        Single { bits: 0 }
    }
}

fn curve_at(c: &Curve, i: usize) -> (r: Single)
    ensures
        r == curve_value(*c, i as int),
{
    if i < c.values.len() {
        c.values[i]
    } else {
        Single { bits: 0 }
    }
}

/// The stretched level of the pixel `i`.
pub open spec fn shown_level(img: FitsImage, lim: Limits, s: Stretch, c: Curve, i: int) -> Single {
    s.level_spec(normal_spec(img.data@[i], lim), curve_value(c, i), c.end)
}

/// Shades of grey, one byte for each pixel.
pub open spec fn grayscale_spec(img: FitsImage, lim: Limits, s: Stretch, c: Curve) -> Seq<u8> {
    Seq::new(img.data@.len(), |i: int| byte_spec(shown_level(img, lim, s, c, i)))
}

/// Shades of grey, one byte for each pixel.
pub fn render_grayscale(img: &FitsImage, lim: Limits, stretch: Stretch, curve: &Curve) -> (r: Vec<
    u8,
>)
    requires
        stretch.is_curved() ==> curve.values@.len() == img.data@.len(),
    ensures
        r@ == grayscale_spec(*img, lim, stretch, *curve),
{
    let span: Single = span_of(lim);
    let mut r: Vec<u8> = Vec::new();
    for i in 0..img.data.len()
        invariant
            span == span_spec(lim),
            r@ =~= Seq::new(
                i as nat,
                |k: int| byte_spec(shown_level(*img, lim, stretch, *curve, k)),
            ),
    {
        let n: Single = normal(img.data[i], lim, span);
        r.push(crate::color::byte(stretch.level(n, curve_at(curve, i), curve.end)));
    }
    r
}

/// The index into a colour table for a level.
pub open spec fn index_spec(level: Single) -> int {
    level.times(Single { bits: 0x437f_0000 }).clamp(Single { bits: 0 }, Single { bits: 0x437f_0000 }).whole_spec(Whole::Trunc, 0, 255)
}

fn index_of(level: Single) -> (r: usize)
    ensures
        r == index_spec(level),
        r <= 255,
{
    level.times(Single { bits: 0x437f_0000 }).clamp(Single { bits: 0 }, Single { bits: 0x437f_0000 }).whole(Whole::Trunc, 0, 255) as usize
}

/// The place in the data of the pixel at the place `p` of the shown image: rows are
/// stored from the bottom up and shown from the top down.
pub open spec fn flipped(p: int, w: int, h: int) -> int {
    (h - 1 - p / w) * w + p % w
}

/// The bytes of the shown image, four for each pixel.
pub open spec fn rgba_spec(
    img: FitsImage,
    lim: Limits,
    s: Stretch,
    c: Curve,
    lut: Seq<(u8, u8, u8)>,
) -> Seq<u8> {
    Seq::new(
        (img.width * img.height * 4) as nat,
        |i: int|
            rgba_byte(
                lut[index_spec(
                    shown_level(
                        img,
                        lim,
                        s,
                        c,
                        flipped(i / 4, img.width as int, img.height as int),
                    ),
                )],
                i % 4,
            ),
    )
}

/// The image in the colours of a table, rows from the top down, four bytes for each
/// pixel.
pub fn render_rgba_flipped_with_lut(
    img: &FitsImage,
    lim: Limits,
    stretch: Stretch,
    curve: &Curve,
    lut: &Vec<(u8, u8, u8)>,
) -> (r: Vec<u8>)
    requires
        img.wf(),
        img.width * img.height * 4 <= usize::MAX,
        lut@.len() == 256,
        stretch.is_curved() ==> curve.values@.len() == img.data@.len(),
    ensures
        r@ == rgba_spec(*img, lim, stretch, *curve, lut@),
{
    let span: Single = span_of(lim);
    let (w, h): (usize, usize) = (img.width, img.height);
    let mut out: Vec<u8> = Vec::new();
    let mut y: usize = 0;
    let ghost want = rgba_spec(*img, lim, stretch, *curve, lut@);
    assert(0 * w * 4 == 0) by (nonlinear_arith);
    while y < h
        invariant
            img.wf(),
            w == img.width,
            h == img.height,
            w * h * 4 <= usize::MAX,
            lut@.len() == 256,
            span == span_spec(lim),
            want == rgba_spec(*img, lim, stretch, *curve, lut@),
            y <= h,
            out@ =~= want.take(y * w * 4),
            y * w * 4 <= w * h * 4,
        decreases h - y,
    {
        let mut x: usize = 0;
        while x < w
            invariant
                img.wf(),
                w == img.width,
                h == img.height,
                w * h * 4 <= usize::MAX,
                lut@.len() == 256,
                span == span_spec(lim),
                want == rgba_spec(*img, lim, stretch, *curve, lut@),
                y < h,
                x <= w,
                out@ =~= want.take((y * w + x) * 4),
                (y * w + x) * 4 <= w * h * 4,
            decreases w - x,
        {
            let ghost p = y * w + x;
            proof {
                pixel_place(x as int, y as int, w as int, h as int);
                pixel_place(x as int, h - 1 - y, w as int, h as int);
                assert(w * h * 4 == 4 * (w * h)) by (nonlinear_arith);
                assert((h - 1 - y) * w >= 0) by (nonlinear_arith)
                    requires
                        h - 1 - y >= 0,
                        w >= 0,
                ;
            }
            let at: usize = (h - 1 - y) * w + x;
            assert(at == flipped(p, w as int, h as int));
            let n: Single = normal(img.data[at], lim, span);
            let level: Single = stretch.level(n, curve_at(curve, at), curve.end);
            let (r, g, b): (u8, u8, u8) = lut[index_of(level)];
            let ghost before = out@;
            out.push(r);
            out.push(g);
            out.push(b);
            out.push(255);
            proof {
                assert(want.len() == w * h * 4);
                assert((p * 4) / 4 == p && (p * 4 + 1) / 4 == p && (p * 4 + 2) / 4 == p && (p * 4
                    + 3) / 4 == p);
                assert(out@ =~= want.take((p + 1) * 4));
            }
            x = x + 1;
        }
        proof {
            assert((y + 1) * w == y * w + w) by (nonlinear_arith);
            assert((y + 1) * w <= w * h) by (nonlinear_arith)
                requires
                    y + 1 <= h,
                    w >= 0,
            ;
            assert(w * h * 4 == 4 * (w * h)) by (nonlinear_arith);
        }
        y = y + 1;
    }
    proof {
        assert(h * w * 4 == w * h * 4) by (nonlinear_arith);
    }
    assert(out@ =~= want);
    out
}

/// The image in the colours of a map, rows from the top down, four bytes for each pixel.
pub fn render_rgba_flipped(
    img: &FitsImage,
    lim: Limits,
    stretch: Stretch,
    curve: &Curve,
    cmap: Colormap,
) -> (r: Vec<u8>)
    requires
        img.wf(),
        img.width * img.height * 4 <= usize::MAX,
        stretch.is_curved() ==> curve.values@.len() == img.data@.len(),
    ensures
        r@ == rgba_spec(*img, lim, stretch, *curve, cmap.lut_spec()),
{
    let lut = cmap.lut();
    render_rgba_flipped_with_lut(img, lim, stretch, curve, &lut)
}

// ---------------------------------------------------------------------------
// What holds of the shown image
// ---------------------------------------------------------------------------

/// The distance between the limits is a positive number.
proof fn span_is_positive(lim: Limits)
    ensures
        ({
            let a = span_spec(lim).raw();
            !a.neg && 0 < a.mag && !a.nan(24)
        }),
{
}

/// Whether a number is zero, of either sign.
spec fn is_zero(x: Single) -> bool {
    x.raw().mag == 0
}

/// Nothing divided by something is nothing.
proof fn nothing_rounded(d: nat)
    requires
        d > 0,
    ensures
        round_bits(0, d, 24) == 0,
{
    lemma2_to64();
    assert(2 * lead(24) * d * 1 > 0) by (nonlinear_arith)
        requires
            d > 0,
            lead(24) == 0x80_0000,
    ;
    spacing_is(0, d, 24, 0);
    assert(nearest(0, d * 1) == 0);
}

/// The difference of equal numbers is zero.
proof fn minus_same(x: Single, y: Single)
    requires
        x.is_finite(),
        x.same(y),
    ensures
        is_zero(x.minus(y)),
        x == y ==> x.minus(y) == (Single { bits: 0 }),
{
    reveal(Single::minus_spec);
    reveal(Single::plus_spec);
    let (a, b) = (x.raw(), y.negate().raw());
    assert(b.mag == a.mag);
    assert(a.mag != 0 ==> b.neg == !a.neg);
    assert(units(0, 24) == 0);
    assert(a.value(24) + b.value(24) == 0);
}

/// Zero divided by a positive number is zero.
proof fn zero_over(x: Single, y: Single)
    requires
        is_zero(x),
        !y.raw().neg,
        0 < y.raw().mag,
        !y.raw().nan(24),
    ensures
        is_zero(x.over(y)),
{
    reveal(Single::over_spec);
    let b = y.raw();
    if b.finite(24) {
        units_increase(0, b.mag as nat, 24);
        let w = pow2(unit_exp(24));
        assert(0 * w == 0) by (nonlinear_arith);
        nothing_rounded(units(b.mag as nat, 24));
        assert(units(0, 24) == 0);
    }
}

/// A number times zero is zero.
proof fn zero_times(x: Single, y: Single)
    requires
        is_zero(x),
        y.is_finite(),
    ensures
        is_zero(x.times(y)),
{
    reveal(Single::times_spec);
    let u = units(y.raw().mag as nat, 24);
    assert(0 * u == 0) by (nonlinear_arith);
    assert(units(0, 24) == 0);
    lemma_pow2_pos(unit_exp(24));
    nothing_rounded(pow2(unit_exp(24)));
}

/// The level of a pixel at the lower limit is zero, and so is that of a pixel that is not finite.
proof fn lowest_level(v: Single, lim: Limits)
    requires
        v.same(lim.low) || v == lim.low || !v.is_finite(),
    ensures
        is_zero(normal_spec(v, lim)),
{
    if v.is_finite() {
        minus_same(v, lim.low);
        span_is_positive(lim);
        zero_over(v.minus(lim.low), span_spec(lim));
    }
}

/// A level of zero is shown as nothing.
proof fn lowest_shown(s: Stretch, n: Single, y: Single, end: Single)
    requires
        is_zero(n),
    ensures
        index_spec(s.level_spec(n, y, end)) == 0,
        byte_spec(s.level_spec(n, y, end)) == 0,
{
    let x = s.level_spec(n, y, end);
    reveal(Single::sqrt_spec);
    zero_times(n, n);
    assert(is_zero(x));
    let z = x.times(Single { bits: 0x437f_0000 });
    zero_times(x, Single { bits: 0x437f_0000 });
    reveal(Single::whole_spec);
    lemma_pow2_pos(unit_exp(24));
    assert(units(0, 24) == 0);
}

/// A pixel that is not finite is shown like one that equals the lower limit: in the first colour of
/// the table, and as black among shades of grey.
pub proof fn missing_pixels_look_lowest(
    img: FitsImage,
    lim: Limits,
    s: Stretch,
    c: Curve,
    i: int,
    j: int,
)
    requires
        0 <= i < img.data@.len(),
        0 <= j < img.data@.len(),
        !img.data@[i].is_finite(),
        img.data@[j].same(lim.low) || img.data@[j] == lim.low,
    ensures
        index_spec(shown_level(img, lim, s, c, i)) == 0,
        index_spec(shown_level(img, lim, s, c, j)) == 0,
        byte_spec(shown_level(img, lim, s, c, i)) == 0,
        byte_spec(shown_level(img, lim, s, c, j)) == 0,
{
    lowest_level(img.data@[i], lim);
    lowest_level(img.data@[j], lim);
    lowest_shown(s, normal_spec(img.data@[i], lim), curve_value(c, i), c.end);
    lowest_shown(s, normal_spec(img.data@[j], lim), curve_value(c, j), c.end);
}

/// The shown image has four bytes for each pixel, and the last of them is opaque; the row `y` from
/// the top shows the row `height - 1 - y` of the data.
pub proof fn shown_rows_are_flipped(
    img: FitsImage,
    lim: Limits,
    s: Stretch,
    c: Curve,
    lut: Seq<(u8, u8, u8)>,
    x: int,
    y: int,
)
    requires
        0 <= x < img.width,
        0 <= y < img.height,
    ensures
        ({
            let shown = rgba_spec(img, lim, s, c, lut);
            let at = 4 * (y * img.width + x);
            let from = (img.height - 1 - y) * img.width + x;
            let color = lut[index_spec(shown_level(img, lim, s, c, from))];
            &&& shown.len() == img.width * img.height * 4
            &&& 0 <= at <= shown.len() - 4
            &&& shown[at] == color.0
            &&& shown[at + 1] == color.1
            &&& shown[at + 2] == color.2
            &&& shown[at + 3] == 255
        }),
{
    let (w, h) = (img.width as int, img.height as int);
    let p = y * w + x;
    pixel_place(x, y, w, h);
    assert(w * h * 4 == 4 * (w * h)) by (nonlinear_arith);
    assert((4 * p) / 4 == p && (4 * p + 1) / 4 == p && (4 * p + 2) / 4 == p && (4 * p + 3) / 4 == p);
    assert((4 * p) % 4 == 0 && (4 * p + 1) % 4 == 1 && (4 * p + 2) % 4 == 2 && (4 * p + 3) % 4 == 3);
    assert(w * h * 4 >= 0) by (nonlinear_arith)
        requires
            w >= 0,
            h >= 0,
    ;
}

/// Showing an image in the colours of a map, and in those of the table of that map, gives the same
/// bytes.
pub proof fn map_and_its_table_agree(
    img: FitsImage,
    lim: Limits,
    s: Stretch,
    c: Curve,
    cmap: Colormap,
    lut: Seq<(u8, u8, u8)>,
    by_map: Seq<u8>,
    by_table: Seq<u8>,
)
    requires
        lut == cmap.lut_spec(),
        by_map == rgba_spec(img, lim, s, c, cmap.lut_spec()),
        by_table == rgba_spec(img, lim, s, c, lut),
    ensures
        by_map == by_table,
{
}

/// Where the limits are equal, the distance between them counts as the tiny one, so that levels are
/// still numbers.
pub proof fn equal_limits_keep_a_span(lim: Limits)
    requires
        lim.low == lim.high,
    ensures
        span_spec(lim) == (Single { bits: 0x0da2_4260 }),
{
    if lim.low.is_finite() {
        minus_same(lim.low, lim.low);
    } else {
        reveal(Single::minus_spec);
        reveal(Single::plus_spec);
    }
}

// ---------------------------------------------------------------------------
// Copies
// ---------------------------------------------------------------------------

/// Whether two coordinate systems are the same.
pub open spec fn same_wcs(a: Option<Wcs>, b: Option<Wcs>) -> bool {
    match (a, b) {
        (Some(x), Some(y)) => {
            &&& x.numbers() == y.numbers()
            &&& x.ctype1@ == y.ctype1@
            &&& x.ctype2@ == y.ctype2@
            &&& x.radesys@ == y.radesys@
        },
        (None, None) => true,
        _ => false,
    }
}

fn copy_text(s: &String) -> (r: String)
    ensures
        r@ == s@,
{
    let v = chars_of(s.as_str());
    string_of(&v)
}

/// The same coordinate system.
pub fn copy_wcs(w: &Option<Wcs>) -> (r: Option<Wcs>)
    ensures
        same_wcs(r, *w),
{
    match w {
        Some(w) => Some(
            Wcs {
                ctype1: copy_text(&w.ctype1),
                ctype2: copy_text(&w.ctype2),
                radesys: copy_text(&w.radesys),
                crpix1: w.crpix1,
                crpix2: w.crpix2,
                crval1: w.crval1,
                crval2: w.crval2,
                cd11: w.cd11,
                cd12: w.cd12,
                cd21: w.cd21,
                cd22: w.cd22,
            },
        ),
        None => None,
    }
}

/// Whether two images are the same.
pub open spec fn same_image(a: FitsImage, b: FitsImage) -> bool {
    &&& a.width == b.width
    &&& a.height == b.height
    &&& a.data@ == b.data@
    &&& a.min == b.min
    &&& a.max == b.max
    &&& same_wcs(a.wcs, b.wcs)
}

/// The same image.
pub fn clone_image(img: &FitsImage) -> (r: FitsImage)
    ensures
        same_image(r, *img),
{
    let mut data: Vec<Single> = Vec::new();
    for i in 0..img.data.len()
        invariant
            data@ =~= img.data@.take(i as int),
    {
        data.push(img.data[i]);
    }
    assert(data@ =~= img.data@);
    FitsImage {
        width: img.width,
        height: img.height,
        data,
        min: img.min,
        max: img.max,
        wcs: copy_wcs(&img.wcs),
    }
}

} // verus!
