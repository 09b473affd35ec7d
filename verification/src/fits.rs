//! Images and their headers: what a FITS file gives once its blocks are read.
//!
//! A header is a list of keywords with values. From it come the world coordinate
//! system and, for a tile-compressed image, the size of the image and of its tiles.

use crate::arith::Whole;
use crate::decimal::{pad_zero, padded};
use crate::num::{Double, Single};
use crate::text::{
    chars_of, nat_text, piece, put_chars, put_nat, put_text, same_text, string_of, trim, trim_spec,
};
use vstd::prelude::*;

verus! {

/// Why an image could not be had.
#[derive(Clone, Debug)]
pub enum FitsError {
    /// The file could not be read.
    Io(String),
    /// The file is not FITS.
    Parse(String),
    /// The file holds no image of two dimensions.
    NoImageHdu,
}

impl FitsError {
    /// The error in words.
    pub open spec fn message_spec(self) -> Seq<char> {
        match self {
            FitsError::Io(e) => "io: "@ + e@,
            FitsError::Parse(e) => "fits: "@ + e@,
            FitsError::NoImageHdu => "file contains no 2-D image HDU"@,
        }
    }

    /// The error in words.
    pub fn message(&self) -> (r: String)
        ensures
            r@ == self.message_spec(),
    {
        let mut v: Vec<char> = Vec::new();
        match self {
            FitsError::Io(e) => {
                put_text(&mut v, "io: ");
                put_text(&mut v, e.as_str());
            },
            FitsError::Parse(e) => {
                put_text(&mut v, "fits: ");
                put_text(&mut v, e.as_str());
            },
            FitsError::NoImageHdu => {
                put_text(&mut v, "file contains no 2-D image HDU");
            },
        }
        assert(v@ =~= self.message_spec());
        string_of(&v)
    }
}

// ---------------------------------------------------------------------------
// Headers
// ---------------------------------------------------------------------------

/// The value of a header card.
#[derive(Clone, Debug)]
pub enum CardValue {
    Float(Double),
    Integer(i64),
    Text(String),
    Other,
}

/// A header card.
#[derive(Clone, Debug)]
pub struct Card {
    pub key: String,
    pub value: CardValue,
}

/// A header: its cards, each keyword once.
#[derive(Clone, Debug)]
pub struct Header {
    pub cards: Vec<Card>,
}

impl Header {
    /// The place of the first card with the keyword, or the number of cards.
    pub open spec fn place(cards: Seq<Card>, key: Seq<char>) -> int
        decreases cards.len(),
    {
        if cards.len() == 0 || cards[0].key@ == key {
            0
        } else {
            1 + Header::place(cards.drop_first(), key)
        }
    }

    /// The value under the keyword.
    pub open spec fn value_spec(self, key: Seq<char>) -> Option<CardValue> {
        let i = Header::place(self.cards@, key);
        if i < self.cards@.len() {
            Some(self.cards@[i].value)
        } else {
            None
        }
    }

    /// The number under the keyword.
    pub open spec fn number_spec(self, key: Seq<char>) -> Option<Double> {
        match self.value_spec(key) {
            Some(CardValue::Float(x)) => Some(x),
            Some(CardValue::Integer(n)) => Some(Double::from_int_spec(n as int)),
            _ => None,
        }
    }

    /// The text under the keyword, trimmed.
    pub open spec fn text_spec(self, key: Seq<char>) -> Option<Seq<char>> {
        match self.value_spec(key) {
            Some(CardValue::Text(s)) => Some(trim_spec(s@)),
            _ => None,
        }
    }

    fn find(&self, key: &str) -> (r: usize)
        ensures
            r == Header::place(self.cards@, key@),
            r <= self.cards@.len(),
    {
        let mut i: usize = 0;
        assert(self.cards@.skip(0) =~= self.cards@);
        while i < self.cards.len()
            invariant
                i <= self.cards@.len(),
                Header::place(self.cards@, key@) == i + Header::place(
                    self.cards@.skip(i as int),
                    key@,
                ),
            decreases self.cards@.len() - i,
        {
            let k = chars_of(self.cards[i].key.as_str());
            if same_text(&k, key) {
                return i;
            }
            assert(self.cards@.skip(i as int).drop_first() =~= self.cards@.skip(i + 1));
            i += 1;
        }
        i
    }

    /// The number under the keyword: a float as it is, an integer converted.
    pub fn get_f64(&self, key: &str) -> (r: Option<Double>)
        ensures
            r == self.number_spec(key@),
    {
        let i: usize = self.find(key);
        if i >= self.cards.len() {
            return None;
        }
        match &self.cards[i].value {
            CardValue::Float(x) => Some(*x),
            CardValue::Integer(n) => Some(Double::from_int(*n)),
            _ => None,
        }
    }

    /// The text under the keyword, trimmed.
    pub fn get_str(&self, key: &str) -> (r: Option<String>)
        ensures
            match r {
                Some(s) => self.text_spec(key@) == Some(s@),
                None => self.text_spec(key@) is None,
            },
    {
        let i: usize = self.find(key);
        if i >= self.cards.len() {
            return None;
        }
        match &self.cards[i].value {
            CardValue::Text(s) => {
                let v = chars_of(s.as_str());
                let t = trim(&v);
                Some(string_of(&t))
            },
            _ => None,
        }
    }

    /// The number under the keyword, or a default.
    pub open spec fn number_or(self, key: Seq<char>, default: Double) -> Double {
        match self.number_spec(key) {
            Some(x) => x,
            None => default,
        }
    }

    fn get_or(&self, key: &str, default: Double) -> (r: Double)
        ensures
            r == self.number_or(key@, default),
    {
        match self.get_f64(key) {
            Some(x) => x,
            None => default,
        }
    }

    /// The number under the keyword made a natural number: cut off towards zero, a
    /// negative one zero.
    pub open spec fn count_spec(self, key: Seq<char>) -> Option<int> {
        match self.number_spec(key) {
            Some(x) => Some(x.whole_spec(Whole::Trunc, 0, usize::MAX as int)),
            None => None,
        }
    }

    /// The number under the keyword made a natural number.
    pub fn get_count(&self, key: &str) -> (r: Option<usize>)
        ensures
            match r {
                Some(n) => self.count_spec(key@) == Some(n as int),
                None => self.count_spec(key@) is None,
            },
    {
        match self.get_f64(key) {
            Some(x) => Some(x.whole(Whole::Trunc, 0, usize::MAX as i128) as usize),
            None => None,
        }
    }
}

// ---------------------------------------------------------------------------
// World coordinates
// ---------------------------------------------------------------------------

/// A world coordinate system in the gnomonic ("TAN") projection.
#[derive(Clone, Debug)]
pub struct Wcs {
    pub ctype1: String,
    pub ctype2: String,
    pub radesys: String,
    /// The reference pixel.
    pub crpix1: Double,
    pub crpix2: Double,
    /// The sky position of the reference pixel, in degrees.
    pub crval1: Double,
    pub crval2: Double,
    /// Degrees for each pixel.
    pub cd11: Double,
    pub cd12: Double,
    pub cd21: Double,
    pub cd22: Double,
}

/// The numbers of a world coordinate system.
pub struct WcsNumbers {
    pub crpix1: Double,
    pub crpix2: Double,
    pub crval1: Double,
    pub crval2: Double,
    pub cd11: Double,
    pub cd12: Double,
    pub cd21: Double,
    pub cd22: Double,
}

/// Zero and one.
pub open spec fn d0() -> Double {
    Double { bits: 0 }
}

pub open spec fn d1() -> Double {
    Double { bits: 0x3ff0_0000_0000_0000 }
}

/// Radians for a degree.
pub open spec fn radians_per_degree() -> Double {
    Double { bits: 0x3f91_df46_a252_9d39 }
}

/// Degrees for a radian.
pub open spec fn degrees_per_radian() -> Double {
    Double { bits: 0x404c_a5dc_1a63_c1f8 }
}

/// An angle in radians.
pub fn to_radians(x: Double) -> (r: Double)
    ensures
        r == x.times(radians_per_degree()),
{
    x.times(Double { bits: 0x3f91_df46_a252_9d39 })
}

/// An angle in degrees.
pub fn to_degrees(x: Double) -> (r: Double)
    ensures
        r == x.times(degrees_per_radian()),
{
    x.times(Double { bits: 0x404c_a5dc_1a63_c1f8 })
}

impl Wcs {
    /// The numbers of the system.
    pub open spec fn numbers(self) -> WcsNumbers {
        WcsNumbers {
            crpix1: self.crpix1,
            crpix2: self.crpix2,
            crval1: self.crval1,
            crval2: self.crval2,
            cd11: self.cd11,
            cd12: self.cd12,
            cd21: self.cd21,
            cd22: self.cd22,
        }
    }
}

/// Whether the rotation matrix of the header is the identity.
pub open spec fn plain_pc(h: Header) -> bool {
    &&& h.number_or("PC1_2"@, d0()).same(d0())
    &&& h.number_or("PC2_1"@, d0()).same(d0())
    &&& h.number_or("PC1_1"@, d1()).same(d1())
    &&& h.number_or("PC2_2"@, d1()).same(d1())
}

/// Whether the header gives the full matrix.
pub open spec fn has_cd(h: Header) -> bool {
    &&& h.number_spec("CD1_1"@) is Some
    &&& h.number_spec("CD1_2"@) is Some
    &&& h.number_spec("CD2_1"@) is Some
    &&& h.number_spec("CD2_2"@) is Some
}

/// The rotation in radians that the matrix has to be made from, if any: the header
/// has neither a full matrix nor a rotation matrix, but an angle.
pub open spec fn rotation_spec(h: Header) -> Option<Double> {
    match h.number_spec("CROTA2"@) {
        Some(deg) if !has_cd(h) && plain_pc(h) => Some(deg.times(radians_per_degree())),
        _ => None,
    }
}

/// The matrix: given in full, or a rotation by the angle with the given cosine and
/// sine and a scale for each axis, or a rotation matrix and a scale for each axis.
pub open spec fn matrix_spec(h: Header, turn: (Double, Double)) -> (Double, Double, Double, Double) {
    let s1 = h.number_or("CDELT1"@, d1());
    let s2 = h.number_or("CDELT2"@, d1());
    if has_cd(h) {
        (
            h.number_spec("CD1_1"@)->0,
            h.number_spec("CD1_2"@)->0,
            h.number_spec("CD2_1"@)->0,
            h.number_spec("CD2_2"@)->0,
        )
    } else if rotation_spec(h) is Some {
        (s1.times(turn.0), s2.negate().times(turn.1), s1.times(turn.1), s2.times(turn.0))
    } else {
        (
            h.number_or("PC1_1"@, d1()).times(s1),
            h.number_or("PC1_2"@, d0()).times(s1),
            h.number_or("PC2_1"@, d0()).times(s2),
            h.number_or("PC2_2"@, d1()).times(s2),
        )
    }
}

/// The numbers of the world coordinate system of a header, if it has a reference
/// pixel and its sky position.
pub open spec fn wcs_spec(h: Header, turn: (Double, Double)) -> Option<WcsNumbers> {
    match (
        h.number_spec("CRPIX1"@),
        h.number_spec("CRPIX2"@),
        h.number_spec("CRVAL1"@),
        h.number_spec("CRVAL2"@),
    ) {
        (Some(crpix1), Some(crpix2), Some(crval1), Some(crval2)) => {
            let m = matrix_spec(h, turn);
            Some(
                WcsNumbers {
                    crpix1,
                    crpix2,
                    crval1,
                    crval2,
                    cd11: m.0,
                    cd12: m.1,
                    cd21: m.2,
                    cd22: m.3,
                },
            )
        },
        _ => None,
    }
}

/// The text under a keyword, or a default.
pub open spec fn text_or(h: Header, key: Seq<char>, default: Seq<char>) -> Seq<char> {
    match h.text_spec(key) {
        Some(t) => t,
        None => default,
    }
}

fn get_text_or(h: &Header, key: &str, default: &str) -> (r: String)
    ensures
        r@ == text_or(*h, key@, default@),
{
    match h.get_str(key) {
        Some(s) => s,
        None => {
            let v = chars_of(default);
            string_of(&v)
        },
    }
}

fn cd_matrix(h: &Header) -> (r: Option<(Double, Double, Double, Double)>)
    ensures
        r is Some <==> has_cd(*h),
        r is Some ==> r->0 == matrix_spec(*h, (d0(), d0())),
{
    match (h.get_f64("CD1_1"), h.get_f64("CD1_2"), h.get_f64("CD2_1"), h.get_f64("CD2_2")) {
        (Some(a), Some(b), Some(c), Some(d)) => Some((a, b, c, d)),
        _ => None,
    }
}

/// The rotation in radians whose cosine and sine [`try_parse_wcs`] takes, if any.
pub fn rotation(h: &Header) -> (r: Option<Double>)
    ensures
        r == rotation_spec(*h),
{
    let zero = Double { bits: 0 };
    let one = Double { bits: 0x3ff0_0000_0000_0000 };
    if cd_matrix(h).is_some() {
        return None;
    }
    if h.get_or("PC1_2", zero).same(zero) && h.get_or("PC2_1", zero).same(zero) && h.get_or(
        "PC1_1",
        one,
    ).same(one) && h.get_or("PC2_2", one).same(one) {
        match h.get_f64("CROTA2") {
            Some(deg) => Some(to_radians(deg)),
            None => None,
        }
    } else {
        None
    }
}

/// Whether `w` is the world coordinate system of a header, if it has one.
pub open spec fn is_wcs_of(w: Option<Wcs>, h: Header, turn: (Double, Double)) -> bool {
    match w {
        Some(w) => {
            &&& wcs_spec(h, turn) == Some(w.numbers())
            &&& w.ctype1@ == text_or(h, "CTYPE1"@, "PIXEL"@)
            &&& w.ctype2@ == text_or(h, "CTYPE2"@, "PIXEL"@)
            &&& w.radesys@ == text_or(h, "RADESYS"@, "ICRS"@)
        },
        None => wcs_spec(h, turn) is None,
    }
}

/// The world coordinate system of a header. `turn` is the cosine and the sine of the
/// [`rotation`], where there is one.
pub fn try_parse_wcs(h: &Header, turn: (Double, Double)) -> (r: Option<Wcs>)
    ensures
        is_wcs_of(r, *h, turn),
{
    let zero = Double { bits: 0 };
    let one = Double { bits: 0x3ff0_0000_0000_0000 };
    let (crpix1, crpix2, crval1, crval2): (Double, Double, Double, Double) = match (
        h.get_f64("CRPIX1"),
        h.get_f64("CRPIX2"),
        h.get_f64("CRVAL1"),
        h.get_f64("CRVAL2"),
    ) {
        (Some(a), Some(b), Some(c), Some(d)) => (a, b, c, d),
        _ => {
            return None;
        },
    };
    let (cd11, cd12, cd21, cd22): (Double, Double, Double, Double) = match cd_matrix(h) {
        Some(m) => m,
        None => {
            let s1: Double = h.get_or("CDELT1", one);
            let s2: Double = h.get_or("CDELT2", one);
            if rotation(h).is_some() {
                (
                    s1.times(turn.0),
                    s2.negate().times(turn.1),
                    s1.times(turn.1),
                    s2.times(turn.0),
                )
            } else {
                (
                    h.get_or("PC1_1", one).times(s1),
                    h.get_or("PC1_2", zero).times(s1),
                    h.get_or("PC2_1", zero).times(s2),
                    h.get_or("PC2_2", one).times(s2),
                )
            }
        },
    };
    Some(
        Wcs {
            ctype1: get_text_or(h, "CTYPE1", "PIXEL"),
            ctype2: get_text_or(h, "CTYPE2", "PIXEL"),
            radesys: get_text_or(h, "RADESYS", "ICRS"),
            crpix1,
            crpix2,
            crval1,
            crval2,
            cd11,
            cd12,
            cd21,
            cd22,
        },
    )
}

/// Where a pixel lies in the tangent plane: its offsets from the reference point
/// and its distance from it, in radians.
#[derive(Clone, Copy, Debug, PartialEq, Eq, Structural)]
pub struct Tangent {
    pub xi: Double,
    pub eta: Double,
    pub rho: Double,
}

/// The sines and cosines that the way from the tangent plane to the sky needs: of
/// the arc tangent of the distance, and of the reference point's declination.
#[derive(Clone, Copy, Debug, PartialEq, Eq, Structural)]
pub struct PlaneTrig {
    pub sin_c: Double,
    pub cos_c: Double,
    pub sin_dec0: Double,
    pub cos_dec0: Double,
}

/// The sines and cosines that the way from the sky to the tangent plane needs: of the
/// declinations of the point and of the reference point, and of the difference of
/// their right ascensions.
#[derive(Clone, Copy, Debug, PartialEq, Eq, Structural)]
pub struct SkyTrig {
    pub sin_dec: Double,
    pub cos_dec: Double,
    pub sin_dec0: Double,
    pub cos_dec0: Double,
    pub sin_dra: Double,
    pub cos_dra: Double,
}

/// The least nonnegative remainder of `x` by the positive number `m`, to rounding.
pub open spec fn wrapped_spec(x: Double, m: Double) -> Double {
    let r = x.modulo(m);
    if r.lt(d0()) {
        r.plus(m.abs())
    } else {
        r
    }
}

/// The least nonnegative remainder of `x` by the positive number `m`.
pub fn wrapped(x: Double, m: Double) -> (r: Double)
    ensures
        r == wrapped_spec(x, m),
{
    let r: Double = x.modulo(m);
    if r.lt(Double { bits: 0 }) {
        r.plus(m.abs())
    } else {
        r
    }
}

/// A full turn in degrees.
pub open spec fn full_turn() -> Double {
    Double { bits: 0x4076_8000_0000_0000 }
}

impl Wcs {
    /// The tangent-plane offsets of the pixel `(x, y)`, counted from one.
    pub open spec fn tangent_spec(w: WcsNumbers, x: Double, y: Double) -> Tangent {
        let dx = x.minus(w.crpix1);
        let dy = y.minus(w.crpix2);
        let xi = w.cd11.times(dx).plus(w.cd12.times(dy)).times(radians_per_degree());
        let eta = w.cd21.times(dx).plus(w.cd22.times(dy)).times(radians_per_degree());
        Tangent { xi, eta, rho: xi.times(xi).plus(eta.times(eta)).sqrt() }
    }

    /// The tangent-plane offsets of the pixel `(x, y)`, counted from one.
    pub fn tangent(&self, x: Double, y: Double) -> (r: Tangent)
        ensures
            r == Wcs::tangent_spec(self.numbers(), x, y),
    {
        let dx: Double = x.minus(self.crpix1);
        let dy: Double = y.minus(self.crpix2);
        let xi: Double = to_radians(self.cd11.times(dx).plus(self.cd12.times(dy)));
        let eta: Double = to_radians(self.cd21.times(dx).plus(self.cd22.times(dy)));
        Tangent { xi, eta, rho: xi.times(xi).plus(eta.times(eta)).sqrt() }
    }

    /// Whether the point is the reference point, to rounding; its sky position is
    /// then that of the reference point.
    pub fn at_reference(&self, t: Tangent) -> (r: Option<(Double, Double)>)
        ensures
            r == if t.rho.lt(Double { bits: 0x3cd2_03af_9ee7_5616 }) {
                Some((self.crval1, self.crval2))
            } else {
                None
            },
    {
        if t.rho.lt(Double { bits: 0x3cd2_03af_9ee7_5616 }) {
            Some((self.crval1, self.crval2))
        } else {
            None
        }
    }

    /// The sine of the declination of a point, and the two arguments of the arc
    /// tangent that gives the difference of its right ascension.
    pub open spec fn deprojected_spec(t: Tangent, a: PlaneTrig) -> (Double, Double, Double) {
        (
            a.cos_c.times(a.sin_dec0).plus(t.eta.times(a.sin_c).times(a.cos_dec0).over(t.rho)),
            t.xi.times(a.sin_c),
            t.rho.times(a.cos_dec0).times(a.cos_c).minus(t.eta.times(a.sin_dec0).times(a.sin_c)),
        )
    }

    /// The sine of the declination of a point, and the two arguments of the arc
    /// tangent that gives the difference of its right ascension.
    pub fn deprojected(t: Tangent, a: PlaneTrig) -> (r: (Double, Double, Double))
        ensures
            r == Wcs::deprojected_spec(t, a),
    {
        (
            a.cos_c.times(a.sin_dec0).plus(t.eta.times(a.sin_c).times(a.cos_dec0).over(t.rho)),
            t.xi.times(a.sin_c),
            t.rho.times(a.cos_dec0).times(a.cos_c).minus(t.eta.times(a.sin_dec0).times(a.sin_c)),
        )
    }

    /// The sky position in degrees of a point with the given difference of right
    /// ascension and declination, in radians; the right ascension within a turn.
    pub fn sky(&self, dra: Double, dec: Double) -> (r: (Double, Double))
        ensures
            r.0 == wrapped_spec(
                self.crval1.times(radians_per_degree()).plus(dra).times(degrees_per_radian()),
                full_turn(),
            ),
            r.1 == dec.times(degrees_per_radian()),
    {
        let ra: Double = to_radians(self.crval1).plus(dra);
        (wrapped(to_degrees(ra), Double { bits: 0x4076_8000_0000_0000 }), to_degrees(dec))
    }

    /// The angles, in radians, whose sines and cosines [`project`](Wcs::project)
    /// takes: the declinations of the point and of the reference point, and the
    /// difference of their right ascensions.
    pub fn sky_angles(&self, ra_deg: Double, dec_deg: Double) -> (r: (Double, Double, Double))
        ensures
            r.0 == dec_deg.times(radians_per_degree()),
            r.1 == self.crval2.times(radians_per_degree()),
            r.2 == ra_deg.times(radians_per_degree()).minus(
                self.crval1.times(radians_per_degree()),
            ),
    {
        (
            to_radians(dec_deg),
            to_radians(self.crval2),
            to_radians(ra_deg).minus(to_radians(self.crval1)),
        )
    }

    /// The cosine of the distance of a point from the reference point.
    pub open spec fn depth_spec(t: SkyTrig) -> Double {
        t.sin_dec0.times(t.sin_dec).plus(t.cos_dec0.times(t.cos_dec).times(t.cos_dra))
    }

    /// The determinant of the matrix.
    pub open spec fn det_spec(w: WcsNumbers) -> Double {
        w.cd11.times(w.cd22).minus(w.cd12.times(w.cd21))
    }

    /// The pixel of a sky position: none behind the tangent plane or where the matrix
    /// has no inverse.
    pub open spec fn project_spec(w: WcsNumbers, t: SkyTrig) -> Option<(Double, Double)> {
        let depth = Wcs::depth_spec(t);
        let det = Wcs::det_spec(w);
        let xi = t.cos_dec.times(t.sin_dra).over(depth).times(degrees_per_radian());
        let eta = t.cos_dec0.times(t.sin_dec).minus(
            t.sin_dec0.times(t.cos_dec).times(t.cos_dra),
        ).over(depth).times(degrees_per_radian());
        let inv = d1().over(det);
        if depth.le(d0()) || det.abs().lt(Double { bits: 0x39b4_484b_feeb_c2a0 }) {
            None
        } else {
            Some(
                (
                    inv.times(w.cd22.times(xi).minus(w.cd12.times(eta))).plus(w.crpix1),
                    inv.times(w.cd21.negate().times(xi).plus(w.cd11.times(eta))).plus(w.crpix2),
                ),
            )
        }
    }

    /// The pixel, counted from one, of the sky position with the given sines and
    /// cosines.
    pub fn project(&self, t: SkyTrig) -> (r: Option<(Double, Double)>)
        ensures
            r == Wcs::project_spec(self.numbers(), t),
    {
        let depth: Double = t.sin_dec0.times(t.sin_dec).plus(
            t.cos_dec0.times(t.cos_dec).times(t.cos_dra),
        );
        if depth.le(Double { bits: 0 }) {
            return None;
        }
        let xi: Double = to_degrees(t.cos_dec.times(t.sin_dra).over(depth));
        let eta: Double = to_degrees(
            t.cos_dec0.times(t.sin_dec).minus(t.sin_dec0.times(t.cos_dec).times(t.cos_dra)).over(
                depth,
            ),
        );
        let det: Double = self.cd11.times(self.cd22).minus(self.cd12.times(self.cd21));
        if det.abs().lt(Double { bits: 0x39b4_484b_feeb_c2a0 }) {
            return None;
        }
        let inv: Double = Double { bits: 0x3ff0_0000_0000_0000 }.over(det);
        Some(
            (
                inv.times(self.cd22.times(xi).minus(self.cd12.times(eta))).plus(self.crpix1),
                inv.times(self.cd21.negate().times(xi).plus(self.cd11.times(eta))).plus(
                    self.crpix2,
                ),
            ),
        )
    }
}

// ---------------------------------------------------------------------------
// Sexagesimal text
// ---------------------------------------------------------------------------

/// A numeral with zeroes behind its sign, so that it has at least `n` characters.
pub open spec fn zero_filled(s: Seq<char>, n: nat) -> Seq<char> {
    if s.len() > 0 && s[0] == '-' {
        seq!['-'] + pad_zero(s.drop_first(), if n > 0 {
            (n - 1) as nat
        } else {
            0
        })
    } else {
        pad_zero(s, n)
    }
}

/// Appends a numeral with zeroes behind its sign.
fn put_filled(out: &mut Vec<char>, s: Vec<char>, n: usize)
    requires
        n > 0,
    ensures
        final(out)@ == old(out)@ + zero_filled(s@, n as nat),
{
    let ghost before = out@;
    if s.len() > 0 && s[0] == '-' {
        let rest = piece(&s, 1, s.len());
        assert(rest@ =~= s@.drop_first());
        let t = padded(rest, n - 1);
        out.push('-');
        put_chars(out, &t);
        assert(out@ =~= before + zero_filled(s@, n as nat));
    } else {
        let t = padded(s, n);
        put_chars(out, &t);
    }
}

/// The numeral of an integer.
pub open spec fn int_text(v: int) -> Seq<char> {
    if v < 0 {
        seq!['-'] + nat_text((-v) as nat)
    } else {
        nat_text(v as nat)
    }
}

/// The numeral of an integer.
pub fn int_chars(v: i64) -> (r: Vec<char>)
    ensures
        r@ == int_text(v as int),
{
    let mut r: Vec<char> = Vec::new();
    if v < 0 {
        r.push('-');
        put_nat(&mut r, (-(v as i128)) as u128);
        assert(r@ =~= int_text(v as int));
    } else {
        put_nat(&mut r, v as u128);
        assert(r@ =~= int_text(v as int));
    }
    r
}

/// A number as whole parts, sixtieths and sixtieths of these: the first two rounded
/// down, and kept to 32 bits.
pub open spec fn sixtieths_spec(x: Double) -> (int, int, Double) {
    let sixty = Double { bits: 0x404e_0000_0000_0000 };
    let a = x.whole_spec(Whole::Floor, i32::MIN as int, i32::MAX as int);
    let b_full = x.minus(Double::from_int_spec(a)).times(sixty);
    let b = b_full.whole_spec(Whole::Floor, i32::MIN as int, i32::MAX as int);
    (a, b, b_full.minus(Double::from_int_spec(b)).times(sixty))
}

fn sixtieths(x: Double) -> (r: (i64, i64, Double))
    ensures
        (r.0 as int, r.1 as int, r.2) == sixtieths_spec(x),
{
    let sixty = Double { bits: 0x404e_0000_0000_0000 };
    let a: i64 = x.whole(Whole::Floor, i32::MIN as i128, i32::MAX as i128) as i64;
    let b_full: Double = x.minus(Double::from_int(a)).times(sixty);
    let b: i64 = b_full.whole(Whole::Floor, i32::MIN as i128, i32::MAX as i128) as i64;
    (a, b, b_full.minus(Double::from_int(b)).times(sixty))
}

/// A sky position in sexagesimal form, like `12:34:56.78  +12:34:56.7`.
pub open spec fn sexagesimal_spec(ra_deg: Double, dec_deg: Double) -> Seq<char> {
    let (rh, rm, rs) = sixtieths_spec(ra_deg.over(Double { bits: 0x402e_0000_0000_0000 }));
    let (dd, dm, ds) = sixtieths_spec(dec_deg.abs());
    let sign = if dec_deg.raw().neg {
        '-'
    } else {
        '+'
    };
    zero_filled(int_text(rh), 2).push(':') + zero_filled(int_text(rm), 2).push(':') + zero_filled(
        rs.fixed_spec(2),
        5,
    ) + "  "@.push(sign) + zero_filled(int_text(dd), 2).push(':') + zero_filled(
        int_text(dm),
        2,
    ).push(':') + zero_filled(ds.fixed_spec(1), 4)
}

/// A sky position in degrees in sexagesimal form, like `12:34:56.78  +12:34:56.7`.
pub fn format_sexagesimal(ra_deg: Double, dec_deg: Double) -> (r: String)
    ensures
        r@ == sexagesimal_spec(ra_deg, dec_deg),
{
    let (rh, rm, rs): (i64, i64, Double) = sixtieths(
        ra_deg.over(Double { bits: 0x402e_0000_0000_0000 }),
    );
    let (dd, dm, ds): (i64, i64, Double) = sixtieths(dec_deg.abs());
    let mut v: Vec<char> = Vec::new();
    put_filled(&mut v, int_chars(rh), 2);
    v.push(':');
    put_filled(&mut v, int_chars(rm), 2);
    v.push(':');
    put_filled(&mut v, rs.fixed(2), 5);
    put_text(&mut v, "  ");
    if dec_deg.raw().neg {
        v.push('-');
    } else {
        v.push('+');
    }
    put_filled(&mut v, int_chars(dd), 2);
    v.push(':');
    put_filled(&mut v, int_chars(dm), 2);
    v.push(':');
    put_filled(&mut v, ds.fixed(1), 4);
    assert(v@ =~= sexagesimal_spec(ra_deg, dec_deg));
    string_of(&v)
}

// ---------------------------------------------------------------------------
// Pixels
// ---------------------------------------------------------------------------

/// An image of two dimensions.
pub struct FitsImage {
    pub width: usize,
    pub height: usize,
    /// The pixels, row by row.
    pub data: Vec<Single>,
    /// The least and the greatest finite pixel.
    pub min: Single,
    pub max: Single,
    pub wcs: Option<Wcs>,
}

impl FitsImage {
    /// Whether there is a pixel for each place.
    pub open spec fn wf(self) -> bool {
        self.data@.len() == self.width * self.height
    }
}

/// The pixels of an image as they are stored.
pub enum Stored {
    U8(Vec<u8>),
    I16(Vec<i16>),
    I32(Vec<i32>),
    I64(Vec<i64>),
    F32(Vec<Single>),
    F64(Vec<Double>),
}

/// The number that stands for a missing pixel.
pub open spec fn missing() -> Single {
    Single { bits: 0x7fc0_0000 }
}

impl Stored {
    /// The number of pixels.
    pub open spec fn count(self) -> nat {
        match self {
            Stored::U8(v) => v@.len(),
            Stored::I16(v) => v@.len(),
            Stored::I32(v) => v@.len(),
            Stored::I64(v) => v@.len(),
            Stored::F32(v) => v@.len(),
            Stored::F64(v) => v@.len(),
        }
    }

    /// A pixel as a number.
    pub open spec fn pixel(self, i: int) -> Single {
        match self {
            Stored::U8(v) => Single::from_int_spec(v@[i] as int),
            Stored::I16(v) => Single::from_int_spec(v@[i] as int),
            Stored::I32(v) => Single::from_int_spec(v@[i] as int),
            Stored::I64(v) => Single::from_int_spec(v@[i] as int),
            Stored::F32(v) => v@[i],
            Stored::F64(v) => v@[i].narrow(),
        }
    }

    /// The number of pixels.
    pub fn len(&self) -> (r: usize)
        ensures
            r == self.count(),
    {
        match self {
            Stored::U8(v) => v.len(),
            Stored::I16(v) => v.len(),
            Stored::I32(v) => v.len(),
            Stored::I64(v) => v.len(),
            Stored::F32(v) => v.len(),
            Stored::F64(v) => v.len(),
        }
    }

    /// A pixel as a number.
    pub fn get(&self, i: usize) -> (r: Single)
        requires
            i < self.count(),
        ensures
            r == self.pixel(i as int),
    {
        match self {
            Stored::U8(v) => Single::from_int(v[i] as i64),
            Stored::I16(v) => Single::from_int(v[i] as i64),
            Stored::I32(v) => Single::from_int(v[i] as i64),
            Stored::I64(v) => Single::from_int(v[i]),
            Stored::F32(v) => v[i],
            Stored::F64(v) => v[i].narrow(),
        }
    }
}

/// The least finite number of `v`, if there is one; of equal ones the first.
pub open spec fn least(v: Seq<Single>) -> Option<Single>
    decreases v.len(),
{
    if v.len() == 0 {
        None
    } else {
        match least(v.drop_last()) {
            Some(m) => if v.last().is_finite() && v.last().lt(m) {
                Some(v.last())
            } else {
                Some(m)
            },
            None => if v.last().is_finite() {
                Some(v.last())
            } else {
                None
            },
        }
    }
}

/// The greatest finite number of `v`, if there is one; of equal ones the first.
pub open spec fn greatest(v: Seq<Single>) -> Option<Single>
    decreases v.len(),
{
    if v.len() == 0 {
        None
    } else {
        match greatest(v.drop_last()) {
            Some(m) => if v.last().is_finite() && m.lt(v.last()) {
                Some(v.last())
            } else {
                Some(m)
            },
            None => if v.last().is_finite() {
                Some(v.last())
            } else {
                None
            },
        }
    }
}

/// The least and the greatest finite number of `v`; zero and one where there is none.
pub open spec fn minmax_spec(v: Seq<Single>) -> (Single, Single) {
    (
        match least(v) {
            Some(m) => m,
            None => Single { bits: 0 },
        },
        match greatest(v) {
            Some(m) => m,
            None => Single { bits: 0x3f80_0000 },
        },
    )
}

/// The least and the greatest finite number of `data`; zero and one where there is
/// none.
pub fn finite_minmax(data: &Vec<Single>) -> (r: (Single, Single))
    ensures
        r == minmax_spec(data@),
{
    let mut lo: Option<Single> = None;
    let mut hi: Option<Single> = None;
    assert(data@.take(0) =~= Seq::empty());
    for i in 0..data.len()
        invariant
            lo == least(data@.take(i as int)),
            hi == greatest(data@.take(i as int)),
    {
        assert(data@.take(i + 1).drop_last() =~= data@.take(i as int));
        let v: Single = data[i];
        if v.is_finite() {
            lo = match lo {
                Some(m) => if v.lt(m) {
                    Some(v)
                } else {
                    Some(m)
                },
                None => Some(v),
            };
            hi = match hi {
                Some(m) => if m.lt(v) {
                    Some(v)
                } else {
                    Some(m)
                },
                None => Some(v),
            };
        }
    }
    assert(data@.take(data@.len() as int) =~= data@);
    let a: Single = match lo {
        Some(m) => m,
        None => Single { bits: 0 },
    };
    let b: Single = match hi {
        Some(m) => m,
        None => Single { bits: 0x3f80_0000 },
    };
    (a, b)
}

/// The least finite number is finite, among the numbers, and no larger than any of
/// them; there is one where any number is finite.
pub proof fn least_is_least(v: Seq<Single>)
    ensures
        match least(v) {
            Some(m) => m.is_finite() && v.contains(m) && forall|i: int|
                0 <= i < v.len() && (#[trigger] v[i]).is_finite() ==> m.le(v[i]),
            None => forall|i: int| 0 <= i < v.len() ==> !(#[trigger] v[i]).is_finite(),
        },
    decreases v.len(),
{
    if v.len() > 0 {
        let w = v.drop_last();
        least_is_least(w);
        assert forall|i: int| 0 <= i < w.len() implies w[i] == v[i] by {}
        match least(w) {
            Some(m) => {
                let k = choose|k: int| 0 <= k < w.len() && w[k] == m;
                assert(v[k] == m);
                assert(v[v.len() - 1] == v.last());
                assert forall|i: int| 0 <= i < v.len() && (#[trigger] v[i]).is_finite() implies least(
                    v,
                )->0.le(v[i]) by {
                    if i < w.len() {
                        assert(m.le(w[i]));
                    }
                }
            },
            None => {
                assert(v[v.len() - 1] == v.last());
                assert forall|i: int| 0 <= i < v.len() && (#[trigger] v[i]).is_finite() implies least(
                    v,
                ) is Some && least(v)->0.le(v[i]) by {
                    if i < w.len() {
                        assert(!w[i].is_finite());
                    }
                }
            },
        }
    }
}

/// The greatest finite number is finite, among the numbers, and no smaller than any
/// of them; there is one where any number is finite.
pub proof fn greatest_is_greatest(v: Seq<Single>)
    ensures
        match greatest(v) {
            Some(m) => m.is_finite() && v.contains(m) && forall|i: int|
                0 <= i < v.len() && (#[trigger] v[i]).is_finite() ==> v[i].le(m),
            None => forall|i: int| 0 <= i < v.len() ==> !(#[trigger] v[i]).is_finite(),
        },
    decreases v.len(),
{
    if v.len() > 0 {
        let w = v.drop_last();
        greatest_is_greatest(w);
        assert forall|i: int| 0 <= i < w.len() implies w[i] == v[i] by {}
        match greatest(w) {
            Some(m) => {
                let k = choose|k: int| 0 <= k < w.len() && w[k] == m;
                assert(v[k] == m);
                assert(v[v.len() - 1] == v.last());
                assert forall|i: int| 0 <= i < v.len() && (#[trigger] v[i]).is_finite() implies v[i].le(
                    greatest(v)->0,
                ) by {
                    if i < w.len() {
                        assert(w[i].le(m));
                    }
                }
            },
            None => {
                assert(v[v.len() - 1] == v.last());
                assert forall|i: int| 0 <= i < v.len() && (#[trigger] v[i]).is_finite() implies greatest(
                    v,
                ) is Some && v[i].le(greatest(v)->0) by {
                    if i < w.len() {
                        assert(!w[i].is_finite());
                    }
                }
            },
        }
    }
}

} // verus!
