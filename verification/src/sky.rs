//! Regions in sky coordinates.
//!
//! A coordinate system, on a line of its own or before a shape, holds for what follows. The
//! positions of a sky region are angles; its sizes are angles too, in seconds of arc. The places
//! of the positions on the image come from the image's coordinate system, the sizes in pixels from
//! its scale.

use crate::fits::{
    degrees_per_radian, radians_per_degree, to_degrees, to_radians, wrapped, wrapped_spec, Wcs,
    WcsNumbers,
};
use crate::marker::{
    body_of, body_spec, comment_spec, coord_spec, line_spec, marker_of, new_marker, parse_comment,
    parse_coord, parse_segment, regions_spec, segment_spec, without_systems, zero, Marker, MarkerView,
    PixelPos, Shape, ShapeView,
};
use crate::num::Double;
use crate::text::{
    chars_of, find, find_spec, lines, lines_spec, lowercase, lowercase_spec, piece, same_text,
    split, split_spec, strip_back, strip_front, texts, trim, trim_back, trim_back_char, trim_end,
    trim_front_char, trim_spec,
};
use vstd::prelude::*;

verus! {

/// The coordinate systems.
#[derive(Clone, Copy, Debug, PartialEq, Eq, Structural)]
pub enum System {
    /// Pixels.
    Image,
    /// Right ascension and declination.
    Equatorial,
    /// Galactic longitude and latitude.
    Galactic,
}

/// The coordinate system that a word names. The equatorial systems are taken as one.
pub open spec fn system_spec(s: Seq<char>) -> Option<System> {
    if s == "fk5"@ || s == "icrs"@ || s == "fk4"@ || s == "b1950"@ || s == "j2000"@ {
        Some(System::Equatorial)
    } else if s == "galactic"@ {
        Some(System::Galactic)
    } else if s == "image"@ || s == "physical"@ || s == "ecliptic"@ || s == "amplifier"@ || s
        == "detector"@ {
        Some(System::Image)
    } else {
        None
    }
}

fn system_of(v: &Vec<char>) -> (r: Option<System>)
    ensures
        r == system_spec(v@),
{
    if same_text(v, "fk5") || same_text(v, "icrs") || same_text(v, "fk4") || same_text(v, "b1950")
        || same_text(v, "j2000") {
        Some(System::Equatorial)
    } else if same_text(v, "galactic") {
        Some(System::Galactic)
    } else if same_text(v, "image") || same_text(v, "physical") || same_text(v, "ecliptic")
        || same_text(v, "amplifier") || same_text(v, "detector") {
        Some(System::Image)
    } else {
        None
    }
}

// ---------------------------------------------------------------------------
// Angles
// ---------------------------------------------------------------------------

/// The angle of whole parts, sixtieths and sixtieths of these.
pub open spec fn parts_value(v: Seq<Option<Double>>) -> Option<Double> {
    let sixty = Double { bits: 0x404e_0000_0000_0000 };
    let hour = Double { bits: 0x40ac_2000_0000_0000 };
    if v.len() == 2 {
        match (v[0], v[1]) {
            (Some(a), Some(b)) => Some(a.plus(b.over(sixty))),
            _ => None,
        }
    } else if v.len() == 3 {
        match (v[0], v[1], v[2]) {
            (Some(a), Some(b), Some(c)) => Some(a.plus(b.over(sixty)).plus(c.over(hour))),
            _ => None,
        }
    } else {
        None
    }
}

/// The angle of a sexagesimal text, like `-04:30` or `12:34:56.7`.
pub open spec fn sexagesimal_value(t: Seq<char>) -> Option<Double> {
    let signed = t.len() > 0 && (t[0] == '-' || t[0] == '+');
    let body = if signed {
        t.drop_first()
    } else {
        t
    };
    let parts = split_spec(body, ':');
    match parts_value(Seq::new(parts.len(), |i: int| Double::parse_spec(trim_spec(parts[i])))) {
        Some(x) => if signed && t[0] == '-' {
            Some(x.negate())
        } else {
            Some(x)
        },
        None => None,
    }
}

fn sexagesimal_of(t: &Vec<char>) -> (r: Option<Double>)
    ensures
        r == sexagesimal_value(t@),
{
    let signed: bool = t.len() > 0 && (t[0] == '-' || t[0] == '+');
    let start: usize = if signed {
        1
    } else {
        0
    };
    let body = piece(t, start, t.len());
    assert(t@.subrange(0, t@.len() as int) =~= t@);
    assert(t@.len() > 0 ==> t@.subrange(1, t@.len() as int) =~= t@.drop_first());
    let parts = split(&body, ':');
    let n: usize = parts.len();
    let ghost want = Seq::new(
        split_spec(body@, ':').len(),
        |i: int| Double::parse_spec(trim_spec(split_spec(body@, ':')[i])),
    );
    let mut v: Vec<Option<Double>> = Vec::new();
    for i in 0..n
        invariant
            n == parts@.len(),
            texts(parts@) == split_spec(body@, ':'),
            want == Seq::new(
                split_spec(body@, ':').len(),
                |k: int| Double::parse_spec(trim_spec(split_spec(body@, ':')[k])),
            ),
            v@ =~= want.take(i as int),
    {
        let w = trim(&parts[i]);
        assert(texts(parts@)[i as int] == parts@[i as int]@);
        v.push(Double::parse(&w));
    }
    assert(v@ =~= want);
    let sixty = Double { bits: 0x404e_0000_0000_0000 };
    let hour = Double { bits: 0x40ac_2000_0000_0000 };
    let x: Option<Double> = if n == 2 {
        match (v[0], v[1]) {
            (Some(a), Some(b)) => Some(a.plus(b.over(sixty))),
            _ => None,
        }
    } else if n == 3 {
        match (v[0], v[1], v[2]) {
            (Some(a), Some(b), Some(c)) => Some(a.plus(b.over(sixty)).plus(c.over(hour))),
            _ => None,
        }
    } else {
        None
    };
    assert(x == parts_value(want));
    match x {
        Some(x) => if signed && t[0] == '-' {
            Some(x.negate())
        } else {
            Some(x)
        },
        None => None,
    }
}

/// A number and the factor that its unit stands for.
pub open spec fn scaled(x: Option<Double>, k: Double) -> Option<Double> {
    match x {
        Some(v) => Some(v.times(k)),
        None => None,
    }
}

fn scale(x: Option<Double>, k: Double) -> (r: Option<Double>)
    ensures
        r == scaled(x, k),
{
    match x {
        Some(v) => Some(v.times(k)),
        None => None,
    }
}

/// The angle in degrees that a coordinate stands for. A sexagesimal longitude is in hours,
/// and so is a number that ends in `h`; one that ends in `d`, or in no unit, is in degrees.
pub open spec fn angle_spec(s: Seq<char>, longitude: bool) -> Option<Double> {
    let t = trim_spec(s);
    let fifteen = Double { bits: 0x402e_0000_0000_0000 };
    if t.contains(':') {
        if longitude {
            scaled(sexagesimal_value(t), fifteen)
        } else {
            sexagesimal_value(t)
        }
    } else if t.len() > 0 && t.last() == 'h' {
        scaled(Double::parse_spec(t.drop_last()), fifteen)
    } else if t.len() > 0 && t.last() == 'd' {
        Double::parse_spec(t.drop_last())
    } else {
        coord_spec(t)
    }
}

fn angle_of(s: &Vec<char>, longitude: bool) -> (r: Option<Double>)
    ensures
        r == angle_spec(s@, longitude),
{
    let t = trim(s);
    let n: usize = t.len();
    if find(&t, ':', ':') < n {
        let x: Option<Double> = sexagesimal_of(&t);
        return if longitude {
            scale(x, Double { bits: 0x402e_0000_0000_0000 })
        } else {
            x
        };
    }
    assert(!t@.contains(':'));
    if n > 0 && t[n - 1] == 'h' {
        let w = piece(&t, 0, n - 1);
        assert(w@ =~= t@.drop_last());
        return scale(Double::parse(&w), Double { bits: 0x402e_0000_0000_0000 });
    }
    if n > 0 && t[n - 1] == 'd' {
        let w = piece(&t, 0, n - 1);
        assert(w@ =~= t@.drop_last());
        return Double::parse(&w);
    }
    parse_coord(&t)
}

/// The size in seconds of arc that an argument stands for: seconds, minutes or degrees by its
/// unit, seconds where it has none.
pub open spec fn size_spec(s: Seq<char>) -> Option<Double> {
    let t = trim_spec(s);
    if t.len() > 0 && t.last() == '"' {
        Double::parse_spec(t.drop_last())
    } else if t.len() > 0 && t.last() == '\'' {
        scaled(Double::parse_spec(t.drop_last()), Double { bits: 0x404e_0000_0000_0000 })
    } else if t.len() > 0 && t.last() == 'd' {
        scaled(Double::parse_spec(t.drop_last()), Double { bits: 0x40ac_2000_0000_0000 })
    } else {
        coord_spec(t)
    }
}

fn size_of(s: &Vec<char>) -> (r: Option<Double>)
    ensures
        r == size_spec(s@),
{
    let t = trim(s);
    let n: usize = t.len();
    if n == 0 {
        return parse_coord(&t);
    }
    let w = piece(&t, 0, n - 1);
    assert(w@ =~= t@.drop_last());
    if t[n - 1] == '"' {
        Double::parse(&w)
    } else if t[n - 1] == '\'' {
        scale(Double::parse(&w), Double { bits: 0x404e_0000_0000_0000 })
    } else if t[n - 1] == 'd' {
        scale(Double::parse(&w), Double { bits: 0x40ac_2000_0000_0000 })
    } else {
        parse_coord(&t)
    }
}

// ---------------------------------------------------------------------------
// Lines
// ---------------------------------------------------------------------------

/// The kinds of sky regions.
#[derive(Clone, Copy, Debug, PartialEq, Eq, Structural)]
pub enum SkyKind {
    Circle,
    Ellipse,
    Box,
    Annulus,
    Polygon,
    Point,
    Line,
}

/// The kind with the given name.
pub open spec fn sky_kind(s: Seq<char>) -> Option<SkyKind> {
    if s == "circle"@ {
        Some(SkyKind::Circle)
    } else if s == "ellipse"@ {
        Some(SkyKind::Ellipse)
    } else if s == "box"@ {
        Some(SkyKind::Box)
    } else if s == "annulus"@ {
        Some(SkyKind::Annulus)
    } else if s == "polygon"@ {
        Some(SkyKind::Polygon)
    } else if s == "point"@ {
        Some(SkyKind::Point)
    } else if s == "line"@ {
        Some(SkyKind::Line)
    } else {
        None
    }
}

fn sky_kind_of(v: &Vec<char>) -> (r: Option<SkyKind>)
    ensures
        r == sky_kind(v@),
{
    if same_text(v, "circle") {
        Some(SkyKind::Circle)
    } else if same_text(v, "ellipse") {
        Some(SkyKind::Ellipse)
    } else if same_text(v, "box") {
        Some(SkyKind::Box)
    } else if same_text(v, "annulus") {
        Some(SkyKind::Annulus)
    } else if same_text(v, "polygon") {
        Some(SkyKind::Polygon)
    } else if same_text(v, "point") {
        Some(SkyKind::Point)
    } else if same_text(v, "line") {
        Some(SkyKind::Line)
    } else {
        None
    }
}

impl SkyKind {
    /// How many positions, sizes and angles a region of the kind has when it is given `n`
    /// arguments, if that is a number of arguments it takes. A box and an ellipse may leave out
    /// the angle; a polygon takes three positions or more.
    pub open spec fn layout(self, n: nat) -> Option<(nat, nat, nat)> {
        match self {
            SkyKind::Circle => if n == 3 {
                Some((1, 1, 0))
            } else {
                None
            },
            SkyKind::Ellipse | SkyKind::Box => if n == 5 {
                Some((1, 2, 1))
            } else if n == 4 {
                Some((1, 2, 0))
            } else {
                None
            },
            SkyKind::Annulus => if n == 4 {
                Some((1, 2, 0))
            } else {
                None
            },
            SkyKind::Polygon => if n >= 6 && n % 2 == 0 {
                Some((n / 2, 0, 0))
            } else {
                None
            },
            SkyKind::Point => if n == 2 {
                Some((1, 0, 0))
            } else {
                None
            },
            SkyKind::Line => if n == 4 {
                Some((2, 0, 0))
            } else {
                None
            },
        }
    }

    fn layout_of(self, n: usize) -> (r: Option<(usize, usize, usize)>)
        ensures
            match r {
                Some(t) => self.layout(n as nat) == Some((t.0 as nat, t.1 as nat, t.2 as nat))
                    && 2 * t.0 + t.1 + t.2 == n && t.0 >= 1 && t.1 <= 2 && t.2 <= 1,
                None => self.layout(n as nat) is None,
            },
    {
        match self {
            SkyKind::Circle => if n == 3 {
                Some((1, 1, 0))
            } else {
                None
            },
            SkyKind::Ellipse | SkyKind::Box => if n == 5 {
                Some((1, 2, 1))
            } else if n == 4 {
                Some((1, 2, 0))
            } else {
                None
            },
            SkyKind::Annulus => if n == 4 {
                Some((1, 2, 0))
            } else {
                None
            },
            SkyKind::Polygon => if n >= 6 && n % 2 == 0 {
                Some((n / 2, 0, 0))
            } else {
                None
            },
            SkyKind::Point => if n == 2 {
                Some((1, 0, 0))
            } else {
                None
            },
            SkyKind::Line => if n == 4 {
                Some((2, 0, 0))
            } else {
                None
            },
        }
    }
}

/// A sky region: its positions in degrees, its sizes in seconds of arc, its angle in degrees.
pub struct SkyRegion {
    pub kind: SkyKind,
    pub galactic: bool,
    pub positions: Vec<(Double, Double)>,
    pub sizes: Vec<Double>,
    pub angle: Double,
}

/// A sky region by its contents.
#[verifier::ext_equal]
pub struct SkyView {
    pub kind: SkyKind,
    pub galactic: bool,
    pub positions: Seq<(Double, Double)>,
    pub sizes: Seq<Double>,
    pub angle: Double,
}

impl View for SkyRegion {
    type V = SkyView;

    open spec fn view(&self) -> SkyView {
        SkyView {
            kind: self.kind,
            galactic: self.galactic,
            positions: self.positions@,
            sizes: self.sizes@,
            angle: self.angle,
        }
    }
}

/// The number that the argument `i` stands for: a longitude, a latitude, a size or an angle by
/// its place, with `k` positions and `s` sizes.
pub open spec fn arg_spec(parts: Seq<Seq<char>>, i: int, k: nat, s: nat) -> Option<Double> {
    if i < 2 * k {
        angle_spec(parts[i], i % 2 == 0)
    } else if i < 2 * k + s {
        size_spec(parts[i])
    } else {
        coord_spec(trim_spec(parts[i]))
    }
}

/// The sky region of a kind with the given arguments, if each stands for a number.
pub open spec fn sky_spec(kind: SkyKind, galactic: bool, parts: Seq<Seq<char>>) -> Option<SkyView> {
    match kind.layout(parts.len()) {
        Some((k, s, a)) => if forall|i: int|
            0 <= i < parts.len() ==> (#[trigger] arg_spec(parts, i, k, s)) is Some {
            Some(
                SkyView {
                    kind,
                    galactic,
                    positions: Seq::new(
                        k,
                        |i: int|
                            (
                                arg_spec(parts, 2 * i, k, s)->0,
                                arg_spec(parts, 2 * i + 1, k, s)->0,
                            ),
                    ),
                    sizes: Seq::new(s, |i: int| arg_spec(parts, 2 * k + i, k, s)->0),
                    angle: if a == 1 {
                        arg_spec(parts, 2 * k + s as int, k, s)->0
                    } else {
                        zero()
                    },
                },
            )
        } else {
            None
        },
        None => None,
    }
}

fn arg_of(parts: &Vec<Vec<char>>, i: usize, k: usize, s: usize) -> (r: Option<Double>)
    requires
        i < parts@.len(),
        k <= parts@.len(),
        2 * k + s <= parts@.len(),
    ensures
        r == arg_spec(texts(parts@), i as int, k as nat, s as nat),
{
    let n: usize = parts.len();
    assert(texts(parts@)[i as int] == parts@[i as int]@);
    if i < 2 * k {
        angle_of(&parts[i], i % 2 == 0)
    } else if i < 2 * k + s {
        size_of(&parts[i])
    } else {
        let t = trim(&parts[i]);
        parse_coord(&t)
    }
}

fn sky_of(kind: SkyKind, galactic: bool, parts: &Vec<Vec<char>>) -> (r: Option<SkyRegion>)
    ensures
        match r {
            Some(m) => sky_spec(kind, galactic, texts(parts@)) == Some(m@),
            None => sky_spec(kind, galactic, texts(parts@)) is None,
        },
{
    let n: usize = parts.len();
    let ghost ps = texts(parts@);
    let (k, s, a): (usize, usize, usize) = match kind.layout_of(n) {
        Some(t) => t,
        None => {
            return None;
        },
    };
    let mut v: Vec<Double> = Vec::new();
    for i in 0..n
        invariant
            n == parts@.len(),
            ps == texts(parts@),
            kind.layout(ps.len()) == Some((k as nat, s as nat, a as nat)),
            2 * k + s + a == n,
            v@.len() == i,
            forall|j: int|
                0 <= j < i ==> (#[trigger] arg_spec(ps, j, k as nat, s as nat)) == Some(v@[j]),
    {
        match arg_of(parts, i, k, s) {
            Some(x) => {
                v.push(x);
            },
            None => {
                assert(arg_spec(ps, i as int, k as nat, s as nat) is None);
                return None;
            },
        }
    }
    let mut positions: Vec<(Double, Double)> = Vec::new();
    for i in 0..k
        invariant
            n == v@.len() == ps.len(),
            2 * k + s + a == n,
            forall|j: int|
                0 <= j < n ==> (#[trigger] arg_spec(ps, j, k as nat, s as nat)) == Some(v@[j]),
            positions@ =~= Seq::new(
                i as nat,
                |j: int|
                    (
                        arg_spec(ps, 2 * j, k as nat, s as nat)->0,
                        arg_spec(ps, 2 * j + 1, k as nat, s as nat)->0,
                    ),
            ),
    {
        assert(arg_spec(ps, 2 * i as int, k as nat, s as nat) == Some(v@[2 * i as int]));
        assert(arg_spec(ps, 2 * i + 1, k as nat, s as nat) == Some(v@[2 * i + 1]));
        positions.push((v[2 * i], v[2 * i + 1]));
    }
    let mut sizes: Vec<Double> = Vec::new();
    for i in 0..s
        invariant
            n == v@.len() == ps.len(),
            2 * k + s + a == n,
            forall|j: int|
                0 <= j < n ==> (#[trigger] arg_spec(ps, j, k as nat, s as nat)) == Some(v@[j]),
            sizes@ =~= Seq::new(
                i as nat,
                |j: int| arg_spec(ps, 2 * k + j, k as nat, s as nat)->0,
            ),
    {
        assert(arg_spec(ps, 2 * k + i, k as nat, s as nat) == Some(v@[2 * k + i]));
        sizes.push(v[2 * k + i]);
    }
    let angle: Double = if a == 1 {
        assert(arg_spec(ps, 2 * k + s, k as nat, s as nat) == Some(v@[2 * k + s]));
        v[2 * k + s]
    } else {
        Double { bits: 0 }
    };
    let m = SkyRegion { kind, galactic, positions, sizes, angle };
    proof {
        let want = sky_spec(kind, galactic, ps)->0;
        assert(m@ =~= want);
    }
    Some(m)
}

/// What a shape in a line gives, in a coordinate system of the sky.
pub open spec fn sky_line(line: Seq<char>, galactic: bool) -> Option<SkyView> {
    let body = trim_spec(trim_front_char(line, '-'));
    let open = find_spec(body, '(', '(');
    let inner = trim_back_char(trim_back(body.skip(open + 1)), ')');
    if open >= body.len() {
        None
    } else {
        match sky_kind(lowercase_spec(trim_spec(body.take(open)))) {
            Some(kind) => sky_spec(kind, galactic, split_spec(inner, ',')),
            None => None,
        }
    }
}

fn sky_line_of(line: &Vec<char>, galactic: bool) -> (r: Option<SkyRegion>)
    ensures
        match r {
            Some(m) => sky_line(line@, galactic) == Some(m@),
            None => sky_line(line@, galactic) is None,
        },
{
    let front = strip_front(line, '-');
    let body = trim(&front);
    let open: usize = find(&body, '(', '(');
    if open >= body.len() {
        return None;
    }
    let head = piece(&body, 0, open);
    assert(head@ =~= body@.take(open as int));
    let name = trim(&head);
    let word = lowercase(&name);
    let rest = piece(&body, open + 1, body.len());
    assert(rest@ =~= body@.skip(open + 1));
    let ended = trim_end(&rest);
    let inner = strip_back(&ended, ')');
    let parts = split(&inner, ',');
    match sky_kind_of(&word) {
        Some(kind) => sky_of(kind, galactic, &parts),
        None => None,
    }
}

/// A region that was read: on the image already, or still on the sky.
pub enum Parsed {
    Image(Marker),
    Sky(SkyRegion),
}

/// A region that was read, by its contents.
pub enum ParsedView {
    Image(MarkerView),
    Sky(SkyView),
}

impl View for Parsed {
    type V = ParsedView;

    open spec fn view(&self) -> ParsedView {
        match *self {
            Parsed::Image(m) => ParsedView::Image(m@),
            Parsed::Sky(s) => ParsedView::Sky(s@),
        }
    }
}

/// What has been read: the coordinate system that holds, and the regions.
pub struct Reading {
    pub system: System,
    pub regions: Seq<ParsedView>,
}

/// What has been read after one more shape, or a coordinate system in its place.
pub open spec fn after_segment(r: Reading, segment: Seq<char>) -> Reading {
    let t = trim_spec(segment);
    match system_spec(lowercase_spec(t)) {
        Some(s) => Reading { system: s, ..r },
        None => {
            let region = match r.system {
                System::Image => match segment_spec(segment) {
                    Some(m) => Some(ParsedView::Image(m)),
                    None => None,
                },
                System::Equatorial => match sky_line(t, false) {
                    Some(m) => Some(ParsedView::Sky(m)),
                    None => None,
                },
                System::Galactic => match sky_line(t, true) {
                    Some(m) => Some(ParsedView::Sky(m)),
                    None => None,
                },
            };
            match region {
                Some(m) => Reading { regions: r.regions.push(m), ..r },
                None => r,
            }
        },
    }
}

/// What is left of a line, and the coordinate system that then holds, behind the coordinate
/// systems that the line starts with, each of them before a semicolon.
pub open spec fn behind_systems(system: System, s: Seq<char>) -> (System, Seq<char>)
    decreases s.len(),
{
    let k = find_spec(s, ';', ';');
    if 0 <= k < s.len() {
        match system_spec(lowercase_spec(trim_spec(s.take(k)))) {
            Some(named) => behind_systems(named, s.skip(k + 1)),
            None => (system, s),
        }
    } else {
        (system, s)
    }
}

/// What has been read after one more line: the region in a comment, where pixels hold, or that of
/// the shape behind the coordinate systems in the part before a comment.
pub open spec fn after_line(r: Reading, line: Seq<char>) -> Reading {
    match comment_spec(line) {
        Some(m) if r.system == System::Image => Reading {
            regions: r.regions.push(ParsedView::Image(m)),
            ..r
        },
        _ => {
            let (system, shape) = behind_systems(r.system, body_spec(line));
            after_segment(Reading { system, ..r }, shape)
        },
    }
}

/// What has been read after the lines.
pub open spec fn after_lines(lines: Seq<Seq<char>>) -> Reading
    decreases lines.len(),
{
    if lines.len() == 0 {
        Reading { system: System::Image, regions: Seq::empty() }
    } else {
        after_line(after_lines(lines.drop_last()), lines.last())
    }
}

/// The contents of a list of regions.
pub open spec fn parsed_views(v: Seq<Parsed>) -> Seq<ParsedView> {
    Seq::new(v.len(), |i: int| v[i]@)
}

fn read_segment(system: System, out: &mut Vec<Parsed>, segment: &Vec<char>) -> (r: System)
    ensures
        (Reading { system: r, regions: parsed_views(final(out)@) }) == after_segment(
            Reading { system, regions: parsed_views(old(out)@) },
            segment@,
        ),
{
    let ghost before = parsed_views(out@);
    let t = trim(segment);
    let w = lowercase(&t);
    if let Some(s) = system_of(&w) {
        return s;
    }
    let region: Option<Parsed> = match system {
        System::Image => match parse_segment(segment) {
            Some(m) => Some(Parsed::Image(m)),
            None => None,
        },
        System::Equatorial => match sky_line_of(&t, false) {
            Some(m) => Some(Parsed::Sky(m)),
            None => None,
        },
        System::Galactic => match sky_line_of(&t, true) {
            Some(m) => Some(Parsed::Sky(m)),
            None => None,
        },
    };
    if let Some(m) = region {
        out.push(m);
        assert(parsed_views(out@) =~= before.push(m@));
    }
    system
}

/// Each line gives one region or none, for an image with sky coordinates too.
pub proof fn at_most_one_sky_region_per_line(r: Reading, line: Seq<char>)
    ensures
        ({
            let next = after_line(r, line).regions;
            next == r.regions || exists|m: ParsedView| next == #[trigger] r.regions.push(m)
        }),
{
}

/// Whether a line of a region file says nothing of the sky: it names no coordinate system of the
/// sky, before its shape or in its place.
pub open spec fn is_plain(line: Seq<char>) -> bool {
    let (system, shape) = behind_systems(System::Image, body_spec(line));
    system == System::Image && match system_spec(lowercase_spec(trim_spec(shape))) {
        Some(s) => s == System::Image,
        None => true,
    }
}

/// The coordinate systems before a shape are the same ones for an image with sky coordinates and
/// for one without.
proof fn same_shape_behind(system: System, s: Seq<char>)
    ensures
        behind_systems(system, s).1 == without_systems(s),
    decreases s.len(),
{
    let k = find_spec(s, ';', ';');
    if 0 <= k < s.len() {
        if let Some(named) = system_spec(lowercase_spec(trim_spec(s.take(k)))) {
            same_shape_behind(named, s.skip(k + 1));
        }
    }
}

/// A region file that says nothing of the sky is read the same for an image with sky
/// coordinates and for one without.
pub proof fn plain_files_are_read_the_same(ls: Seq<Seq<char>>)
    requires
        forall|i: int| 0 <= i < ls.len() ==> is_plain(#[trigger] ls[i]),
    ensures
        after_lines(ls).system == System::Image,
        after_lines(ls).regions == regions_spec(ls).map_values(|m: MarkerView| ParsedView::Image(m)),
    decreases ls.len(),
{
    let f = |m: MarkerView| ParsedView::Image(m);
    if ls.len() == 0 {
        assert(regions_spec(ls).map_values(f) =~= Seq::empty());
    } else {
        let front = ls.drop_last();
        assert forall|i: int| 0 <= i < front.len() implies is_plain(#[trigger] front[i]) by {
            assert(is_plain(ls[i]));
        }
        plain_files_are_read_the_same(front);
        let l = ls.last();
        assert(is_plain(ls[ls.len() - 1]));
        let r = after_lines(front);
        let before = regions_spec(front);
        same_shape_behind(System::Image, body_spec(l));
        if let Some(m) = line_spec(l) {
            assert(before.push(m).map_values(f) =~= before.map_values(f).push(f(m)));
        }
    }
}

fn skip_systems(system: System, v: &Vec<char>) -> (r: (System, Vec<char>))
    ensures
        (r.0, r.1@) == behind_systems(system, v@),
{
    let mut now: System = system;
    let mut rest = piece(v, 0, v.len());
    assert(rest@ =~= v@);
    loop
        invariant
            behind_systems(system, v@) == behind_systems(now, rest@),
        ensures
            behind_systems(system, v@) == (now, rest@),
        decreases rest@.len(),
    {
        let k: usize = find(&rest, ';', ';');
        if k >= rest.len() {
            break;
        }
        let head = piece(&rest, 0, k);
        assert(head@ =~= rest@.take(k as int));
        let name = trim(&head);
        let word = lowercase(&name);
        match system_of(&word) {
            Some(s) => {
                now = s;
            },
            None => {
                break;
            },
        }
        let tail = piece(&rest, k + 1, rest.len());
        assert(tail@ =~= rest@.skip(k + 1));
        rest = tail;
    }
    (now, rest)
}

fn read_line(system: System, out: &mut Vec<Parsed>, line: &Vec<char>) -> (r: System)
    ensures
        (Reading { system: r, regions: parsed_views(final(out)@) }) == after_line(
            Reading { system, regions: parsed_views(old(out)@) },
            line@,
        ),
{
    let ghost r0 = Reading { system, regions: parsed_views(out@) };
    if system == System::Image {
        if let Some(m) = parse_comment(line) {
            out.push(Parsed::Image(m));
            assert(parsed_views(out@) =~= r0.regions.push(ParsedView::Image(m@)));
            return system;
        }
    }
    let body = body_of(line);
    let (now, shape) = skip_systems(system, &body);
    read_segment(now, out, &shape)
}

/// The regions of a region file for an image with sky coordinates.
pub fn parse_reg_with_wcs(text: &str) -> (r: Vec<Parsed>)
    ensures
        parsed_views(r@) == after_lines(lines_spec(text@)).regions,
{
    let v = chars_of(text);
    let all = lines(&v);
    let n: usize = all.len();
    let mut system = System::Image;
    let mut out: Vec<Parsed> = Vec::new();
    assert(texts(all@).take(0) =~= Seq::empty());
    assert(parsed_views(out@) =~= Seq::empty());
    for i in 0..n
        invariant
            n == all@.len(),
            after_lines(texts(all@).take(i as int)) == (Reading {
                system,
                regions: parsed_views(out@),
            }),
    {
        let ghost t = texts(all@).take(i + 1);
        assert(t.drop_last() =~= texts(all@).take(i as int));
        assert(t.last() == all@[i as int]@);
        system = read_line(system, &mut out, &all[i]);
    }
    assert(texts(all@).take(n as int) =~= texts(all@));
    out
}

// ---------------------------------------------------------------------------
// Galactic coordinates
// ---------------------------------------------------------------------------

/// The angles in radians whose sines and cosines turn galactic coordinates: the latitude, the
/// longitude from that of the celestial pole, and the declination of the galactic pole.
#[derive(Clone, Copy, Debug, PartialEq, Eq, Structural)]
pub struct GalacticAngles {
    pub latitude: Double,
    pub from_pole: Double,
    pub pole_dec: Double,
}

/// The angle in radians between a galactic longitude and that of the celestial pole.
pub open spec fn from_pole_spec(l_deg: Double) -> Double {
    (Double { bits: 0x405e_bba5_e353_f7cf }).times(radians_per_degree()).minus(
        l_deg.times(radians_per_degree()),
    )
}

/// The angles whose sines and cosines turn galactic coordinates in degrees.
pub fn galactic_angles(l_deg: Double, b_deg: Double) -> (r: GalacticAngles)
    ensures
        r.latitude == b_deg.times(radians_per_degree()),
        r.from_pole == from_pole_spec(l_deg),
        r.pole_dec == (Double { bits: 0x403b_20da_a0ca_e643 }).times(radians_per_degree()),
{
    GalacticAngles {
        latitude: to_radians(b_deg),
        from_pole: to_radians(Double { bits: 0x405e_bba5_e353_f7cf }).minus(to_radians(l_deg)),
        pole_dec: to_radians(Double { bits: 0x403b_20da_a0ca_e643 }),
    }
}

/// The sines and cosines of those angles.
#[derive(Clone, Copy, Debug, PartialEq, Eq, Structural)]
pub struct GalacticTrig {
    pub sin_b: Double,
    pub cos_b: Double,
    pub sin_from: Double,
    pub cos_from: Double,
    pub sin_pole: Double,
    pub cos_pole: Double,
}

impl GalacticTrig {
    /// The sine of the declination.
    pub open spec fn sin_dec_spec(self) -> Double {
        self.sin_b.times(self.sin_pole).plus(self.cos_b.times(self.cos_pole).times(self.cos_from))
    }

    /// The sine of the declination.
    pub fn sin_dec(&self) -> (r: Double)
        ensures
            r == self.sin_dec_spec(),
    {
        self.sin_b.times(self.sin_pole).plus(self.cos_b.times(self.cos_pole).times(self.cos_from))
    }

    /// The sine and cosine of the right ascension from that of the galactic pole, where the
    /// declination has the given cosine.
    pub fn offset(&self, cos_dec: Double) -> (r: (Double, Double))
        ensures
            r.0 == self.cos_b.times(self.sin_from).over(cos_dec),
            r.1 == self.sin_b.minus(self.sin_pole.times(self.sin_dec_spec())).over(
                self.cos_pole.times(cos_dec),
            ),
    {
        (
            self.cos_b.times(self.sin_from).over(cos_dec),
            self.sin_b.minus(self.sin_pole.times(self.sin_dec())).over(
                self.cos_pole.times(cos_dec),
            ),
        )
    }
}

/// The right ascension and declination in degrees of a galactic position, from its declination
/// and its right ascension from that of the galactic pole, both in radians.
pub fn galactic_to_icrs(dec: Double, offset: Double) -> (r: (Double, Double))
    ensures
        r.0 == wrapped_spec(
            Double { bits: 0x4068_1b81_16eb_d4d0 }.times(radians_per_degree()).plus(offset),
            Double { bits: 0x4019_21fb_5444_2d18 },
        ).times(degrees_per_radian()),
        r.1 == dec.times(degrees_per_radian()),
{
    let ra: Double = wrapped(to_radians(Double { bits: 0x4068_1b81_16eb_d4d0 }).plus(offset), Double { bits: 0x4019_21fb_5444_2d18 });
    (to_degrees(ra), to_degrees(dec))
}

// ---------------------------------------------------------------------------
// Placing
// ---------------------------------------------------------------------------

/// The number of pixels for a second of arc.
pub open spec fn pix_per_arcsec_spec(w: WcsNumbers) -> Double {
    Double { bits: 0x3ff0_0000_0000_0000 }.over(Wcs::det_spec(w).abs().sqrt().times(Double { bits: 0x40ac_2000_0000_0000 }))
}

/// The number of pixels for a second of arc, from the determinant of the matrix.
pub fn pix_per_arcsec(w: &Wcs) -> (r: Double)
    ensures
        r == pix_per_arcsec_spec(w.numbers()),
{
    let det: Double = w.cd11.times(w.cd22).minus(w.cd12.times(w.cd21));
    (Double { bits: 0x3ff0_0000_0000_0000 }).over(det.abs().sqrt().times(Double { bits: 0x40ac_2000_0000_0000 }))
}

/// The region on the image of a sky region whose positions have the given places: none where a
/// position has no place, or where the region lacks what its kind needs.
pub open spec fn placed_spec(m: SkyView, places: Seq<Option<(Double, Double)>>, k: Double) -> Option<
    MarkerView,
> {
    if !is_complete(m) || places.len() != m.positions.len() || (exists|i: int|
        0 <= i < places.len() && (#[trigger] places[i]) is None) {
        None
    } else {
        let p = |i: int| PixelPos { x: (places[i]->0).0, y: (places[i]->0).1 };
        let s = |i: int| m.sizes[i].times(k);
        Some(
            new_marker(
                match m.kind {
                    SkyKind::Circle => ShapeView::Circle { center: p(0), r: s(0) },
                    SkyKind::Ellipse => ShapeView::Ellipse {
                        center: p(0),
                        a: s(0),
                        b: s(1),
                        theta_deg: m.angle,
                    },
                    SkyKind::Box => ShapeView::Box {
                        center: p(0),
                        w: s(0),
                        h: s(1),
                        theta_deg: m.angle,
                    },
                    SkyKind::Annulus => ShapeView::Annulus {
                        center: p(0),
                        r_inner: s(0),
                        r_outer: s(1),
                    },
                    SkyKind::Polygon => ShapeView::Polygon {
                        points: Seq::new(places.len(), |i: int| p(i)),
                    },
                    SkyKind::Point => ShapeView::Point { center: p(0) },
                    SkyKind::Line => ShapeView::Line { from: p(0), to: p(1) },
                },
            ),
        )
    }
}

/// Whether a sky region has the positions and sizes of its kind.
pub open spec fn is_complete(m: SkyView) -> bool {
    match m.kind {
        SkyKind::Circle => m.positions.len() == 1 && m.sizes.len() == 1,
        SkyKind::Ellipse | SkyKind::Box | SkyKind::Annulus => m.positions.len() == 1
            && m.sizes.len() == 2,
        SkyKind::Polygon => m.positions.len() >= 3,
        SkyKind::Point => m.positions.len() == 1,
        SkyKind::Line => m.positions.len() == 2,
    }
}

fn complete(m: &SkyRegion) -> (r: bool)
    ensures
        r == is_complete(m@),
{
    let (p, s): (usize, usize) = (m.positions.len(), m.sizes.len());
    match m.kind {
        SkyKind::Circle => p == 1 && s == 1,
        SkyKind::Ellipse | SkyKind::Box | SkyKind::Annulus => p == 1 && s == 2,
        SkyKind::Polygon => p >= 3,
        SkyKind::Point => p == 1,
        SkyKind::Line => p == 2,
    }
}

/// A sky region that was read has the positions and sizes of its kind.
pub proof fn read_regions_are_complete(kind: SkyKind, galactic: bool, parts: Seq<Seq<char>>)
    ensures
        sky_spec(kind, galactic, parts) matches Some(m) ==> is_complete(m),
{
}

/// The region on the image of a sky region, from the places of its positions and the number of
/// pixels for a second of arc.
pub fn place_region(m: &SkyRegion, places: &Vec<Option<(Double, Double)>>, k: Double) -> (r: Option<
    Marker,
>)
    ensures
        match r {
            Some(x) => placed_spec(m@, places@, k) == Some(x@),
            None => placed_spec(m@, places@, k) is None,
        },
{
    if places.len() != m.positions.len() || !complete(m) {
        return None;
    }
    let n: usize = places.len();
    let mut p: Vec<PixelPos> = Vec::new();
    for i in 0..n
        invariant
            n == places@.len() == m.positions@.len(),
            p@.len() == i,
            forall|j: int|
                0 <= j < i ==> (#[trigger] places@[j]) is Some && p@[j].x == (places@[j]->0).0
                    && p@[j].y == (places@[j]->0).1,
    {
        match places[i] {
            Some((x, y)) => {
                p.push(PixelPos { x, y });
            },
            None => {
                assert(places@[i as int] is None);
                return None;
            },
        }
    }
    let ghost at = |i: int| PixelPos { x: (places@[i]->0).0, y: (places@[i]->0).1 };
    assert forall|j: int| 0 <= j < n implies #[trigger] p@[j] == at(j) by {
        assert(places@[j] is Some);
    }
    let shape: Shape = match m.kind {
        SkyKind::Circle => Shape::Circle { center: p[0], r: m.sizes[0].times(k) },
        SkyKind::Ellipse => Shape::Ellipse {
            center: p[0],
            a: m.sizes[0].times(k),
            b: m.sizes[1].times(k),
            theta_deg: m.angle,
        },
        SkyKind::Box => Shape::Box {
            center: p[0],
            w: m.sizes[0].times(k),
            h: m.sizes[1].times(k),
            theta_deg: m.angle,
        },
        SkyKind::Annulus => Shape::Annulus {
            center: p[0],
            r_inner: m.sizes[0].times(k),
            r_outer: m.sizes[1].times(k),
        },
        SkyKind::Polygon => {
            assert(p@ =~= Seq::new(n as nat, |i: int| at(i)));
            Shape::Polygon { points: p }
        },
        SkyKind::Point => Shape::Point { center: p[0] },
        SkyKind::Line => Shape::Line { from: p[0], to: p[1] },
    };
    Some(marker_of(shape))
}

} // verus!
