//! Regions: shapes on the image, and the region files that hold them.

use crate::num::{Double, Single};
use crate::text::{
    chars_of, ended_lines, find, find_spec, is_digit, lines, lines_spec, lowercase, lowercase_spec,
    piece, put_chars, put_text, same_text, split, split_spec, starts_with, starts_with_spec,
    string_of, strip_back, strip_front, texts, trim, trim_back, trim_back_char, trim_end,
    trim_front_char, trim_spec,
};
use vstd::prelude::*;

verus! {

/// A position on the image in pixels, counted from one.
#[derive(Clone, Copy, Debug, PartialEq, Eq, Structural)]
pub struct PixelPos {
    pub x: Double,
    pub y: Double,
}

/// The shape of a region.
#[derive(Clone, Debug)]
pub enum Shape {
    Circle { center: PixelPos, r: Double },
    Ellipse { center: PixelPos, a: Double, b: Double, theta_deg: Double },
    Box { center: PixelPos, w: Double, h: Double, theta_deg: Double },
    Annulus { center: PixelPos, r_inner: Double, r_outer: Double },
    Polygon { points: Vec<PixelPos> },
    Point { center: PixelPos },
    Line { from: PixelPos, to: PixelPos },
    Compass { center: PixelPos, len: Double },
    Text { center: PixelPos, body: String },
}

/// A shape by its contents.
pub enum ShapeView {
    Circle { center: PixelPos, r: Double },
    Ellipse { center: PixelPos, a: Double, b: Double, theta_deg: Double },
    Box { center: PixelPos, w: Double, h: Double, theta_deg: Double },
    Annulus { center: PixelPos, r_inner: Double, r_outer: Double },
    Polygon { points: Seq<PixelPos> },
    Point { center: PixelPos },
    Line { from: PixelPos, to: PixelPos },
    Compass { center: PixelPos, len: Double },
    Text { center: PixelPos, body: Seq<char> },
}

impl View for Shape {
    type V = ShapeView;

    open spec fn view(&self) -> ShapeView {
        match *self {
            Shape::Circle { center, r } => ShapeView::Circle { center, r },
            Shape::Ellipse { center, a, b, theta_deg } => ShapeView::Ellipse {
                center,
                a,
                b,
                theta_deg,
            },
            Shape::Box { center, w, h, theta_deg } => ShapeView::Box { center, w, h, theta_deg },
            Shape::Annulus { center, r_inner, r_outer } => ShapeView::Annulus {
                center,
                r_inner,
                r_outer,
            },
            Shape::Polygon { points } => ShapeView::Polygon { points: points@ },
            Shape::Point { center } => ShapeView::Point { center },
            Shape::Line { from, to } => ShapeView::Line { from, to },
            Shape::Compass { center, len } => ShapeView::Compass { center, len },
            Shape::Text { center, body } => ShapeView::Text { center, body: body@ },
        }
    }
}

/// A region.
#[derive(Clone, Debug)]
pub struct Marker {
    pub shape: Shape,
    pub color: [u8; 4],
    pub width: Single,
    pub tags: Vec<String>,
    pub highlight: bool,
}

/// A region by its contents.
pub struct MarkerView {
    pub shape: ShapeView,
    pub color: Seq<u8>,
    pub width: Single,
    pub tags: Seq<Seq<char>>,
    pub highlight: bool,
}

impl View for Marker {
    type V = MarkerView;

    open spec fn view(&self) -> MarkerView {
        MarkerView {
            shape: self.shape@,
            color: self.color@,
            width: self.width,
            tags: self.tags.deep_view(),
            highlight: self.highlight,
        }
    }
}

/// Zero.
pub open spec fn zero() -> Double {
    Double { bits: 0 }
}

/// The colour of a new region.
pub open spec fn new_color() -> Seq<u8> {
    seq![0x4e, 0xc9, 0xb0, 0xff]
}

/// A region of the given shape, with the properties of a new region: the accent
/// colour, a width of 1.5, no tags, no highlight.
pub open spec fn new_marker(shape: ShapeView) -> MarkerView {
    MarkerView {
        shape,
        color: new_color(),
        width: Single { bits: 0x3fc0_0000 },
        tags: Seq::empty(),
        highlight: false,
    }
}

/// A region of the given shape, with the properties of a new region.
pub fn marker_of(shape: Shape) -> (r: Marker)
    ensures
        r@ == new_marker(shape@),
        r.shape == shape,
{
    let r = Marker {
        shape,
        color: [0x4e, 0xc9, 0xb0, 0xff],
        width: Single { bits: 0x3fc0_0000 },
        tags: Vec::new(),
        highlight: false,
    };
    assert(r.color@ =~= new_color());
    assert(r.tags.deep_view() =~= Seq::empty());
    r
}

impl Default for Marker {
    /// A point at the origin.
    fn default() -> (r: Marker)
        ensures
            r@ == new_marker(ShapeView::Point { center: PixelPos { x: zero(), y: zero() } }),
    {
        marker_of(
            Shape::Point { center: PixelPos { x: Double { bits: 0 }, y: Double { bits: 0 } } },
        )
    }
}

impl Marker {
    /// A circle.
    pub fn circle(cx: Double, cy: Double, r: Double) -> (m: Marker)
        ensures
            m@ == new_marker(ShapeView::Circle { center: PixelPos { x: cx, y: cy }, r }),
    {
        marker_of(Shape::Circle { center: PixelPos { x: cx, y: cy }, r })
    }

    /// A rotated box.
    pub fn rbox(cx: Double, cy: Double, w: Double, h: Double, theta_deg: Double) -> (m: Marker)
        ensures
            m@ == new_marker(
                ShapeView::Box { center: PixelPos { x: cx, y: cy }, w, h, theta_deg },
            ),
    {
        marker_of(Shape::Box { center: PixelPos { x: cx, y: cy }, w, h, theta_deg })
    }
}

/// Why a region file could not be had.
#[derive(Clone, Debug)]
pub enum RegError {
    /// The file could not be read or written.
    Io(String),
    /// The text is not a region file.
    Parse(String),
}

impl RegError {
    /// The error in words.
    pub fn message(&self) -> (r: String)
        ensures
            r@ == match *self {
                RegError::Io(e) => "io: "@ + e@,
                RegError::Parse(e) => "parse: "@ + e@,
            },
    {
        let mut v: Vec<char> = Vec::new();
        match self {
            RegError::Io(e) => {
                put_text(&mut v, "io: ");
                put_text(&mut v, e.as_str());
                assert(v@ =~= "io: "@ + e@);
            },
            RegError::Parse(e) => {
                put_text(&mut v, "parse: ");
                put_text(&mut v, e.as_str());
                assert(v@ =~= "parse: "@ + e@);
            },
        }
        string_of(&v)
    }
}

// ---------------------------------------------------------------------------
// Reading
// ---------------------------------------------------------------------------

/// The characters that a number can end with; others behind it are units.
pub open spec fn ends_number(c: char) -> bool {
    is_digit(c) || c == '.' || c == '-' || c == '+' || c == 'e' || c == 'E'
}

/// `s` without the units it ends with.
pub open spec fn without_units(s: Seq<char>) -> Seq<char>
    decreases s.len(),
{
    if s.len() > 0 && !ends_number(s.last()) {
        without_units(s.drop_last())
    } else {
        s
    }
}

/// The number that an argument of a shape stands for.
pub open spec fn coord_spec(s: Seq<char>) -> Option<Double> {
    Double::parse_spec(without_units(s))
}

/// The number that an argument of a shape stands for.
pub fn parse_coord(v: &Vec<char>) -> (r: Option<Double>)
    ensures
        r == coord_spec(v@),
{
    let mut b: usize = v.len();
    assert(v@.take(b as int) =~= v@);
    while b > 0 && !(('0' <= v[b - 1] && v[b - 1] <= '9') || v[b - 1] == '.' || v[b - 1] == '-'
        || v[b - 1] == '+' || v[b - 1] == 'e' || v[b - 1] == 'E')
        invariant
            b <= v@.len(),
            without_units(v@) == without_units(v@.take(b as int)),
        decreases b,
    {
        assert(v@.take(b as int).drop_last() =~= v@.take(b - 1));
        b -= 1;
    }
    let t = piece(v, 0, b);
    assert(t@ =~= v@.take(b as int));
    Double::parse(&t)
}

/// The numbers that the arguments stand for, if each stands for one.
pub open spec fn coords_spec(parts: Seq<Seq<char>>) -> Option<Seq<Double>>
    decreases parts.len(),
{
    if parts.len() == 0 {
        Some(Seq::empty())
    } else {
        match (coords_spec(parts.drop_last()), coord_spec(trim_spec(parts.last()))) {
            (Some(front), Some(x)) => Some(front.push(x)),
            _ => None,
        }
    }
}

/// The numbers that the arguments stand for, if each stands for one.
fn parse_coords(parts: &Vec<Vec<char>>) -> (r: Option<Vec<Double>>)
    ensures
        match r {
            Some(v) => coords_spec(texts(parts@)) == Some(v@),
            None => coords_spec(texts(parts@)) is None,
        },
{
    let mut out: Vec<Double> = Vec::new();
    let n: usize = parts.len();
    assert(texts(parts@).take(0) =~= Seq::empty());
    for i in 0..n
        invariant
            n == parts@.len(),
            coords_spec(texts(parts@).take(i as int)) == Some(out@),
    {
        let ghost all = texts(parts@);
        assert(all.take(i + 1).drop_last() =~= all.take(i as int));
        assert(all.take(i + 1).last() == parts@[i as int]@);
        let t = trim(&parts[i]);
        match parse_coord(&t) {
            Some(x) => {
                out.push(x);
            },
            None => {
                proof {
                    coords_none(all, i + 1);
                }
                return None;
            },
        }
    }
    assert(texts(parts@).take(n as int) =~= texts(parts@));
    Some(out)
}

/// One argument that stands for no number spoils the rest.
proof fn coords_none(parts: Seq<Seq<char>>, n: int)
    requires
        0 <= n <= parts.len(),
        coords_spec(parts.take(n)) is None,
    ensures
        coords_spec(parts) is None,
    decreases parts.len() - n,
{
    if n == parts.len() {
        assert(parts.take(n) =~= parts);
    } else {
        assert(parts.take(n + 1).drop_last() =~= parts.take(n));
        coords_none(parts, n + 1);
    }
}

/// The corners that pairs of coordinates give.
pub open spec fn corners_spec(v: Seq<Double>) -> Seq<PixelPos> {
    Seq::new(v.len() / 2, |i: int| PixelPos { x: v[2 * i], y: v[2 * i + 1] })
}

/// The shape of a kind with the given arguments; each kind takes a fixed number of
/// them, but for a polygon, which takes three pairs or more. A box and an ellipse
/// may leave out the angle.
pub open spec fn shape_spec(kind: Seq<char>, v: Seq<Double>) -> Option<ShapeView> {
    let center = PixelPos { x: v[0], y: v[1] };
    if kind == "circle"@ && v.len() == 3 {
        Some(ShapeView::Circle { center, r: v[2] })
    } else if kind == "box"@ && v.len() == 5 {
        Some(ShapeView::Box { center, w: v[2], h: v[3], theta_deg: v[4] })
    } else if kind == "box"@ && v.len() == 4 {
        Some(ShapeView::Box { center, w: v[2], h: v[3], theta_deg: zero() })
    } else if kind == "ellipse"@ && v.len() == 5 {
        Some(ShapeView::Ellipse { center, a: v[2], b: v[3], theta_deg: v[4] })
    } else if kind == "ellipse"@ && v.len() == 4 {
        Some(ShapeView::Ellipse { center, a: v[2], b: v[3], theta_deg: zero() })
    } else if kind == "annulus"@ && v.len() == 4 {
        Some(ShapeView::Annulus { center, r_inner: v[2], r_outer: v[3] })
    } else if kind == "point"@ && v.len() == 2 {
        Some(ShapeView::Point { center })
    } else if kind == "line"@ && v.len() == 4 {
        Some(ShapeView::Line { from: center, to: PixelPos { x: v[2], y: v[3] } })
    } else if kind == "polygon"@ && v.len() >= 6 && v.len() % 2 == 0 {
        Some(ShapeView::Polygon { points: corners_spec(v) })
    } else {
        None
    }
}

fn corners_of(v: &Vec<Double>) -> (r: Vec<PixelPos>)
    ensures
        r@ == corners_spec(v@),
{
    let mut points: Vec<PixelPos> = Vec::new();
    let n: usize = v.len();
    let half: usize = n / 2;
    for i in 0..half
        invariant
            half == n / 2,
            n == v@.len(),
            points@ =~= corners_spec(v@).take(i as int),
    {
        points.push(PixelPos { x: v[2 * i], y: v[2 * i + 1] });
    }
    assert(points@ =~= corners_spec(v@));
    points
}

/// The shape of a kind with the given arguments.
pub fn shape_of(kind: &Vec<char>, v: &Vec<Double>) -> (r: Option<Shape>)
    ensures
        match r {
            Some(s) => shape_spec(kind@, v@) == Some(s@),
            None => shape_spec(kind@, v@) is None,
        },
{
    let n: usize = v.len();
    if same_text(kind, "circle") && n == 3 {
        Some(Shape::Circle { center: PixelPos { x: v[0], y: v[1] }, r: v[2] })
    } else if same_text(kind, "box") && n == 5 {
        Some(
            Shape::Box {
                center: PixelPos { x: v[0], y: v[1] },
                w: v[2],
                h: v[3],
                theta_deg: v[4],
            },
        )
    } else if same_text(kind, "box") && n == 4 {
        Some(
            Shape::Box {
                center: PixelPos { x: v[0], y: v[1] },
                w: v[2],
                h: v[3],
                theta_deg: Double { bits: 0 },
            },
        )
    } else if same_text(kind, "ellipse") && n == 5 {
        Some(
            Shape::Ellipse {
                center: PixelPos { x: v[0], y: v[1] },
                a: v[2],
                b: v[3],
                theta_deg: v[4],
            },
        )
    } else if same_text(kind, "ellipse") && n == 4 {
        Some(
            Shape::Ellipse {
                center: PixelPos { x: v[0], y: v[1] },
                a: v[2],
                b: v[3],
                theta_deg: Double { bits: 0 },
            },
        )
    } else if same_text(kind, "annulus") && n == 4 {
        Some(
            Shape::Annulus {
                center: PixelPos { x: v[0], y: v[1] },
                r_inner: v[2],
                r_outer: v[3],
            },
        )
    } else if same_text(kind, "point") && n == 2 {
        Some(Shape::Point { center: PixelPos { x: v[0], y: v[1] } })
    } else if same_text(kind, "line") && n == 4 {
        Some(
            Shape::Line {
                from: PixelPos { x: v[0], y: v[1] },
                to: PixelPos { x: v[2], y: v[3] },
            },
        )
    } else if same_text(kind, "polygon") && n >= 6 && n % 2 == 0 {
        let points = corners_of(v);
        Some(Shape::Polygon { points })
    } else {
        None
    }
}

/// The region that a line of a region file describes: a kind and, in brackets, its
/// arguments. A minus sign before the kind does not count.
pub open spec fn shape_line_spec(line: Seq<char>) -> Option<MarkerView> {
    let body = trim_spec(trim_front_char(line, '-'));
    let open = find_spec(body, '(', '(');
    let kind = lowercase_spec(trim_spec(body.take(open)));
    let inner = trim_back_char(trim_back(body.skip(open + 1)), ')');
    if open >= body.len() {
        None
    } else {
        match coords_spec(split_spec(inner, ',')) {
            Some(args) => match shape_spec(kind, args) {
                Some(shape) => Some(new_marker(shape)),
                None => None,
            },
            None => None,
        }
    }
}

/// The region that a line of a region file describes.
fn parse_shape_line(line: &Vec<char>) -> (r: Option<Marker>)
    ensures
        match r {
            Some(m) => shape_line_spec(line@) == Some(m@),
            None => shape_line_spec(line@) is None,
        },
{
    let front = strip_front(line, '-');
    let body = trim(&front);
    let open: usize = find(&body, '(', '(');
    if open >= body.len() {
        return None;
    }
    let head = piece(&body, 0, open);
    assert(head@ =~= body@.take(open as int));
    let name = trim(&head);
    let kind = lowercase(&name);
    let rest = piece(&body, open + 1, body.len());
    assert(rest@ =~= body@.skip(open + 1));
    let ended = trim_end(&rest);
    let inner = strip_back(&ended, ')');
    let parts = split(&inner, ',');
    match parse_coords(&parts) {
        Some(args) => match shape_of(&kind, &args) {
            Some(shape) => Some(marker_of(shape)),
            None => None,
        },
        None => None,
    }
}

/// The names of coordinate systems, which may stand on a line of their own or before a shape.
pub open spec fn is_system(s: Seq<char>) -> bool {
    ||| s == "image"@
    ||| s == "fk5"@
    ||| s == "fk4"@
    ||| s == "icrs"@
    ||| s == "galactic"@
    ||| s == "ecliptic"@
    ||| s == "physical"@
    ||| s == "amplifier"@
    ||| s == "detector"@
    ||| s == "b1950"@
    ||| s == "j2000"@
}

fn names_system(v: &Vec<char>) -> (r: bool)
    ensures
        r == is_system(v@),
{
    same_text(v, "image") || same_text(v, "fk5") || same_text(v, "fk4") || same_text(v, "icrs")
        || same_text(v, "galactic") || same_text(v, "ecliptic") || same_text(v, "physical")
        || same_text(v, "amplifier") || same_text(v, "detector")
        || same_text(v, "b1950") || same_text(v, "j2000")
}

/// The part of a line before a comment.
pub open spec fn body_spec(line: Seq<char>) -> Seq<char> {
    let t = trim_spec(line);
    trim_spec(t.take(find_spec(t, '#', '#')))
}

/// The part of a line before a comment.
pub fn body_of(line: &Vec<char>) -> (r: Vec<char>)
    ensures
        r@ == body_spec(line@),
{
    let t = trim(line);
    let hash: usize = find(&t, '#', '#');
    let head = piece(&t, 0, hash);
    assert(head@ =~= t@.take(hash as int));
    trim(&head)
}

/// What stands behind the coordinate systems that a line starts with, each of them before a
/// semicolon.
pub open spec fn without_systems(s: Seq<char>) -> Seq<char>
    decreases s.len(),
{
    let k = find_spec(s, ';', ';');
    if 0 <= k < s.len() && is_system(lowercase_spec(trim_spec(s.take(k)))) {
        without_systems(s.skip(k + 1))
    } else {
        s
    }
}

fn drop_systems(v: &Vec<char>) -> (r: Vec<char>)
    ensures
        r@ == without_systems(v@),
{
    let mut rest = piece(v, 0, v.len());
    assert(rest@ =~= v@);
    loop
        invariant
            without_systems(v@) == without_systems(rest@),
        ensures
            without_systems(v@) == rest@,
        decreases rest@.len(),
    {
        let k: usize = find(&rest, ';', ';');
        if k >= rest.len() {
            break;
        }
        let head = piece(&rest, 0, k);
        assert(head@ =~= rest@.take(k as int));
        let name = trim(&head);
        let word = lowercase(&name);
        if !names_system(&word) {
            break;
        }
        let tail = piece(&rest, k + 1, rest.len());
        assert(tail@ =~= rest@.skip(k + 1));
        rest = tail;
    }
    rest
}

/// The region that a shape in a line gives, if any: none where there is nothing, a coordinate
/// system or global properties in its place, or where it cannot be read.
pub open spec fn segment_spec(segment: Seq<char>) -> Option<MarkerView> {
    let t = trim_spec(segment);
    let word = lowercase_spec(t);
    if t.len() == 0 || is_system(word) || starts_with_spec(word, "global"@) {
        None
    } else {
        shape_line_spec(t)
    }
}

/// The region that a shape in a line gives, if any.
pub fn parse_segment(segment: &Vec<char>) -> (r: Option<Marker>)
    ensures
        match r {
            Some(m) => segment_spec(segment@) == Some(m@),
            None => segment_spec(segment@) is None,
        },
{
    let t = trim(segment);
    if t.len() == 0 {
        return None;
    }
    let word = lowercase(&t);
    if names_system(&word) || starts_with(&word, "global") {
        return None;
    }
    parse_shape_line(&t)
}

// ---------------------------------------------------------------------------
// Regions in comments
// ---------------------------------------------------------------------------

/// How a character of a text is written.
pub open spec fn escaped_char(c: char) -> Seq<char> {
    if c == '\n' {
        seq!['\\', 'n']
    } else if c == '\\' {
        seq!['\\', '\\']
    } else {
        seq![c]
    }
}

/// A text on one line: the ends of lines, and backslashes, are written with a backslash.
pub open spec fn escaped(s: Seq<char>) -> Seq<char>
    decreases s.len(),
{
    if s.len() == 0 {
        Seq::empty()
    } else {
        escaped_char(s[0]) + escaped(s.skip(1))
    }
}

/// The text that was written on one line. A backslash before another character stands for
/// itself.
pub open spec fn unescaped(s: Seq<char>) -> Seq<char>
    decreases s.len(),
{
    if s.len() == 0 {
        Seq::empty()
    } else if s.len() >= 2 && s[0] == '\\' && s[1] == 'n' {
        seq!['\n'] + unescaped(s.skip(2))
    } else if s.len() >= 2 && s[0] == '\\' && s[1] == '\\' {
        seq!['\\'] + unescaped(s.skip(2))
    } else {
        seq![s[0]] + unescaped(s.skip(1))
    }
}

fn put_escaped(out: &mut Vec<char>, body: &str)
    ensures
        final(out)@ == old(out)@ + escaped(body@),
{
    let v = chars_of(body);
    let n: usize = v.len();
    let ghost want = out@ + escaped(v@);
    assert(v@.skip(0) =~= v@);
    for i in 0..n
        invariant
            n == v@.len(),
            want == out@ + escaped(v@.skip(i as int)),
    {
        let ghost before = out@;
        let c: char = v[i];
        assert(v@.skip(i as int).skip(1) =~= v@.skip(i + 1));
        if c == '\n' {
            out.push('\\');
            out.push('n');
        } else if c == '\\' {
            out.push('\\');
            out.push('\\');
        } else {
            out.push(c);
        }
        assert(out@ =~= before + escaped_char(c));
        assert(want =~= out@ + escaped(v@.skip(i + 1)));
    }
    assert(v@.skip(n as int) =~= Seq::empty());
    assert(want =~= out@);
}

fn unescape(v: &Vec<char>) -> (r: Vec<char>)
    ensures
        r@ == unescaped(v@),
{
    let n: usize = v.len();
    let mut out: Vec<char> = Vec::new();
    let mut i: usize = 0;
    assert(v@.skip(0) =~= v@);
    assert(out@ + unescaped(v@) =~= unescaped(v@));
    while i < n
        invariant
            n == v@.len(),
            i <= n,
            unescaped(v@) == out@ + unescaped(v@.skip(i as int)),
        decreases n - i,
    {
        let ghost before = out@;
        let ghost s = v@.skip(i as int);
        assert(s.skip(1) =~= v@.skip(i + 1));
        if i + 1 < n && v[i] == '\\' && (v[i + 1] == 'n' || v[i + 1] == '\\') {
            assert(s.skip(2) =~= v@.skip(i + 2));
            if v[i + 1] == 'n' {
                out.push('\n');
            } else {
                out.push('\\');
            }
            assert(unescaped(v@) =~= out@ + unescaped(v@.skip(i + 2)));
            i = i + 2;
        } else {
            out.push(v[i]);
            assert(unescaped(v@) =~= out@ + unescaped(v@.skip(i + 1)));
            i = i + 1;
        }
    }
    assert(v@.skip(n as int) =~= Seq::empty());
    assert(unescaped(v@) =~= out@);
    out
}

/// The numbers between the brackets of a region in a comment, which may be none.
pub open spec fn noted_args(inner: Seq<char>) -> Option<Seq<Double>> {
    if inner.len() == 0 {
        Some(Seq::empty())
    } else {
        coords_spec(split_spec(inner, ','))
    }
}

/// The text behind a region in a comment.
pub open spec fn noted_text(tail: Seq<char>) -> Option<Seq<char>> {
    if starts_with_spec(tail, " text={"@) && tail.len() >= 8 && tail.last() == '}' {
        Some(unescaped(tail.subrange(7, tail.len() - 1)))
    } else {
        None
    }
}

/// The shape of a kind that stands in a comment: a compass, a text, or a polygon of fewer than
/// three corners.
pub open spec fn noted_shape(kind: Seq<char>, v: Seq<Double>, tail: Seq<char>) -> Option<
    ShapeView,
> {
    let center = PixelPos { x: v[0], y: v[1] };
    if kind == "compass"@ && v.len() == 3 {
        Some(ShapeView::Compass { center, len: v[2] })
    } else if kind == "text"@ && v.len() == 2 {
        match noted_text(tail) {
            Some(body) => Some(ShapeView::Text { center, body }),
            None => None,
        }
    } else if kind == "polygon"@ && v.len() < 6 && v.len() % 2 == 0 {
        Some(ShapeView::Polygon { points: corners_spec(v) })
    } else {
        None
    }
}

/// The region that a comment describes, if any: behind the comment sign, a kind and, in
/// brackets, its arguments.
pub open spec fn comment_spec(line: Seq<char>) -> Option<MarkerView> {
    let t = trim_spec(line);
    let b = t.skip(2);
    let open = find_spec(b, '(', '(');
    let close = find_spec(b, ')', ')');
    if !starts_with_spec(t, "# "@) || close >= b.len() || open >= close {
        None
    } else {
        match noted_args(b.subrange(open + 1, close)) {
            Some(args) => match noted_shape(b.take(open), args, b.skip(close + 1)) {
                Some(shape) => Some(new_marker(shape)),
                None => None,
            },
            None => None,
        }
    }
}

fn noted_args_of(inner: &Vec<char>) -> (r: Option<Vec<Double>>)
    ensures
        match r {
            Some(v) => noted_args(inner@) == Some(v@),
            None => noted_args(inner@) is None,
        },
{
    if inner.len() == 0 {
        let v: Vec<Double> = Vec::new();
        assert(v@ =~= Seq::empty());
        Some(v)
    } else {
        let parts = split(inner, ',');
        parse_coords(&parts)
    }
}

fn noted_text_of(tail: &Vec<char>) -> (r: Option<String>)
    ensures
        match r {
            Some(s) => noted_text(tail@) == Some(s@),
            None => noted_text(tail@) is None,
        },
{
    let n: usize = tail.len();
    if starts_with(tail, " text={") && n >= 8 && tail[n - 1] == '}' {
        let inner = piece(tail, 7, n - 1);
        let body = unescape(&inner);
        Some(string_of(&body))
    } else {
        None
    }
}

fn noted_shape_of(kind: &Vec<char>, v: &Vec<Double>, tail: &Vec<char>) -> (r: Option<Shape>)
    ensures
        match r {
            Some(s) => noted_shape(kind@, v@, tail@) == Some(s@),
            None => noted_shape(kind@, v@, tail@) is None,
        },
{
    let n: usize = v.len();
    if same_text(kind, "compass") && n == 3 {
        Some(Shape::Compass { center: PixelPos { x: v[0], y: v[1] }, len: v[2] })
    } else if same_text(kind, "text") && n == 2 {
        match noted_text_of(tail) {
            Some(body) => Some(Shape::Text { center: PixelPos { x: v[0], y: v[1] }, body }),
            None => None,
        }
    } else if same_text(kind, "polygon") && n < 6 && n % 2 == 0 {
        let points = corners_of(v);
        Some(Shape::Polygon { points })
    } else {
        None
    }
}

/// The region that a comment describes, if any.
pub fn parse_comment(line: &Vec<char>) -> (r: Option<Marker>)
    ensures
        match r {
            Some(m) => comment_spec(line@) == Some(m@),
            None => comment_spec(line@) is None,
        },
{
    let t = trim(line);
    if !starts_with(&t, "# ") {
        return None;
    }
    proof {
        reveal_strlit("# ");
    }
    let b = piece(&t, 2, t.len());
    assert(b@ =~= t@.skip(2));
    let open: usize = find(&b, '(', '(');
    let close: usize = find(&b, ')', ')');
    if close >= b.len() || open >= close {
        return None;
    }
    let inner = piece(&b, open + 1, close);
    let kind = piece(&b, 0, open);
    assert(kind@ =~= b@.take(open as int));
    let tail = piece(&b, close + 1, b.len());
    assert(tail@ =~= b@.skip(close + 1));
    match noted_args_of(&inner) {
        Some(args) => match noted_shape_of(&kind, &args, &tail) {
            Some(shape) => Some(marker_of(shape)),
            None => None,
        },
        None => None,
    }
}

// ---------------------------------------------------------------------------
// Files
// ---------------------------------------------------------------------------

/// The region that a line gives, if any: that of a comment, or else that of the shape behind the
/// coordinate systems in the part before a comment.
pub open spec fn line_spec(line: Seq<char>) -> Option<MarkerView> {
    match comment_spec(line) {
        Some(m) => Some(m),
        None => segment_spec(without_systems(body_spec(line))),
    }
}

/// The region that a line gives, if any.
fn parse_line(line: &Vec<char>) -> (r: Option<Marker>)
    ensures
        match r {
            Some(m) => line_spec(line@) == Some(m@),
            None => line_spec(line@) is None,
        },
{
    if let Some(m) = parse_comment(line) {
        return Some(m);
    }
    let body = body_of(line);
    let shape = drop_systems(&body);
    parse_segment(&shape)
}

/// The regions that the lines give, in order.
pub open spec fn regions_spec(lines: Seq<Seq<char>>) -> Seq<MarkerView>
    decreases lines.len(),
{
    if lines.len() == 0 {
        Seq::empty()
    } else {
        match line_spec(lines.last()) {
            Some(m) => regions_spec(lines.drop_last()).push(m),
            None => regions_spec(lines.drop_last()),
        }
    }
}

/// The contents of a list of regions.
pub open spec fn marker_views(v: Seq<Marker>) -> Seq<MarkerView> {
    Seq::new(v.len(), |i: int| v[i]@)
}

/// The regions of a region file, in image coordinates counted from one. What is not
/// understood is passed over, so that a file with other features still loads.
pub fn parse_reg(text: &str) -> (r: Result<Vec<Marker>, RegError>)
    ensures
        r is Ok,
        marker_views(r->Ok_0@) == regions_spec(lines_spec(text@)),
{
    let v = chars_of(text);
    let all = lines(&v);
    let mut out: Vec<Marker> = Vec::new();
    let n: usize = all.len();
    assert(texts(all@).take(0) =~= Seq::empty());
    assert(marker_views(out@) =~= Seq::empty());
    for i in 0..n
        invariant
            n == all@.len(),
            marker_views(out@) == regions_spec(texts(all@).take(i as int)),
    {
        let ghost t = texts(all@);
        assert(t.take(i + 1).drop_last() =~= t.take(i as int));
        assert(t.take(i + 1).last() == all@[i as int]@);
        if let Some(m) = parse_line(&all[i]) {
            let ghost before = marker_views(out@);
            out.push(m);
            assert(marker_views(out@) =~= before.push(m@));
        }
    }
    assert(texts(all@).take(n as int) =~= texts(all@));
    Ok(out)
}

// ---------------------------------------------------------------------------
// Writing
// ---------------------------------------------------------------------------

/// The kind of a shape, as a region file names it. A compass, a text and a polygon of fewer
/// than three corners stand in a comment.
pub open spec fn kind_spec(s: ShapeView) -> Seq<char> {
    match s {
        ShapeView::Circle { .. } => "circle"@,
        ShapeView::Ellipse { .. } => "ellipse"@,
        ShapeView::Box { .. } => "box"@,
        ShapeView::Annulus { .. } => "annulus"@,
        ShapeView::Polygon { points } => if points.len() >= 3 {
            "polygon"@
        } else {
            "# polygon"@
        },
        ShapeView::Point { .. } => "point"@,
        ShapeView::Line { .. } => "line"@,
        ShapeView::Compass { .. } => "# compass"@,
        ShapeView::Text { .. } => "# text"@,
    }
}

/// The coordinates of the corners, one after the other.
pub open spec fn flat_spec(points: Seq<PixelPos>) -> Seq<Double> {
    Seq::new(
        2 * points.len(),
        |i: int|
            if i % 2 == 0 {
                points[i / 2].x
            } else {
                points[i / 2].y
            },
    )
}

/// The numbers that a region file gives for a shape.
pub open spec fn args_spec(s: ShapeView) -> Seq<Double> {
    match s {
        ShapeView::Circle { center, r } => seq![center.x, center.y, r],
        ShapeView::Ellipse { center, a, b, theta_deg } => seq![
            center.x,
            center.y,
            a,
            b,
            theta_deg,
        ],
        ShapeView::Box { center, w, h, theta_deg } => seq![center.x, center.y, w, h, theta_deg],
        ShapeView::Annulus { center, r_inner, r_outer } => seq![
            center.x,
            center.y,
            r_inner,
            r_outer,
        ],
        ShapeView::Polygon { points } => flat_spec(points),
        ShapeView::Point { center } => seq![center.x, center.y],
        ShapeView::Line { from, to } => seq![from.x, from.y, to.x, to.y],
        ShapeView::Compass { center, len } => seq![center.x, center.y, len],
        ShapeView::Text { center, body } => seq![center.x, center.y],
    }
}

/// The shortest texts of numbers, with commas between them.
pub open spec fn args_text(v: Seq<Double>) -> Seq<char>
    decreases v.len(),
{
    if v.len() == 0 {
        Seq::empty()
    } else if v.len() == 1 {
        v[0].shortest_spec()
    } else {
        args_text(v.drop_last()).push(',') + v.last().shortest_spec()
    }
}

/// What stands behind the arguments of a shape.
pub open spec fn tail_spec(s: ShapeView) -> Seq<char> {
    match s {
        ShapeView::Text { center, body } => (" text={"@ + escaped(body)).push('}'),
        _ => Seq::empty(),
    }
}

/// The line of a region file for a shape.
pub open spec fn shape_text(s: ShapeView) -> Seq<char> {
    (kind_spec(s).push('(') + args_text(args_spec(s))).push(')') + tail_spec(s)
}

/// Appends the shortest texts of numbers, with commas between them.
fn put_args(out: &mut Vec<char>, v: &Vec<Double>)
    ensures
        final(out)@ == old(out)@ + args_text(v@),
{
    let ghost before = out@;
    assert(out@ =~= before + args_text(v@.take(0)));
    for i in 0..v.len()
        invariant
            out@ == before + args_text(v@.take(i as int)),
    {
        let ghost w = v@.take(i + 1);
        assert(w.drop_last() =~= v@.take(i as int));
        if i > 0 {
            out.push(',');
        }
        let t = v[i].shortest();
        put_chars(out, &t);
        assert(out@ =~= before + args_text(w));
    }
    assert(v@.take(v@.len() as int) =~= v@);
}

/// Appends the line of a region file for a shape.
pub fn put_shape(out: &mut Vec<char>, s: &Shape)
    ensures
        final(out)@ == old(out)@ + shape_text(s@),
{
    let ghost before = out@;
    let mut v: Vec<Double> = Vec::new();
    match s {
        Shape::Circle { center, r } => {
            put_text(out, "circle");
            v.push(center.x);
            v.push(center.y);
            v.push(*r);
        },
        Shape::Ellipse { center, a, b, theta_deg } => {
            put_text(out, "ellipse");
            v.push(center.x);
            v.push(center.y);
            v.push(*a);
            v.push(*b);
            v.push(*theta_deg);
        },
        Shape::Box { center, w, h, theta_deg } => {
            put_text(out, "box");
            v.push(center.x);
            v.push(center.y);
            v.push(*w);
            v.push(*h);
            v.push(*theta_deg);
        },
        Shape::Annulus { center, r_inner, r_outer } => {
            put_text(out, "annulus");
            v.push(center.x);
            v.push(center.y);
            v.push(*r_inner);
            v.push(*r_outer);
        },
        Shape::Polygon { points } => {
            if points.len() >= 3 {
                put_text(out, "polygon");
            } else {
                put_text(out, "# polygon");
            }
            for i in 0..points.len()
                invariant
                    v@ =~= flat_spec(points@.take(i as int)),
            {
                v.push(points[i].x);
                v.push(points[i].y);
                assert(v@ =~= flat_spec(points@.take(i + 1)));
            }
            assert(points@.take(points@.len() as int) =~= points@);
        },
        Shape::Point { center } => {
            put_text(out, "point");
            v.push(center.x);
            v.push(center.y);
        },
        Shape::Line { from, to } => {
            put_text(out, "line");
            v.push(from.x);
            v.push(from.y);
            v.push(to.x);
            v.push(to.y);
        },
        Shape::Compass { center, len } => {
            put_text(out, "# compass");
            v.push(center.x);
            v.push(center.y);
            v.push(*len);
        },
        Shape::Text { center, body } => {
            put_text(out, "# text");
            v.push(center.x);
            v.push(center.y);
        },
    }
    assert(v@ =~= args_spec(s@));
    assert(out@ =~= before + kind_spec(s@));
    out.push('(');
    put_args(out, &v);
    out.push(')');
    if let Shape::Text { center, body } = s {
        put_text(out, " text={");
        put_escaped(out, body.as_str());
        out.push('}');
    }
    assert(out@ =~= before + shape_text(s@));
}

/// The first line of a region file.
pub open spec fn title_line() -> Seq<char> {
    "# Region file format: DS9 ds9-rust"@
}

/// The line that sets the global properties.
pub open spec fn global_line() -> Seq<char> {
    "global color=green width=1 select=1 highlite=1 dash=0 "@
        + "fixed=0 edit=1 move=1 delete=1 incl"@ + "ude=1 source=1"@
}

/// The lines of the region file that holds `ms`: the title, the global properties,
/// the coordinate system, and a line for each region.
pub open spec fn reg_lines(ms: Seq<MarkerView>) -> Seq<Seq<char>> {
    seq![title_line(), global_line(), "image"@] + Seq::new(
        ms.len(),
        |i: int| shape_text(ms[i].shape),
    )
}

/// The text of the region file that holds `ms`, in the `image` coordinate system.
pub fn reg_text(ms: &Vec<Marker>) -> (r: String)
    ensures
        r@ == ended_lines(reg_lines(marker_views(ms@))),
{
    let ghost all = reg_lines(marker_views(ms@));
    let mut out: Vec<char> = Vec::new();
    put_text(&mut out, "# Region file format: DS9 ds9-rust");
    out.push('\n');
    put_text(&mut out, "global color=green width=1 select=1 highlite=1 dash=0 ");
    put_text(&mut out, "fixed=0 edit=1 move=1 delete=1 incl");
    put_text(&mut out, "ude=1 source=1");
    out.push('\n');
    put_text(&mut out, "image");
    out.push('\n');
    proof {
        let t0 = all.take(0);
        let t1 = all.take(1);
        let t2 = all.take(2);
        let t3 = all.take(3);
        assert(t3.drop_last() =~= t2);
        assert(t2.drop_last() =~= t1);
        assert(t1.drop_last() =~= t0);
        assert(ended_lines(t0) =~= Seq::empty());
        assert(ended_lines(t1) =~= title_line().push('\n'));
        assert(ended_lines(t2) =~= (ended_lines(t1) + global_line()).push('\n'));
        assert(ended_lines(t3) =~= (ended_lines(t2) + "image"@).push('\n'));
        assert(out@ =~= ended_lines(t3));
    }
    for i in 0..ms.len()
        invariant
            all == reg_lines(marker_views(ms@)),
            out@ == ended_lines(all.take(3 + i)),
    {
        let ghost before = out@;
        put_shape(&mut out, &ms[i].shape);
        out.push('\n');
        assert(all.take(4 + i).drop_last() =~= all.take(3 + i));
        assert(all.take(4 + i).last() == shape_text(ms@[i as int].shape@));
        assert(out@ =~= ended_lines(all.take(4 + i)));
    }
    assert(all.take(all.len() as int) =~= all);
    string_of(&out)
}

} // verus!
