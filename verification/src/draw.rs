//! Pictures made of pixels, and lines on them.

use crate::color::{pixel_place, place_pixel};
use vstd::prelude::*;

verus! {

/// The red, green, blue and opacity of a pixel.
#[derive(Clone, Copy, Debug, PartialEq, Eq, Structural)]
pub struct Rgba {
    pub r: u8,
    pub g: u8,
    pub b: u8,
    pub a: u8,
}

/// A picture: its size and its pixels, row by row from the top.
pub struct Canvas {
    pub width: usize,
    pub height: usize,
    pub pixels: Vec<Rgba>,
}

/// A picture by its contents.
#[verifier::ext_equal]
pub struct CanvasView {
    pub width: int,
    pub height: int,
    pub pixels: Seq<Rgba>,
}

impl View for Canvas {
    type V = CanvasView;

    open spec fn view(&self) -> CanvasView {
        CanvasView {
            width: self.width as int,
            height: self.height as int,
            pixels: self.pixels@,
        }
    }
}

impl CanvasView {
    /// Whether there is a pixel for each place.
    pub open spec fn wf(self) -> bool {
        &&& self.width >= 0
        &&& self.height >= 0
        &&& self.pixels.len() == self.width * self.height
    }

    /// The picture with one pixel set; a place outside the picture changes nothing.
    pub open spec fn put(self, x: int, y: int, c: Rgba) -> CanvasView {
        if 0 <= x < self.width && 0 <= y < self.height {
            CanvasView { pixels: self.pixels.update(y * self.width + x, c), ..self }
        } else {
            self
        }
    }

    /// A picture of one colour.
    pub open spec fn blank(width: int, height: int, c: Rgba) -> CanvasView {
        CanvasView { width, height, pixels: Seq::new((width * height) as nat, |i: int| c) }
    }
}

/// A pixel in the byte order of the display.
pub open spec fn rgba_part(c: Rgba, k: int) -> u8 {
    if k == 0 {
        c.r
    } else if k == 1 {
        c.g
    } else if k == 2 {
        c.b
    } else {
        c.a
    }
}

/// The bytes of a picture, four for each pixel.
pub open spec fn bytes_spec(pixels: Seq<Rgba>) -> Seq<u8> {
    Seq::new(4 * pixels.len(), |i: int| rgba_part(pixels[i / 4], i % 4))
}

impl Canvas {
    /// A picture of one colour.
    pub fn new(width: usize, height: usize, c: Rgba) -> (r: Canvas)
        requires
            width * height <= usize::MAX,
        ensures
            r@ == CanvasView::blank(width as int, height as int, c),
            r@.wf(),
    {
        let n: usize = width * height;
        let pixels: Vec<Rgba> = vec![c; n];
        let r = Canvas { width, height, pixels };
        assert(r@ =~= CanvasView::blank(width as int, height as int, c));
        r
    }

    /// Sets a pixel; a place outside the picture changes nothing.
    pub fn put(&mut self, x: i64, y: i64, c: Rgba)
        requires
            old(self)@.wf(),
        ensures
            final(self)@ == old(self)@.put(x as int, y as int, c),
            final(self)@.wf(),
    {
        if x < 0 || y < 0 || x as u64 >= self.width as u64 || y as u64 >= self.height as u64 {
            return;
        }
        let n: usize = self.pixels.len();
        proof {
            pixel_place(x as int, y as int, self.width as int, self.height as int);
            assert(0 <= y * self.width) by (nonlinear_arith)
                requires
                    y >= 0,
                    self.width >= 0,
            ;
        }
        let at: usize = y as usize * self.width + x as usize;
        self.pixels[at] = c;
    }

    /// The bytes of the picture, four for each pixel.
    pub fn bytes(&self) -> (r: Vec<u8>)
        ensures
            r@ == bytes_spec(self.pixels@),
    {
        let mut r: Vec<u8> = Vec::new();
        for i in 0..self.pixels.len()
            invariant
                r@ =~= bytes_spec(self.pixels@.take(i as int)),
        {
            let c = self.pixels[i];
            r.push(c.r);
            r.push(c.g);
            r.push(c.b);
            r.push(c.a);
            assert(r@ =~= bytes_spec(self.pixels@.take(i + 1)));
        }
        assert(self.pixels@.take(self.pixels@.len() as int) =~= self.pixels@);
        r
    }
}

impl CanvasView {
    /// The picture with the rectangle from `(x0, y0)` up to but not at `(x1, y1)` in one
    /// colour.
    pub open spec fn filled(self, x0: int, x1: int, y0: int, y1: int, c: Rgba) -> CanvasView {
        CanvasView {
            pixels: Seq::new(
                self.pixels.len(),
                |i: int|
                    if x0 <= i % self.width < x1 && y0 <= i / self.width < y1 {
                        c
                    } else {
                        self.pixels[i]
                    },
            ),
            ..self
        }
    }

    /// The picture with a frame of one pixel around it.
    pub open spec fn framed(self, c: Rgba) -> CanvasView {
        let (w, h) = (self.width, self.height);
        self.filled(0, w, 0, 1, c).filled(0, w, h - 1, h, c).filled(0, 1, 0, h, c).filled(
            w - 1,
            w,
            0,
            h,
            c,
        )
    }
}

impl Canvas {
    /// Fills a rectangle; what lies outside the picture is left out.
    pub fn fill(&mut self, x0: usize, x1: usize, y0: usize, y1: usize, c: Rgba)
        requires
            old(self)@.wf(),
        ensures
            final(self)@ == old(self)@.filled(x0 as int, x1 as int, y0 as int, y1 as int, c),
            final(self)@.wf(),
    {
        let ghost before = self@;
        let ghost want = before.filled(x0 as int, x1 as int, y0 as int, y1 as int, c);
        let (w, h): (usize, usize) = (self.width, self.height);
        let ye: usize = if y1 < h {
            y1
        } else {
            h
        };
        let xe: usize = if x1 < w {
            x1
        } else {
            w
        };
        let ys: usize = if y0 < ye {
            y0
        } else {
            ye
        };
        let xs: usize = if x0 < xe {
            x0
        } else {
            xe
        };
        let n: usize = self.pixels.len();
        for y in ys..ye
            invariant
                n == w * h,
                w == before.width,
                h == before.height,
                ys <= ye <= h,
                ys == y0 || ys == ye,
                want == before.filled(x0 as int, x1 as int, y0 as int, y1 as int, c),
                before.wf(),
                xs <= xe <= w,
                xs == x0 || xs == xe,
                xe == x1 || xe == w,
                xe <= x1,
                ye <= y1,
                xs <= x0,
                ys <= y0,
                self@ == (CanvasView { pixels: self.pixels@, ..before }),
                self.pixels@.len() == n,
                forall|i: int|
                    0 <= i < n && ys <= i / (w as int) < y ==> #[trigger] self.pixels@[i] == want.pixels[i],
                forall|i: int|
                    0 <= i < n && !(ys <= i / (w as int) < y) ==> #[trigger] self.pixels@[i]
                        == before.pixels[i],
        {
            for x in xs..xe
                invariant
                    n == w * h,
                    w == before.width,
                    h == before.height,
                    ys <= y < ye <= h,
                    ys == y0,
                    want == before.filled(x0 as int, x1 as int, y0 as int, y1 as int, c),
                    before.wf(),
                    xs <= xe <= w,
                    xs == x0 || xs == xe,
                    xe == x1 || xe == w,
                    xe <= x1,
                    ye <= y1,
                    xs <= x0,
                    ys <= y0,
                    self@ == (CanvasView { pixels: self.pixels@, ..before }),
                    self.pixels@.len() == n,
                    forall|i: int|
                        0 <= i < n && ys <= i / (w as int) < y ==> #[trigger] self.pixels@[i]
                            == want.pixels[i],
                    forall|i: int|
                        0 <= i < n && i / (w as int) == y && xs <= i % (w as int) < x ==> #[trigger] self.pixels@[i]
                            == c,
                    forall|i: int|
                        0 <= i < n && !(ys <= i / (w as int) < y) && !(i / (w as int) == y && xs <= i
                            % (w as int) < x) ==> #[trigger] self.pixels@[i] == before.pixels[i],
            {
                proof {
                    pixel_place(x as int, y as int, w as int, h as int);
                    assert(0 <= y * w) by (nonlinear_arith)
                        requires
                            y >= 0,
                            w >= 0,
                    ;
                }
                let at: usize = y * w + x;
                let ghost was = self.pixels@;
                self.pixels[at] = c;
                assert forall|i: int|
                    0 <= i < n && i / (w as int) == y && xs <= i % (w as int) < x + 1 implies #[trigger] self.pixels@[i]
                    == c by {
                    place_pixel(i, w as int, h as int);
                }
                assert forall|i: int|
                    0 <= i < n && !(ys <= i / (w as int) < y) && !(i / (w as int) == y && xs <= i
                        % (w as int) < x + 1) implies #[trigger] self.pixels@[i] == before.pixels[i] by {
                    place_pixel(i, w as int, h as int);
                }
            }
            assert forall|i: int| 0 <= i < n && ys <= i / (w as int) < y + 1 implies #[trigger] self.pixels@[i]
                == want.pixels[i] by {
                place_pixel(i, w as int, h as int);
            }
        }
        assert forall|i: int| 0 <= i < n implies #[trigger] self.pixels@[i] == want.pixels[i] by {
            place_pixel(i, w as int, h as int);
        }
        assert(self.pixels@ =~= want.pixels);
    }

    /// Draws a frame of one pixel around the picture.
    pub fn draw_frame(&mut self, c: Rgba)
        requires
            old(self)@.wf(),
            old(self).width > 0,
            old(self).height > 0,
        ensures
            final(self)@ == old(self)@.framed(c),
            final(self)@.wf(),
    {
        let (w, h): (usize, usize) = (self.width, self.height);
        self.fill(0, w, 0, 1, c);
        self.fill(0, w, h - 1, h, c);
        self.fill(0, 1, 0, h, c);
        self.fill(w - 1, w, 0, h, c);
    }
}

impl CanvasView {
    /// The picture with another one laid on it, its corner at `(x0, y0)`.
    pub open spec fn pasted(self, x0: int, y0: int, other: CanvasView) -> CanvasView {
        CanvasView {
            pixels: Seq::new(
                self.pixels.len(),
                |i: int|
                    {
                        let (x, y) = (i % self.width - x0, i / self.width - y0);
                        if 0 <= x < other.width && 0 <= y < other.height {
                            other.pixels[y * other.width + x]
                        } else {
                            self.pixels[i]
                        }
                    },
            ),
            ..self
        }
    }
}

impl Canvas {
    /// Lays another picture on this one, its corner at `(x0, y0)`.
    pub fn paste(&mut self, x0: usize, y0: usize, other: &Canvas)
        requires
            old(self)@.wf(),
            other@.wf(),
            x0 + other.width <= old(self).width,
            y0 + other.height <= old(self).height,
        ensures
            final(self)@ == old(self)@.pasted(x0 as int, y0 as int, other@),
            final(self)@.wf(),
    {
        let ghost before = self@;
        let ghost want = before.pasted(x0 as int, y0 as int, other@);
        let (w, h): (usize, usize) = (self.width, self.height);
        let (ow, oh): (usize, usize) = (other.width, other.height);
        let n: usize = self.pixels.len();
        let m: usize = other.pixels.len();
        for y in 0..oh
            invariant
                n == w * h,
                m == ow * oh,
                m == other.pixels@.len(),
                w == before.width,
                h == before.height,
                ow == other.width,
                oh == other.height,
                before.wf(),
                x0 + ow <= w,
                y0 + oh <= h,
                want == before.pasted(x0 as int, y0 as int, other@),
                self@ == (CanvasView { pixels: self.pixels@, ..before }),
                self.pixels@.len() == n,
                forall|i: int|
                    0 <= i < n && y0 <= i / (w as int) < y0 + y ==> #[trigger] self.pixels@[i]
                        == want.pixels[i],
                forall|i: int|
                    0 <= i < n && !(y0 <= i / (w as int) < y0 + y) ==> #[trigger] self.pixels@[i]
                        == before.pixels[i],
        {
            for x in 0..ow
                invariant
                    n == w * h,
                    m == ow * oh,
                    m == other.pixels@.len(),
                    w == before.width,
                    h == before.height,
                    ow == other.width,
                    oh == other.height,
                    before.wf(),
                    x0 + ow <= w,
                    y0 + oh <= h,
                    y < oh,
                    want == before.pasted(x0 as int, y0 as int, other@),
                    self@ == (CanvasView { pixels: self.pixels@, ..before }),
                    self.pixels@.len() == n,
                    forall|i: int|
                        0 <= i < n && y0 <= i / (w as int) < y0 + y ==> #[trigger] self.pixels@[i]
                            == want.pixels[i],
                    forall|i: int|
                        0 <= i < n && i / (w as int) == y0 + y && x0 <= i % (w as int) < x0 + x
                            ==> #[trigger] self.pixels@[i] == want.pixels[i],
                    forall|i: int|
                        0 <= i < n && !(y0 <= i / (w as int) < y0 + y) && !(i / (w as int) == y0 + y
                            && x0 <= i % (w as int) < x0 + x) ==> #[trigger] self.pixels@[i]
                            == before.pixels[i],
            {
                proof {
                    pixel_place(x0 + x, y0 + y, w as int, h as int);
                    pixel_place(x as int, y as int, ow as int, oh as int);
                    assert(0 <= (y0 + y) * w && 0 <= y * ow) by (nonlinear_arith)
                        requires
                            y0 >= 0,
                            y >= 0,
                            w >= 0,
                            ow >= 0,
                    ;
                }
                let at: usize = (y0 + y) * w + (x0 + x);
                self.pixels[at] = other.pixels[y * ow + x];
                assert forall|i: int|
                    0 <= i < n && i / (w as int) == y0 + y && x0 <= i % (w as int) < x0 + x
                        + 1 implies #[trigger] self.pixels@[i] == want.pixels[i] by {
                    place_pixel(i, w as int, h as int);
                }
                assert forall|i: int|
                    0 <= i < n && !(y0 <= i / (w as int) < y0 + y) && !(i / (w as int) == y0 + y
                        && x0 <= i % (w as int) < x0 + x + 1) implies #[trigger] self.pixels@[i]
                    == before.pixels[i] by {
                    place_pixel(i, w as int, h as int);
                }
            }
            assert forall|i: int|
                0 <= i < n && y0 <= i / (w as int) < y0 + y + 1 implies #[trigger] self.pixels@[i]
                == want.pixels[i] by {
                place_pixel(i, w as int, h as int);
            }
        }
        assert forall|i: int| 0 <= i < n implies #[trigger] self.pixels@[i] == want.pixels[i] by {
            place_pixel(i, w as int, h as int);
        }
        assert(self.pixels@ =~= want.pixels);
    }
}

// ---------------------------------------------------------------------------
// Lines
// ---------------------------------------------------------------------------

/// The distance between two integers.
pub open spec fn gap(a: int, b: int) -> int {
    if a < b {
        b - a
    } else {
        a - b
    }
}

/// `a` moved towards `b` by `n`.
pub open spec fn toward(a: int, b: int, n: int) -> int {
    if a < b {
        a + n
    } else {
        a - n
    }
}

/// A line between two points, in a colour, of at most `cap` steps.
pub struct Line {
    pub x0: int,
    pub y0: int,
    pub x1: int,
    pub y1: int,
    pub color: Rgba,
    pub cap: int,
}

impl Line {
    pub open spec fn dx(self) -> int {
        gap(self.x0, self.x1)
    }

    pub open spec fn dy(self) -> int {
        gap(self.y0, self.y1)
    }
}

/// The picture after the rest of a line, from the pixel `i` columns and `j` rows from its
/// start on, after `n` steps. A step goes to the next column, to the next row or to both:
/// to each of them where that stays within half a pixel of the exact line.
pub open spec fn line_rest(c: CanvasView, l: Line, i: int, j: int, n: int) -> CanvasView
    decreases (l.dx() - i) + (l.dy() - j),
    via line_rest_ends
{
    let here = c.put(toward(l.x0, l.x1, i), toward(l.y0, l.y1, j), l.color);
    if i < 0 || j < 0 || i > l.dx() || j > l.dy() || (i == l.dx() && j == l.dy()) {
        here
    } else {
        let right = 2 * (j + 1) * l.dx() >= (2 * i + 1) * l.dy();
        let down = (2 * j + 1) * l.dx() <= 2 * (i + 1) * l.dy();
        if n + 1 > l.cap {
            here
        } else {
            line_rest(
                here,
                l,
                if right {
                    i + 1
                } else {
                    i
                },
                if down {
                    j + 1
                } else {
                    j
                },
                n + 1,
            )
        }
    }
}

/// A step of a line goes somewhere, and not past the end.
pub proof fn line_step(dx: int, dy: int, i: int, j: int)
    requires
        0 <= i <= dx,
        0 <= j <= dy,
        !(i == dx && j == dy),
    ensures
        ({
            let right = 2 * (j + 1) * dx >= (2 * i + 1) * dy;
            let down = (2 * j + 1) * dx <= 2 * (i + 1) * dy;
            &&& right || down
            &&& right ==> i < dx
            &&& down ==> j < dy
        }),
{
    let right = 2 * (j + 1) * dx >= (2 * i + 1) * dy;
    let down = (2 * j + 1) * dx <= 2 * (i + 1) * dy;
    if !right {
        assert((2 * j + 1) * dx <= 2 * (j + 1) * dx) by (nonlinear_arith)
            requires
                dx >= 0,
        ;
        assert((2 * i + 1) * dy <= 2 * (i + 1) * dy) by (nonlinear_arith)
            requires
                dy >= 0,
        ;
    }
    if right && i == dx {
        assert(2 * (j + 1) * dx <= 2 * dy * dx) by (nonlinear_arith)
            requires
                j + 1 <= dy,
                dx >= 0,
        ;
        assert((2 * dx + 1) * dy == 2 * dy * dx + dy) by (nonlinear_arith);
    }
    if down && j == dy {
        assert(2 * (i + 1) * dy <= 2 * dx * dy) by (nonlinear_arith)
            requires
                i + 1 <= dx,
                dy >= 0,
        ;
        assert((2 * dy + 1) * dx == 2 * dx * dy + dx) by (nonlinear_arith);
    }
}

#[via_fn]
proof fn line_rest_ends(c: CanvasView, l: Line, i: int, j: int, n: int) {
    if 0 <= i <= l.dx() && 0 <= j <= l.dy() && !(i == l.dx() && j == l.dy()) {
        line_step(l.dx(), l.dy(), i, j);
    }
}

/// The picture with a line drawn on it.
pub open spec fn line_spec(c: CanvasView, l: Line) -> CanvasView {
    line_rest(c, l, 0, 0, 0)
}

/// The coordinates that a line may have.
pub open spec fn drawable(v: int) -> bool {
    -0x2_0000_0000 <= v <= 0x2_0000_0000
}

impl Canvas {
    /// Draws a line of at most `cap` steps; what lies outside the picture is left out.
    pub fn draw_line(&mut self, x0: i64, y0: i64, x1: i64, y1: i64, c: Rgba, cap: u64)
        requires
            old(self)@.wf(),
            drawable(x0 as int),
            drawable(y0 as int),
            drawable(x1 as int),
            drawable(y1 as int),
        ensures
            final(self)@ == line_spec(
                old(self)@,
                Line {
                    x0: x0 as int,
                    y0: y0 as int,
                    x1: x1 as int,
                    y1: y1 as int,
                    color: c,
                    cap: cap as int,
                },
            ),
            final(self)@.wf(),
    {
        let ghost l = Line {
            x0: x0 as int,
            y0: y0 as int,
            x1: x1 as int,
            y1: y1 as int,
            color: c,
            cap: cap as int,
        };
        let ghost whole = line_spec(self@, l);
        let dx: i64 = if x0 < x1 {
            x1 - x0
        } else {
            x0 - x1
        };
        let dy: i64 = if y0 < y1 {
            y1 - y0
        } else {
            y0 - y1
        };
        let mut i: i64 = 0;
        let mut j: i64 = 0;
        let mut n: u64 = 0;
        let mut done: bool = false;
        while !done
            invariant
                drawable(x0 as int),
                drawable(y0 as int),
                drawable(x1 as int),
                drawable(y1 as int),
                l == (Line {
                    x0: x0 as int,
                    y0: y0 as int,
                    x1: x1 as int,
                    y1: y1 as int,
                    color: c,
                    cap: cap as int,
                }),
                dx == l.dx(),
                dy == l.dy(),
                0 <= i <= dx <= 0x4_0000_0000,
                0 <= j <= dy <= 0x4_0000_0000,
                n <= i + j,
                self@.wf(),
                done ==> self@ == whole,
                !done ==> line_rest(self@, l, i as int, j as int, n as int) == whole,
            decreases
                dx - i + dy - j + if done {
                    0int
                } else {
                    1
                },
        {
            let x: i64 = if x0 < x1 {
                x0 + i
            } else {
                x0 - i
            };
            let y: i64 = if y0 < y1 {
                y0 + j
            } else {
                y0 - j
            };
            self.put(x, y, c);
            if i == dx && j == dy {
                done = true;
            } else {
                proof {
                    line_step(dx as int, dy as int, i as int, j as int);
                    assert(0 <= 2 * (j + 1) * dx <= 0x10_0000_0000 * 0x4_0000_0000)
                        by (nonlinear_arith)
                        requires
                            0 <= j <= 0x4_0000_0000,
                            0 <= dx <= 0x4_0000_0000,
                    ;
                    assert(0 <= (2 * i + 1) * dy <= 0x10_0000_0000 * 0x4_0000_0000)
                        by (nonlinear_arith)
                        requires
                            0 <= i <= 0x4_0000_0000,
                            0 <= dy <= 0x4_0000_0000,
                    ;
                    assert(0 <= (2 * j + 1) * dx <= 0x10_0000_0000 * 0x4_0000_0000)
                        by (nonlinear_arith)
                        requires
                            0 <= j <= 0x4_0000_0000,
                            0 <= dx <= 0x4_0000_0000,
                    ;
                    assert(0 <= 2 * (i + 1) * dy <= 0x10_0000_0000 * 0x4_0000_0000)
                        by (nonlinear_arith)
                        requires
                            0 <= i <= 0x4_0000_0000,
                            0 <= dy <= 0x4_0000_0000,
                    ;
                }
                let right: bool = 2 * (j as i128 + 1) * dx as i128 >= (2 * i as i128 + 1)
                    * dy as i128;
                let down: bool = (2 * j as i128 + 1) * dx as i128 <= 2 * (i as i128 + 1)
                    * dy as i128;
                if n >= cap {
                    done = true;
                } else {
                    if right {
                        i = i + 1;
                    }
                    if down {
                        j = j + 1;
                    }
                    n = n + 1;
                }
            }
        }
    }
}

/// A line that is not cut short ends at its end point.
pub proof fn line_reaches_its_end(c: CanvasView, l: Line, i: int, j: int, n: int)
    requires
        c.wf(),
        0 <= i <= l.dx(),
        0 <= j <= l.dy(),
        n <= i + j,
        l.cap >= l.dx() + l.dy(),
        0 <= l.x1 < c.width,
        0 <= l.y1 < c.height,
    ensures
        ({
            let r = line_rest(c, l, i, j, n);
            &&& r.wf()
            &&& r.width == c.width
            &&& r.height == c.height
            &&& r.pixels[l.y1 * c.width + l.x1] == l.color
        }),
    decreases (l.dx() - i) + (l.dy() - j),
{
    let x = toward(l.x0, l.x1, i);
    let y = toward(l.y0, l.y1, j);
    let here = c.put(x, y, l.color);
    if 0 <= x < c.width && 0 <= y < c.height {
        pixel_place(x, y, c.width, c.height);
    }
    if i == l.dx() && j == l.dy() {
        pixel_place(l.x1, l.y1, c.width, c.height);
    } else {
        line_step(l.dx(), l.dy(), i, j);
        let right = 2 * (j + 1) * l.dx() >= (2 * i + 1) * l.dy();
        let down = (2 * j + 1) * l.dx() <= 2 * (i + 1) * l.dy();
        line_reaches_its_end(
            here,
            l,
            if right {
                i + 1
            } else {
                i
            },
            if down {
                j + 1
            } else {
                j
            },
            n + 1,
        );
    }
}

/// A line changes no size.
pub proof fn line_keeps_size(c: CanvasView, l: Line, i: int, j: int, n: int)
    ensures
        line_rest(c, l, i, j, n).width == c.width,
        line_rest(c, l, i, j, n).height == c.height,
    decreases (l.dx() - i) + (l.dy() - j),
{
    if 0 <= i <= l.dx() && 0 <= j <= l.dy() && !(i == l.dx() && j == l.dy()) && n + 1 <= l.cap {
        line_step(l.dx(), l.dy(), i, j);
        let here = c.put(toward(l.x0, l.x1, i), toward(l.y0, l.y1, j), l.color);
        let right = 2 * (j + 1) * l.dx() >= (2 * i + 1) * l.dy();
        let down = (2 * j + 1) * l.dx() <= 2 * (i + 1) * l.dy();
        line_keeps_size(
            here,
            l,
            if right {
                i + 1
            } else {
                i
            },
            if down {
                j + 1
            } else {
                j
            },
            n + 1,
        );
    }
}

} // verus!
