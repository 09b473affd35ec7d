//! Where a drawn line lies.

use crate::color::pixel_place;
use crate::draw::{gap, line_keeps_size, line_rest, line_spec, line_step, toward, CanvasView, Line};
use vstd::prelude::*;

verus! {

/// Whether a number lies between two others, in either order.
pub open spec fn is_between(a: int, b: int, v: int) -> bool {
    a <= v <= b || b <= v <= a
}

/// Whether a place lies between the ends of a line, at most half a pixel from it: along the
/// columns for a steep line, and along the rows for any other.
pub open spec fn is_near(l: Line, x: int, y: int) -> bool {
    &&& is_between(l.x0, l.x1, x)
    &&& is_between(l.y0, l.y1, y)
    &&& is_off(l, gap(l.x0, x), gap(l.y0, y))
}

/// Whether the place `i` columns and `j` rows from the start is at most half a pixel off.
pub open spec fn is_off(l: Line, i: int, j: int) -> bool {
    let d = 2 * (i * l.dy() - j * l.dx());
    let long = if l.dx() < l.dy() {
        l.dy()
    } else {
        l.dx()
    };
    -long <= d <= long
}

/// The column and the row after a step.
spec fn after(l: Line, i: int, j: int) -> (int, int) {
    (
        if 2 * (j + 1) * l.dx() >= (2 * i + 1) * l.dy() {
            i + 1
        } else {
            i
        },
        if (2 * j + 1) * l.dx() <= 2 * (i + 1) * l.dy() {
            j + 1
        } else {
            j
        },
    )
}

/// A step stays at most half a pixel off, and takes the longer direction.
proof fn steps_stay_near(l: Line, i: int, j: int)
    requires
        0 <= i <= l.dx(),
        0 <= j <= l.dy(),
        !(i == l.dx() && j == l.dy()),
        is_off(l, i, j),
    ensures
        is_off(l, after(l, i, j).0, after(l, i, j).1),
        l.dx() >= l.dy() ==> after(l, i, j).0 == i + 1,
        l.dx() <= l.dy() ==> after(l, i, j).1 == j + 1,
{
    let (w, h) = (l.dx(), l.dy());
    line_step(w, h, i, j);
    let (a, b) = (i * h, j * w);
    assert(2 * (j + 1) * w == 2 * b + 2 * w && (2 * j + 1) * w == 2 * b + w && 2 * (i + 1) * h == 2
        * a + 2 * h && (2 * i + 1) * h == 2 * a + h && (i + 1) * h == a + h && (j + 1) * w == b + w)
        by (nonlinear_arith)
        requires
            a == i * h,
            b == j * w,
    ;
}

/// The pixel that a step of a line sets.
proof fn places_are_near(l: Line, i: int, j: int)
    requires
        0 <= i <= l.dx(),
        0 <= j <= l.dy(),
        is_off(l, i, j),
    ensures
        is_near(l, toward(l.x0, l.x1, i), toward(l.y0, l.y1, j)),
{
    assert(gap(l.x0, toward(l.x0, l.x1, i)) == i);
    assert(gap(l.y0, toward(l.y0, l.y1, j)) == j);
}

proof fn places_differ(x: int, y: int, a: int, b: int, w: int, h: int)
    requires
        0 <= x < w,
        0 <= y < h,
        0 <= a < w,
        0 <= b < h,
        !(x == a && y == b),
    ensures
        y * w + x != b * w + a,
{
    pixel_place(x, y, w, h);
    pixel_place(a, b, w, h);
}

proof fn rest_changes_what_is_near(c: CanvasView, l: Line, i: int, j: int, n: int, x: int, y: int)
    requires
        c.wf(),
        0 <= i <= l.dx(),
        0 <= j <= l.dy(),
        is_off(l, i, j),
        0 <= x < c.width,
        0 <= y < c.height,
    ensures
        ({
            let p = y * c.width + x;
            let r = line_rest(c, l, i, j, n).pixels[p];
            &&& r == c.pixels[p] || r == l.color
            &&& r != c.pixels[p] ==> is_near(l, x, y)
            &&& c.pixels[p] == l.color ==> r == l.color
        }),
    decreases (l.dx() - i) + (l.dy() - j),
{
    let (a, b) = (toward(l.x0, l.x1, i), toward(l.y0, l.y1, j));
    let here = c.put(a, b, l.color);
    places_are_near(l, i, j);
    pixel_place(x, y, c.width, c.height);
    if 0 <= a < c.width && 0 <= b < c.height {
        pixel_place(a, b, c.width, c.height);
        if !(x == a && y == b) {
            places_differ(x, y, a, b, c.width, c.height);
        }
    }
    if !(i == l.dx() && j == l.dy()) && n + 1 <= l.cap {
        line_step(l.dx(), l.dy(), i, j);
        steps_stay_near(l, i, j);
        let s = after(l, i, j);
        rest_changes_what_is_near(here, l, s.0, s.1, n + 1, x, y);
    }
}

/// A line keeps to its course: a pixel that it changes gets its colour, and lies between its ends
/// and at most half a pixel off the exact line.
pub proof fn lines_keep_to_their_course(c: CanvasView, l: Line, x: int, y: int)
    requires
        c.wf(),
        0 <= x < c.width,
        0 <= y < c.height,
    ensures
        ({
            let p = y * c.width + x;
            let r = line_spec(c, l).pixels[p];
            &&& r == c.pixels[p] || r == l.color
            &&& r != c.pixels[p] ==> is_near(l, x, y)
        }),
{
    assert(0 * l.dy() - 0 * l.dx() == 0);
    rest_changes_what_is_near(c, l, 0, 0, 0, x, y);
}

/// Whether a line has its colour somewhere in the column `x`, near its course.
pub open spec fn has_column(c: CanvasView, l: Line, x: int) -> bool {
    exists|y: int| is_near(l, x, y) && #[trigger] c.pixels[y * c.width + x] == l.color
}

/// Whether a line has its colour somewhere in the row `y`, near its course.
pub open spec fn has_row(c: CanvasView, l: Line, y: int) -> bool {
    exists|x: int| is_near(l, x, y) && #[trigger] c.pixels[y * c.width + x] == l.color
}

proof fn rest_has_no_gap(c: CanvasView, l: Line, i: int, j: int, n: int, k: int)
    requires
        c.wf(),
        0 <= i <= l.dx(),
        0 <= j <= l.dy(),
        is_off(l, i, j),
        n <= i + j,
        l.cap >= l.dx() + l.dy(),
        0 <= l.x0 < c.width,
        0 <= l.x1 < c.width,
        0 <= l.y0 < c.height,
        0 <= l.y1 < c.height,
    ensures
        l.dx() >= l.dy() && i <= k <= l.dx() ==> has_column(
            line_rest(c, l, i, j, n),
            l,
            toward(l.x0, l.x1, k),
        ),
        l.dx() <= l.dy() && j <= k <= l.dy() ==> has_row(
            line_rest(c, l, i, j, n),
            l,
            toward(l.y0, l.y1, k),
        ),
    decreases (l.dx() - i) + (l.dy() - j),
{
    let (a, b) = (toward(l.x0, l.x1, i), toward(l.y0, l.y1, j));
    let here = c.put(a, b, l.color);
    let r = line_rest(c, l, i, j, n);
    places_are_near(l, i, j);
    pixel_place(a, b, c.width, c.height);
    line_keeps_size(c, l, i, j, n);
    if i == l.dx() && j == l.dy() {
        assert(r.pixels[b * r.width + a] == l.color);
    } else {
        line_step(l.dx(), l.dy(), i, j);
        steps_stay_near(l, i, j);
        let s = after(l, i, j);
        rest_changes_what_is_near(here, l, s.0, s.1, n + 1, a, b);
        assert(r == line_rest(here, l, s.0, s.1, n + 1));
        assert(r.pixels[b * r.width + a] == l.color);
        rest_has_no_gap(here, l, s.0, s.1, n + 1, k);
    }
}

/// A line that is not cut short has no gap: one that is not steep has a pixel in each column
/// between its ends, and one that is not flat has one in each row.
pub proof fn lines_have_no_gap(c: CanvasView, l: Line, v: int)
    requires
        c.wf(),
        l.cap >= l.dx() + l.dy(),
        0 <= l.x0 < c.width,
        0 <= l.x1 < c.width,
        0 <= l.y0 < c.height,
        0 <= l.y1 < c.height,
    ensures
        l.dx() >= l.dy() && is_between(l.x0, l.x1, v) ==> has_column(line_spec(c, l), l, v),
        l.dx() <= l.dy() && is_between(l.y0, l.y1, v) ==> has_row(line_spec(c, l), l, v),
{
    assert(0 * l.dy() - 0 * l.dx() == 0);
    rest_has_no_gap(c, l, 0, 0, 0, gap(l.x0, v));
    rest_has_no_gap(c, l, 0, 0, 0, gap(l.y0, v));
}

} // verus!
