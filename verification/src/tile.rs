//! All frames side by side.

use crate::arith::{int_root, root, root_bounds, Whole};
use crate::color::pixel_place;
use crate::draw::{Canvas, CanvasView, Rgba};
use crate::num::Double;
use vstd::arithmetic::div_mod::*;
use vstd::prelude::*;

verus! {

/// The number of columns of a grid for `n` tiles: the square root, rounded up.
pub open spec fn columns_spec(n: nat) -> nat {
    if n == 0 {
        1
    } else if root(n) * root(n) == n {
        root(n)
    } else {
        root(n) + 1
    }
}

/// The number of rows of a grid for `n` tiles.
pub open spec fn rows_spec(n: nat) -> nat {
    if n == 0 {
        1
    } else {
        ((n + columns_spec(n) - 1) / columns_spec(n) as int) as nat
    }
}

/// The least number of columns whose square is at least `n`.
pub proof fn columns_are_least(n: nat)
    requires
        n > 0,
    ensures
        columns_spec(n) * columns_spec(n) >= n,
        (columns_spec(n) - 1) * (columns_spec(n) - 1) < n,
        columns_spec(n) > 0,
{
    root_bounds(n);
    let r = root(n);
    if r * r == n {
        assert(r > 0) by (nonlinear_arith)
            requires
                r * r > 0,
                r >= 0,
        ;
        assert((r - 1) * (r - 1) < r * r) by (nonlinear_arith)
            requires
                r > 0,
        ;
    }
}

/// The grid has a cell for each tile.
pub proof fn every_tile_has_a_cell(n: nat)
    ensures
        columns_spec(n) * rows_spec(n) >= n,
        columns_spec(n) >= 1,
        rows_spec(n) >= 1,
{
    if n > 0 {
        columns_are_least(n);
        let c = columns_spec(n) as int;
        lemma_fundamental_div_mod(n + c - 1, c);
        lemma_mod_bound(n + c - 1, c);
        let q = (n + c - 1) / c;
        assert(c * q >= n);
        assert(q >= 1) by (nonlinear_arith)
            requires
                c * q >= n,
                n > 0,
                c > 0,
        ;
    }
}

/// The columns and rows of a grid for `n` tiles.
pub fn tile_layout(n: usize) -> (r: (usize, usize))
    ensures
        r.0 == columns_spec(n as nat),
        r.1 == rows_spec(n as nat),
        r.0 >= 1,
        r.1 >= 1,
{
    if n == 0 {
        return (1, 1);
    }
    let k: u128 = int_root(n as u128);
    proof {
        root_bounds(n as nat);
        let (a, b) = (k as int, root(n as nat) as int);
        if a < b {
            assert((a + 1) * (a + 1) <= b * b) by (nonlinear_arith)
                requires
                    a + 1 <= b,
                    a >= 0,
            ;
        } else if b < a {
            assert((b + 1) * (b + 1) <= a * a) by (nonlinear_arith)
                requires
                    b + 1 <= a,
                    b >= 0,
            ;
        }
        assert(a == b);
        every_tile_has_a_cell(n as nat);
        assert(k <= n) by (nonlinear_arith)
            requires
                k * k <= n,
                k >= 0,
        ;
        assert(k * k <= n);
    }
    let cols: u128 = if k * k == n as u128 {
        k
    } else {
        k + 1
    };
    let rows: u128 = (n as u128 + cols - 1) / cols;
    proof {
        let c = cols as int;
        lemma_fundamental_div_mod(n + c - 1, c);
        lemma_mod_bound(n + c - 1, c);
        assert(rows <= n) by (nonlinear_arith)
            requires
                c * rows <= n + c - 1,
                c >= 1,
                n >= 1,
                rows >= 0,
        ;
        assert(cols <= n) by {
            if cols == k + 1 {
                if k == 0 {
                    assert((k + 1) * (k + 1) == 1) by (nonlinear_arith)
                        requires
                            k == 0,
                    ;
                } else {
                    assert(k + 1 <= n) by (nonlinear_arith)
                        requires
                            k * k < n,
                            k >= 1,
                    ;
                }
            }
        }
    }
    (cols as usize, rows as usize)
}

/// A frame's picture: its size and its bytes, four for each pixel.
pub struct Picture {
    pub width: usize,
    pub height: usize,
    pub rgba: Vec<u8>,
}

impl Picture {
    /// Whether the picture is not empty and there are four bytes for each pixel.
    pub open spec fn wf(self) -> bool {
        &&& self.width > 0
        &&& self.height > 0
        &&& self.rgba@.len() == self.width * self.height * 4
    }
}

/// The scale at which a picture fits into a cell of the given size.
pub open spec fn scale_spec(p: Picture, cw: int, ch: int) -> Double {
    Double::from_int_spec(cw).over(Double::from_int_spec(p.width as int)).min(
        Double::from_int_spec(ch).over(Double::from_int_spec(p.height as int)),
    )
}

/// A size scaled to at least one and at most the room there is.
pub open spec fn fitted(size: int, scale: Double, room: int) -> int {
    let n = Double::from_int_spec(size).times(scale).whole_spec(Whole::Round, 0, usize::MAX as int);
    let m = if n > 1 {
        n
    } else {
        1
    };
    if m < room {
        m
    } else {
        room
    }
}

/// The place in the picture of a place in the scaled picture.
pub open spec fn source_at(t: int, scale: Double, size: int) -> int {
    let n = Double::from_int_spec(t).over(scale).whole_spec(Whole::Trunc, 0, usize::MAX as int);
    if n < size - 1 {
        n
    } else {
        size - 1
    }
}

/// A pixel of a picture, opaque.
pub open spec fn picture_pixel(p: Picture, x: int, y: int) -> Rgba {
    let i = (y * p.width + x) * 4;
    Rgba { r: p.rgba@[i], g: p.rgba@[i + 1], b: p.rgba@[i + 2], a: 0xff }
}

/// A picture scaled into a cell: each pixel is that of the nearest place before it.
pub open spec fn scaled_spec(p: Picture, cw: int, ch: int) -> CanvasView {
    let scale = scale_spec(p, cw, ch);
    let (tw, th) = (fitted(p.width as int, scale, cw), fitted(p.height as int, scale, ch));
    CanvasView {
        width: tw,
        height: th,
        pixels: Seq::new(
            (tw * th) as nat,
            |i: int|
                picture_pixel(
                    p,
                    source_at(i % tw, scale, p.width as int),
                    source_at(i / tw, scale, p.height as int),
                ),
        ),
    }
}

fn fit(size: usize, scale: Double, room: usize) -> (r: usize)
    requires
        room > 0,
    ensures
        r == fitted(size as int, scale, room as int),
        1 <= r <= room,
{
    let n: usize = Double::from_nat(size as u64).times(scale).whole(
        Whole::Round,
        0,
        usize::MAX as i128,
    ) as usize;
    let m: usize = if n > 1 {
        n
    } else {
        1
    };
    if m < room {
        m
    } else {
        room
    }
}

fn source(t: usize, scale: Double, size: usize) -> (r: usize)
    requires
        size > 0,
    ensures
        r == source_at(t as int, scale, size as int),
        r < size,
{
    let n: usize = Double::from_nat(t as u64).over(scale).whole(
        Whole::Trunc,
        0,
        usize::MAX as i128,
    ) as usize;
    if n < size - 1 {
        n
    } else {
        size - 1
    }
}

fn scaled(p: &Picture, cw: usize, ch: usize) -> (r: Canvas)
    requires
        p.wf(),
        cw > 0,
        ch > 0,
        cw * ch <= usize::MAX,
    ensures
        r@ == scaled_spec(*p, cw as int, ch as int),
        r@.wf(),
        1 <= r.width <= cw,
        1 <= r.height <= ch,
{
    let a: Double = Double::from_nat(cw as u64).over(Double::from_nat(p.width as u64));
    let b: Double = Double::from_nat(ch as u64).over(Double::from_nat(p.height as u64));
    let scale: Double = a.min(b);
    let tw: usize = fit(p.width, scale, cw);
    let th: usize = fit(p.height, scale, ch);
    let ghost want = scaled_spec(*p, cw as int, ch as int);
    let bytes: usize = p.rgba.len();
    let mut pixels: Vec<Rgba> = Vec::new();
    assert(0 * tw == 0) by (nonlinear_arith);
    for ty in 0..th
        invariant
            p.wf(),
            bytes == p.rgba@.len(),
            scale == scale_spec(*p, cw as int, ch as int),
            tw == want.width,
            th == want.height,
            want == scaled_spec(*p, cw as int, ch as int),
            ty * tw <= tw * th,
            pixels@ =~= want.pixels.take(ty * tw),
    {
        let sy: usize = source(ty, scale, p.height);
        for tx in 0..tw
            invariant
                p.wf(),
                bytes == p.rgba@.len(),
                scale == scale_spec(*p, cw as int, ch as int),
                tw == want.width,
                th == want.height,
                ty < th,
                want == scaled_spec(*p, cw as int, ch as int),
                sy == source_at(ty as int, scale, p.height as int),
                sy < p.height,
                ty * tw + tx <= tw * th,
                pixels@ =~= want.pixels.take(ty * tw + tx),
        {
            let sx: usize = source(tx, scale, p.width);
            proof {
                pixel_place(sx as int, sy as int, p.width as int, p.height as int);
                pixel_place(tx as int, ty as int, tw as int, th as int);
                assert(p.width * p.height * 4 == 4 * (p.width * p.height)) by (nonlinear_arith);
                assert(0 <= sy * p.width) by (nonlinear_arith)
                    requires
                        sy >= 0,
                        p.width >= 0,
                ;
            }
            let i: usize = (sy * p.width + sx) * 4;
            let ghost before = pixels@;
            pixels.push(
                Rgba { r: p.rgba[i], g: p.rgba[i + 1], b: p.rgba[i + 2], a: 0xff },
            );
            assert(pixels@ =~= before.push(want.pixels[ty * tw + tx]));
        }
        proof {
            assert((ty + 1) * tw == ty * tw + tw) by (nonlinear_arith);
            assert((ty + 1) * tw <= tw * th) by (nonlinear_arith)
                requires
                    ty + 1 <= th,
                    tw >= 0,
            ;
        }
    }
    assert(th * tw == tw * th) by (nonlinear_arith);
    assert(pixels@ =~= want.pixels);
    Canvas { width: tw, height: th, pixels }
}

/// The smaller of two numbers.
pub open spec fn least_of(a: int, b: int) -> int {
    if a < b {
        a
    } else {
        b
    }
}

/// The border of a cell: one pixel along each of its sides, gold around the active frame.
pub open spec fn bordered(c: CanvasView, x0: int, y0: int, cw: int, ch: int, active: bool) -> CanvasView {
    let color = if active {
        Rgba { r: 0xff, g: 0xc1, b: 0x07, a: 0xff }
    } else {
        Rgba { r: 0x2a, g: 0x32, b: 0x42, a: 0xff }
    };
    let xe = least_of(x0 + cw, c.width);
    let ye = least_of(y0 + ch, c.height);
    let xb = least_of(x0 + cw, c.width - 1);
    let yb = least_of(y0 + ch, c.height - 1);
    c.filled(x0, xe, y0, y0 + 1, color).filled(x0, xe, yb, yb + 1, color).filled(
        x0,
        x0 + 1,
        y0,
        ye,
        color,
    ).filled(xb, xb + 1, y0, ye, color)
}

/// The grid with the tile `i`: its picture in the middle of its cell, and the border. A
/// cell without room for a pixel inside its border stays empty.
pub open spec fn with_tile(
    c: CanvasView,
    p: Picture,
    i: int,
    active: int,
    cols: int,
    rows: int,
) -> CanvasView {
    let (cell_w, cell_h) = (c.width / cols, c.height / rows);
    let (x0, y0) = ((i % cols) * cell_w, (i / cols) * cell_h);
    let (cw, ch) = (cell_w - 2, cell_h - 2);
    if cw <= 0 || ch <= 0 {
        c
    } else {
        let t = scaled_spec(p, cw, ch);
        bordered(
            c.pasted(x0 + 1 + (cw - t.width) / 2, y0 + 1 + (ch - t.height) / 2, t),
            x0,
            y0,
            cell_w,
            cell_h,
            i == active,
        )
    }
}

/// The grid with the first `k` tiles.
pub open spec fn with_tiles(
    c: CanvasView,
    ps: Seq<Picture>,
    k: nat,
    active: int,
    cols: int,
    rows: int,
) -> CanvasView
    decreases k,
{
    if k == 0 {
        c
    } else {
        with_tile(with_tiles(c, ps, (k - 1) as nat, active, cols, rows), ps[k - 1], k - 1, active, cols, rows)
    }
}

/// The background of the grid.
pub open spec fn tile_ground() -> Rgba {
    Rgba { r: 0x0a, g: 0x0d, b: 0x14, a: 0xff }
}

/// The grid of all frames.
pub open spec fn tile_view_spec(ps: Seq<Picture>, active: int, w: int, h: int) -> CanvasView {
    with_tiles(
        CanvasView::blank(w, h, tile_ground()),
        ps,
        ps.len(),
        active,
        columns_spec(ps.len()) as int,
        rows_spec(ps.len()) as int,
    )
}

/// A cell of a grid lies in the picture.
proof fn cell_inside(i: int, cols: int, rows: int, w: int, h: int)
    requires
        0 <= i < cols * rows,
        cols > 0,
        rows > 0,
        w >= 0,
        h >= 0,
    ensures
        0 <= (i % cols) * (w / cols),
        (i % cols) * (w / cols) + w / cols <= w,
        0 <= (i / cols) * (h / rows),
        (i / cols) * (h / rows) + h / rows <= h,
        0 <= w / cols <= w,
        0 <= h / rows <= h,
{
    lemma_fundamental_div_mod(i, cols);
    lemma_mod_bound(i, cols);
    lemma_fundamental_div_mod(w, cols);
    lemma_mod_bound(w, cols);
    lemma_fundamental_div_mod(h, rows);
    lemma_mod_bound(h, rows);
    let (x, y) = (i % cols, i / cols);
    let (a, b) = (w / cols, h / rows);
    lemma_div_pos_is_pos(w, cols);
    lemma_div_pos_is_pos(h, rows);
    lemma_div_pos_is_pos(i, cols);
    lemma_div_nonincreasing(w, cols);
    lemma_div_nonincreasing(h, rows);
    assert(y < rows) by (nonlinear_arith)
        requires
            i == cols * y + x,
            i < cols * rows,
            x >= 0,
            cols > 0,
    ;
    assert(x * a + a <= cols * a) by (nonlinear_arith)
        requires
            x + 1 <= cols,
            a >= 0,
    ;
    assert(y * b + b <= rows * b) by (nonlinear_arith)
        requires
            y + 1 <= rows,
            b >= 0,
    ;
    assert(0 <= x * a && 0 <= y * b) by (nonlinear_arith)
        requires
            x >= 0,
            y >= 0,
            a >= 0,
            b >= 0,
    ;
}

fn draw_border(c: &mut Canvas, x0: usize, y0: usize, cw: usize, ch: usize, active: bool)
    requires
        old(c)@.wf(),
        x0 + cw <= old(c).width,
        y0 + ch <= old(c).height,
        cw > 0,
        ch > 0,
    ensures
        final(c)@ == bordered(old(c)@, x0 as int, y0 as int, cw as int, ch as int, active),
        final(c)@.wf(),
{
    let color: Rgba = if active {
        Rgba { r: 0xff, g: 0xc1, b: 0x07, a: 0xff }
    } else {
        Rgba { r: 0x2a, g: 0x32, b: 0x42, a: 0xff }
    };
    let (w, h): (usize, usize) = (c.width, c.height);
    let xb: usize = if x0 + cw < w - 1 {
        x0 + cw
    } else {
        w - 1
    };
    let yb: usize = if y0 + ch < h - 1 {
        y0 + ch
    } else {
        h - 1
    };
    c.fill(x0, x0 + cw, y0, y0 + 1, color);
    c.fill(x0, x0 + cw, yb, yb + 1, color);
    c.fill(x0, x0 + 1, y0, y0 + ch, color);
    c.fill(xb, xb + 1, y0, y0 + ch, color);
}

/// All frames side by side: each picture scaled into the middle of its cell, the active
/// one in a golden border.
pub fn render_tile_view(ps: &Vec<Picture>, active: usize, out_w: usize, out_h: usize) -> (r: Canvas)
    requires
        out_w * out_h <= usize::MAX,
        forall|i: int| 0 <= i < ps@.len() ==> (#[trigger] ps@[i]).wf(),
    ensures
        r@ == tile_view_spec(ps@, active as int, out_w as int, out_h as int),
        r@.wf(),
{
    let n: usize = ps.len();
    let (cols, rows): (usize, usize) = tile_layout(n);
    let cell_w: usize = out_w / cols;
    let cell_h: usize = out_h / rows;
    let mut c = Canvas::new(out_w, out_h, Rgba { r: 0x0a, g: 0x0d, b: 0x14, a: 0xff });
    let ghost c0 = c@;
    proof {
        every_tile_has_a_cell(n as nat);
    }
    for i in 0..n
        invariant
            n == ps@.len(),
            out_w * out_h <= usize::MAX,
            forall|k: int| 0 <= k < ps@.len() ==> (#[trigger] ps@[k]).wf(),
            cols == columns_spec(n as nat) >= 1,
            rows == rows_spec(n as nat) >= 1,
            cols * rows >= n,
            cell_w == out_w as int / cols as int,
            cell_h == out_h as int / rows as int,
            c@.wf(),
            c@.width == out_w,
            c@.height == out_h,
            c@ == with_tiles(c0, ps@, i as nat, active as int, cols as int, rows as int),
    {
        proof {
            cell_inside(i as int, cols as int, rows as int, out_w as int, out_h as int);
        }
        let x0: usize = (i % cols) * cell_w;
        let y0: usize = (i / cols) * cell_h;
        if cell_w > 2 && cell_h > 2 {
            let (cw, ch): (usize, usize) = (cell_w - 2, cell_h - 2);
            proof {
                assert(cw * ch <= out_w * out_h) by (nonlinear_arith)
                    requires
                        0 <= cw <= out_w,
                        0 <= ch <= out_h,
                ;
            }
            let t = scaled(&ps[i], cw, ch);
            c.paste(x0 + 1 + (cw - t.width) / 2, y0 + 1 + (ch - t.height) / 2, &t);
            draw_border(&mut c, x0, y0, cell_w, cell_h, i == active);
        }
    }
    c
}

/// The frame whose cell holds a place, in the grid of `n` frames; none outside the grid and in a
/// cell without a frame.
pub open spec fn tile_hit_spec(n: nat, w: int, h: int, cx: Double, cy: Double) -> Option<int> {
    let (cols, rows) = (columns_spec(n) as int, rows_spec(n) as int);
    let (cell_w, cell_h) = (w / cols, h / rows);
    let col = cx.over(Double::from_int_spec(cell_w)).whole_spec(
        Whole::Floor,
        i64::MIN as int,
        i64::MAX as int,
    );
    let row = cy.over(Double::from_int_spec(cell_h)).whole_spec(
        Whole::Floor,
        i64::MIN as int,
        i64::MAX as int,
    );
    if n == 0 || cell_w == 0 || cell_h == 0 || col < 0 || row < 0 || col >= cols
        || row * cols + col >= n {
        None
    } else {
        Some(row * cols + col)
    }
}

/// The frame whose cell holds a place on the canvas, in the grid of `n` frames.
pub fn tile_hit(n: usize, out_w: usize, out_h: usize, cx: Double, cy: Double) -> (r: Option<usize>)
    ensures
        match tile_hit_spec(n as nat, out_w as int, out_h as int, cx, cy) {
            Some(i) => r is Some && r->0 == i,
            None => r is None,
        },
        r is Some ==> r->0 < n,
{
    if n == 0 {
        return None;
    }
    let (cols, rows): (usize, usize) = tile_layout(n);
    let cell_w: usize = out_w / cols;
    let cell_h: usize = out_h / rows;
    if cell_w == 0 || cell_h == 0 {
        return None;
    }
    let col: i128 = cx.over(Double::from_nat(cell_w as u64)).whole(
        Whole::Floor,
        i64::MIN as i128,
        i64::MAX as i128,
    );
    let row: i128 = cy.over(Double::from_nat(cell_h as u64)).whole(
        Whole::Floor,
        i64::MIN as i128,
        i64::MAX as i128,
    );
    if col < 0 || row < 0 || col >= cols as i128 {
        return None;
    }
    assert(0 <= row * cols <= 0x7fff_ffff_ffff_ffff * 0xffff_ffff_ffff_ffff) by (nonlinear_arith)
        requires
            0 <= row <= 0x7fff_ffff_ffff_ffff,
            0 <= cols <= 0xffff_ffff_ffff_ffff,
    ;
    let i: i128 = row * cols as i128 + col;
    if i >= n as i128 {
        None
    } else {
        Some(i as usize)
    }
}

} // verus!
