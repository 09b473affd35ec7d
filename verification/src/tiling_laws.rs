//! Where the pixels of a tiled image come from.

use crate::fits::missing;
use crate::hdu::{tile_inside, tile_pixel, tiles_reach, tiling, Grid, Tiling};
use crate::num::Single;
use vstd::arithmetic::div_mod::{
    lemma_fundamental_div_mod, lemma_fundamental_div_mod_converse, lemma_mod_bound,
};
use vstd::prelude::*;

verus! {

impl Grid {
    /// The number of tiles.
    pub open spec fn count(self) -> int {
        self.across() * self.down()
    }

    /// The number of pixels of a tile.
    pub open spec fn tile_len(self, t: int) -> int {
        self.tile_w(t) * self.tile_h(t)
    }

    /// The number of pixels in the tiles before a tile: the rows of tiles above it, and the
    /// tiles to its left.
    pub open spec fn start(self, t: int) -> int {
        (t / self.across()) * self.tile_height * self.width + (t % self.across()) * self.tile_width
            * self.tile_h(t)
    }

    /// The tile of a pixel.
    pub open spec fn tile_at(self, x: int, y: int) -> int {
        (y / self.tile_height as int) * self.across() + x / self.tile_width as int
    }

    /// The place of a pixel within its tile, row by row.
    pub open spec fn local_at(self, x: int, y: int) -> int {
        (y % self.tile_height as int) * self.tile_w(self.tile_at(x, y)) + x % self.tile_width as int
    }

    /// The place of a pixel among the pixels that come tile by tile.
    pub open spec fn source(self, x: int, y: int) -> int {
        self.start(self.tile_at(x, y)) + self.local_at(x, y)
    }

    /// Whether the grid has tiles.
    pub open spec fn tiled(self) -> bool {
        self.fits() && self.tile_width > 0 && self.tile_height > 0
    }
}

/// The column and the row of a tile.
proof fn tile_place(g: Grid, t: int)
    requires
        g.tiled(),
        0 <= t < g.count(),
    ensures
        ({
            let (nx, ny) = (g.across(), g.down());
            let (tx, ty) = (t % nx, t / nx);
            &&& nx > 0 && ny > 0
            &&& 0 <= tx < nx
            &&& 0 <= ty < ny
            &&& t == nx * ty + tx
            &&& 0 < g.tile_w(t)
            &&& 0 < g.tile_h(t)
            &&& g.tile_w(t) <= g.tile_width
            &&& g.tile_h(t) <= g.tile_height
            &&& tx * g.tile_width + g.tile_w(t) <= g.width
            &&& ty * g.tile_height + g.tile_h(t) <= g.height
            &&& 0 <= tx * g.tile_width
            &&& 0 <= ty * g.tile_height
        }),
{
    let (nx, ny) = (g.across(), g.down());
    tiles_reach(g.width as int, g.tile_width as int);
    tiles_reach(g.height as int, g.tile_height as int);
    lemma_fundamental_div_mod(t, nx);
    lemma_mod_bound(t, nx);
    let (tx, ty) = (t % nx, t / nx);
    assert(0 <= ty < ny) by (nonlinear_arith)
        requires
            t == nx * ty + tx,
            0 <= t < nx * ny,
            0 <= tx < nx,
            nx > 0,
    ;
    tile_inside(g.width as int, g.tile_width as int, tx);
    tile_inside(g.height as int, g.tile_height as int, ty);
    if tx == nx - 1 {
        assert(nx * g.tile_width == tx * g.tile_width + g.tile_width) by (nonlinear_arith)
            requires
                tx == nx - 1,
        ;
    }
    if ty == ny - 1 {
        assert(ny * g.tile_height == ty * g.tile_height + g.tile_height) by (nonlinear_arith)
            requires
                ty == ny - 1,
        ;
    }
}

/// A tile ends where the next one starts.
proof fn next_start(g: Grid, t: int)
    requires
        g.tiled(),
        0 <= t,
        t + 1 < g.count(),
    ensures
        g.start(t + 1) == g.start(t) + g.tile_len(t),
{
    tile_place(g, t);
    tile_place(g, t + 1);
    let (nx, ny) = (g.across(), g.down());
    let (tx, ty) = (t % nx, t / nx);
    let (tw, th, w) = (g.tile_width as int, g.tile_height as int, g.width as int);
    let (kw, kh) = (g.tile_w(t), g.tile_h(t));
    assert(nx * ty == ty * nx) by (nonlinear_arith);
    if tx + 1 < nx {
        lemma_fundamental_div_mod_converse(t + 1, nx, ty, tx + 1);
        assert(kw == tw);
        assert(ty * th * w + (tx + 1) * tw * kh == ty * th * w + tx * tw * kh + tw * kh)
            by (nonlinear_arith);
    } else {
        assert(nx * (ty + 1) == nx * ty + nx) by (nonlinear_arith);
        lemma_fundamental_div_mod_converse(t + 1, nx, ty + 1, 0);
        assert(kh == th);
        assert(kw == w - tx * tw);
        assert((ty + 1) * th * w + 0 * tw * g.tile_h(t + 1) == ty * th * w + tx * tw * kh + kw * kh)
            by (nonlinear_arith)
            requires
                kh == th,
                kw == w - tx * tw,
        ;
    }
}

/// The last tile ends with the image.
proof fn last_end(g: Grid, t: int)
    requires
        g.tiled(),
        0 <= t,
        t + 1 == g.count(),
    ensures
        g.start(t) + g.tile_len(t) == g.width * g.height,
{
    tile_place(g, t);
    let (nx, ny) = (g.across(), g.down());
    let (tx, ty) = (t % nx, t / nx);
    let (tw, th, w, h) = (
        g.tile_width as int,
        g.tile_height as int,
        g.width as int,
        g.height as int,
    );
    let (kw, kh) = (g.tile_w(t), g.tile_h(t));
    assert(tx == nx - 1 && ty == ny - 1) by (nonlinear_arith)
        requires
            t == nx * ty + tx,
            t + 1 == nx * ny,
            0 <= tx < nx,
            0 <= ty < ny,
    ;
    assert(ty * th * w + tx * tw * kh + kw * kh == w * h) by (nonlinear_arith)
        requires
            kw == w - tx * tw,
            kh == h - ty * th,
    ;
}

/// A tile ends before each later one starts, or there.
proof fn tiles_follow(g: Grid, s: int, t: int)
    requires
        g.tiled(),
        0 <= s < t < g.count(),
    ensures
        g.start(s) + g.tile_len(s) <= g.start(t),
    decreases t - s,
{
    next_start(g, s);
    if s + 1 < t {
        tiles_follow(g, s + 1, t);
        tile_place(g, s + 1);
        assert(g.tile_len(s + 1) >= 0) by (nonlinear_arith)
            requires
                g.tile_w(s + 1) > 0,
                g.tile_h(s + 1) > 0,
                g.tile_len(s + 1) == g.tile_w(s + 1) * g.tile_h(s + 1),
        ;
    }
}

/// The tile of a pixel, and the pixel's place within it.
proof fn pixel_in_tile(g: Grid, x: int, y: int)
    requires
        g.tiled(),
        0 <= x < g.width,
        0 <= y < g.height,
    ensures
        ({
            let t = g.tile_at(x, y);
            &&& 0 <= t < g.count()
            &&& t % g.across() == x / g.tile_width as int
            &&& t / g.across() == y / g.tile_height as int
            &&& 0 <= g.local_at(x, y) < g.tile_len(t)
            &&& tile_pixel(g, t, g.local_at(x, y)) == y * g.width + x
        }),
{
    let (nx, ny) = (g.across(), g.down());
    let (tw, th, w, h) = (
        g.tile_width as int,
        g.tile_height as int,
        g.width as int,
        g.height as int,
    );
    tiles_reach(w, tw);
    tiles_reach(h, th);
    lemma_fundamental_div_mod(x, tw);
    lemma_mod_bound(x, tw);
    lemma_fundamental_div_mod(y, th);
    lemma_mod_bound(y, th);
    let (tx, lx) = (x / tw, x % tw);
    let (ty, ly) = (y / th, y % th);
    assert(0 <= tx < nx) by (nonlinear_arith)
        requires
            x == tw * tx + lx,
            0 <= lx < tw,
            0 <= x < w,
            w <= nx * tw,
    ;
    assert(0 <= ty < ny) by (nonlinear_arith)
        requires
            y == th * ty + ly,
            0 <= ly < th,
            0 <= y < h,
            h <= ny * th,
    ;
    let t = g.tile_at(x, y);
    assert(t == nx * ty + tx) by (nonlinear_arith)
        requires
            t == ty * nx + tx,
    ;
    lemma_fundamental_div_mod_converse(t, nx, ty, tx);
    assert(0 <= t < nx * ny) by (nonlinear_arith)
        requires
            t == nx * ty + tx,
            0 <= tx < nx,
            0 <= ty < ny,
    ;
    tile_place(g, t);
    let (kw, kh) = (g.tile_w(t), g.tile_h(t));
    assert(tw * tx == tx * tw) by (nonlinear_arith);
    assert(th * ty == ty * th) by (nonlinear_arith);
    assert(lx < kw);
    assert(ly < kh);
    let l = ly * kw + lx;
    assert(0 <= l < kw * kh) by (nonlinear_arith)
        requires
            l == ly * kw + lx,
            0 <= lx < kw,
            0 <= ly < kh,
    ;
    assert(l == kw * ly + lx) by (nonlinear_arith)
        requires
            l == ly * kw + lx,
    ;
    lemma_fundamental_div_mod_converse(l, kw, ly, lx);
}

/// A place within a tile is that of a pixel.
proof fn place_is_a_pixel(g: Grid, t: int, l: int, x: int, y: int)
    requires
        g.tiled(),
        0 <= t < g.count(),
        0 <= l < g.tile_len(t),
        0 <= x < g.width,
        0 <= y < g.height,
    ensures
        (g.source(x, y) == g.start(t) + l) <==> (tile_pixel(g, t, l) == y * g.width + x),
{
    pixel_in_tile(g, x, y);
    let s = g.tile_at(x, y);
    let m = g.local_at(x, y);
    if g.source(x, y) == g.start(t) + l {
        if s < t {
            tiles_follow(g, s, t);
        } else if t < s {
            tiles_follow(g, t, s);
        }
        assert(s == t);
    }
    if tile_pixel(g, t, l) == y * g.width + x {
        tile_place(g, t);
        let nx = g.across();
        let (tx, ty) = (t % nx, t / nx);
        let (tw, th, w) = (g.tile_width as int, g.tile_height as int, g.width as int);
        let (kw, kh) = (g.tile_w(t), g.tile_h(t));
        lemma_fundamental_div_mod(l, kw);
        lemma_mod_bound(l, kw);
        let (lx, ly) = (l % kw, l / kw);
        assert(0 <= ly < kh) by (nonlinear_arith)
            requires
                l == kw * ly + lx,
                0 <= lx < kw,
                0 <= l < kw * kh,
        ;
        let (px, py) = (tx * tw + lx, ty * th + ly);
        assert(py * w + px == y * w + x);
        assert(py == y && px == x) by (nonlinear_arith)
            requires
                py * w + px == y * w + x,
                0 <= px < w,
                0 <= x < w,
        ;
        assert(x == tw * tx + lx) by (nonlinear_arith)
            requires
                x == tx * tw + lx,
        ;
        assert(y == th * ty + ly) by (nonlinear_arith)
            requires
                y == ty * th + ly,
        ;
        lemma_fundamental_div_mod_converse(x, tw, tx, lx);
        lemma_fundamental_div_mod_converse(y, th, ty, ly);
        assert(s == t) by (nonlinear_arith)
            requires
                s == ty * nx + tx,
                t == nx * ty + tx,
        ;
        assert(m == l) by (nonlinear_arith)
            requires
                m == ly * kw + lx,
                l == kw * ly + lx,
        ;
    }
}

/// Whether so many pixels have been placed.
pub open spec fn is_placed(g: Grid, st: Tiling, k: int) -> bool {
    &&& st.out.len() == g.width * g.height
    &&& 0 <= st.tile <= g.count()
    &&& if st.tile < g.count() {
        0 <= st.local < g.tile_len(st.tile) && g.start(st.tile) + st.local == k
    } else {
        k >= g.width * g.height
    }
}

/// The place of each pixel among those that come tile by tile lies among the first, as many as
/// the image has pixels.
pub proof fn sources_are_in_the_image(g: Grid, x: int, y: int)
    requires
        g.tiled(),
        0 <= x < g.width,
        0 <= y < g.height,
    ensures
        0 <= g.source(x, y) < g.width * g.height,
{
    pixel_in_tile(g, x, y);
    let t = g.tile_at(x, y);
    tile_place(g, t);
    let last = g.count() - 1;
    last_end(g, last);
    if t < last {
        tiles_follow(g, t, last);
        tile_place(g, last);
        assert(g.tile_len(last) >= 0) by (nonlinear_arith)
            requires
                g.tile_w(last) > 0,
                g.tile_h(last) > 0,
                g.tile_len(last) == g.tile_w(last) * g.tile_h(last),
        ;
    }
    let (tx, ty) = (t % g.across(), t / g.across());
    assert(ty * g.tile_height * g.width + tx * g.tile_width * g.tile_h(t) >= 0) by (nonlinear_arith)
        requires
            ty * g.tile_height >= 0,
            tx * g.tile_width >= 0,
            g.tile_h(t) > 0,
            g.width > 0,
    ;
}

proof fn placing(g: Grid, v: Seq<Single>, x: int, y: int)
    requires
        g.tiled(),
        0 <= x < g.width,
        0 <= y < g.height,
    ensures
        is_placed(g, tiling(g, v), v.len() as int),
        tiling(g, v).out[y * g.width + x] == if g.source(x, y) < v.len() {
            v[g.source(x, y)]
        } else {
            missing()
        },
    decreases v.len(),
{
    let p = y * g.width + x;
    assert(0 <= p < g.width * g.height) by (nonlinear_arith)
        requires
            p == y * g.width + x,
            0 <= x < g.width,
            0 <= y < g.height,
    ;
    sources_are_in_the_image(g, x, y);
    if v.len() == 0 {
        tiles_reach(g.width as int, g.tile_width as int);
        tiles_reach(g.height as int, g.tile_height as int);
        assert(g.count() > 0) by (nonlinear_arith)
            requires
                g.count() == g.across() * g.down(),
                g.across() > 0,
                g.down() > 0,
        ;
        tile_place(g, 0);
        lemma_fundamental_div_mod_converse(0, g.across(), 0, 0);
        assert(g.start(0) == 0) by (nonlinear_arith)
            requires
                g.start(0) == 0 * g.tile_height * g.width + 0 * g.tile_width * g.tile_h(0),
        ;
        assert(g.tile_len(0) > 0) by (nonlinear_arith)
            requires
                g.tile_w(0) > 0,
                g.tile_h(0) > 0,
                g.tile_len(0) == g.tile_w(0) * g.tile_h(0),
        ;
    } else {
        placing(g, v.drop_last(), x, y);
        let st = tiling(g, v.drop_last());
        let k = v.len() - 1;
        if st.tile < g.count() {
            let (t, l) = (st.tile, st.local);
            place_is_a_pixel(g, t, l, x, y);
            tile_place(g, t);
            crate::hdu::tile_pixel_inside(g, t, l);
            if l + 1 >= g.tile_len(t) {
                if t + 1 < g.count() {
                    next_start(g, t);
                    tile_place(g, t + 1);
                    assert(g.tile_len(t + 1) > 0) by (nonlinear_arith)
                        requires
                            g.tile_w(t + 1) > 0,
                            g.tile_h(t + 1) > 0,
                            g.tile_len(t + 1) == g.tile_w(t + 1) * g.tile_h(t + 1),
                    ;
                } else {
                    last_end(g, t);
                }
            }
        }
    }
}

/// Each pixel of a tiled image is the one at its place among those that come tile by tile, and
/// missing where they are too few.
pub proof fn tiles_are_put_in_place(g: Grid, v: Seq<Single>, x: int, y: int)
    requires
        g.tiled(),
        0 <= x < g.width,
        0 <= y < g.height,
    ensures
        tiling(g, v).out[y * g.width + x] == if g.source(x, y) < v.len() {
            v[g.source(x, y)]
        } else {
            missing()
        },
{
    placing(g, v, x, y);
}

/// No two pixels of a tiled image are the same one of those that come tile by tile.
pub proof fn sources_differ(g: Grid, x: int, y: int, p: int, q: int)
    requires
        g.tiled(),
        0 <= x < g.width,
        0 <= y < g.height,
        0 <= p < g.width,
        0 <= q < g.height,
        g.source(x, y) == g.source(p, q),
    ensures
        x == p && y == q,
{
    pixel_in_tile(g, x, y);
    pixel_in_tile(g, p, q);
    place_is_a_pixel(g, g.tile_at(x, y), g.local_at(x, y), p, q);
    assert(x == p && y == q) by (nonlinear_arith)
        requires
            y * g.width + x == q * g.width + p,
            0 <= x < g.width,
            0 <= p < g.width,
    ;
}

} // verus!
