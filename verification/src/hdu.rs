//! The header-data units of a FITS file: what each is, and the image in it.

use crate::arith::Whole;
use crate::fits::{
    finite_minmax, is_wcs_of, minmax_spec, missing, try_parse_wcs,
    FitsError, FitsImage, Header, Stored,
};
use crate::num::{Double, Single};
use crate::text::{chars_of, string_of};
use vstd::arithmetic::div_mod::*;
use vstd::arithmetic::mul::*;
use vstd::prelude::*;

verus! {

// ---------------------------------------------------------------------------
// Tiles
// ---------------------------------------------------------------------------

/// The grid of tiles that an image is cut into: its size and that of a tile. The
/// tiles at the right and at the lower edge may be smaller.
#[derive(Clone, Copy, Debug, PartialEq, Eq, Structural)]
pub struct Grid {
    pub width: usize,
    pub height: usize,
    pub tile_width: usize,
    pub tile_height: usize,
}

/// The number of tiles along an axis.
pub open spec fn tiles_along(size: int, tile: int) -> int {
    (size + tile - 1) / if tile > 1 {
        tile
    } else {
        1
    }
}

/// The size along an axis of the tile `t` of `n`.
pub open spec fn tile_size(size: int, tile: int, t: int, n: int) -> int {
    if t == n - 1 {
        size - t * tile
    } else {
        tile
    }
}

impl Grid {
    pub open spec fn across(self) -> int {
        tiles_along(self.width as int, self.tile_width as int)
    }

    pub open spec fn down(self) -> int {
        tiles_along(self.height as int, self.tile_height as int)
    }

    pub open spec fn tile_w(self, t: int) -> int {
        tile_size(self.width as int, self.tile_width as int, t % self.across(), self.across())
    }

    pub open spec fn tile_h(self, t: int) -> int {
        tile_size(self.height as int, self.tile_height as int, t / self.across(), self.down())
    }

    /// The grid is small enough to count its pixels.
    pub open spec fn fits(self) -> bool {
        &&& self.width > 0
        &&& self.height > 0
        &&& self.width * self.height <= usize::MAX
        &&& self.width + self.tile_width <= usize::MAX
        &&& self.height + self.tile_height <= usize::MAX
    }
}

/// An image that has been put together in part: the pixels, the tile that comes next
/// and the place within it.
pub struct Tiling {
    pub out: Seq<Single>,
    pub tile: int,
    pub local: int,
}

/// The image before any pixel: all are missing.
pub open spec fn tiling_start(g: Grid) -> Tiling {
    Tiling { out: Seq::new((g.width * g.height) as nat, |i: int| missing()), tile: 0, local: 0 }
}

/// The place in the image of the pixel at the place `local` of the tile `t`.
pub open spec fn tile_pixel(g: Grid, t: int, local: int) -> int {
    let tw = if g.tile_w(t) > 1 {
        g.tile_w(t)
    } else {
        1
    };
    let x = (t % g.across()) * g.tile_width + local % tw;
    let y = (t / g.across()) * g.tile_height + local / tw;
    y * g.width + x
}

/// The image after one more pixel, which goes to the next place of the tile; a full
/// tile is followed by the next one. What comes behind the last tile is dropped.
pub open spec fn tiling_step(g: Grid, st: Tiling, v: Single) -> Tiling {
    if st.tile >= g.across() * g.down() {
        st
    } else {
        let out = st.out.update(tile_pixel(g, st.tile, st.local), v);
        if st.local + 1 >= g.tile_w(st.tile) * g.tile_h(st.tile) {
            Tiling { out, tile: st.tile + 1, local: 0 }
        } else {
            Tiling { out, tile: st.tile, local: st.local + 1 }
        }
    }
}

/// The image after the pixels of `v`, which come tile by tile.
pub open spec fn tiling(g: Grid, v: Seq<Single>) -> Tiling
    decreases v.len(),
{
    if v.len() == 0 {
        tiling_start(g)
    } else {
        tiling_step(g, tiling(g, v.drop_last()), v.last())
    }
}

/// The tiles along an axis reach its end, and all but the last end before it.
pub proof fn tiles_reach(size: int, tile: int)
    requires
        size > 0,
        tile >= 0,
    ensures
        ({
            let n = tiles_along(size, tile);
            &&& n >= 0
            &&& n <= size
            &&& tile > 0 ==> n >= 1 && (n - 1) * tile < size <= n * tile
        }),
{
    let n = tiles_along(size, tile);
    if tile > 0 {
        lemma_fundamental_div_mod(size + tile - 1, tile);
        assert(n * tile == tile * n) by (nonlinear_arith);
        assert((n - 1) * tile == n * tile - tile) by (nonlinear_arith);
        assert(n >= 1) by (nonlinear_arith)
            requires
                n * tile >= size,
                size > 0,
                tile > 0,
        ;
        assert(n <= size) by (nonlinear_arith)
            requires
                (n - 1) * tile < size,
                tile > 0,
                n >= 1,
        ;
    }
}

/// Where a tile starts and how large it is.
pub proof fn tile_inside(size: int, tile: int, t: int)
    requires
        size > 0,
        tile >= 0,
        0 <= t < tiles_along(size, tile),
    ensures
        ({
            let n = tiles_along(size, tile);
            let k = tile_size(size, tile, t, n);
            &&& 0 <= t * tile < size
            &&& 0 <= k
            &&& t * tile + k <= size
            &&& tile > 0 ==> k > 0
        }),
{
    let n = tiles_along(size, tile);
    tiles_reach(size, tile);
    if tile == 0 {
        assert(t * tile == 0) by (nonlinear_arith)
            requires
                tile == 0,
        ;
    } else if t < n - 1 {
        assert((t + 1) * tile <= (n - 1) * tile) by (nonlinear_arith)
            requires
                t + 1 <= n - 1,
                tile > 0,
        ;
        assert((t + 1) * tile == t * tile + tile) by (nonlinear_arith);
        assert(t * tile >= 0) by (nonlinear_arith)
            requires
                t >= 0,
                tile > 0,
        ;
    } else {
        assert(t * tile >= 0) by (nonlinear_arith)
            requires
                t >= 0,
                tile > 0,
        ;
    }
}

/// The place that a tile gives lies in the image.
pub proof fn tile_pixel_inside(g: Grid, t: int, local: int)
    requires
        g.fits(),
        0 <= t < g.across() * g.down(),
        0 <= local,
        local == 0 || local < g.tile_w(t) * g.tile_h(t),
    ensures
        ({
            let (tx, ty) = (t % g.across(), t / g.across());
            let tw = if g.tile_w(t) > 1 {
                g.tile_w(t)
            } else {
                1
            };
            &&& 0 <= tx < g.across()
            &&& 0 <= ty < g.down()
            &&& 0 <= tx * g.tile_width + local % tw < g.width
            &&& 0 <= ty * g.tile_height + local / tw < g.height
            &&& 0 <= tile_pixel(g, t, local) < g.width * g.height
            &&& 0 <= g.tile_w(t) <= g.width
            &&& 0 <= g.tile_h(t) <= g.height
            &&& 0 <= g.tile_w(t) * g.tile_h(t) <= g.width * g.height
        }),
{
    let (nx, ny) = (g.across(), g.down());
    tiles_reach(g.width as int, g.tile_width as int);
    tiles_reach(g.height as int, g.tile_height as int);
    assert(nx > 0 && ny > 0) by (nonlinear_arith)
        requires
            0 < nx * ny,
            nx >= 0,
            ny >= 0,
    ;
    lemma_fundamental_div_mod(t, nx);
    lemma_mod_bound(t, nx);
    let (tx, ty) = (t % nx, t / nx);
    assert(ty < ny) by (nonlinear_arith)
        requires
            t == nx * ty + tx,
            t < nx * ny,
            tx >= 0,
            nx > 0,
    ;
    assert(ty >= 0) by (nonlinear_arith)
        requires
            t == nx * ty + tx,
            t >= 0,
            tx < nx,
            nx > 0,
    ;
    tile_inside(g.width as int, g.tile_width as int, tx);
    tile_inside(g.height as int, g.tile_height as int, ty);
    let (kw, kh) = (g.tile_w(t), g.tile_h(t));
    let tw = if kw > 1 {
        kw
    } else {
        1
    };
    lemma_fundamental_div_mod(local, tw);
    lemma_mod_bound(local, tw);
    let (lx, ly) = (local % tw, local / tw);
    if local == 0 {
        lemma_small_mod(0, tw as nat);
        assert(ly == 0) by (nonlinear_arith)
            requires
                0 == tw * ly + 0,
                tw > 0,
        ;
    } else {
        assert(kw * kh > 0);
        assert(kw > 0 && kh > 0) by (nonlinear_arith)
            requires
                kw * kh > 0,
                kw >= 0,
                kh >= 0,
        ;
        assert(tw == kw);
        assert(ly < kh) by (nonlinear_arith)
            requires
                local == tw * ly + lx,
                local < kw * kh,
                tw == kw,
                lx >= 0,
                kw > 0,
        ;
        assert(ly >= 0) by (nonlinear_arith)
            requires
                local == tw * ly + lx,
                local > 0,
                lx < tw,
                tw > 0,
        ;
    }
    let x = tx * g.tile_width + lx;
    let y = ty * g.tile_height + ly;
    assert(0 <= y * g.width + x < g.width * g.height) by (nonlinear_arith)
        requires
            0 <= x < g.width,
            0 <= y < g.height,
    ;
    assert(0 <= kw * kh <= g.width * g.height) by (nonlinear_arith)
        requires
            0 <= kw <= g.width,
            0 <= kh <= g.height,
    ;
}

/// The pixels of `v`, which come tile by tile, as an image row by row.
pub fn detile(v: &Vec<Single>, g: Grid) -> (r: Vec<Single>)
    requires
        g.fits(),
    ensures
        r@ == tiling(g, v@).out,
        r@.len() == g.width * g.height,
{
    let tw0: usize = if g.tile_width > 1 {
        g.tile_width
    } else {
        1
    };
    let th0: usize = if g.tile_height > 1 {
        g.tile_height
    } else {
        1
    };
    let nx: usize = (g.width + g.tile_width - 1) / tw0;
    let ny: usize = (g.height + g.tile_height - 1) / th0;
    let n: usize = g.width * g.height;
    let mut out: Vec<Single> = vec![Single { bits: 0x7fc0_0000 }; n];
    proof {
        tiles_reach(g.width as int, g.tile_width as int);
        tiles_reach(g.height as int, g.tile_height as int);
        assert(0 <= nx * ny <= g.width * g.height) by (nonlinear_arith)
            requires
                0 <= nx <= g.width,
                0 <= ny <= g.height,
        ;
        assert(out@ =~= tiling_start(g).out);
        assert(v@.take(0) =~= Seq::empty());
    }
    let tiles: usize = nx * ny;
    let mut tile: usize = 0;
    let mut local: usize = 0;
    for i in 0..v.len()
        invariant
            g.fits(),
            nx == g.across(),
            ny == g.down(),
            tiles == nx * ny <= usize::MAX,
            out@.len() == g.width * g.height,
            tile <= tiles,
            tile < tiles ==> local == 0 || local < g.tile_w(tile as int) * g.tile_h(tile as int),
            tiling(g, v@.take(i as int)) == (Tiling {
                out: out@,
                tile: tile as int,
                local: local as int,
            }),
    {
        assert(v@.take(i + 1).drop_last() =~= v@.take(i as int));
        if tile < tiles {
            proof {
                tile_pixel_inside(g, tile as int, local as int);
                assert(nx > 0) by (nonlinear_arith)
                    requires
                        nx * ny > 0,
                        ny >= 0,
                        nx >= 0,
                ;
                let (tx, ty) = (tile as int % nx as int, tile as int / nx as int);
                tile_inside(g.width as int, g.tile_width as int, tx);
                tile_inside(g.height as int, g.tile_height as int, ty);
            }
            let tx: usize = tile % nx;
            let ty: usize = tile / nx;
            let kw: usize = if tx == nx - 1 {
                g.width - tx * g.tile_width
            } else {
                g.tile_width
            };
            let kh: usize = if ty == ny - 1 {
                g.height - ty * g.tile_height
            } else {
                g.tile_height
            };
            let row: usize = if kw > 1 {
                kw
            } else {
                1
            };
            let x: usize = tx * g.tile_width + local % row;
            let y: usize = ty * g.tile_height + local / row;
            proof {
                assert(0 <= y * g.width <= g.width * g.height) by (nonlinear_arith)
                    requires
                        0 <= y < g.height,
                        g.width >= 0,
                ;
            }
            let at: usize = y * g.width + x;
            let ghost before = out@;
            out[at] = v[i];
            assert(out@ =~= before.update(at as int, v@[i as int]));
            if local + 1 >= kw * kh {
                tile = tile + 1;
                local = 0;
            } else {
                local = local + 1;
            }
        }
    }
    assert(v@.take(v@.len() as int) =~= v@);
    out
}

// ---------------------------------------------------------------------------
// Tile-compressed images
// ---------------------------------------------------------------------------

/// How the stored numbers of an image become pixels: a scale, a zero point and, perhaps, an
/// integer that stands for a missing pixel.
#[derive(Clone, Copy, Debug, PartialEq, Eq, Structural)]
pub struct Scaling {
    pub scale: Single,
    pub zero: Single,
    pub blank: Option<Double>,
}

/// A double cut off to an integer of 64 bits.
pub open spec fn cut_spec(x: Double) -> int {
    x.whole_spec(Whole::Trunc, i64::MIN as int, i64::MAX as int)
}

/// The pixel that an integer stands for.
pub open spec fn scaled_pixel(n: int, s: Scaling) -> Single {
    Single::from_int_spec(n).times(s.scale).plus(s.zero)
}

/// The pixel at the place `i` of the stored tiles. An integer of one byte is scaled; a
/// wider one too, unless it is the blank value; a float is taken as it is.
pub open spec fn tile_value(stored: Stored, i: int, s: Scaling) -> Single {
    match stored {
        Stored::U8(v) => scaled_pixel(v@[i] as int, s),
        Stored::I16(v) => unless_blank(v@[i] as int, s),
        Stored::I32(v) => unless_blank(v@[i] as int, s),
        Stored::I64(v) => unless_blank(v@[i] as int, s),
        _ => stored.pixel(i),
    }
}

/// The pixel that an integer stands for, missing where it is the blank value.
pub open spec fn unless_blank(n: int, s: Scaling) -> Single {
    match s.blank {
        Some(b) if cut_spec(b) == n => missing(),
        _ => scaled_pixel(n, s),
    }
}

fn scale_pixel(n: i64, s: Scaling) -> (r: Single)
    ensures
        r == scaled_pixel(n as int, s),
{
    Single::from_int(n).times(s.scale).plus(s.zero)
}

fn scale_unless_blank(n: i64, s: Scaling) -> (r: Single)
    ensures
        r == unless_blank(n as int, s),
{
    match s.blank {
        Some(b) => {
            let k: i64 = b.whole(Whole::Trunc, i64::MIN as i128, i64::MAX as i128) as i64;
            if k == n {
                Single { bits: 0x7fc0_0000 }
            } else {
                scale_pixel(n, s)
            }
        },
        None => scale_pixel(n, s),
    }
}

/// The pixels of the stored tiles, in their order.
pub open spec fn tile_values(stored: Stored, s: Scaling) -> Seq<Single> {
    Seq::new(stored.count(), |i: int| tile_value(stored, i, s))
}

/// The pixels of the stored tiles, in their order.
pub fn tile_pixels(stored: &Stored, s: Scaling) -> (r: Vec<Single>)
    ensures
        r@ == tile_values(*stored, s),
{
    let mut r: Vec<Single> = Vec::new();
    let n: usize = stored.len();
    for i in 0..n
        invariant
            n == stored.count(),
            r@ =~= tile_values(*stored, s).take(i as int),
    {
        let x: Single = match stored {
            Stored::U8(v) => scale_pixel(v[i] as i64, s),
            Stored::I16(v) => scale_unless_blank(v[i] as i64, s),
            Stored::I32(v) => scale_unless_blank(v[i] as i64, s),
            Stored::I64(v) => scale_unless_blank(v[i], s),
            Stored::F32(v) => v[i],
            Stored::F64(v) => v[i].narrow(),
        };
        r.push(x);
    }
    assert(r@ =~= tile_values(*stored, s));
    r
}

/// The grid of a tile-compressed image: its axes, if they are given and not zero, and
/// the size of its tiles, a row of the image each unless the header says otherwise.
pub open spec fn grid_spec(h: Header) -> Option<(int, int, int, int)> {
    match (h.count_spec("ZNAXIS1"@), h.count_spec("ZNAXIS2"@)) {
        (Some(w), Some(k)) if w != 0 && k != 0 => Some(
            (
                w,
                k,
                match h.count_spec("ZTILE1"@) {
                    Some(t) => t,
                    None => w,
                },
                match h.count_spec("ZTILE2"@) {
                    Some(t) => t,
                    None => 1,
                },
            ),
        ),
        _ => None,
    }
}

/// The grid of a tile-compressed image.
pub fn tile_grid(h: &Header) -> (r: Option<Grid>)
    ensures
        match r {
            Some(g) => grid_spec(*h) == Some(
                (
                    g.width as int,
                    g.height as int,
                    g.tile_width as int,
                    g.tile_height as int,
                ),
            ),
            None => grid_spec(*h) is None,
        },
        r is Some ==> r->0.width > 0 && r->0.height > 0,
{
    let width: usize = match h.get_count("ZNAXIS1") {
        Some(n) => n,
        None => {
            return None;
        },
    };
    let height: usize = match h.get_count("ZNAXIS2") {
        Some(n) => n,
        None => {
            return None;
        },
    };
    if width == 0 || height == 0 {
        return None;
    }
    let tile_width: usize = match h.get_count("ZTILE1") {
        Some(n) => n,
        None => width,
    };
    let tile_height: usize = match h.get_count("ZTILE2") {
        Some(n) => n,
        None => 1,
    };
    Some(Grid { width, height, tile_width, tile_height })
}

impl Grid {
    /// Whether the grid is small enough to count its pixels.
    pub fn is_countable(self) -> (r: bool)
        requires
            self.width > 0,
            self.height > 0,
        ensures
            r == self.fits(),
    {
        let max: u128 = usize::MAX as u128;
        assert(0 <= self.width * self.height <= 0xffff_ffff_ffff_ffff * 0xffff_ffff_ffff_ffff)
            by (nonlinear_arith)
            requires
                0 <= self.width <= 0xffff_ffff_ffff_ffff,
                0 <= self.height <= 0xffff_ffff_ffff_ffff,
        ;
        self.width as u128 * self.height as u128 <= max && self.width as u128
            + self.tile_width as u128 <= max && self.height as u128 + self.tile_height as u128
            <= max
    }
}

/// The scaling that a header gives.
pub open spec fn scaling_spec(h: Header) -> Scaling {
    Scaling {
        scale: h.number_or("BSCALE"@, Double { bits: 0x3ff0_0000_0000_0000 }).narrow(),
        zero: h.number_or("BZERO"@, Double { bits: 0 }).narrow(),
        blank: match h.number_spec("ZBLANK"@) {
            Some(b) => Some(b),
            None => h.number_spec("BLANK"@),
        },
    }
}

/// The scaling that a header gives.
pub fn scaling(h: &Header) -> (r: Scaling)
    ensures
        r == scaling_spec(*h),
{
    let scale: Double = match h.get_f64("BSCALE") {
        Some(x) => x,
        None => Double { bits: 0x3ff0_0000_0000_0000 },
    };
    let zero: Double = match h.get_f64("BZERO") {
        Some(x) => x,
        None => Double { bits: 0 },
    };
    let blank: Option<Double> = match h.get_f64("ZBLANK") {
        Some(b) => Some(b),
        None => h.get_f64("BLANK"),
    };
    Scaling { scale: scale.narrow(), zero: zero.narrow(), blank }
}

/// What holds of an image made from pixels and a header.
pub open spec fn is_image_of(
    img: FitsImage,
    width: int,
    height: int,
    data: Seq<Single>,
    h: Header,
    turn: (Double, Double),
) -> bool {
    &&& img.width == width
    &&& img.height == height
    &&& img.data@ == data
    &&& (img.min, img.max) == minmax_spec(data)
    &&& is_wcs_of(img.wcs, h, turn)
}

/// The image of a tile-compressed table: none where the table holds no tiles or the
/// header does not give the axes. `turn` is the cosine and sine of the header's
/// rotation.
pub fn load_tile_compressed(h: &Header, tiles: Option<&Stored>, turn: (Double, Double)) -> (r:
    Option<FitsImage>)
    requires
        grid_spec(*h) matches Some(g) ==> tiles is Some ==> g.0 * g.1 <= usize::MAX && g.0 + g.2
            <= usize::MAX && g.1 + g.3 <= usize::MAX,
    ensures
        r is Some <==> grid_spec(*h) is Some && tiles is Some,
        r matches Some(img) ==> img.wf() && ({
            let g = grid_spec(*h)->0;
            let grid = Grid {
                width: g.0 as usize,
                height: g.1 as usize,
                tile_width: g.2 as usize,
                tile_height: g.3 as usize,
            };
            is_image_of(
                img,
                g.0,
                g.1,
                tiling(grid, tile_values(*tiles->0, scaling_spec(*h))).out,
                *h,
                turn,
            )
        }),
{
    match (tile_grid(h), tiles) {
        (Some(g), Some(stored)) => {
            let pixels = tile_pixels(stored, scaling(h));
            let data = detile(&pixels, g);
            let (min, max): (Single, Single) = finite_minmax(&data);
            let wcs = try_parse_wcs(h, turn);
            Some(FitsImage { width: g.width, height: g.height, data, min, max, wcs })
        },
        _ => None,
    }
}

// ---------------------------------------------------------------------------
// Units
// ---------------------------------------------------------------------------

/// What a header-data unit is.
#[derive(Clone, Copy, Debug, PartialEq, Eq, Structural)]
pub enum HduClass {
    Primary,
    Image,
    /// A binary table, which may hold a tile-compressed image.
    Table { tiled: bool },
    Other,
}

/// A header-data unit without its data.
#[derive(Clone, Debug)]
pub struct HduRecord {
    pub class: HduClass,
    /// The lengths of the axes of an image.
    pub naxis: Vec<usize>,
    pub header: Header,
}

/// One row of a list of header-data units.
#[derive(Clone, Debug)]
pub struct HduInfo {
    /// The place of the unit in the file, from zero.
    pub idx: usize,
    /// A short label: "PRIMARY", "IMAGE", "TILE-COMPRESSED", "TABLE", "OTHER".
    pub kind: &'static str,
    /// The unit's `EXTNAME`, or its label where it has none.
    pub name: String,
    /// The size of the image in it, if there is one.
    pub dims: Option<(usize, usize)>,
}

/// The size of the image plane that the axes give: the first two, if both are there and
/// not zero.
pub open spec fn plane_spec(naxis: Seq<usize>) -> Option<(usize, usize)> {
    if naxis.len() >= 2 && naxis[0] > 0 && naxis[1] > 0 {
        Some((naxis[0], naxis[1]))
    } else {
        None
    }
}

fn plane(naxis: &Vec<usize>) -> (r: Option<(usize, usize)>)
    ensures
        r == plane_spec(naxis@),
{
    if naxis.len() >= 2 && naxis[0] > 0 && naxis[1] > 0 {
        Some((naxis[0], naxis[1]))
    } else {
        None
    }
}

/// The label of a unit.
pub open spec fn kind_spec(class: HduClass) -> Seq<char> {
    match class {
        HduClass::Primary => "PRIMARY"@,
        HduClass::Image => "IMAGE"@,
        HduClass::Table { tiled: true } => "TILE-COMPRESSED"@,
        HduClass::Table { tiled: false } => "TABLE"@,
        HduClass::Other => "OTHER"@,
    }
}

/// The name of a unit: that in its header, or its label where there is none.
pub open spec fn name_spec(rec: HduRecord) -> Seq<char> {
    match rec.header.text_spec("EXTNAME"@) {
        Some(t) => t,
        None => kind_spec(rec.class),
    }
}

/// The size that the list gives for a unit.
pub open spec fn dims_spec(rec: HduRecord) -> Option<(int, int)> {
    match rec.class {
        HduClass::Primary | HduClass::Image => match plane_spec(rec.naxis@) {
            Some((w, h)) => Some((w as int, h as int)),
            None => None,
        },
        HduClass::Table { tiled: true } => match (
            rec.header.count_spec("ZNAXIS1"@),
            rec.header.count_spec("ZNAXIS2"@),
        ) {
            (Some(w), Some(h)) => Some((w, h)),
            _ => None,
        },
        _ => None,
    }
}

/// The row of the list for the unit at the place `idx`.
pub open spec fn is_info_of(info: HduInfo, rec: HduRecord, idx: nat) -> bool {
    &&& info.idx == idx
    &&& info.kind@ == kind_spec(rec.class)
    &&& info.name@ == name_spec(rec)
    &&& match info.dims {
        Some((w, h)) => dims_spec(rec) == Some((w as int, h as int)),
        None => dims_spec(rec) is None,
    }
}

/// The row of the list for the unit at the place `idx`.
pub fn hdu_info(rec: &HduRecord, idx: usize) -> (r: HduInfo)
    ensures
        is_info_of(r, *rec, idx as nat),
{
    let kind: &'static str = match rec.class {
        HduClass::Primary => "PRIMARY",
        HduClass::Image => "IMAGE",
        HduClass::Table { tiled } => if tiled {
            "TILE-COMPRESSED"
        } else {
            "TABLE"
        },
        HduClass::Other => "OTHER",
    };
    let name: String = match rec.header.get_str("EXTNAME") {
        Some(t) => t,
        None => string_of(&chars_of(kind)),
    };
    let dims: Option<(usize, usize)> = match rec.class {
        HduClass::Primary | HduClass::Image => plane(&rec.naxis),
        HduClass::Table { tiled } => if tiled {
            match (rec.header.get_count("ZNAXIS1"), rec.header.get_count("ZNAXIS2")) {
                (Some(w), Some(h)) => Some((w, h)),
                _ => None,
            }
        } else {
            None
        },
        HduClass::Other => None,
    };
    HduInfo { idx, kind, name, dims }
}

/// The list of all header-data units of a file.
pub fn enumerate_hdus(recs: &Vec<HduRecord>) -> (r: Vec<HduInfo>)
    ensures
        r@.len() == recs@.len(),
        forall|i: int| 0 <= i < recs@.len() ==> is_info_of(#[trigger] r@[i], recs@[i], i as nat),
{
    let mut r: Vec<HduInfo> = Vec::new();
    for i in 0..recs.len()
        invariant
            r@.len() == i,
            forall|k: int| 0 <= k < i ==> is_info_of(#[trigger] r@[k], recs@[k], k as nat),
    {
        r.push(hdu_info(&recs[i], i));
    }
    r
}

/// What to read of a unit to have the image in it.
#[derive(Clone, Copy, Debug, PartialEq, Eq, Structural)]
pub enum HduRead {
    /// There is no image in it.
    Nothing,
    /// The first pixels of its data, as many as a plane of this width and height has.
    Plane { width: usize, height: usize },
    /// Its tiles.
    Tiles,
}

/// What to read of a unit to have the image in it.
pub open spec fn read_spec(rec: HduRecord) -> HduRead {
    match rec.class {
        HduClass::Primary | HduClass::Image => match plane_spec(rec.naxis@) {
            Some((width, height)) => HduRead::Plane { width, height },
            None => HduRead::Nothing,
        },
        HduClass::Table { tiled: true } => HduRead::Tiles,
        _ => HduRead::Nothing,
    }
}

/// What to read of a unit to have the image in it: an image of two dimensions or more
/// is read as its first plane, a tile-compressed table as its tiles; in any other unit
/// there is no image.
pub fn hdu_read(rec: &HduRecord) -> (r: HduRead)
    ensures
        r == read_spec(*rec),
{
    match rec.class {
        HduClass::Primary | HduClass::Image => match plane(&rec.naxis) {
            Some((width, height)) => HduRead::Plane { width, height },
            None => HduRead::Nothing,
        },
        HduClass::Table { tiled } => if tiled {
            HduRead::Tiles
        } else {
            HduRead::Nothing
        },
        HduClass::Other => HduRead::Nothing,
    }
}

/// How the numbers of an image that is not compressed become pixels.
pub open spec fn plane_scaling_spec(h: Header) -> Scaling {
    Scaling { blank: h.number_spec("BLANK"@), ..scaling_spec(h) }
}

fn plane_scaling(h: &Header) -> (r: Scaling)
    ensures
        r == plane_scaling_spec(*h),
{
    let s: Scaling = scaling(h);
    Scaling { scale: s.scale, zero: s.zero, blank: h.get_f64("BLANK") }
}

/// Whether a scaling leaves numbers as they are.
pub open spec fn is_plain(s: Scaling) -> bool {
    s.scale == (Single { bits: 0x3f80_0000 }) && (s.zero == (Single { bits: 0 }) || s.zero == (
    Single { bits: 0x8000_0000 }))
}

/// The pixel at the place `i` of a stored plane: the stored number, scaled. An integer that is the
/// blank value is missing.
pub open spec fn plane_value(stored: Stored, i: int, s: Scaling) -> Single {
    match stored {
        Stored::U8(v) => unless_blank(v@[i] as int, s),
        Stored::I16(v) => unless_blank(v@[i] as int, s),
        Stored::I32(v) => unless_blank(v@[i] as int, s),
        Stored::I64(v) => unless_blank(v@[i] as int, s),
        _ => if is_plain(s) {
            stored.pixel(i)
        } else {
            stored.pixel(i).times(s.scale).plus(s.zero)
        },
    }
}

fn plane_pixel(stored: &Stored, i: usize, s: Scaling) -> (r: Single)
    requires
        i < stored.count(),
    ensures
        r == plane_value(*stored, i as int, s),
{
    match stored {
        Stored::U8(v) => scale_unless_blank(v[i] as i64, s),
        Stored::I16(v) => scale_unless_blank(v[i] as i64, s),
        Stored::I32(v) => scale_unless_blank(v[i] as i64, s),
        Stored::I64(v) => scale_unless_blank(v[i], s),
        _ => {
            let x: Single = stored.get(i);
            if s.scale.bits == 0x3f80_0000 && (s.zero.bits == 0 || s.zero.bits == 0x8000_0000) {
                x
            } else {
                x.times(s.scale).plus(s.zero)
            }
        },
    }
}

/// The first `n` pixels of a stored plane; where there are fewer, the rest are missing.
pub open spec fn pixels_spec(stored: Stored, n: nat, s: Scaling) -> Seq<Single> {
    Seq::new(
        n,
        |i: int|
            if i < stored.count() {
                plane_value(stored, i, s)
            } else {
                missing()
            },
    )
}

/// The first `n` pixels of a stored plane; where there are fewer, the rest are missing.
pub fn pixels_to_f32(stored: &Stored, n: usize, s: Scaling) -> (r: Vec<Single>)
    ensures
        r@ == pixels_spec(*stored, n as nat, s),
{
    let mut r: Vec<Single> = Vec::new();
    let k: usize = stored.len();
    for i in 0..n
        invariant
            k == stored.count(),
            r@ =~= pixels_spec(*stored, n as nat, s).take(i as int),
    {
        if i < k {
            r.push(plane_pixel(stored, i, s));
        } else {
            r.push(Single { bits: 0x7fc0_0000 });
        }
    }
    assert(r@ =~= pixels_spec(*stored, n as nat, s));
    r
}

/// A plane of single-precision pixels that is not scaled is kept as it is, bit by bit.
pub proof fn plain_planes_are_kept(v: Vec<Single>, s: Scaling)
    requires
        is_plain(s),
    ensures
        pixels_spec(Stored::F32(v), v@.len(), s) == v@,
{
    assert(pixels_spec(Stored::F32(v), v@.len(), s) =~= v@);
}

/// The image of a plane of pixels, which the header says how to scale.
pub fn plane_image(
    h: &Header,
    width: usize,
    height: usize,
    stored: &Stored,
    turn: (Double, Double),
) -> (r: FitsImage)
    requires
        width * height <= usize::MAX,
    ensures
        r.wf(),
        is_image_of(
            r,
            width as int,
            height as int,
            pixels_spec(*stored, (width * height) as nat, plane_scaling_spec(*h)),
            *h,
            turn,
        ),
{
    let data = pixels_to_f32(stored, width * height, plane_scaling(h));
    let (min, max): (Single, Single) = finite_minmax(&data);
    let wcs = try_parse_wcs(h, turn);
    FitsImage { width, height, data, min, max, wcs }
}

/// A unit with the data that [`hdu_read`] asks for, where they could be had.
pub struct HduData {
    pub rec: HduRecord,
    pub stored: Option<Stored>,
    /// The cosine and sine of the header's rotation.
    pub turn: (Double, Double),
}

impl HduData {
    /// Whether the pixels of the image can be counted.
    pub open spec fn fits(self) -> bool {
        match read_spec(self.rec) {
            HduRead::Plane { width, height } => width * height <= usize::MAX && self.stored is Some,
            HduRead::Tiles => grid_spec(self.rec.header) matches Some(g) ==> g.0 * g.1 <= usize::MAX
                && g.0 + g.2 <= usize::MAX && g.1 + g.3 <= usize::MAX,
            HduRead::Nothing => true,
        }
    }

    /// Whether there is an image in the unit.
    pub open spec fn has_image(self) -> bool {
        match read_spec(self.rec) {
            HduRead::Plane { .. } => true,
            HduRead::Tiles => self.stored is Some && grid_spec(self.rec.header) is Some,
            HduRead::Nothing => false,
        }
    }

    /// Whether there is an image in the unit.
    pub fn holds_image(&self) -> (r: bool)
        ensures
            r == self.has_image(),
    {
        match hdu_read(&self.rec) {
            HduRead::Plane { width, height } => true,
            HduRead::Tiles => self.stored.is_some() && tile_grid(&self.rec.header).is_some(),
            HduRead::Nothing => false,
        }
    }

    /// Whether `img` is the image in the unit.
    pub open spec fn is_image(self, img: FitsImage) -> bool {
        img.wf() && match read_spec(self.rec) {
            HduRead::Plane { width, height } => is_image_of(
                img,
                width as int,
                height as int,
                pixels_spec(
                    self.stored->0,
                    (width * height) as nat,
                    plane_scaling_spec(self.rec.header),
                ),
                self.rec.header,
                self.turn,
            ),
            HduRead::Tiles => {
                let g = grid_spec(self.rec.header)->0;
                let grid = Grid {
                    width: g.0 as usize,
                    height: g.1 as usize,
                    tile_width: g.2 as usize,
                    tile_height: g.3 as usize,
                };
                is_image_of(
                    img,
                    g.0,
                    g.1,
                    tiling(grid, tile_values(self.stored->0, scaling_spec(self.rec.header))).out,
                    self.rec.header,
                    self.turn,
                )
            },
            HduRead::Nothing => false,
        }
    }

    /// The image in the unit.
    pub fn image(&self) -> (r: Result<FitsImage, FitsError>)
        requires
            self.fits(),
        ensures
            match r {
                Ok(img) => self.has_image() && self.is_image(img),
                Err(e) => e == FitsError::NoImageHdu && !self.has_image(),
            },
    {
        match hdu_read(&self.rec) {
            HduRead::Plane { width, height } => match &self.stored {
                Some(stored) => Ok(
                    plane_image(&self.rec.header, width, height, stored, self.turn),
                ),
                None => Err(FitsError::NoImageHdu),
            },
            HduRead::Tiles => {
                let tiles: Option<&Stored> = match &self.stored {
                    Some(s) => Some(s),
                    None => None,
                };
                match load_tile_compressed(&self.rec.header, tiles, self.turn) {
                    Some(img) => Ok(img),
                    None => Err(FitsError::NoImageHdu),
                }
            },
            HduRead::Nothing => Err(FitsError::NoImageHdu),
        }
    }
}

/// The image of the unit at a place of a file: none where there is no such unit or no
/// image in it.
pub fn load_hdu(units: &Vec<HduData>, target: usize) -> (r: Result<FitsImage, FitsError>)
    requires
        target < units@.len() ==> units@[target as int].fits(),
    ensures
        match r {
            Ok(img) => target < units@.len() && units@[target as int].has_image()
                && units@[target as int].is_image(img),
            Err(e) => e == FitsError::NoImageHdu && (target >= units@.len()
                || !units@[target as int].has_image()),
        },
{
    if target < units.len() {
        units[target].image()
    } else {
        Err(FitsError::NoImageHdu)
    }
}

/// The first image of a file: that of the first unit with one.
pub fn load(units: &Vec<HduData>) -> (r: Result<FitsImage, FitsError>)
    requires
        forall|i: int| 0 <= i < units@.len() ==> (#[trigger] units@[i]).fits(),
    ensures
        match r {
            Ok(img) => exists|k: int|
                0 <= k < units@.len() && (#[trigger] units@[k]).has_image() && units@[k].is_image(
                    img,
                ) && forall|j: int| 0 <= j < k ==> !(#[trigger] units@[j]).has_image(),
            Err(e) => e == FitsError::NoImageHdu && forall|j: int|
                0 <= j < units@.len() ==> !(#[trigger] units@[j]).has_image(),
        },
{
    for i in 0..units.len()
        invariant
            forall|k: int| 0 <= k < units@.len() ==> (#[trigger] units@[k]).fits(),
            forall|j: int| 0 <= j < i ==> !(#[trigger] units@[j]).has_image(),
    {
        if let Ok(img) = units[i].image() {
            assert(units@[i as int].has_image());
            return Ok(img);
        }
    }
    Err(FitsError::NoImageHdu)
}

} // verus!
