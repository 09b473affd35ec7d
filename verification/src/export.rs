//! Files to write: TIFF, PostScript, FITS, PNG.

use crate::fits::{FitsImage, Wcs};
use crate::num::{Double, Single};
use crate::text::{chars_of, nat_text, put_chars, put_nat, put_text, string_of};
use vstd::prelude::*;
use vstd::utf8::*;

verus! {

// ---------------------------------------------------------------------------
// TIFF
// ---------------------------------------------------------------------------

/// A number in two bytes, the low one first.
pub open spec fn le16(x: u16) -> Seq<u8> {
    seq![(x % 256) as u8, (x / 256) as u8]
}

/// A number in four bytes, the lowest first.
pub open spec fn le32(x: u32) -> Seq<u8> {
    seq![
        (x % 256) as u8,
        (x / 256 % 256) as u8,
        (x / 65536 % 256) as u8,
        (x / 16777216) as u8,
    ]
}

fn put16(v: &mut Vec<u8>, x: u16)
    ensures
        final(v)@ == old(v)@ + le16(x),
{
    let ghost before = v@;
    v.push((x % 256) as u8);
    v.push((x / 256) as u8);
    assert(v@ =~= before + le16(x));
}

fn put32(v: &mut Vec<u8>, x: u32)
    ensures
        final(v)@ == old(v)@ + le32(x),
{
    let ghost before = v@;
    v.push((x % 256) as u8);
    v.push((x / 256 % 256) as u8);
    v.push((x / 65536 % 256) as u8);
    v.push((x / 16777216) as u8);
    assert(v@ =~= before + le32(x));
}

/// An entry of a directory: tag, type, number of values, value or offset.
pub open spec fn entry_spec(tag: u16, kind: u16, count: u32, value: u32) -> Seq<u8> {
    le16(tag) + le16(kind) + le32(count) + le32(value)
}

fn put_entry(v: &mut Vec<u8>, tag: u16, kind: u16, count: u32, value: u32)
    ensures
        final(v)@ == old(v)@ + entry_spec(tag, kind, count, value),
{
    let ghost before = v@;
    put16(v, tag);
    put16(v, kind);
    put32(v, count);
    put32(v, value);
    assert(v@ =~= before + entry_spec(tag, kind, count, value));
}

/// The red, green and blue of each pixel.
pub open spec fn rgb_spec(rgba: Seq<u8>) -> Seq<u8> {
    Seq::new(3 * (rgba.len() / 4), |i: int| rgba[(i / 3) * 4 + i % 3])
}

/// The directory of a TIFF with one strip of pixels: twelve entries, the samples of eight
/// bits each behind it, and the pixels behind these.
pub open spec fn tiff_directory(w: u32, h: u32) -> Seq<u8> {
    entry_spec(0x00fe, 4, 1, 0) + entry_spec(0x0100, 4, 1, w) + entry_spec(0x0101, 4, 1, h)
        + entry_spec(0x0102, 3, 3, 158) + entry_spec(0x0103, 3, 1, 1) + entry_spec(0x0106, 3, 1, 2)
        + entry_spec(0x0111, 4, 1, 164) + entry_spec(0x0115, 3, 1, 3) + entry_spec(0x0116, 4, 1, h)
        + entry_spec(0x0117, 4, 1, (w * h * 3) as u32) + entry_spec(0x011c, 3, 1, 1) + entry_spec(
        0x0153,
        3,
        3,
        158,
    )
}

/// The bytes of an uncompressed TIFF.
pub open spec fn tiff_spec(rgba: Seq<u8>, w: u32, h: u32) -> Seq<u8> {
    seq![0x49u8, 0x49u8] + le16(42) + le32(8) + le16(12) + tiff_directory(w, h) + le32(0) + le16(8)
        + le16(8) + le16(8) + rgb_spec(rgba)
}

/// The bytes of an uncompressed TIFF of the picture, red, green and blue in a byte each.
pub fn tiff_bytes(rgba: &Vec<u8>, w: u32, h: u32) -> (r: Vec<u8>)
    requires
        w * h * 3 <= u32::MAX,
    ensures
        r@ == tiff_spec(rgba@, w, h),
{
    let mut v: Vec<u8> = Vec::new();
    v.push(0x49);
    v.push(0x49);
    assert(v@ =~= seq![0x49u8, 0x49u8]);
    put16(&mut v, 42);
    put32(&mut v, 8);
    put16(&mut v, 12);
    let ghost head = v@;
    assert(w * h <= w * h * 3) by (nonlinear_arith)
        requires
            w * h >= 0,
    ;
    let strip: u32 = w * h * 3;
    put_entry(&mut v, 0x00fe, 4, 1, 0);
    put_entry(&mut v, 0x0100, 4, 1, w);
    put_entry(&mut v, 0x0101, 4, 1, h);
    put_entry(&mut v, 0x0102, 3, 3, 158);
    put_entry(&mut v, 0x0103, 3, 1, 1);
    put_entry(&mut v, 0x0106, 3, 1, 2);
    put_entry(&mut v, 0x0111, 4, 1, 164);
    put_entry(&mut v, 0x0115, 3, 1, 3);
    put_entry(&mut v, 0x0116, 4, 1, h);
    put_entry(&mut v, 0x0117, 4, 1, strip);
    put_entry(&mut v, 0x011c, 3, 1, 1);
    put_entry(&mut v, 0x0153, 3, 3, 158);
    assert(v@ =~= head + tiff_directory(w, h));
    put32(&mut v, 0);
    put16(&mut v, 8);
    put16(&mut v, 8);
    put16(&mut v, 8);
    let ghost before = v@;
    let n: usize = rgba.len() / 4;
    for i in 0..n
        invariant
            n == rgba@.len() / 4,
            4 * n <= usize::MAX,
            v@ =~= before + rgb_spec(rgba@).take(3 * i),
    {
        let ghost was = v@;
        v.push(rgba[4 * i]);
        v.push(rgba[4 * i + 1]);
        v.push(rgba[4 * i + 2]);
        proof {
            let t = rgb_spec(rgba@);
            assert((3 * i) / 3 == i && (3 * i + 1) / 3 == i && (3 * i + 2) / 3 == i);
            assert(t[3 * i] == rgba@[4 * i] && t[3 * i + 1] == rgba@[4 * i + 1] && t[3 * i + 2]
                == rgba@[4 * i + 2]);
            assert(v@ =~= before + t.take(3 * (i + 1)));
        }
    }
    assert(rgb_spec(rgba@).take(3 * n) =~= rgb_spec(rgba@));
    assert(v@ =~= tiff_spec(rgba@, w, h));
    v
}

/// The pixels of a TIFF start where its directory says.
pub proof fn tiff_offsets(rgba: Seq<u8>, w: u32, h: u32)
    requires
        rgba.len() == 4 * (w * h),
    ensures
        tiff_spec(rgba, w, h).len() == 164 + 3 * (w * h),
        tiff_spec(rgba, w, h).skip(164) == rgb_spec(rgba),
        tiff_spec(rgba, w, h).subrange(158, 164) == le16(8) + le16(8) + le16(8),
{
    let t = tiff_spec(rgba, w, h);
    assert(t.skip(164) =~= rgb_spec(rgba));
    assert(t.subrange(158, 164) =~= le16(8) + le16(8) + le16(8));
}

// ---------------------------------------------------------------------------
// PostScript
// ---------------------------------------------------------------------------

/// The hexadecimal digit of a number below sixteen.
pub open spec fn nib_spec(n: int) -> u8 {
    if n < 10 {
        (0x30 + n) as u8
    } else {
        (0x61 + n - 10) as u8
    }
}

/// The hexadecimal digit of a number below sixteen.
pub fn hex_nib(n: u8) -> (r: u8)
    requires
        n < 16,
    ensures
        r == nib_spec(n as int),
{
    if n < 10 {
        0x30 + n
    } else {
        0x61 + (n - 10)
    }
}

/// Bytes in hexadecimal, thirty on a line.
pub open spec fn hex_lines(b: Seq<u8>) -> Seq<char>
    decreases b.len(),
{
    if b.len() == 0 {
        Seq::empty()
    } else {
        let line = hex_lines(b.drop_last()).push(nib_spec(b.last() as int / 16) as char).push(
            nib_spec(b.last() as int % 16) as char,
        );
        if b.len() % 30 == 0 {
            line.push('\n')
        } else {
            line
        }
    }
}

/// The width in points of a picture on the page: twice its pixels, no more than 540.
pub open spec fn page_width(w: u32) -> Double {
    (Double { bits: 0x4080_e000_0000_0000 }).min(Double::from_int_spec(w as int).times(Double { bits: 0x4000_0000_0000_0000 }))
}

/// The height in points of a picture on the page.
pub open spec fn page_height(w: u32, h: u32) -> Double {
    Double::from_int_spec(h as int).times(page_width(w).over(Double::from_int_spec(w as int)))
}

/// Half of what is left of `page` beside `size`.
pub open spec fn margin(page: Double, size: Double) -> Double {
    page.minus(size).over(Double { bits: 0x4000_0000_0000_0000 })
}

/// The head of an encapsulated PostScript file for a picture in the middle of a page.
pub open spec fn postscript_head(w: u32, h: u32) -> Seq<char> {
    let (tw, th) = (page_width(w), page_height(w, h));
    let xl = margin(Double { bits: 0x4083_2000_0000_0000 }, tw);
    let yl = margin(Double { bits: 0x4088_c000_0000_0000 }, th);
    let (nw, nh) = (nat_text(w as nat), nat_text(h as nat));
    "%!PS-Adobe-3.0 EPSF-3.0\n%%BoundingBox: "@ + xl.fixed_spec(0).push(' ') + yl.fixed_spec(
        0,
    ).push(' ') + xl.plus(tw).fixed_spec(0).push(' ') + yl.plus(th).fixed_spec(0)
        + "\n%%Pages: 1\n%%EndComments\n/picstr "@ + nat_text((w * 3) as nat) + " string def\n"@
        + xl.shortest_spec().push(' ') + yl.shortest_spec() + " translate\n"@ + tw.fixed_spec(2).push(' ') + th.fixed_spec(
        2,
    ) + " scale\n"@ + nw.push(' ') + nh + " 8\n[ "@ + nw + " 0 0 -"@ + nh + " 0 "@ + nh
        + " ]\n{ currentfile picstr readhexstring pop }\nfalse 3 colorimage\n"@
}

/// An encapsulated PostScript file.
pub open spec fn postscript_spec(rgba: Seq<u8>, w: u32, h: u32) -> Seq<char> {
    let rgb = rgb_spec(rgba);
    let ending = if rgb.len() % 30 == 0 {
        Seq::empty()
    } else {
        "\n"@
    };
    postscript_head(w, h) + hex_lines(rgb) + ending + "\n%%EOF\n"@
}

fn put_head(v: &mut Vec<char>, w: u32, h: u32)
    requires
        w * 3 <= u32::MAX,
    ensures
        final(v)@ == old(v)@ + postscript_head(w, h),
{
    let ghost before = v@;
    let fw: Double = Double::from_nat(w as u64);
    let tw: Double = (Double { bits: 0x4080_e000_0000_0000 }).min(fw.times(Double { bits: 0x4000_0000_0000_0000 }));
    let th: Double = Double::from_nat(h as u64).times(tw.over(fw));
    let xl: Double = (Double { bits: 0x4083_2000_0000_0000 }).minus(tw).over(Double { bits: 0x4000_0000_0000_0000 });
    let yl: Double = (Double { bits: 0x4088_c000_0000_0000 }).minus(th).over(Double { bits: 0x4000_0000_0000_0000 });
    put_text(v, "%!PS-Adobe-3.0 EPSF-3.0\n%%BoundingBox: ");
    let t = xl.fixed(0);
    put_chars(v, &t);
    v.push(' ');
    let t = yl.fixed(0);
    put_chars(v, &t);
    v.push(' ');
    let t = xl.plus(tw).fixed(0);
    put_chars(v, &t);
    v.push(' ');
    let t = yl.plus(th).fixed(0);
    put_chars(v, &t);
    put_text(v, "\n%%Pages: 1\n%%EndComments\n/picstr ");
    put_nat(v, (w * 3) as u128);
    put_text(v, " string def\n");
    let t = xl.shortest();
    put_chars(v, &t);
    v.push(' ');
    let t = yl.shortest();
    put_chars(v, &t);
    put_text(v, " translate\n");
    let t = tw.fixed(2);
    put_chars(v, &t);
    v.push(' ');
    let t = th.fixed(2);
    put_chars(v, &t);
    put_text(v, " scale\n");
    put_nat(v, w as u128);
    v.push(' ');
    put_nat(v, h as u128);
    put_text(v, " 8\n[ ");
    put_nat(v, w as u128);
    put_text(v, " 0 0 -");
    put_nat(v, h as u128);
    put_text(v, " 0 ");
    put_nat(v, h as u128);
    put_text(v, " ]\n{ currentfile picstr readhexstring pop }\nfalse 3 colorimage\n");
    assert(v@ =~= before + postscript_head(w, h));
}

/// An encapsulated PostScript file of the picture, in the middle of a letter page.
pub fn postscript_text(rgba: &Vec<u8>, w: u32, h: u32) -> (r: String)
    requires
        w * 3 <= u32::MAX,
    ensures
        r@ == postscript_spec(rgba@, w, h),
{
    let mut v: Vec<char> = Vec::new();
    put_head(&mut v, w, h);
    let ghost head = v@;
    let ghost rgb = rgb_spec(rgba@);
    let n: usize = rgba.len() / 4;
    let mut col: usize = 0;
    assert(rgb.take(0) =~= Seq::empty());
    assert(v@ =~= head + hex_lines(rgb.take(0)));
    for i in 0..n
        invariant
            n == rgba@.len() / 4,
            4 * n <= usize::MAX,
            rgb == rgb_spec(rgba@),
            col == (3 * i) % 30,
            v@ == head + hex_lines(rgb.take(3 * i)),
    {
        for c in 0..3usize
            invariant
                n == rgba@.len() / 4,
            4 * n <= usize::MAX,
                i < n,
                rgb == rgb_spec(rgba@),
                col == (3 * i + c) % 30,
                v@ == head + hex_lines(rgb.take(3 * i + c)),
        {
            let b: u8 = rgba[4 * i + c];
            let ghost t = rgb.take(3 * i + c + 1);
            assert(t.drop_last() =~= rgb.take(3 * i + c));
            assert((3 * i + c) / 3 == i && (3 * i + c) % 3 == c);
            assert(t.last() == b);
            v.push(hex_nib(b / 16) as char);
            v.push(hex_nib(b % 16) as char);
            col = col + 1;
            if col >= 30 {
                v.push('\n');
                col = 0;
            }
            assert(v@ =~= head + hex_lines(t));
        }
    }
    assert(rgb.take(3 * n) =~= rgb);
    if col != 0 {
        put_text(&mut v, "\n");
    }
    put_text(&mut v, "\n%%EOF\n");
    assert(v@ =~= postscript_spec(rgba@, w, h));
    string_of(&v)
}

// ---------------------------------------------------------------------------
// FITS
// ---------------------------------------------------------------------------

/// `s` with spaces behind it, so that it has at least `n` characters.
pub open spec fn left_aligned(s: Seq<char>, n: nat) -> Seq<char> {
    if s.len() >= n {
        s
    } else {
        s + Seq::new((n - s.len()) as nat, |i: int| ' ')
    }
}

/// Appends `s` with spaces behind it, so that it has at least `n` characters.
pub fn put_left(out: &mut Vec<char>, s: &Vec<char>, n: usize)
    ensures
        final(out)@ == old(out)@ + left_aligned(s@, n as nat),
{
    let ghost before = out@;
    put_chars(out, s);
    let k: usize = if s.len() < n {
        n - s.len()
    } else {
        0
    };
    for i in 0..k
        invariant
            out@ =~= before + s@ + Seq::new(i as nat, |j: int| ' '),
    {
        out.push(' ');
    }
    assert(out@ =~= before + left_aligned(s@, n as nat));
}

/// The text of a header card.
pub open spec fn card_text(key: Seq<char>, value: Seq<char>) -> Seq<char> {
    left_aligned(key, 8) + "= "@ + left_aligned(value, 70)
}

/// The eighty bytes of a header card.
pub open spec fn card_bytes(text: Seq<char>) -> Seq<u8> {
    let b = encode_utf8(text);
    Seq::new(
        80,
        |i: int|
            if i < b.len() {
                b[i]
            } else {
                0x20
            },
    )
}

/// A text in quotes, with spaces up to eight characters.
pub open spec fn quoted(s: Seq<char>) -> Seq<char> {
    seq!['\''] + left_aligned(s, 8) + seq!['\'']
}

/// The texts of the header cards of an image.
pub open spec fn header_cards(img: FitsImage) -> Seq<Seq<char>> {
    let first = seq![
        card_text("SIMPLE"@, "                   T"@),
        card_text("BITPIX"@, "                 -32"@),
        card_text("NAXIS"@, "                   2"@),
        card_text("NAXIS1"@, nat_text(img.width as nat)),
        card_text("NAXIS2"@, nat_text(img.height as nat)),
        card_text("BSCALE"@, "1.0"@),
        card_text("BZERO"@, "0.0"@),
    ];
    let wcs = match img.wcs {
        Some(w) => seq![
            card_text("CTYPE1"@, quoted(w.ctype1@)),
            card_text("CTYPE2"@, quoted(w.ctype2@)),
            card_text("CRPIX1"@, w.crpix1.scientific_spec(10)),
            card_text("CRPIX2"@, w.crpix2.scientific_spec(10)),
            card_text("CRVAL1"@, w.crval1.scientific_spec(10)),
            card_text("CRVAL2"@, w.crval2.scientific_spec(10)),
            card_text("CD1_1"@, w.cd11.scientific_spec(10)),
            card_text("CD1_2"@, w.cd12.scientific_spec(10)),
            card_text("CD2_1"@, w.cd21.scientific_spec(10)),
            card_text("CD2_2"@, w.cd22.scientific_spec(10)),
            card_text("RADESYS"@, quoted(w.radesys@)),
        ],
        None => Seq::empty(),
    };
    (first + wcs).push("END"@)
}

/// The bytes of header cards.
pub open spec fn cards_bytes(cards: Seq<Seq<char>>) -> Seq<u8>
    decreases cards.len(),
{
    if cards.len() == 0 {
        Seq::empty()
    } else {
        cards_bytes(cards.drop_last()) + card_bytes(cards.last())
    }
}

/// `b` filled up to a multiple of the block size.
pub open spec fn blocked(b: Seq<u8>, fill: u8) -> Seq<u8> {
    b + Seq::new(((2880 - b.len() % 2880) % 2880) as nat, |i: int| fill)
}

/// The four bytes of a pixel, the highest first.
pub open spec fn be32(x: u32) -> Seq<u8> {
    seq![
        (x / 16777216) as u8,
        (x / 65536 % 256) as u8,
        (x / 256 % 256) as u8,
        (x % 256) as u8,
    ]
}

/// The bytes of pixels.
pub open spec fn data_bytes(data: Seq<Single>) -> Seq<u8> {
    Seq::new(4 * data.len(), |i: int| be32(data[i / 4].bits)[i % 4])
}

/// The bytes of a FITS file with one image: the header in blocks, then the pixels in blocks.
pub open spec fn fits_spec(img: FitsImage) -> Seq<u8> {
    blocked(blocked(cards_bytes(header_cards(img)), 0x20) + data_bytes(img.data@), 0)
}

fn put_card(out: &mut Vec<u8>, text: &Vec<char>, Ghost(cards): Ghost<Seq<Seq<char>>>)
    requires
        old(out)@ == cards_bytes(cards),
    ensures
        final(out)@ == cards_bytes(cards.push(text@)),
{
    let ghost before = out@;
    let s = string_of(text);
    let b = s.as_str().as_bytes();
    for i in 0..80usize
        invariant
            b@ == encode_utf8(text@),
            out@ =~= before + card_bytes(text@).take(i as int),
    {
        if i < b.len() {
            out.push(b[i]);
        } else {
            out.push(0x20);
        }
    }
    assert(cards.push(text@).drop_last() =~= cards);
    assert(out@ =~= before + card_bytes(text@));
}

fn put_value(out: &mut Vec<u8>, key: &str, value: &Vec<char>, Ghost(cards): Ghost<Seq<Seq<char>>>)
    requires
        old(out)@ == cards_bytes(cards),
    ensures
        final(out)@ == cards_bytes(cards.push(card_text(key@, value@))),
{
    let mut t: Vec<char> = Vec::new();
    let k = chars_of(key);
    put_left(&mut t, &k, 8);
    put_text(&mut t, "= ");
    put_left(&mut t, value, 70);
    assert(t@ =~= card_text(key@, value@));
    put_card(out, &t, Ghost(cards));
}

fn quote(s: &String) -> (r: Vec<char>)
    ensures
        r@ == quoted(s@),
{
    let mut r: Vec<char> = Vec::new();
    let t = chars_of(s.as_str());
    r.push('\'');
    put_left(&mut r, &t, 8);
    r.push('\'');
    assert(r@ =~= quoted(s@));
    r
}

fn nat_chars(n: usize) -> (r: Vec<char>)
    ensures
        r@ == nat_text(n as nat),
{
    let mut r: Vec<char> = Vec::new();
    put_nat(&mut r, n as u128);
    assert(r@ =~= nat_text(n as nat));
    r
}

fn put_wcs(out: &mut Vec<u8>, w: &Wcs, Ghost(cards): Ghost<Seq<Seq<char>>>)
    requires
        old(out)@ == cards_bytes(cards),
    ensures
        final(out)@ == cards_bytes(
            cards + seq![
                card_text("CTYPE1"@, quoted(w.ctype1@)),
                card_text("CTYPE2"@, quoted(w.ctype2@)),
                card_text("CRPIX1"@, w.crpix1.scientific_spec(10)),
                card_text("CRPIX2"@, w.crpix2.scientific_spec(10)),
                card_text("CRVAL1"@, w.crval1.scientific_spec(10)),
                card_text("CRVAL2"@, w.crval2.scientific_spec(10)),
                card_text("CD1_1"@, w.cd11.scientific_spec(10)),
                card_text("CD1_2"@, w.cd12.scientific_spec(10)),
                card_text("CD2_1"@, w.cd21.scientific_spec(10)),
                card_text("CD2_2"@, w.cd22.scientific_spec(10)),
                card_text("RADESYS"@, quoted(w.radesys@)),
            ],
        ),
{
    let ghost mut c = cards;
    let t = quote(&w.ctype1);
    put_value(out, "CTYPE1", &t, Ghost(c));
    proof {
        c = c.push(card_text("CTYPE1"@, t@));
    }
    let t = quote(&w.ctype2);
    put_value(out, "CTYPE2", &t, Ghost(c));
    proof {
        c = c.push(card_text("CTYPE2"@, t@));
    }
    let t = w.crpix1.scientific(10);
    put_value(out, "CRPIX1", &t, Ghost(c));
    proof {
        c = c.push(card_text("CRPIX1"@, t@));
    }
    let t = w.crpix2.scientific(10);
    put_value(out, "CRPIX2", &t, Ghost(c));
    proof {
        c = c.push(card_text("CRPIX2"@, t@));
    }
    let t = w.crval1.scientific(10);
    put_value(out, "CRVAL1", &t, Ghost(c));
    proof {
        c = c.push(card_text("CRVAL1"@, t@));
    }
    let t = w.crval2.scientific(10);
    put_value(out, "CRVAL2", &t, Ghost(c));
    proof {
        c = c.push(card_text("CRVAL2"@, t@));
    }
    let t = w.cd11.scientific(10);
    put_value(out, "CD1_1", &t, Ghost(c));
    proof {
        c = c.push(card_text("CD1_1"@, t@));
    }
    let t = w.cd12.scientific(10);
    put_value(out, "CD1_2", &t, Ghost(c));
    proof {
        c = c.push(card_text("CD1_2"@, t@));
    }
    let t = w.cd21.scientific(10);
    put_value(out, "CD2_1", &t, Ghost(c));
    proof {
        c = c.push(card_text("CD2_1"@, t@));
    }
    let t = w.cd22.scientific(10);
    put_value(out, "CD2_2", &t, Ghost(c));
    proof {
        c = c.push(card_text("CD2_2"@, t@));
    }
    let t = quote(&w.radesys);
    put_value(out, "RADESYS", &t, Ghost(c));
    proof {
        c = c.push(card_text("RADESYS"@, t@));
        assert(c =~= cards + seq![
            card_text("CTYPE1"@, quoted(w.ctype1@)),
            card_text("CTYPE2"@, quoted(w.ctype2@)),
            card_text("CRPIX1"@, w.crpix1.scientific_spec(10)),
            card_text("CRPIX2"@, w.crpix2.scientific_spec(10)),
            card_text("CRVAL1"@, w.crval1.scientific_spec(10)),
            card_text("CRVAL2"@, w.crval2.scientific_spec(10)),
            card_text("CD1_1"@, w.cd11.scientific_spec(10)),
            card_text("CD1_2"@, w.cd12.scientific_spec(10)),
            card_text("CD2_1"@, w.cd21.scientific_spec(10)),
            card_text("CD2_2"@, w.cd22.scientific_spec(10)),
            card_text("RADESYS"@, quoted(w.radesys@)),
        ]);
    }
}

fn fill_block(out: &mut Vec<u8>, fill: u8)
    ensures
        final(out)@ == blocked(old(out)@, fill),
{
    let ghost before = out@;
    let pad: usize = (2880 - out.len() % 2880) % 2880;
    for i in 0..pad
        invariant
            out@ =~= before + Seq::new(i as nat, |j: int| fill),
    {
        out.push(fill);
    }
    assert(out@ =~= blocked(before, fill));
}

/// The bytes of a FITS file with the image in floating point, with its coordinate system
/// where it has one.
pub fn fits_bytes(img: &FitsImage) -> (r: Vec<u8>)
    ensures
        r@ == fits_spec(*img),
{
    let mut out: Vec<u8> = Vec::new();
    let ghost mut c: Seq<Seq<char>> = Seq::empty();
    assert(out@ =~= cards_bytes(c));
    let t = chars_of("                   T");
    put_value(&mut out, "SIMPLE", &t, Ghost(c));
    proof {
        c = c.push(card_text("SIMPLE"@, t@));
    }
    let t = chars_of("                 -32");
    put_value(&mut out, "BITPIX", &t, Ghost(c));
    proof {
        c = c.push(card_text("BITPIX"@, t@));
    }
    let t = chars_of("                   2");
    put_value(&mut out, "NAXIS", &t, Ghost(c));
    proof {
        c = c.push(card_text("NAXIS"@, t@));
    }
    let t = nat_chars(img.width);
    put_value(&mut out, "NAXIS1", &t, Ghost(c));
    proof {
        c = c.push(card_text("NAXIS1"@, t@));
    }
    let t = nat_chars(img.height);
    put_value(&mut out, "NAXIS2", &t, Ghost(c));
    proof {
        c = c.push(card_text("NAXIS2"@, t@));
    }
    let t = chars_of("1.0");
    put_value(&mut out, "BSCALE", &t, Ghost(c));
    proof {
        c = c.push(card_text("BSCALE"@, t@));
    }
    let t = chars_of("0.0");
    put_value(&mut out, "BZERO", &t, Ghost(c));
    proof {
        c = c.push(card_text("BZERO"@, t@));
    }
    let ghost first = c;
    if let Some(w) = &img.wcs {
        put_wcs(&mut out, w, Ghost(c));
        proof {
            c = header_cards(*img).drop_last();
            assert(c =~= first + seq![
                card_text("CTYPE1"@, quoted(w.ctype1@)),
                card_text("CTYPE2"@, quoted(w.ctype2@)),
                card_text("CRPIX1"@, w.crpix1.scientific_spec(10)),
                card_text("CRPIX2"@, w.crpix2.scientific_spec(10)),
                card_text("CRVAL1"@, w.crval1.scientific_spec(10)),
                card_text("CRVAL2"@, w.crval2.scientific_spec(10)),
                card_text("CD1_1"@, w.cd11.scientific_spec(10)),
                card_text("CD1_2"@, w.cd12.scientific_spec(10)),
                card_text("CD2_1"@, w.cd21.scientific_spec(10)),
                card_text("CD2_2"@, w.cd22.scientific_spec(10)),
                card_text("RADESYS"@, quoted(w.radesys@)),
            ]);
        }
    }
    let t = chars_of("END");
    put_card(&mut out, &t, Ghost(c));
    assert(c.push("END"@) =~= header_cards(*img));
    fill_block(&mut out, 0x20);
    let ghost head = out@;
    for i in 0..img.data.len()
        invariant
            out@ =~= head + data_bytes(img.data@.take(i as int)),
    {
        let x: u32 = img.data[i].bits;
        out.push((x / 16777216) as u8);
        out.push((x / 65536 % 256) as u8);
        out.push((x / 256 % 256) as u8);
        out.push((x % 256) as u8);
        assert(out@ =~= head + data_bytes(img.data@.take(i + 1)));
    }
    assert(img.data@.take(img.data@.len() as int) =~= img.data@);
    fill_block(&mut out, 0);
    out
}

proof fn cards_length(cards: Seq<Seq<char>>)
    ensures
        cards_bytes(cards).len() == 80 * cards.len(),
    decreases cards.len(),
{
    if cards.len() > 0 {
        cards_length(cards.drop_last());
    }
}

/// A FITS file is made of whole blocks: one for the header, and those of the pixels.
pub proof fn fits_is_blocked(img: FitsImage)
    ensures
        fits_spec(img).len() % 2880 == 0,
        fits_spec(img).len() >= 2880 + 4 * img.data@.len(),
        fits_spec(img).subrange(2880, 2880int + 4 * img.data@.len()) == data_bytes(img.data@),
{
    let cards = header_cards(img);
    cards_length(cards);
    let head = blocked(cards_bytes(cards), 0x20);
    assert(8 <= cards.len() <= 19);
    assert(head.len() == 2880);
    let all = head + data_bytes(img.data@);
    assert(fits_spec(img).subrange(2880, 2880int + 4 * img.data@.len()) =~= data_bytes(img.data@));
}

/// The number that four bytes stand for, the greatest part first.
pub open spec fn word_at(bytes: Seq<u8>, at: int) -> int {
    bytes[at] * 0x100_0000 + bytes[at + 1] * 0x1_0000 + bytes[at + 2] * 0x100 + bytes[at + 3]
}

proof fn word_of_bytes(b: Seq<u8>, at: int, x: u32)
    requires
        b[at] == be32(x)[0],
        b[at + 1] == be32(x)[1],
        b[at + 2] == be32(x)[2],
        b[at + 3] == be32(x)[3],
    ensures
        word_at(b, at) == x,
{
}

proof fn pixel_byte(img: FitsImage, i: int, k: int)
    requires
        0 <= i < img.data@.len(),
        0 <= k < 4,
    ensures
        fits_spec(img)[2880 + 4 * i + k] == be32(img.data@[i].bits)[k],
{
    fits_is_blocked(img);
    let d = data_bytes(img.data@);
    let s = fits_spec(img).subrange(2880, 2880int + 4 * img.data@.len());
    assert(s[4 * i + k] == fits_spec(img)[2880 + 4 * i + k]);
    assert((4 * i + k) / 4 == i && (4 * i + k) % 4 == k);
    assert(d[4 * i + k] == be32(img.data@[i].bits)[k]);
}

/// The pixels of a FITS file stand behind its header in their order, each with the bits that the
/// image has.
pub proof fn fits_pixels_are_read_back(img: FitsImage, i: int)
    requires
        0 <= i < img.data@.len(),
    ensures
        word_at(fits_spec(img), 2880 + 4 * i) == img.data@[i].bits,
{
    let b = fits_spec(img);
    let at = 2880 + 4 * i;
    let x = img.data@[i].bits;
    assert(b[at] == be32(x)[0] && b[at + 1] == be32(x)[1] && b[at + 2] == be32(x)[2] && b[at + 3]
        == be32(x)[3]) by {
        pixel_byte(img, i, 0);
        pixel_byte(img, i, 1);
        pixel_byte(img, i, 2);
        pixel_byte(img, i, 3);
    }
    word_of_bytes(b, at, x);
}

// ---------------------------------------------------------------------------
// PNG
// ---------------------------------------------------------------------------

/// What the PNG encoder makes of a picture: the bytes of the file, or the words of its
/// refusal.
pub uninterp spec fn png_of(rgba: Seq<u8>, w: u32, h: u32) -> Result<Seq<u8>, Seq<char>>;

/// Whether as many bytes make a picture of the given size that is not empty.
pub open spec fn is_picture(len: nat, w: u32, h: u32) -> bool {
    0 < w && 0 < h && len == w * h * 4
}

/// The contents of an outcome: bytes, or words.
pub open spec fn outcome(r: Result<Vec<u8>, String>) -> Result<Seq<u8>, Seq<char>> {
    match r {
        Ok(b) => Ok(b@),
        Err(e) => Err(e@),
    }
}

/// `png::Encoder::new`, set to eight bits of red, green, blue and opacity, with
/// `write_header` and `write_image_data`, into memory. The bytes depend on the picture
/// alone. The encoder refuses an empty picture and one whose bytes are not four for each
/// pixel, and no other.
#[verifier::external_body]
fn encode_png(rgba: &Vec<u8>, w: u32, h: u32) -> (r: Result<Vec<u8>, String>)
    requires
        w * h * 4 <= usize::MAX,
    ensures
        outcome(r) == png_of(rgba@, w, h),
        r is Ok == is_picture(rgba@.len(), w, h),
{
    let mut out: Vec<u8> = Vec::new();
    let mut encoder = png::Encoder::new(&mut out, w, h);
    encoder.set_color(png::ColorType::Rgba);
    encoder.set_depth(png::BitDepth::Eight);
    let done = encoder.write_header().and_then(|mut writer| writer.write_image_data(rgba));
    match done {
        Ok(()) => Ok(out),
        Err(e) => Err(e.to_string()),
    }
}

/// The bytes of a PNG file of the picture, or why there is none.
pub fn png_bytes(rgba: &Vec<u8>, w: u32, h: u32) -> (r: Result<Vec<u8>, String>)
    requires
        w * h * 4 <= usize::MAX,
    ensures
        outcome(r) == png_of(rgba@, w, h),
        r is Ok == is_picture(rgba@.len(), w, h),
{
    encode_png(rgba, w, h)
}

} // verus!
