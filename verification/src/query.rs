//! Addresses of files and services, and the tables that services reply with.

use crate::num::Double;
use crate::text::{
    chars_of, ended_lines, find, lines, lines_spec, piece, put_chars, put_text, replace,
    replace_spec, split, split_spec, starts_with, starts_with_spec, string_of, texts, trim,
    trim_front, trim_spec, trim_start, words, words_spec,
};
use vstd::prelude::*;
use vstd::utf8::*;

verus! {

// ---------------------------------------------------------------------------
// Addresses
// ---------------------------------------------------------------------------

/// The bytes that stand in an address as they are.
pub open spec fn is_unreserved(b: u8) -> bool {
    ||| 0x41 <= b <= 0x5a
    ||| 0x61 <= b <= 0x7a
    ||| 0x30 <= b <= 0x39
    ||| b == 0x2d
    ||| b == 0x2e
    ||| b == 0x5f
    ||| b == 0x7e
}

/// The bytes that stand in the address of a file as they are.
pub open spec fn is_path_byte(b: u8) -> bool {
    is_unreserved(b) || b == 0x2f || b == 0x3a
}

/// The upper-case hexadecimal digit of a number below sixteen.
pub open spec fn hex_digit(n: int) -> char {
    if n < 10 {
        ((0x30 + n) as u8) as char
    } else {
        ((0x41 + n - 10) as u8) as char
    }
}

/// A byte in an address: as it is, or a percent sign and two hexadecimal digits.
pub open spec fn encoded_byte(b: u8, path: bool) -> Seq<char> {
    if is_unreserved(b) || (path && is_path_byte(b)) {
        seq![b as char]
    } else {
        seq!['%', hex_digit(b as int / 16), hex_digit(b as int % 16)]
    }
}

/// Bytes in an address.
pub open spec fn encoded(b: Seq<u8>, path: bool) -> Seq<char>
    decreases b.len(),
{
    if b.len() == 0 {
        Seq::empty()
    } else {
        encoded(b.drop_last(), path) + encoded_byte(b.last(), path)
    }
}

fn hex_digit_of(n: u8) -> (r: char)
    requires
        n < 16,
    ensures
        r == hex_digit(n as int),
{
    if n < 10 {
        (0x30 + n) as char
    } else {
        (0x41 + (n - 10)) as char
    }
}

fn put_encoded(out: &mut Vec<char>, s: &str, path: bool)
    ensures
        final(out)@ == old(out)@ + encoded(encode_utf8(s@), path),
{
    let ghost before = out@;
    let b = s.as_bytes();
    assert(b@.take(0) =~= Seq::empty());
    assert(out@ =~= before + encoded(b@.take(0), path));
    for i in 0..b.len()
        invariant
            out@ == before + encoded(b@.take(i as int), path),
    {
        assert(b@.take(i + 1).drop_last() =~= b@.take(i as int));
        let x: u8 = b[i];
        let ghost was = out@;
        let plain: bool = (0x41 <= x && x <= 0x5a) || (0x61 <= x && x <= 0x7a) || (0x30 <= x && x
            <= 0x39) || x == 0x2d || x == 0x2e || x == 0x5f || x == 0x7e;
        if plain || (path && (x == 0x2f || x == 0x3a)) {
            out.push(x as char);
        } else {
            out.push('%');
            out.push(hex_digit_of(x / 16));
            out.push(hex_digit_of(x % 16));
        }
        assert(out@ =~= was + encoded_byte(x, path));
        assert(out@ =~= before + encoded(b@.take(i + 1), path));
    }
    assert(b@.take(b@.len() as int) =~= b@);
}

/// A text as a value in an address.
pub fn urlencode(s: &str) -> (r: String)
    ensures
        r@ == encoded(encode_utf8(s@), false),
{
    let mut out: Vec<char> = Vec::new();
    put_encoded(&mut out, s, false);
    assert(out@ =~= encoded(encode_utf8(s@), false));
    string_of(&out)
}

/// An encoded text holds letters, digits and a few signs only.
pub proof fn encoded_is_plain(b: Seq<u8>)
    ensures
        forall|i: int|
            0 <= i < encoded(b, false).len() ==> ({
                let c = #[trigger] encoded(b, false)[i];
                c == '%' || ((c as u32) < 128 && is_unreserved(c as u8))
            }),
    decreases b.len(),
{
    if b.len() > 0 {
        encoded_is_plain(b.drop_last());
        let (x, y) = (encoded(b.drop_last(), false), encoded_byte(b.last(), false));
        assert forall|i: int| 0 <= i < encoded(b, false).len() implies ({
            let c = #[trigger] encoded(b, false)[i];
            c == '%' || ((c as u32) < 128 && is_unreserved(c as u8))
        }) by {
            if i < x.len() {
                assert(encoded(b, false)[i] == x[i]);
            } else {
                assert(encoded(b, false)[i] == y[i - x.len()]);
            }
        }
    }
}

/// The address of the file with the given absolute path.
pub open spec fn file_url_spec(path: Seq<char>) -> Seq<char> {
    "file://"@ + encoded(encode_utf8(replace_spec(path, "\\"@, "/"@)), true)
}

/// The address of the file with the given absolute path.
pub fn path_to_file_url(path: &str) -> (r: String)
    ensures
        r@ == file_url_spec(path@),
{
    let v = chars_of(path);
    let p = replace(&v, "\\", "/");
    let s = string_of(&p);
    let mut out: Vec<char> = Vec::new();
    put_text(&mut out, "file://");
    put_encoded(&mut out, s.as_str(), true);
    assert(out@ =~= file_url_spec(path@));
    string_of(&out)
}

// ---------------------------------------------------------------------------
// Name resolver
// ---------------------------------------------------------------------------

/// The address that resolves a name.
pub open spec fn sesame_url_spec(name: Seq<char>) -> Seq<char> {
    "https://cds.unistra.fr/cgi-bin/nph-sesame/-oI/A?"@ + encoded(encode_utf8(name), false)
}

/// The address that resolves a name.
pub fn sesame_url(name: &str) -> (r: String)
    ensures
        r@ == sesame_url_spec(name@),
{
    let mut out: Vec<char> = Vec::new();
    put_text(&mut out, "https://cds.unistra.fr/cgi-bin/nph-sesame/-oI/A?");
    put_encoded(&mut out, name, false);
    assert(out@ =~= sesame_url_spec(name@));
    string_of(&out)
}

/// The outcome of a resolver's reply.
pub enum Resolved {
    /// The right ascension and declination in degrees.
    Found(Double, Double),
    /// The position line has no right ascension.
    NoRa,
    /// The position line has no declination.
    NoDec,
    /// There is no position line.
    Nothing,
}

/// The number that the word `i` is, if there is one.
pub open spec fn word_number(ws: Seq<Seq<char>>, i: int) -> Option<Double> {
    if 0 <= i < ws.len() {
        Double::parse_spec(ws[i])
    } else {
        None
    }
}

/// What a position line says, from behind its `%J`.
pub open spec fn position_spec(rest: Seq<char>) -> Resolved {
    let ws = words_spec(rest);
    match word_number(ws, 0) {
        Some(ra) => match word_number(ws, 1) {
            Some(dec) => Resolved::Found(ra, dec),
            None => Resolved::NoDec,
        },
        None => Resolved::NoRa,
    }
}

/// What the reply says: the first line that starts with `%J` holds the position.
pub open spec fn resolved_spec(lines: Seq<Seq<char>>) -> Resolved
    decreases lines.len(),
{
    if lines.len() == 0 {
        Resolved::Nothing
    } else {
        let t = trim_spec(lines[0]);
        if starts_with_spec(t, "%J"@) {
            position_spec(t.skip(2))
        } else {
            resolved_spec(lines.drop_first())
        }
    }
}

fn word_number_of(ws: &Vec<Vec<char>>, i: usize) -> (r: Option<Double>)
    ensures
        r == word_number(texts(ws@), i as int),
{
    if i < ws.len() {
        assert(texts(ws@)[i as int] == ws@[i as int]@);
        Double::parse(&ws[i])
    } else {
        None
    }
}

fn resolved(all: &Vec<Vec<char>>) -> (r: Resolved)
    ensures
        r == resolved_spec(texts(all@)),
{
    let n: usize = all.len();
    assert(texts(all@).skip(0) =~= texts(all@));
    for i in 0..n
        invariant
            n == all@.len(),
            resolved_spec(texts(all@)) == resolved_spec(texts(all@).skip(i as int)),
    {
        let ghost rest = texts(all@).skip(i as int);
        assert(rest[0] == all@[i as int]@);
        assert(rest.drop_first() =~= texts(all@).skip(i + 1));
        let t = trim(&all[i]);
        if starts_with(&t, "%J") {
            proof {
                reveal_strlit("%J");
            }
            let tail = piece(&t, 2, t.len());
            assert(tail@ =~= t@.skip(2));
            let ws = words(&tail);
            return match word_number_of(&ws, 0) {
                Some(ra) => match word_number_of(&ws, 1) {
                    Some(dec) => Resolved::Found(ra, dec),
                    None => Resolved::NoDec,
                },
                None => Resolved::NoRa,
            };
        }
    }
    Resolved::Nothing
}

/// The position that a resolver's reply gives for a name, or why there is none.
pub fn sesame_resolve(name: &str, body: &str) -> (r: Result<(Double, Double), String>)
    ensures
        match resolved_spec(lines_spec(body@)) {
            Resolved::Found(ra, dec) => r matches Ok(p) && p == (ra, dec),
            Resolved::NoRa => r matches Err(e) && e@ == "sesame: malformed %J (RA)"@,
            Resolved::NoDec => r matches Err(e) && e@ == "sesame: malformed %J (Dec)"@,
            Resolved::Nothing => r matches Err(e) && e@
                == "sesame: no %J line in response (name '"@ + name@ + "' unresolved)"@,
        },
{
    let v = chars_of(body);
    let all = lines(&v);
    let mut e: Vec<char> = Vec::new();
    match resolved(&all) {
        Resolved::Found(ra, dec) => {
            return Ok((ra, dec));
        },
        Resolved::NoRa => {
            put_text(&mut e, "sesame: malformed %J (RA)");
            assert(e@ =~= "sesame: malformed %J (RA)"@);
        },
        Resolved::NoDec => {
            put_text(&mut e, "sesame: malformed %J (Dec)");
            assert(e@ =~= "sesame: malformed %J (Dec)"@);
        },
        Resolved::Nothing => {
            put_text(&mut e, "sesame: no %J line in response (name '");
            put_text(&mut e, name);
            put_text(&mut e, "' unresolved)");
            assert(e@ =~= "sesame: no %J line in response (name '"@ + name@ + "' unresolved)"@);
        },
    }
    Err(string_of(&e))
}

// ---------------------------------------------------------------------------
// Cone searches
// ---------------------------------------------------------------------------

/// The address of a cone search of a catalog.
pub open spec fn vizier_url_spec(ra: Double, dec: Double, radius: Double, src: Seq<char>) -> Seq<char> {
    "https://vizier.cds.unistra.fr/viz-bin/votable?-source="@ + encoded(encode_utf8(src), false)
        + "&-c="@ + ra.shortest_spec() + "+"@ + dec.signed_spec(6) + "&-c.rd="@
        + radius.shortest_spec() + "&-out.max=500"@
}

/// The address of a cone search of a catalog, all angles in degrees.
pub fn vizier_url(ra: Double, dec: Double, radius: Double, src: &str) -> (r: String)
    ensures
        r@ == vizier_url_spec(ra, dec, radius, src@),
{
    let mut out: Vec<char> = Vec::new();
    put_text(&mut out, "https://vizier.cds.unistra.fr/viz-bin/votable?-source=");
    put_encoded(&mut out, src, false);
    put_text(&mut out, "&-c=");
    let t = ra.shortest();
    put_chars(&mut out, &t);
    put_text(&mut out, "+");
    let t = dec.signed(6);
    put_chars(&mut out, &t);
    put_text(&mut out, "&-c.rd=");
    let t = radius.shortest();
    put_chars(&mut out, &t);
    put_text(&mut out, "&-out.max=500");
    assert(out@ =~= vizier_url_spec(ra, dec, radius, src@));
    string_of(&out)
}

/// The address of a cone search of NED, whose radius is in minutes of arc.
pub open spec fn ned_url_spec(ra: Double, dec: Double, radius: Double) -> Seq<char> {
    "https://ned.ipac.caltech.edu/cgi-bin/objsearch?search_type=Near+Position+Search&"@
        + "in_csys=Equatorial&in_equinox=J2000.0&lon="@ + ra.fixed_spec(6) + "d&lat="@
        + dec.signed_spec(6) + "d&radius="@ + radius.times(Double { bits: 0x404e_0000_0000_0000 }).fixed_spec(4)
        + "&of=ascii_bar&list_limit=500"@
}

/// The address of a cone search of NED, all angles in degrees.
pub fn ned_url(ra: Double, dec: Double, radius: Double) -> (r: String)
    ensures
        r@ == ned_url_spec(ra, dec, radius),
{
    let mut out: Vec<char> = Vec::new();
    put_text(
        &mut out,
        "https://ned.ipac.caltech.edu/cgi-bin/objsearch?search_type=Near+Position+Search&",
    );
    put_text(&mut out, "in_csys=Equatorial&in_equinox=J2000.0&lon=");
    let t = ra.fixed(6);
    put_chars(&mut out, &t);
    put_text(&mut out, "d&lat=");
    let t = dec.signed(6);
    put_chars(&mut out, &t);
    put_text(&mut out, "d&radius=");
    let t = radius.times(Double { bits: 0x404e_0000_0000_0000 }).fixed(4);
    put_chars(&mut out, &t);
    put_text(&mut out, "&of=ascii_bar&list_limit=500");
    assert(out@ =~= ned_url_spec(ra, dec, radius));
    string_of(&out)
}

/// Trimmed cells with tabs between them.
pub open spec fn tabbed(cells: Seq<Seq<char>>) -> Seq<char>
    decreases cells.len(),
{
    if cells.len() == 0 {
        Seq::empty()
    } else if cells.len() == 1 {
        trim_spec(cells[0])
    } else {
        tabbed(cells.drop_last()).push('\t') + trim_spec(cells.last())
    }
}

/// Whether a line is the header of a bar-separated table.
pub open spec fn is_bar_header(t: Seq<char>) -> bool {
    starts_with_spec(t, "No.|"@) || starts_with_spec(t, "No|"@)
}

/// The rows of the bar-separated table in the lines: the header, and the lines with bars
/// behind it.
pub open spec fn bar_rows(lines: Seq<Seq<char>>) -> Seq<Seq<char>>
    decreases lines.len(),
{
    if lines.len() == 0 {
        Seq::empty()
    } else {
        let rows = bar_rows(lines.drop_last());
        let t = trim_front(lines.last());
        if if rows.len() == 0 {
            is_bar_header(t)
        } else {
            t.contains('|')
        } {
            rows.push(tabbed(split_spec(t, '|')))
        } else {
            rows
        }
    }
}

fn put_tabbed(out: &mut Vec<char>, cells: &Vec<Vec<char>>)
    ensures
        final(out)@ == old(out)@ + tabbed(texts(cells@)),
{
    let ghost before = out@;
    let ghost all = texts(cells@);
    assert(all.take(0) =~= Seq::empty());
    assert(out@ =~= before + tabbed(all.take(0)));
    for i in 0..cells.len()
        invariant
            all == texts(cells@),
            out@ == before + tabbed(all.take(i as int)),
    {
        let ghost w = all.take(i + 1);
        assert(w.drop_last() =~= all.take(i as int));
        if i > 0 {
            out.push('\t');
        }
        let t = trim(&cells[i]);
        put_chars(out, &t);
        assert(w.last() == cells@[i as int]@);
        assert(out@ =~= before + tabbed(w));
    }
    assert(all.take(all.len() as int) =~= all);
}

/// The table of NED's reply as tab-separated values, or that there is none.
pub fn ned_table(body: &str) -> (r: Result<String, String>)
    ensures
        ({
            let rows = bar_rows(lines_spec(body@));
            match r {
                Ok(t) => rows.len() > 0 && t@ == ended_lines(rows),
                Err(e) => rows.len() == 0 && e@ == "ned: no tabular results in response"@,
            }
        }),
{
    let v = chars_of(body);
    let all = lines(&v);
    let n: usize = all.len();
    let mut out: Vec<char> = Vec::new();
    let mut seen: bool = false;
    let ghost mut rows: Seq<Seq<char>> = Seq::empty();
    assert(texts(all@).take(0) =~= Seq::empty());
    for i in 0..n
        invariant
            n == all@.len(),
            rows == bar_rows(texts(all@).take(i as int)),
            out@ == ended_lines(rows),
            seen == (rows.len() > 0),
    {
        let ghost w = texts(all@).take(i + 1);
        assert(w.drop_last() =~= texts(all@).take(i as int));
        assert(w.last() == all@[i as int]@);
        let t = trim_start(&all[i]);
        let take: bool = if seen {
            find(&t, '|', '|') < t.len()
        } else {
            starts_with(&t, "No.|") || starts_with(&t, "No|")
        };
        if take {
            let cells = split(&t, '|');
            let ghost was = out@;
            put_tabbed(&mut out, &cells);
            out.push('\n');
            proof {
                let row = tabbed(split_spec(t@, '|'));
                assert(rows.push(row).drop_last() =~= rows);
                rows = rows.push(row);
                assert(out@ =~= ended_lines(rows));
            }
            seen = true;
        }
    }
    assert(texts(all@).take(n as int) =~= texts(all@));
    if seen {
        Ok(string_of(&out))
    } else {
        let e = chars_of("ned: no tabular results in response");
        Err(string_of(&e))
    }
}

/// The radius that a text spells, if it is one to search with: between zero and thirty
/// degrees.
pub open spec fn radius_spec(s: Seq<char>) -> Option<Double> {
    match Double::parse_spec(trim_spec(s)) {
        Some(r) if (Double { bits: 0 }).lt(r) && r.lt(Double { bits: 0x403e_0000_0000_0000 }) => Some(r),
        _ => None,
    }
}

/// The radius that a text spells, in degrees, or why it is none.
pub fn parse_radius(s: &str) -> (r: Result<Double, String>)
    ensures
        match radius_spec(s@) {
            Some(x) => r matches Ok(y) && y == x,
            None => r matches Err(e) && e@ == "invalid radius '"@ + trim_spec(s@)
                + "' (deg, 0 < r < 30)"@,
        },
{
    let v = chars_of(s);
    let t = trim(&v);
    if let Some(x) = Double::parse(&t) {
        if (Double { bits: 0 }).lt(x) && x.lt(Double { bits: 0x403e_0000_0000_0000 }) {
            return Ok(x);
        }
    }
    let mut e: Vec<char> = Vec::new();
    put_text(&mut e, "invalid radius '");
    put_chars(&mut e, &t);
    put_text(&mut e, "' (deg, 0 < r < 30)");
    assert(e@ =~= "invalid radius '"@ + trim_spec(s@) + "' (deg, 0 < r < 30)"@);
    Err(string_of(&e))
}

// ---------------------------------------------------------------------------
// SExtractor
// ---------------------------------------------------------------------------

/// The settings that SExtractor is run with.
pub open spec fn sextractor_config_spec() -> Seq<Seq<char>> {
    seq![
        "# ds9-rust default SExtractor config"@,
        "DETECT_TYPE      CCD"@,
        "DETECT_MINAREA   5"@,
        "DETECT_THRESH    1.5"@,
        "ANALYSIS_THRESH  1.5"@,
        "FILTER           N"@,
        "DEBLEND_NTHRESH  32"@,
        "DEBLEND_MINCONT  0.005"@,
        "CLEAN            Y"@,
        "CLEAN_PARAM      1.0"@,
        "PHOT_APERTURES   5"@,
        "SATUR_LEVEL      50000.0"@,
        "MAG_ZEROPOINT    0.0"@,
        "GAIN             0.0"@,
        "PIXEL_SCALE      0.0"@,
        "SEEING_FWHM      1.2"@,
        "BACK_SIZE        64"@,
        "BACK_FILTERSIZE  3"@,
        "BACKPHOTO_TYPE   GLOBAL"@,
    ]
}

/// The columns that SExtractor is asked for.
pub open spec fn sextractor_columns_spec() -> Seq<Seq<char>> {
    seq![
        "NUMBER"@,
        "X_IMAGE"@,
        "Y_IMAGE"@,
        "MAG_AUTO"@,
        "FLUX_AUTO"@,
        "A_IMAGE"@,
        "B_IMAGE"@,
        "THETA_IMAGE"@,
        "FLAGS"@,
    ]
}

fn put_line(out: &mut Vec<char>, line: &str, Ghost(before): Ghost<Seq<Seq<char>>>)
    requires
        old(out)@ == ended_lines(before),
    ensures
        final(out)@ == ended_lines(before.push(line@)),
{
    let ghost was = out@;
    put_text(out, line);
    out.push('\n');
    assert(before.push(line@).drop_last() =~= before);
    assert(out@ =~= (was + line@).push('\n'));
}

/// The text of the settings that SExtractor is run with.
pub fn sextractor_config() -> (r: String)
    ensures
        r@ == ended_lines(sextractor_config_spec()),
{
    let mut out: Vec<char> = Vec::new();
    let ghost c = sextractor_config_spec();
    assert(out@ =~= ended_lines(c.take(0)));
    put_line(&mut out, "# ds9-rust default SExtractor config", Ghost(c.take(0)));
    assert(c.take(0).push("# ds9-rust default SExtractor config"@) =~= c.take(1));
    put_line(&mut out, "DETECT_TYPE      CCD", Ghost(c.take(1)));
    assert(c.take(1).push("DETECT_TYPE      CCD"@) =~= c.take(2));
    put_line(&mut out, "DETECT_MINAREA   5", Ghost(c.take(2)));
    assert(c.take(2).push("DETECT_MINAREA   5"@) =~= c.take(3));
    put_line(&mut out, "DETECT_THRESH    1.5", Ghost(c.take(3)));
    assert(c.take(3).push("DETECT_THRESH    1.5"@) =~= c.take(4));
    put_line(&mut out, "ANALYSIS_THRESH  1.5", Ghost(c.take(4)));
    assert(c.take(4).push("ANALYSIS_THRESH  1.5"@) =~= c.take(5));
    put_line(&mut out, "FILTER           N", Ghost(c.take(5)));
    assert(c.take(5).push("FILTER           N"@) =~= c.take(6));
    put_line(&mut out, "DEBLEND_NTHRESH  32", Ghost(c.take(6)));
    assert(c.take(6).push("DEBLEND_NTHRESH  32"@) =~= c.take(7));
    put_line(&mut out, "DEBLEND_MINCONT  0.005", Ghost(c.take(7)));
    assert(c.take(7).push("DEBLEND_MINCONT  0.005"@) =~= c.take(8));
    put_line(&mut out, "CLEAN            Y", Ghost(c.take(8)));
    assert(c.take(8).push("CLEAN            Y"@) =~= c.take(9));
    put_line(&mut out, "CLEAN_PARAM      1.0", Ghost(c.take(9)));
    assert(c.take(9).push("CLEAN_PARAM      1.0"@) =~= c.take(10));
    put_line(&mut out, "PHOT_APERTURES   5", Ghost(c.take(10)));
    assert(c.take(10).push("PHOT_APERTURES   5"@) =~= c.take(11));
    put_line(&mut out, "SATUR_LEVEL      50000.0", Ghost(c.take(11)));
    assert(c.take(11).push("SATUR_LEVEL      50000.0"@) =~= c.take(12));
    put_line(&mut out, "MAG_ZEROPOINT    0.0", Ghost(c.take(12)));
    assert(c.take(12).push("MAG_ZEROPOINT    0.0"@) =~= c.take(13));
    put_line(&mut out, "GAIN             0.0", Ghost(c.take(13)));
    assert(c.take(13).push("GAIN             0.0"@) =~= c.take(14));
    put_line(&mut out, "PIXEL_SCALE      0.0", Ghost(c.take(14)));
    assert(c.take(14).push("PIXEL_SCALE      0.0"@) =~= c.take(15));
    put_line(&mut out, "SEEING_FWHM      1.2", Ghost(c.take(15)));
    assert(c.take(15).push("SEEING_FWHM      1.2"@) =~= c.take(16));
    put_line(&mut out, "BACK_SIZE        64", Ghost(c.take(16)));
    assert(c.take(16).push("BACK_SIZE        64"@) =~= c.take(17));
    put_line(&mut out, "BACK_FILTERSIZE  3", Ghost(c.take(17)));
    assert(c.take(17).push("BACK_FILTERSIZE  3"@) =~= c.take(18));
    put_line(&mut out, "BACKPHOTO_TYPE   GLOBAL", Ghost(c.take(18)));
    assert(c.take(18).push("BACKPHOTO_TYPE   GLOBAL"@) =~= c.take(19));
    assert(c.take(19) =~= c);
    string_of(&out)
}

/// The text of the list of columns that SExtractor is asked for.
pub fn sextractor_columns() -> (r: String)
    ensures
        r@ == ended_lines(sextractor_columns_spec()),
{
    let mut out: Vec<char> = Vec::new();
    let ghost c = sextractor_columns_spec();
    assert(out@ =~= ended_lines(c.take(0)));
    put_line(&mut out, "NUMBER", Ghost(c.take(0)));
    assert(c.take(0).push("NUMBER"@) =~= c.take(1));
    put_line(&mut out, "X_IMAGE", Ghost(c.take(1)));
    assert(c.take(1).push("X_IMAGE"@) =~= c.take(2));
    put_line(&mut out, "Y_IMAGE", Ghost(c.take(2)));
    assert(c.take(2).push("Y_IMAGE"@) =~= c.take(3));
    put_line(&mut out, "MAG_AUTO", Ghost(c.take(3)));
    assert(c.take(3).push("MAG_AUTO"@) =~= c.take(4));
    put_line(&mut out, "FLUX_AUTO", Ghost(c.take(4)));
    assert(c.take(4).push("FLUX_AUTO"@) =~= c.take(5));
    put_line(&mut out, "A_IMAGE", Ghost(c.take(5)));
    assert(c.take(5).push("A_IMAGE"@) =~= c.take(6));
    put_line(&mut out, "B_IMAGE", Ghost(c.take(6)));
    assert(c.take(6).push("B_IMAGE"@) =~= c.take(7));
    put_line(&mut out, "THETA_IMAGE", Ghost(c.take(7)));
    assert(c.take(7).push("THETA_IMAGE"@) =~= c.take(8));
    put_line(&mut out, "FLAGS", Ghost(c.take(8)));
    assert(c.take(8).push("FLAGS"@) =~= c.take(9));
    assert(c.take(9) =~= c);
    string_of(&out)
}

/// The arguments of a run of SExtractor: the image, the names of its files, and the options
/// of the environment behind them.
pub open spec fn sextractor_args_spec(
    image: Seq<char>,
    config: Seq<char>,
    catalog: Seq<char>,
    columns: Seq<char>,
    options: Seq<char>,
) -> Seq<Seq<char>> {
    seq![
        image,
        "-c"@,
        config,
        "-CATALOG_NAME"@,
        catalog,
        "-CATALOG_TYPE"@,
        "ASCII_HEAD"@,
        "-PARAMETERS_NAME"@,
        columns,
    ] + words_spec(options)
}

/// The arguments of a run of SExtractor.
pub fn sextractor_args(
    image: &str,
    config: &str,
    catalog: &str,
    columns: &str,
    options: &str,
) -> (r: Vec<String>)
    ensures
        crate::catalog::names(r@) == sextractor_args_spec(
            image@,
            config@,
            catalog@,
            columns@,
            options@,
        ),
{
    let mut v: Vec<Vec<char>> = Vec::new();
    v.push(chars_of(image));
    v.push(chars_of("-c"));
    v.push(chars_of(config));
    v.push(chars_of("-CATALOG_NAME"));
    v.push(chars_of(catalog));
    v.push(chars_of("-CATALOG_TYPE"));
    v.push(chars_of("ASCII_HEAD"));
    v.push(chars_of("-PARAMETERS_NAME"));
    v.push(chars_of(columns));
    let ghost first = texts(v@);
    let o = chars_of(options);
    let ws = words(&o);
    for i in 0..ws.len()
        invariant
            texts(v@) =~= first + texts(ws@).take(i as int),
    {
        let w = piece(&ws[i], 0, ws[i].len());
        assert(w@ =~= ws@[i as int]@);
        let ghost b = texts(v@);
        v.push(w);
        assert(texts(v@) =~= b.push(texts(ws@)[i as int]));
    }
    assert(texts(v@) =~= sextractor_args_spec(image@, config@, catalog@, columns@, options@));
    crate::catalog::strings_of(&v)
}

/// The last line that is not blank.
pub open spec fn last_inked(lines: Seq<Seq<char>>) -> Seq<char>
    decreases lines.len(),
{
    if lines.len() == 0 {
        Seq::empty()
    } else if trim_spec(lines.last()).len() > 0 {
        lines.last()
    } else {
        last_inked(lines.drop_last())
    }
}

/// What a failed run of SExtractor is reported with: the last line it wrote that is not
/// blank.
pub fn sextractor_failure(stderr: &str) -> (r: String)
    ensures
        r@ == "sextractor failed: "@ + last_inked(lines_spec(stderr@)),
{
    let v = chars_of(stderr);
    let all = lines(&v);
    let mut out: Vec<char> = Vec::new();
    put_text(&mut out, "sextractor failed: ");
    let mut i: usize = all.len();
    assert(texts(all@).take(i as int) =~= texts(all@));
    assert(out@ =~= "sextractor failed: "@);
    while i > 0
        invariant
            i <= all@.len(),
            out@ == "sextractor failed: "@,
            texts(all@) == lines_spec(stderr@),
            last_inked(texts(all@)) == last_inked(texts(all@).take(i as int)),
        decreases i,
    {
        i = i - 1;
        let ghost t = texts(all@).take(i + 1);
        assert(t.drop_last() =~= texts(all@).take(i as int));
        assert(t.last() == all@[i as int]@);
        let w = trim(&all[i]);
        if w.len() > 0 {
            put_chars(&mut out, &all[i]);
            return string_of(&out);
        }
    }
    assert(out@ =~= "sextractor failed: "@ + Seq::<char>::empty());
    string_of(&out)
}

} // verus!
