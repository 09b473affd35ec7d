//! What reading a region file gives back of what was written.

use crate::digit_laws::{is_numeral_char, shortest_text_is_read_back};
use crate::marker::{
    args_spec, args_text, body_spec, comment_spec, coord_spec, coords_spec, corners_spec, escaped,
    escaped_char, flat_spec, global_line, is_system, kind_spec, line_spec, new_marker, noted_args,
    noted_shape, noted_text, reg_lines, regions_spec, segment_spec, shape_line_spec,
    shape_spec, shape_text, tail_spec, title_line, unescaped, without_systems, without_units, MarkerView, PixelPos,
    ShapeView,
};
use crate::num::Double;
use crate::sky::{
    after_lines, behind_systems, is_plain, plain_files_are_read_the_same, system_spec, ParsedView,
    System,
};
use crate::text::{
    drop_return, ended_lines, find_behind, is_ascii_text, is_digit, is_line, is_white,
    lines_are_read_back, lines_spec, lower_spec, lowercase_spec, split_joined, split_spec,
    split_whole, starts_with_spec, trim_back, trim_back_char, trim_front_char, trim_keeps,
    trim_spec,
};
use vstd::prelude::*;

verus! {

/// What holds of the numeral of a finite number.
proof fn numeral_facts(x: Double)
    requires
        x.is_finite(),
    ensures
        ({
            let t = x.shortest_spec();
            &&& t.len() >= 1
            &&& forall|i: int| 0 <= i < t.len() ==> is_numeral_char(#[trigger] t[i])
            &&& is_digit(t.last())
            &&& coord_spec(t) == Some(x)
        }),
{
    shortest_text_is_read_back(x);
    let t = x.shortest_spec();
    assert(without_units(t) == t);
}

/// Whether all numbers are finite.
pub open spec fn all_finite(v: Seq<Double>) -> bool {
    forall|i: int| 0 <= i < v.len() ==> (#[trigger] v[i]).is_finite()
}

/// The numerals of numbers.
spec fn numerals(v: Seq<Double>) -> Seq<Seq<char>> {
    Seq::new(v.len(), |i: int| v[i].shortest_spec())
}

/// The arguments of a shape split into its numerals, and hold nothing else.
proof fn args_split(v: Seq<Double>)
    requires
        all_finite(v),
        v.len() > 0,
    ensures
        split_spec(args_text(v), ',') == numerals(v),
        args_text(v).len() > 0,
        is_digit(args_text(v).last()),
        forall|i: int|
            0 <= i < args_text(v).len() ==> is_numeral_char(#[trigger] args_text(v)[i])
                || args_text(v)[i] == ',',
    decreases v.len(),
{
    let x = v.last();
    assert(v[v.len() - 1].is_finite());
    numeral_facts(x);
    let t = x.shortest_spec();
    assert(!t.contains(',')) by {
        assert forall|i: int| 0 <= i < t.len() implies t[i] != ',' by {
            assert(is_numeral_char(t[i]));
        }
    }
    split_whole(t, ',');
    if v.len() == 1 {
        assert(numerals(v) =~= seq![t]);
    } else {
        let w = v.drop_last();
        assert forall|i: int| 0 <= i < w.len() implies (#[trigger] w[i]).is_finite() by {
            assert(v[i].is_finite());
        }
        args_split(w);
        let a = args_text(w);
        split_joined(a, t, ',');
        assert(numerals(w) + seq![t] =~= numerals(v));
        let all = args_text(v);
        assert(all =~= a.push(',') + t);
        assert forall|i: int| 0 <= i < all.len() implies is_numeral_char(#[trigger] all[i]) || all[i]
            == ',' by {
            if i < a.len() {
                assert(all[i] == a[i]);
            } else if i > a.len() {
                assert(all[i] == t[i - a.len() - 1]);
            }
        }
        assert(all.last() == t.last());
    }
}

/// The numerals of numbers are read as the numbers.
proof fn coords_read(v: Seq<Double>)
    requires
        all_finite(v),
    ensures
        coords_spec(numerals(v)) == Some(v),
    decreases v.len(),
{
    if v.len() == 0 {
        assert(v =~= Seq::empty());
        assert(numerals(v) =~= Seq::empty());
    } else {
        let w = v.drop_last();
        assert forall|i: int| 0 <= i < w.len() implies (#[trigger] w[i]).is_finite() by {
            assert(v[i].is_finite());
        }
        coords_read(w);
        assert(numerals(v).drop_last() =~= numerals(w));
        let x = v.last();
        assert(v[v.len() - 1].is_finite());
        numeral_facts(x);
        let t = x.shortest_spec();
        assert(is_numeral_char(t[0]));
        trim_keeps(t);
        assert(numerals(v).last() == t);
        assert(w.push(x) =~= v);
    }
}

/// Whether a shape stands on a line of its own in a region file, and not in a comment.
pub open spec fn is_readable(s: ShapeView) -> bool {
    match s {
        ShapeView::Compass { .. } => false,
        ShapeView::Text { .. } => false,
        ShapeView::Polygon { points } => points.len() >= 3,
        _ => true,
    }
}

/// What holds of the name of a kind: lower-case letters, and not those of a coordinate
/// system or of the global properties.
spec fn is_kind(k: Seq<char>) -> bool {
    &&& k.len() >= 2
    &&& forall|i: int| 0 <= i < k.len() ==> 'a' <= #[trigger] k[i] <= 'z'
    &&& ({
        ||| k[0] == 'c' && k[1] == 'i'
        ||| k[0] == 'e' && k[1] == 'l'
        ||| k[0] == 'b' && k[1] == 'o'
        ||| k[0] == 'a' && k[1] == 'n'
        ||| k[0] == 'p' && k[1] == 'o'
        ||| k[0] == 'l' && k[1] == 'i'
    })
}

proof fn kinds(s: ShapeView)
    requires
        is_readable(s),
    ensures
        is_kind(kind_spec(s)),
{
    reveal_strlit("circle");
    reveal_strlit("ellipse");
    reveal_strlit("box");
    reveal_strlit("annulus");
    reveal_strlit("polygon");
    reveal_strlit("point");
    reveal_strlit("line");
    let k = kind_spec(s);
    assert(k[0] == k[0] && k[1] == k[1]);
}

proof fn not_a_system(w: Seq<char>, k: Seq<char>)
    requires
        is_kind(k),
        w.len() >= 2,
        w[0] == k[0],
        w[1] == k[1],
    ensures
        !is_system(w),
        !starts_with_spec(w, "global"@),
        system_spec(w) is None,
{
    reveal_strlit("j2000");
    reveal_strlit("b1950");
    assert("j2000"@[0] == 'j' && "b1950"@[0] == 'b' && "b1950"@[1] == '1');
    reveal_strlit("image");
    reveal_strlit("fk5");
    reveal_strlit("fk4");
    reveal_strlit("icrs");
    reveal_strlit("galactic");
    reveal_strlit("ecliptic");
    reveal_strlit("physical");
    reveal_strlit("amplifier");
    reveal_strlit("detector");
    reveal_strlit("global");
    assert("image"@[0] == 'i' && "icrs"@[0] == 'i' && "fk5"@[0] == 'f' && "fk4"@[0] == 'f');
    assert("galactic"@[0] == 'g' && "detector"@[0] == 'd' && "global"@[0] == 'g');
    assert("ecliptic"@[0] == 'e' && "ecliptic"@[1] == 'c');
    assert("physical"@[0] == 'p' && "physical"@[1] == 'h');
    assert("amplifier"@[0] == 'a' && "amplifier"@[1] == 'm');
    if starts_with_spec(w, "global"@) {
        assert(w.take("global"@.len() as int)[0] == w[0]);
    }
}

/// The line of a shape is read as the shape.
proof fn line_reads(s: ShapeView)
    requires
        is_readable(s),
        all_finite(args_spec(s)),
    ensures
        line_spec(shape_text(s)) == Some(new_marker(s)),
        is_line(shape_text(s)),
        is_plain(shape_text(s)),
{
    let k = kind_spec(s);
    let v = args_spec(s);
    kinds(s);
    args_split(v);
    coords_read(v);
    let a = args_text(v);
    let l = shape_text(s);
    assert(l =~= (k.push('(') + a).push(')'));
    let n = k.len() as int;
    assert forall|i: int| 0 <= i < l.len() implies ({
        let c = #[trigger] l[i];
        ('a' <= c <= 'z') || is_numeral_char(c) || c == ',' || c == '(' || c == ')'
    }) by {
        if i < n {
            assert(l[i] == k[i]);
        } else if n < i < l.len() - 1 {
            assert(l[i] == a[i - n - 1]);
        }
    }
    assert(l[0] == k[0] && l[1] == k[1] && l[n] == '(' && l.last() == ')');
    assert('a' <= k[0] <= 'z');
    // No comment, nothing to trim.
    trim_keeps(l);
    assert(!l.contains('#'));
    assert(starts_with_spec(l, l)) by {
        assert(l.take(l.len() as int) =~= l);
    }
    find_behind(l, l, '#');
    assert(l.take(l.len() as int) =~= l);
    assert(body_spec(l) == l);
    // No coordinate system.
    assert(is_ascii_text(l));
    let w = lowercase_spec(l);
    assert(w == lower_spec(l));
    assert(w[0] == k[0] && w[1] == k[1]) by {
        assert('a' <= k[1] <= 'z');
    }
    not_a_system(w, k);
    // The kind and its arguments.
    assert(trim_front_char(l, '-') == l);
    assert(!k.contains('(')) by {
        assert forall|i: int| 0 <= i < k.len() implies k[i] != '(' by {
            assert('a' <= k[i] <= 'z');
        }
    }
    assert(starts_with_spec(l, k)) by {
        assert(l.take(n) =~= k);
    }
    find_behind(l, k, '(');
    assert(l.take(n) =~= k);
    assert('a' <= k[n - 1] <= 'z');
    trim_keeps(k);
    assert(lowercase_spec(k) == k) by {
        assert(is_ascii_text(k)) by {
            assert forall|i: int| 0 <= i < k.len() implies (#[trigger] k[i] as u32) < 128 by {
                assert('a' <= k[i] <= 'z');
            }
        }
        assert(lower_spec(k) =~= k) by {
            assert forall|i: int| 0 <= i < k.len() implies lower_spec(k)[i] == k[i] by {
                assert('a' <= k[i] <= 'z');
            }
        }
    }
    let rest = l.skip(n + 1);
    assert(rest =~= a.push(')'));
    assert(trim_back(rest) == rest);
    assert(rest.drop_last() =~= a);
    assert(trim_back_char(rest, ')') == trim_back_char(a, ')'));
    assert(trim_back_char(a, ')') == a);
    assert(coords_spec(split_spec(a, ',')) == Some(v));
    shape_reads(s);
    assert(shape_line_spec(l) == Some(new_marker(s)));
    assert(segment_spec(l) == Some(new_marker(s)));
    assert(!l.contains('\n'));
    assert(!l.contains(';'));
    one_piece(l);
    not_a_comment(l);
}

/// A line without a semicolon starts with no coordinate system before a shape.
proof fn one_piece(l: Seq<char>)
    requires
        !l.contains(';'),
    ensures
        without_systems(l) == l,
        forall|s: System| #[trigger] behind_systems(s, l) == (s, l),
{
    assert(l.take(l.len() as int) =~= l);
    assert(starts_with_spec(l, l));
    find_behind(l, l, ';');
}

/// A line that does not start with a comment sign describes no region in a comment.
proof fn not_a_comment(l: Seq<char>)
    requires
        l.len() > 0,
        l[0] != '#',
        trim_spec(l) == l,
    ensures
        comment_spec(l) is None,
{
    reveal_strlit("# ");
    if starts_with_spec(l, "# "@) {
        assert(l.take(2)[0] == l[0]);
    }
}

/// No two kinds have the same name.
pub proof fn kinds_differ()
    ensures
        "box"@ != "circle"@,
        "ellipse"@ != "circle"@,
        "ellipse"@ != "box"@,
        "annulus"@ != "circle"@,
        "annulus"@ != "box"@,
        "annulus"@ != "ellipse"@,
        "point"@ != "circle"@,
        "point"@ != "box"@,
        "point"@ != "ellipse"@,
        "point"@ != "annulus"@,
        "line"@ != "circle"@,
        "line"@ != "box"@,
        "line"@ != "ellipse"@,
        "line"@ != "annulus"@,
        "line"@ != "point"@,
        "polygon"@ != "circle"@,
        "polygon"@ != "box"@,
        "polygon"@ != "ellipse"@,
        "polygon"@ != "annulus"@,
        "polygon"@ != "point"@,
        "polygon"@ != "line"@,
{
    reveal_strlit("circle");
    reveal_strlit("ellipse");
    reveal_strlit("box");
    reveal_strlit("annulus");
    reveal_strlit("polygon");
    reveal_strlit("point");
    reveal_strlit("line");
    assert("circle"@.len() == 6 && "ellipse"@.len() == 7 && "box"@.len() == 3);
    assert("annulus"@.len() == 7 && "polygon"@.len() == 7 && "point"@.len() == 5);
    assert("line"@.len() == 4);
    assert("ellipse"@[0] == 'e' && "annulus"@[0] == 'a' && "polygon"@[0] == 'p');
}

/// The arguments of a shape give it back.
proof fn shape_reads(s: ShapeView)
    requires
        is_readable(s),
    ensures
        shape_spec(kind_spec(s), args_spec(s)) == Some(s),
{
    kinds_differ();
    if let ShapeView::Polygon { points } = s {
        corners_are_kept(points);
    }
}

/// The coordinates of corners give them back.
proof fn corners_are_kept(points: Seq<PixelPos>)
    ensures
        corners_spec(flat_spec(points)) == points,
{
    let v = flat_spec(points);
    assert forall|i: int| 0 <= i < points.len() implies corners_spec(v)[i] == #[trigger] points[i] by {
        assert((2 * i) / 2 == i && (2 * i + 1) / 2 == i);
        assert((2 * i) % 2 == 0 && (2 * i + 1) % 2 == 1);
        assert(v[2 * i] == points[i].x && v[2 * i + 1] == points[i].y);
    }
    assert(corners_spec(v) =~= points);
}

/// The lines before the regions give none.
proof fn opening_lines()
    ensures
        is_line(title_line()),
        is_line(global_line()),
        is_line("image"@),
        line_spec(title_line()) is None,
        line_spec(global_line()) is None,
        line_spec("image"@) is None,
        is_plain(title_line()),
        is_plain(global_line()),
        is_plain("image"@),
{
    reveal_strlit("# Region file format: DS9 ds9-rust");
    reveal_strlit("global color=green width=1 select=1 highlite=1 dash=0 ");
    reveal_strlit("fixed=0 edit=1 move=1 delete=1 incl");
    reveal_strlit("ude=1 source=1");
    reveal_strlit("image");
    reveal_strlit("global");
    reveal_strlit("# ");
    let h = title_line();
    comment_body(h);
    let b = h.skip(2);
    assert(!b.contains(')'));
    assert(b.take(b.len() as int) =~= b);
    assert(starts_with_spec(b, b));
    find_behind(b, b, ')');
    let g = global_line();
    assert(g[0] == 'g' && g[1] == 'l' && g[2] == 'o' && g[3] == 'b' && g[4] == 'a' && g[5] == 'l');
    assert(g.last() == '1');
    trim_keeps(g);
    assert(!g.contains('#'));
    assert(g.take(g.len() as int) =~= g);
    assert(starts_with_spec(g, g));
    find_behind(g, g, '#');
    assert(is_ascii_text(g));
    let w = lowercase_spec(g);
    assert(w.take(6) =~= "global"@);
    assert(starts_with_spec(w, "global"@));
    let m = "image"@;
    trim_keeps(m);
    assert(!m.contains('#'));
    assert(m.take(m.len() as int) =~= m);
    assert(starts_with_spec(m, m));
    find_behind(m, m, '#');
    assert(is_ascii_text(m));
    assert(lower_spec(m) =~= m);
    assert(!g.contains(';') && !m.contains(';'));
    one_piece(g);
    one_piece(m);
    not_a_comment(g);
    not_a_comment(m);
    no_system(w);
    not_of_the_sky();
}

/// A word that starts like "global" names no coordinate system.
proof fn no_system(w: Seq<char>)
    requires
        w.len() >= 2,
        w[0] == 'g',
        w[1] == 'l',
    ensures
        system_spec(w) is None,
{
    reveal_strlit("image");
    reveal_strlit("fk5");
    reveal_strlit("fk4");
    reveal_strlit("icrs");
    reveal_strlit("galactic");
    reveal_strlit("ecliptic");
    reveal_strlit("physical");
    reveal_strlit("amplifier");
    reveal_strlit("detector");
    reveal_strlit("j2000");
    reveal_strlit("b1950");
    assert("galactic"@[1] == 'a');
}

/// "image" names no coordinate system of the sky.
proof fn not_of_the_sky()
    ensures
        system_spec("image"@) == Some(System::Image),
{
    reveal_strlit("image");
    reveal_strlit("fk5");
    reveal_strlit("fk4");
    reveal_strlit("icrs");
    reveal_strlit("galactic");
    reveal_strlit("j2000");
    reveal_strlit("b1950");
    assert("image"@[1] == 'm' && "icrs"@[1] == 'c');
}

/// An empty text names no coordinate system.
proof fn empty_is_no_system()
    ensures
        system_spec(lowercase_spec(Seq::empty())) is None,
{
    reveal_strlit("image");
    reveal_strlit("fk5");
    reveal_strlit("fk4");
    reveal_strlit("icrs");
    reveal_strlit("galactic");
    reveal_strlit("ecliptic");
    reveal_strlit("physical");
    reveal_strlit("amplifier");
    reveal_strlit("detector");
    reveal_strlit("j2000");
    reveal_strlit("b1950");
    assert(is_ascii_text(Seq::empty()));
    assert(lower_spec(Seq::empty()) =~= Seq::empty());
}

/// The part of a comment line before the comment is empty: it gives no region, and says nothing of
/// the sky.
proof fn comment_body(l: Seq<char>)
    requires
        l.len() > 0,
        l[0] == '#',
        !is_white(l.last()),
    ensures
        trim_spec(l) == l,
        is_plain(l),
        segment_spec(without_systems(body_spec(l))) is None,
{
    empty_is_no_system();
    trim_keeps(l);
    let none = l.take(0);
    assert(none =~= Seq::<char>::empty());
    assert(body_spec(l) == none);
    one_piece(none);
    assert(trim_spec(none) == none);
}

/// Reading a text undoes what writing it on one line did.
proof fn escaping_is_undone(s: Seq<char>)
    ensures
        unescaped(escaped(s)) == s,
        !escaped(s).contains('\n'),
    decreases s.len(),
{
    let e = escaped(s);
    if s.len() == 0 {
        assert(unescaped(e) =~= s);
    } else {
        let rest = s.skip(1);
        escaping_is_undone(rest);
        let h = escaped_char(s[0]);
        let tail = escaped(rest);
        assert(e =~= h + tail);
        assert(e.skip(h.len() as int) =~= tail);
        assert(e[0] == h[0]);
        if h.len() == 2 {
            assert(e[1] == h[1]);
        }
        assert(unescaped(e) =~= seq![s[0]] + unescaped(tail));
        assert(seq![s[0]] + rest =~= s);
        assert forall|i: int| 0 <= i < e.len() implies e[i] != '\n' by {
            if i >= h.len() {
                assert(e[i] == tail[i - h.len()]);
                assert(tail.contains(tail[i - h.len()]));
            } else {
                assert(e[i] == h[i]);
            }
        }
    }
}

/// The name of a kind that stands in a comment.
spec fn noted_kind(s: ShapeView) -> Seq<char> {
    match s {
        ShapeView::Compass { .. } => "compass"@,
        ShapeView::Text { .. } => "text"@,
        _ => "polygon"@,
    }
}

proof fn noted_kinds(s: ShapeView)
    requires
        !is_readable(s),
    ensures
        kind_spec(s) == "# "@ + noted_kind(s),
        noted_kind(s).len() > 0,
        forall|i: int| 0 <= i < noted_kind(s).len() ==> 'a' <= #[trigger] noted_kind(s)[i] <= 'z',
        "text"@ != "compass"@,
        "polygon"@ != "compass"@,
        "polygon"@ != "text"@,
{
    reveal_strlit("# ");
    reveal_strlit("compass");
    reveal_strlit("text");
    reveal_strlit("polygon");
    reveal_strlit("# compass");
    reveal_strlit("# text");
    reveal_strlit("# polygon");
    assert("# compass"@ =~= "# "@ + "compass"@);
    assert("# text"@ =~= "# "@ + "text"@);
    assert("# polygon"@ =~= "# "@ + "polygon"@);
    assert("compass"@[0] == 'c' && "polygon"@[0] == 'p');
    assert("compass"@.len() == 7 && "text"@.len() == 4 && "polygon"@.len() == 7);
}

/// The text behind a region is read back.
proof fn tail_reads(s: ShapeView)
    requires
        !is_readable(s),
    ensures
        s matches ShapeView::Text { center, body } ==> noted_text(tail_spec(s)) == Some(body),
        !tail_spec(s).contains('\n'),
        tail_spec(s).len() > 0 ==> tail_spec(s).last() == '}',
{
    if let ShapeView::Text { center, body } = s {
        reveal_strlit(" text={");
        escaping_is_undone(body);
        let e = escaped(body);
        let tail = tail_spec(s);
        let h = " text={"@;
        assert(tail =~= (h + e).push('}'));
        assert(tail.take(7) =~= h);
        assert(tail.subrange(7, tail.len() - 1) =~= e);
        assert forall|i: int| 0 <= i < tail.len() implies tail[i] != '\n' by {
            if i < 7 {
                assert(tail[i] == h[i]);
            } else if i < tail.len() - 1 {
                assert(tail[i] == e[i - 7]);
                assert(e.contains(e[i - 7]));
            }
        }
    }
}

/// The line of a region that stands in a comment is read as the region.
proof fn comment_reads(s: ShapeView)
    requires
        !is_readable(s),
        all_finite(args_spec(s)),
    ensures
        line_spec(shape_text(s)) == Some(new_marker(s)),
        is_line(shape_text(s)),
        is_plain(shape_text(s)),
{
    let word = noted_kind(s);
    let v = args_spec(s);
    let a = args_text(v);
    let tail = tail_spec(s);
    let l = shape_text(s);
    let n = word.len() as int;
    noted_kinds(s);
    tail_reads(s);
    reveal_strlit("# ");
    if v.len() > 0 {
        args_split(v);
        coords_read(v);
    } else {
        assert(v =~= Seq::empty());
    }
    assert(noted_args(a) == Some(v));
    assert forall|i: int| 0 <= i < a.len() implies a[i] != ')' && a[i] != '\n' by {
        assert(is_numeral_char(a[i]) || a[i] == ',');
    }
    let front = word.push('(') + a;
    let b = front.push(')') + tail;
    assert(l =~= "# "@ + b);
    assert(l[0] == '#' && l[1] == ' ');
    assert(l.take(2) =~= "# "@);
    assert(l.skip(2) =~= b);
    assert(l.last() == b.last());
    assert(tail.len() > 0 ==> b.last() == tail.last());
    comment_body(l);
    assert(!word.contains('(')) by {
        assert forall|i: int| 0 <= i < n implies word[i] != '(' by {
            assert('a' <= word[i] <= 'z');
        }
    }
    assert(b.take(n) =~= word);
    find_behind(b, word, '(');
    assert forall|i: int| 0 <= i < front.len() implies front[i] != ')' && front[i] != '\n' by {
        if i < n {
            assert('a' <= word[i] <= 'z');
        } else if i > n {
            assert(front[i] == a[i - n - 1]);
        }
    }
    let c = front.len() as int;
    assert(b.take(c) =~= front);
    find_behind(b, front, ')');
    assert(b.subrange(n + 1, c) =~= a);
    assert(b.skip(c + 1) =~= tail);
    if let ShapeView::Polygon { points } = s {
        corners_are_kept(points);
    }
    assert(noted_shape(word, v, tail) == Some(s));
    assert forall|i: int| 0 <= i < l.len() implies l[i] != '\n' by {
        if i >= c + 3 {
            assert(l[i] == tail[i - c - 3]);
            assert(tail.contains(tail[i - c - 3]));
        } else if 2 <= i < c + 2 {
            assert(l[i] == front[i - 2]);
        }
    }
}

/// The regions that reading gives: those that were written, with the properties of new regions.
pub open spec fn as_new(ms: Seq<MarkerView>) -> Seq<MarkerView> {
    ms.map_values(|m: MarkerView| new_marker(m.shape))
}

/// Whether all numbers of the regions are finite.
pub open spec fn are_finite(ms: Seq<MarkerView>) -> bool {
    forall|i: int| 0 <= i < ms.len() ==> all_finite(args_spec((#[trigger] ms[i]).shape))
}

proof fn regions_read(ms: Seq<MarkerView>)
    requires
        are_finite(ms),
    ensures
        regions_spec(reg_lines(ms)) == as_new(ms),
        forall|i: int| 0 <= i < reg_lines(ms).len() ==> is_line(#[trigger] reg_lines(ms)[i]),
        forall|i: int| 0 <= i < reg_lines(ms).len() ==> is_plain(#[trigger] reg_lines(ms)[i]),
    decreases ms.len(),
{
    opening_lines();
    let all = reg_lines(ms);
    if ms.len() == 0 {
        let t2 = all.drop_last();
        let t1 = t2.drop_last();
        let t0 = t1.drop_last();
        assert(t0 =~= Seq::<Seq<char>>::empty());
        assert(all.last() == "image"@ && t2.last() == global_line() && t1.last() == title_line());
        assert(regions_spec(t0) =~= Seq::<MarkerView>::empty());
        assert(regions_spec(t1) =~= regions_spec(t0));
        assert(regions_spec(t2) =~= regions_spec(t1));
        assert(regions_spec(all) =~= as_new(ms));
    } else {
        let front = ms.drop_last();
        assert forall|i: int| 0 <= i < front.len() implies all_finite(
            args_spec((#[trigger] front[i]).shape),
        ) by {
            assert(all_finite(args_spec(ms[i].shape)));
        }
        regions_read(front);
        assert(all.drop_last() =~= reg_lines(front));
        let s = ms.last().shape;
        assert(all_finite(args_spec(ms[ms.len() - 1].shape)));
        assert(all.last() == shape_text(s));
        if is_readable(s) {
            line_reads(s);
        } else {
            comment_reads(s);
        }
        assert(as_new(ms) =~= as_new(front).push(new_marker(s)));
        assert forall|i: int| 0 <= i < all.len() implies is_line(#[trigger] all[i]) by {
            if i < all.len() - 1 {
                assert(reg_lines(front)[i] == all[i]);
            }
        }
        assert forall|i: int| 0 <= i < all.len() implies is_plain(#[trigger] all[i]) by {
            if i < all.len() - 1 {
                assert(reg_lines(front)[i] == all[i]);
            }
        }
    }
}

/// A region file gives back, in order and with their shapes as they were, all the regions that
/// were written to it, whatever their finite numbers and their texts.
pub proof fn written_regions_are_read_back(ms: Seq<MarkerView>)
    requires
        are_finite(ms),
    ensures
        ({
            let back = regions_spec(lines_spec(ended_lines(reg_lines(ms))));
            &&& back == as_new(ms)
            &&& back.len() == ms.len()
            &&& forall|i: int| 0 <= i < ms.len() ==> (#[trigger] back[i]).shape == ms[i].shape
        }),
{
    regions_read(ms);
    lines_are_read_back(reg_lines(ms));
}

/// So it does for an image with sky coordinates.
pub proof fn written_regions_are_read_back_with_a_sky(ms: Seq<MarkerView>)
    requires
        are_finite(ms),
    ensures
        after_lines(lines_spec(ended_lines(reg_lines(ms)))).regions == as_new(ms).map_values(
            |m: MarkerView| ParsedView::Image(m),
        ),
{
    regions_read(ms);
    lines_are_read_back(reg_lines(ms));
    plain_files_are_read_the_same(reg_lines(ms));
}

/// Each line gives one region or none.
pub proof fn at_most_one_region_per_line(ls: Seq<Seq<char>>)
    ensures
        regions_spec(ls).len() <= ls.len(),
        forall|l: Seq<char>|
            regions_spec(#[trigger] ls.push(l)) == match line_spec(l) {
                Some(m) => regions_spec(ls).push(m),
                None => regions_spec(ls),
            },
    decreases ls.len(),
{
    if ls.len() > 0 {
        at_most_one_region_per_line(ls.drop_last());
    }
    assert forall|l: Seq<char>|
        regions_spec(#[trigger] ls.push(l)) == match line_spec(l) {
            Some(m) => regions_spec(ls).push(m),
            None => regions_spec(ls),
        } by {
        assert(ls.push(l).drop_last() =~= ls);
    }
}

/// Lines are read one by one: what they give does not depend on the lines before them.
pub proof fn lines_are_independent(a: Seq<Seq<char>>, b: Seq<Seq<char>>)
    ensures
        regions_spec(a + b) == regions_spec(a) + regions_spec(b),
    decreases b.len(),
{
    if b.len() == 0 {
        assert(a + b =~= a);
        assert(regions_spec(a) + regions_spec(b) =~= regions_spec(a));
    } else {
        lines_are_independent(a, b.drop_last());
        assert((a + b).drop_last() =~= a + b.drop_last());
        assert((a + b).last() == b.last());
        assert(regions_spec(a + b) =~= regions_spec(a) + regions_spec(b));
    }
}

/// A carriage return at the end of a line does not count.
proof fn return_does_not_count(l: Seq<char>)
    ensures
        line_spec(drop_return(l)) == line_spec(l),
{
    if l.len() > 0 && l.last() == '\r' {
        white_end_does_not_count(l);
    }
}

/// A white character at the end of a line does not count.
proof fn white_end_does_not_count(l: Seq<char>)
    requires
        l.len() > 0,
        is_white(l.last()),
    ensures
        trim_spec(l.drop_last()) == trim_spec(l),
    decreases l.len(),
{
    if is_white(l[0]) {
        let rest = l.drop_first();
        if rest.len() > 0 {
            white_end_does_not_count(rest);
            assert(l.drop_last().drop_first() =~= rest.drop_last());
        } else {
            assert(l.drop_last() =~= Seq::<char>::empty());
            assert(rest =~= Seq::<char>::empty());
        }
    }
}

/// What the pieces of a text between line feeds give is what its lines give.
proof fn pieces_and_lines(s: Seq<char>)
    ensures
        regions_spec(split_spec(s, '\n')) == regions_spec(lines_spec(s)),
{
    let p = split_spec(s, '\n');
    split_joined(s, s, '\n');
    let front = p.drop_last();
    let ended = Seq::new((p.len() - 1) as nat, |i: int| drop_return(p[i]));
    assert(ended =~= front.map_values(|l: Seq<char>| drop_return(l)));
    returns_do_not_count(front);
    assert(front.push(p.last()) =~= p);
    if p.last().len() == 0 {
        empty_is_none();
        assert(p.last() =~= Seq::<char>::empty());
    } else {
        assert(ended.push(p.last()).drop_last() =~= ended);
    }
}

proof fn empty_is_none()
    ensures
        line_spec(Seq::empty()) is None,
{
    let none = Seq::<char>::empty();
    reveal_strlit("# ");
    assert(trim_spec(none) == none);
    assert(none.take(0) =~= none);
    assert(body_spec(none) == none);
    one_piece(none);
}

proof fn returns_do_not_count(ls: Seq<Seq<char>>)
    ensures
        regions_spec(ls.map_values(|l: Seq<char>| drop_return(l))) == regions_spec(ls),
    decreases ls.len(),
{
    let f = |l: Seq<char>| drop_return(l);
    if ls.len() > 0 {
        returns_do_not_count(ls.drop_last());
        assert(ls.map_values(f).drop_last() =~= ls.drop_last().map_values(f));
        return_does_not_count(ls.last());
    } else {
        assert(ls.map_values(f) =~= ls);
    }
}

/// Two files, one behind the other with the end of a line between them, give the regions of the
/// first and then those of the second.
pub proof fn files_are_read_one_after_the_other(a: Seq<char>, b: Seq<char>)
    ensures
        regions_spec(lines_spec(a.push('\n') + b)) == regions_spec(lines_spec(a)) + regions_spec(
            lines_spec(b),
        ),
{
    split_joined(a, b, '\n');
    pieces_and_lines(a);
    pieces_and_lines(b);
    pieces_and_lines(a.push('\n') + b);
    lines_are_independent(split_spec(a, '\n'), split_spec(b, '\n'));
}

} // verus!
