//! Text as sequences of characters.
//!
//! The library's own grammars work on `Vec<char>`. This module has the pieces
//! that they share: trimming, splitting, searching, and decimal numerals.

use vstd::prelude::*;

verus! {

/// `String::push` appends one character.
pub assume_specification[ String::push ](s: &mut String, c: char)
    ensures
        final(s)@ == old(s)@.push(c),
;

/// The characters of a string slice.
pub fn chars_of(s: &str) -> (r: Vec<char>)
    ensures
        r@ == s@,
{
    let mut v: Vec<char> = Vec::new();
    for c in it: s.chars()
        invariant
            v@ == it.seq().take(it.index() as int),
            it.seq() == s@,
    {
        v.push(c);
    }
    v
}

/// A string that holds the given characters.
pub fn string_of(v: &Vec<char>) -> (r: String)
    ensures
        r@ == v@,
{
    let mut s = String::new();
    for i in 0..v.len()
        invariant
            s@ == v@.take(i as int),
    {
        s.push(v[i]);
    }
    s
}

/// The texts that a list of character vectors holds.
pub open spec fn texts(v: Seq<Vec<char>>) -> Seq<Seq<char>> {
    Seq::new(v.len(), |i: int| v[i]@)
}

/// Whether two texts agree.
pub fn same_chars(v: &Vec<char>, w: &Vec<char>) -> (r: bool)
    ensures
        r == (v@ == w@),
{
    if v.len() != w.len() {
        return false;
    }
    for i in 0..v.len()
        invariant
            v@.len() == w@.len(),
            forall|j: int| 0 <= j < i ==> v@[j] == w@[j],
    {
        if v[i] != w[i] {
            assert(v@[i as int] != w@[i as int]);
            return false;
        }
    }
    assert(v@ =~= w@);
    true
}

/// Whether `v` spells `lit`.
pub fn same_text(v: &Vec<char>, lit: &str) -> (r: bool)
    ensures
        r == (v@ == lit@),
{
    let w = chars_of(lit);
    same_chars(v, &w)
}

/// The characters `from..to` of `v`.
pub fn piece(v: &Vec<char>, from: usize, to: usize) -> (r: Vec<char>)
    requires
        from <= to <= v@.len(),
    ensures
        r@ == v@.subrange(from as int, to as int),
{
    let mut r: Vec<char> = Vec::new();
    for i in from..to
        invariant
            from <= to <= v@.len(),
            r@ == v@.subrange(from as int, i as int),
    {
        r.push(v[i]);
        assert(r@ =~= v@.subrange(from as int, i + 1));
    }
    r
}

/// Appends the text `s`.
pub fn put_text(v: &mut Vec<char>, s: &str)
    ensures
        final(v)@ == old(v)@ + s@,
{
    let ghost before = v@;
    for c in it: s.chars()
        invariant
            v@ == before + it.seq().take(it.index() as int),
            it.seq() == s@,
    {
        v.push(c);
    }
}

/// Appends the characters of `s`.
pub fn put_chars(v: &mut Vec<char>, s: &Vec<char>)
    ensures
        final(v)@ == old(v)@ + s@,
{
    let ghost before = v@;
    for i in 0..s.len()
        invariant
            v@ == before + s@.take(i as int),
    {
        v.push(s[i]);
    }
}

// ---------------------------------------------------------------------------
// White space
// ---------------------------------------------------------------------------

/// The Unicode `White_Space` characters.
pub open spec fn is_white(c: char) -> bool {
    let n = c as u32;
    ||| 0x09 <= n <= 0x0d
    ||| n == 0x20
    ||| n == 0x85
    ||| n == 0xa0
    ||| n == 0x1680
    ||| 0x2000 <= n <= 0x200a
    ||| n == 0x2028
    ||| n == 0x2029
    ||| n == 0x202f
    ||| n == 0x205f
    ||| n == 0x3000
}

/// Whether `c` is white space.
pub fn white(c: char) -> (r: bool)
    ensures
        r == is_white(c),
{
    let n: u32 = c as u32;
    (0x09 <= n && n <= 0x0d) || n == 0x20 || n == 0x85 || n == 0xa0 || n == 0x1680 || (0x2000 <= n
        && n <= 0x200a) || n == 0x2028 || n == 0x2029 || n == 0x202f || n == 0x205f || n == 0x3000
}

/// `s` without the white space it starts with.
pub open spec fn trim_front(s: Seq<char>) -> Seq<char>
    decreases s.len(),
{
    if s.len() > 0 && is_white(s[0]) {
        trim_front(s.drop_first())
    } else {
        s
    }
}

/// `s` without the white space it ends with.
pub open spec fn trim_back(s: Seq<char>) -> Seq<char>
    decreases s.len(),
{
    if s.len() > 0 && is_white(s.last()) {
        trim_back(s.drop_last())
    } else {
        s
    }
}

/// `s` without the white space at either end.
pub open spec fn trim_spec(s: Seq<char>) -> Seq<char> {
    trim_back(trim_front(s))
}

/// `v` without the white space at either end.
pub fn trim(v: &Vec<char>) -> (r: Vec<char>)
    ensures
        r@ == trim_spec(v@),
{
    let n: usize = v.len();
    let mut a: usize = 0;
    assert(v@.skip(0) =~= v@);
    while a < n && white(v[a])
        invariant
            a <= n == v@.len(),
            trim_front(v@) == trim_front(v@.skip(a as int)),
        decreases n - a,
    {
        assert(v@.skip(a as int).drop_first() =~= v@.skip(a + 1));
        a += 1;
    }
    let mut b: usize = n;
    let ghost front = v@.skip(a as int);
    assert(trim_front(v@) == front);
    while b > a && white(v[b - 1])
        invariant
            a <= b <= n == v@.len(),
            front == v@.skip(a as int),
            trim_back(front) == trim_back(v@.subrange(a as int, b as int)),
        decreases b,
    {
        assert(v@.subrange(a as int, b as int).drop_last() =~= v@.subrange(a as int, b - 1));
        b -= 1;
    }
    piece(v, a, b)
}

/// `s` without the `c` it starts with, as many as there are.
pub open spec fn trim_front_char(s: Seq<char>, c: char) -> Seq<char>
    decreases s.len(),
{
    if s.len() > 0 && s[0] == c {
        trim_front_char(s.drop_first(), c)
    } else {
        s
    }
}

/// `s` without the `c` it ends with, as many as there are.
pub open spec fn trim_back_char(s: Seq<char>, c: char) -> Seq<char>
    decreases s.len(),
{
    if s.len() > 0 && s.last() == c {
        trim_back_char(s.drop_last(), c)
    } else {
        s
    }
}

/// `v` without the `c` it starts with.
pub fn strip_front(v: &Vec<char>, c: char) -> (r: Vec<char>)
    ensures
        r@ == trim_front_char(v@, c),
{
    let n: usize = v.len();
    let mut a: usize = 0;
    assert(v@.skip(0) =~= v@);
    while a < n && v[a] == c
        invariant
            a <= n == v@.len(),
            trim_front_char(v@, c) == trim_front_char(v@.skip(a as int), c),
        decreases n - a,
    {
        assert(v@.skip(a as int).drop_first() =~= v@.skip(a + 1));
        a += 1;
    }
    assert(v@.skip(a as int) =~= v@.subrange(a as int, n as int));
    piece(v, a, n)
}

/// `v` without the `c` it ends with.
pub fn strip_back(v: &Vec<char>, c: char) -> (r: Vec<char>)
    ensures
        r@ == trim_back_char(v@, c),
{
    let mut b: usize = v.len();
    assert(v@.take(b as int) =~= v@);
    while b > 0 && v[b - 1] == c
        invariant
            b <= v@.len(),
            trim_back_char(v@, c) == trim_back_char(v@.take(b as int), c),
        decreases b,
    {
        assert(v@.take(b as int).drop_last() =~= v@.take(b - 1));
        b -= 1;
    }
    assert(v@.take(b as int) =~= v@.subrange(0, b as int));
    piece(v, 0, b)
}

/// `v` without the white space it ends with.
pub fn trim_end(v: &Vec<char>) -> (r: Vec<char>)
    ensures
        r@ == trim_back(v@),
{
    let mut b: usize = v.len();
    assert(v@.take(b as int) =~= v@);
    while b > 0 && white(v[b - 1])
        invariant
            b <= v@.len(),
            trim_back(v@) == trim_back(v@.take(b as int)),
        decreases b,
    {
        assert(v@.take(b as int).drop_last() =~= v@.take(b - 1));
        b -= 1;
    }
    assert(v@.take(b as int) =~= v@.subrange(0, b as int));
    piece(v, 0, b)
}

/// `v` without the white space it starts with.
pub fn trim_start(v: &Vec<char>) -> (r: Vec<char>)
    ensures
        r@ == trim_front(v@),
{
    let n: usize = v.len();
    let mut a: usize = 0;
    assert(v@.skip(0) =~= v@);
    while a < n && white(v[a])
        invariant
            a <= n == v@.len(),
            trim_front(v@) == trim_front(v@.skip(a as int)),
        decreases n - a,
    {
        assert(v@.skip(a as int).drop_first() =~= v@.skip(a + 1));
        a += 1;
    }
    assert(v@.skip(a as int) =~= v@.subrange(a as int, n as int));
    piece(v, a, n)
}

/// Whether `s` starts with `t`.
pub open spec fn starts_with_spec(s: Seq<char>, t: Seq<char>) -> bool {
    s.len() >= t.len() && s.take(t.len() as int) == t
}

/// Whether `v` starts with `lit`.
pub fn starts_with(v: &Vec<char>, lit: &str) -> (r: bool)
    ensures
        r == starts_with_spec(v@, lit@),
{
    let w = chars_of(lit);
    if v.len() < w.len() {
        return false;
    }
    let head = piece(v, 0, w.len());
    assert(head@ =~= v@.take(w@.len() as int));
    same_chars(&head, &w)
}

// ---------------------------------------------------------------------------
// Splitting
// ---------------------------------------------------------------------------

/// The pieces of `s` between the occurrences of `c`; one more than there are
/// occurrences.
pub open spec fn split_spec(s: Seq<char>, c: char) -> Seq<Seq<char>>
    decreases s.len(),
{
    if s.len() == 0 {
        seq![Seq::empty()]
    } else {
        extend_pieces(split_spec(s.drop_last(), c), s.last(), s.last() == c)
    }
}

/// The pieces after one more character: a separator opens a new piece, another
/// character lengthens the last one.
pub open spec fn extend_pieces(p: Seq<Seq<char>>, c: char, cut: bool) -> Seq<Seq<char>> {
    if cut {
        p.push(Seq::empty())
    } else {
        p.drop_last().push(p.last().push(c))
    }
}

/// The pieces of `v` between the occurrences of `c`.
pub fn split(v: &Vec<char>, c: char) -> (r: Vec<Vec<char>>)
    ensures
        texts(r@) == split_spec(v@, c),
        r@.len() >= 1,
{
    let mut done: Vec<Vec<char>> = Vec::new();
    let mut open: Vec<char> = Vec::new();
    assert(v@.take(0) =~= Seq::empty());
    assert(texts(done@).push(open@) =~= split_spec(v@.take(0), c));
    for i in 0..v.len()
        invariant
            texts(done@).push(open@) == split_spec(v@.take(i as int), c),
    {
        let ghost p = texts(done@).push(open@);
        assert(v@.take(i + 1).drop_last() =~= v@.take(i as int));
        let x = v[i];
        if x == c {
            done.push(open);
            open = Vec::new();
            assert(texts(done@) =~= p);
        } else {
            open.push(x);
            assert(p.drop_last() =~= texts(done@));
        }
    }
    assert(v@.take(v@.len() as int) =~= v@);
    let ghost p = texts(done@).push(open@);
    done.push(open);
    assert(texts(done@) =~= p);
    done
}

/// The pieces of `s` between white space characters, empty ones kept.
pub open spec fn white_split_spec(s: Seq<char>) -> Seq<Seq<char>>
    decreases s.len(),
{
    if s.len() == 0 {
        seq![Seq::empty()]
    } else {
        extend_pieces(white_split_spec(s.drop_last()), s.last(), is_white(s.last()))
    }
}

/// The words of `s`: its longest pieces without white space.
pub open spec fn words_spec(s: Seq<char>) -> Seq<Seq<char>> {
    white_split_spec(s).filter(|w: Seq<char>| w.len() > 0)
}

proof fn filter_push(p: Seq<Seq<char>>, x: Seq<char>)
    ensures
        p.push(x).filter(|w: Seq<char>| w.len() > 0) == if x.len() > 0 {
            p.filter(|w: Seq<char>| w.len() > 0).push(x)
        } else {
            p.filter(|w: Seq<char>| w.len() > 0)
        },
{
    reveal(Seq::filter);
    assert(p.push(x).drop_last() =~= p);
}

/// The words of `v`.
pub fn words(v: &Vec<char>) -> (r: Vec<Vec<char>>)
    ensures
        texts(r@) == words_spec(v@),
{
    let mut done: Vec<Vec<char>> = Vec::new();
    let mut open: Vec<char> = Vec::new();
    let ghost mut all: Seq<Seq<char>> = Seq::empty();
    assert(v@.take(0) =~= Seq::empty());
    assert(all.push(open@) =~= white_split_spec(v@.take(0)));
    proof {
        reveal(Seq::filter);
    }
    assert(texts(done@) =~= all.filter(|w: Seq<char>| w.len() > 0));
    for i in 0..v.len()
        invariant
            all.push(open@) == white_split_spec(v@.take(i as int)),
            texts(done@) == all.filter(|w: Seq<char>| w.len() > 0),
    {
        assert(v@.take(i + 1).drop_last() =~= v@.take(i as int));
        let x = v[i];
        if white(x) {
            proof {
                filter_push(all, open@);
                all = all.push(open@);
            }
            if open.len() > 0 {
                let ghost d = texts(done@);
                let ghost o = open@;
                done.push(open);
                assert(texts(done@) =~= d.push(o));
            }
            open = Vec::new();
        } else {
            let ghost p = all.push(open@);
            open.push(x);
            assert(p.drop_last() =~= all);
        }
    }
    assert(v@.take(v@.len() as int) =~= v@);
    proof {
        filter_push(all, open@);
    }
    if open.len() > 0 {
        let ghost d = texts(done@);
        let ghost o = open@;
        done.push(open);
        assert(texts(done@) =~= d.push(o));
    }
    done
}

/// A line without the carriage return it may end with.
pub open spec fn drop_return(s: Seq<char>) -> Seq<char> {
    if s.len() > 0 && s.last() == '\r' {
        s.drop_last()
    } else {
        s
    }
}

/// The lines of `s`. A line ends in a line feed or in a carriage return and a
/// line feed; the last one may end without.
pub open spec fn lines_spec(s: Seq<char>) -> Seq<Seq<char>> {
    let p = split_spec(s, '\n');
    let ended = Seq::new((p.len() - 1) as nat, |i: int| drop_return(p[i]));
    if p.last().len() == 0 {
        ended
    } else {
        ended.push(p.last())
    }
}

/// The lines of `v`.
pub fn lines(v: &Vec<char>) -> (r: Vec<Vec<char>>)
    ensures
        texts(r@) == lines_spec(v@),
{
    let p = split(v, '\n');
    let ghost q = texts(p@);
    let mut r: Vec<Vec<char>> = Vec::new();
    let n: usize = p.len();
    assert(q.len() == n);
    for i in 0..n - 1
        invariant
            n == p@.len() >= 1,
            q == texts(p@),
            r@.len() == i,
            forall|j: int| 0 <= j < i ==> #[trigger] r@[j]@ == drop_return(q[j]),
    {
        let k: usize = p[i].len();
        assert(q[i as int] == p@[i as int]@);
        if k > 0 && p[i][k - 1] == '\r' {
            let line = piece(&p[i], 0, k - 1);
            assert(line@ =~= drop_return(q[i as int]));
            r.push(line);
        } else {
            let line = piece(&p[i], 0, k);
            assert(line@ =~= drop_return(q[i as int]));
            r.push(line);
        }
    }
    assert(q.last() == p@[n - 1]@);
    if p[n - 1].len() > 0 {
        let line = piece(&p[n - 1], 0, p[n - 1].len());
        assert(line@ =~= q.last());
        r.push(line);
    }
    assert(texts(r@) =~= lines_spec(v@));
    r
}

/// Lines, each with the line feed that ends it.
pub open spec fn ended_lines(lines: Seq<Seq<char>>) -> Seq<char>
    decreases lines.len(),
{
    if lines.len() == 0 {
        Seq::empty()
    } else {
        (ended_lines(lines.drop_last()) + lines.last()).push('\n')
    }
}

/// A text of pieces that hold no separator, with separators between them, splits into them.
pub proof fn split_joined(a: Seq<char>, b: Seq<char>, c: char)
    ensures
        split_spec(a.push(c) + b, c) == split_spec(a, c) + split_spec(b, c),
        split_spec(b, c).len() >= 1,
    decreases b.len(),
{
    let t = a.push(c);
    if b.len() == 0 {
        assert(t + b =~= t);
        assert(t.drop_last() =~= a);
        assert(split_spec(b, c) =~= seq![Seq::<char>::empty()]);
        assert(split_spec(t, c) =~= split_spec(a, c) + split_spec(b, c));
    } else {
        split_joined(a, b.drop_last(), c);
        let s = t + b;
        assert(s.drop_last() =~= t + b.drop_last());
        let (p, q) = (split_spec(a, c), split_spec(b.drop_last(), c));
        if b.last() == c {
            assert((p + q).push(Seq::empty()) =~= p + q.push(Seq::empty()));
        } else {
            let piece = q.last().push(b.last());
            assert((p + q).last() == q.last());
            assert((p + q).drop_last().push(piece) =~= p + q.drop_last().push(piece));
        }
    }
}

/// A text without the separator is one piece.
pub proof fn split_whole(s: Seq<char>, c: char)
    requires
        !s.contains(c),
    ensures
        split_spec(s, c) == seq![s],
    decreases s.len(),
{
    if s.len() > 0 {
        let t = s.drop_last();
        assert forall|i: int| 0 <= i < t.len() implies t[i] != c by {
            assert(s.contains(s[i]));
        }
        split_whole(t, c);
        assert(s.contains(s.last()));
        assert(t.push(s.last()) =~= s);
        assert(seq![t].drop_last().push(s) =~= seq![s]);
    } else {
        assert(s =~= Seq::empty());
    }
}

/// Whether a text can stand on a line: it holds no line feed and does not end in a carriage
/// return.
pub open spec fn is_line(s: Seq<char>) -> bool {
    !s.contains('\n') && (s.len() > 0 ==> s.last() != '\r')
}

proof fn split_ended(ls: Seq<Seq<char>>)
    requires
        forall|i: int| 0 <= i < ls.len() ==> is_line(#[trigger] ls[i]),
    ensures
        split_spec(ended_lines(ls), '\n') == ls.push(Seq::empty()),
    decreases ls.len(),
{
    if ls.len() == 0 {
        assert(split_spec(ended_lines(ls), '\n') =~= ls.push(Seq::empty()));
    } else {
        let front = ls.drop_last();
        assert forall|i: int| 0 <= i < front.len() implies is_line(#[trigger] front[i]) by {
            assert(front[i] == ls[i]);
        }
        split_ended(front);
        let (e, l) = (ended_lines(front), ls.last());
        assert(is_line(ls[ls.len() - 1]));
        // The text is what stands before the last line feed, and nothing behind it.
        let body = e + l;
        split_joined(body, Seq::empty(), '\n');
        assert(body.push('\n') + Seq::<char>::empty() =~= body.push('\n'));
        assert(split_spec(Seq::empty(), '\n') =~= seq![Seq::<char>::empty()]);
        if front.len() == 0 {
            assert(e =~= Seq::empty());
            assert(body =~= l);
            split_whole(l, '\n');
            assert(split_spec(ended_lines(ls), '\n') =~= ls.push(Seq::empty()));
        } else {
            // `e` ends in a line feed.
            let e1 = e.drop_last();
            assert(e =~= e1.push('\n'));
            split_joined(e1, l, '\n');
            split_joined(e1, Seq::empty(), '\n');
            assert(e1.push('\n') + Seq::<char>::empty() =~= e);
            split_whole(l, '\n');
            let s1 = split_spec(e1, '\n');
            assert(s1 + seq![Seq::<char>::empty()] == front.push(Seq::empty()));
            assert(s1 =~= front) by {
                assert(s1.len() == front.len());
                assert forall|i: int| 0 <= i < front.len() implies s1[i] == front[i] by {
                    assert((s1 + seq![Seq::<char>::empty()])[i] == s1[i]);
                    assert(front.push(Seq::empty())[i] == front[i]);
                }
            }
            assert(split_spec(ended_lines(ls), '\n') =~= ls.push(Seq::empty()));
        }
    }
}

/// Lines that were ended are read back.
pub proof fn lines_are_read_back(ls: Seq<Seq<char>>)
    requires
        forall|i: int| 0 <= i < ls.len() ==> is_line(#[trigger] ls[i]),
    ensures
        lines_spec(ended_lines(ls)) == ls,
{
    split_ended(ls);
    let p = ls.push(Seq::<char>::empty());
    assert forall|i: int| 0 <= i < ls.len() implies drop_return(p[i]) == ls[i] by {
        assert(is_line(ls[i]));
    }
    assert(Seq::new((p.len() - 1) as nat, |i: int| drop_return(p[i])) =~= ls);
}

/// Trimming leaves a text that neither starts nor ends in white space.
pub proof fn trim_keeps(s: Seq<char>)
    requires
        s.len() > 0 ==> !is_white(s[0]) && !is_white(s.last()),
    ensures
        trim_spec(s) == s,
{
}

// ---------------------------------------------------------------------------
// Searching and changing case
// ---------------------------------------------------------------------------

/// The place of the first `a` or `b` in `s`, or the length of `s`.
pub open spec fn find_spec(s: Seq<char>, a: char, b: char) -> int
    decreases s.len(),
{
    if s.len() == 0 || s[0] == a || s[0] == b {
        0
    } else {
        1 + find_spec(s.drop_first(), a, b)
    }
}

/// Nothing before the first `c` is a `c`.
pub proof fn find_bounds(s: Seq<char>, c: char)
    ensures
        0 <= find_spec(s, c, c) <= s.len(),
        forall|i: int| 0 <= i < find_spec(s, c, c) ==> s[i] != c,
    decreases s.len(),
{
    if s.len() > 0 && s[0] != c {
        let t = s.drop_first();
        find_bounds(t, c);
        assert forall|i: int| 0 <= i < find_spec(s, c, c) implies s[i] != c by {
            if i > 0 {
                assert(s[i] == t[i - 1]);
            }
        }
    }
}

/// The place of the first `a` or `b` in `v`, or the length of `v`.
pub fn find(v: &Vec<char>, a: char, b: char) -> (r: usize)
    ensures
        r == find_spec(v@, a, b),
        r <= v@.len(),
        forall|j: int| 0 <= j < r ==> v@[j] != a && v@[j] != b,
        r < v@.len() ==> v@[r as int] == a || v@[r as int] == b,
{
    let mut i: usize = 0;
    assert(v@.skip(0) =~= v@);
    while i < v.len() && v[i] != a && v[i] != b
        invariant
            i <= v@.len(),
            find_spec(v@, a, b) == i + find_spec(v@.skip(i as int), a, b),
            forall|j: int| 0 <= j < i ==> v@[j] != a && v@[j] != b,
        decreases v@.len() - i,
    {
        assert(v@.skip(i as int).drop_first() =~= v@.skip(i + 1));
        i += 1;
    }
    i
}

/// The first separator stands behind a text that holds none.
pub proof fn find_behind(s: Seq<char>, a: Seq<char>, c: char)
    requires
        !a.contains(c),
        starts_with_spec(s, a),
        s.len() > a.len() ==> s[a.len() as int] == c,
    ensures
        find_spec(s, c, c) == a.len(),
    decreases a.len(),
{
    if a.len() > 0 {
        assert(s[0] == s.take(a.len() as int)[0]);
        assert(a.contains(a[0]));
        let (t, b) = (s.drop_first(), a.drop_first());
        assert(t.take(b.len() as int) =~= b) by {
            assert forall|i: int| 0 <= i < b.len() implies t[i] == b[i] by {
                assert(s.take(a.len() as int)[i + 1] == a[i + 1]);
            }
        }
        assert forall|i: int| 0 <= i < b.len() implies b[i] != c by {
            assert(a.contains(a[i + 1]));
        }
        find_behind(t, b, c);
    }
}

/// An ASCII letter in lower case; another character as it is.
pub open spec fn lower_char(c: char) -> char {
    if 'A' <= c <= 'Z' {
        ((c as u32 + 32) as u8) as char
    } else {
        c
    }
}

/// A text with its ASCII letters in lower case.
pub open spec fn lower_spec(s: Seq<char>) -> Seq<char> {
    Seq::new(s.len(), |i: int| lower_char(s[i]))
}

/// A text with its ASCII letters in lower case.
pub fn lower(v: &Vec<char>) -> (r: Vec<char>)
    ensures
        r@ == lower_spec(v@),
{
    let mut r: Vec<char> = Vec::new();
    for i in 0..v.len()
        invariant
            r@ == lower_spec(v@).take(i as int),
    {
        let c = v[i];
        if 'A' <= c && c <= 'Z' {
            r.push(((c as u32 + 32) as u8) as char);
        } else {
            r.push(c);
        }
        assert(r@ =~= lower_spec(v@).take(i + 1));
    }
    assert(r@ =~= lower_spec(v@));
    r
}

/// The place of the first white space in `s`, or the length of `s`.
pub open spec fn find_white_spec(s: Seq<char>) -> int
    decreases s.len(),
{
    if s.len() == 0 || is_white(s[0]) {
        0
    } else {
        1 + find_white_spec(s.drop_first())
    }
}

/// The place of the first white space in `v`, or the length of `v`.
pub fn find_white(v: &Vec<char>) -> (r: usize)
    ensures
        r == find_white_spec(v@),
        r <= v@.len(),
{
    let mut i: usize = 0;
    assert(v@.skip(0) =~= v@);
    while i < v.len() && !white(v[i])
        invariant
            i <= v@.len(),
            find_white_spec(v@) == i + find_white_spec(v@.skip(i as int)),
        decreases v@.len() - i,
    {
        assert(v@.skip(i as int).drop_first() =~= v@.skip(i + 1));
        i += 1;
    }
    i
}

/// Whether `t` stands in `s` at the place `i`.
pub open spec fn stands_at(s: Seq<char>, t: Seq<char>, i: int) -> bool {
    0 <= i && i + t.len() <= s.len() && s.subrange(i, i + t.len()) == t
}

/// Whether `t` stands in `v` at the place `i`.
pub fn stands(v: &Vec<char>, t: &Vec<char>, i: usize) -> (r: bool)
    ensures
        r == stands_at(v@, t@, i as int),
{
    if i > v.len() || t.len() > v.len() - i {
        return false;
    }
    let p = piece(v, i, i + t.len());
    same_chars(&p, t)
}

/// Whether `t` stands anywhere in `s`.
pub open spec fn contains_spec(s: Seq<char>, t: Seq<char>) -> bool {
    exists|i: int| stands_at(s, t, i)
}

/// The first place from `i` on at which `t` stands in `s`.
pub open spec fn place_from(s: Seq<char>, t: Seq<char>, i: int) -> Option<int>
    decreases s.len() + 1 - i,
{
    if i > s.len() {
        None
    } else if stands_at(s, t, i) {
        Some(i)
    } else {
        place_from(s, t, i + 1)
    }
}

/// The first place at which `t` stands in `s`.
pub open spec fn place_spec(s: Seq<char>, t: Seq<char>) -> Option<int> {
    place_from(s, t, 0)
}

/// The first place at which `t` stands in `v`.
pub fn find_chars(v: &Vec<char>, t: &Vec<char>) -> (r: Option<usize>)
    ensures
        match r {
            Some(i) => place_spec(v@, t@) == Some(i as int) && stands_at(v@, t@, i as int),
            None => place_spec(v@, t@) is None,
        },
        r is Some <==> contains_spec(v@, t@),
{
    let n: usize = v.len();
    let mut i: usize = 0;
    while i < n
        invariant
            i <= n == v@.len(),
            place_spec(v@, t@) == place_from(v@, t@, i as int),
            forall|j: int| 0 <= j < i ==> !stands_at(v@, t@, j),
        decreases n - i,
    {
        if stands(v, t, i) {
            return Some(i);
        }
        i += 1;
    }
    if stands(v, t, n) {
        return Some(n);
    }
    assert forall|j: int| !stands_at(v@, t@, j) by {
        if stands_at(v@, t@, j) {
            assert(j <= n);
        }
    }
    assert(place_from(v@, t@, n + 1) is None);
    None
}

/// The first place at which `lit` stands in `v`.
pub fn find_text(v: &Vec<char>, lit: &str) -> (r: Option<usize>)
    ensures
        match r {
            Some(i) => place_spec(v@, lit@) == Some(i as int) && stands_at(v@, lit@, i as int),
            None => place_spec(v@, lit@) is None,
        },
        r is Some <==> contains_spec(v@, lit@),
{
    let t = chars_of(lit);
    find_chars(v, &t)
}

/// `s` with each `from` in it, from the left, turned into `to`.
pub open spec fn replace_spec(s: Seq<char>, from: Seq<char>, to: Seq<char>) -> Seq<char>
    decreases s.len(),
{
    if s.len() == 0 || from.len() == 0 {
        s
    } else if starts_with_spec(s, from) {
        to + replace_spec(s.skip(from.len() as int), from, to)
    } else {
        seq![s[0]] + replace_spec(s.drop_first(), from, to)
    }
}

/// `v` with each `from` in it, from the left, turned into `to`.
pub fn replace(v: &Vec<char>, from: &str, to: &str) -> (r: Vec<char>)
    ensures
        r@ == replace_spec(v@, from@, to@),
{
    let f = chars_of(from);
    let mut r: Vec<char> = Vec::new();
    let n: usize = v.len();
    if f.len() == 0 {
        put_chars(&mut r, v);
        assert(r@ =~= v@);
        return r;
    }
    let mut i: usize = 0;
    assert(v@.skip(0) =~= v@);
    assert(r@ + replace_spec(v@, from@, to@) =~= replace_spec(v@, from@, to@));
    while i < n
        invariant
            i <= n == v@.len(),
            f@ == from@,
            f@.len() > 0,
            replace_spec(v@, from@, to@) == r@ + replace_spec(v@.skip(i as int), from@, to@),
        decreases n - i,
    {
        let ghost rest = v@.skip(i as int);
        let ghost before = r@;
        if stands(v, &f, i) {
            assert(rest.take(f@.len() as int) =~= v@.subrange(i as int, i + f@.len()));
            put_text(&mut r, to);
            assert(rest.skip(f@.len() as int) =~= v@.skip(i + f@.len()));
            assert(before + (to@ + replace_spec(v@.skip(i + f@.len()), from@, to@)) =~= r@
                + replace_spec(v@.skip(i + f@.len()), from@, to@));
            i += f.len();
        } else {
            proof {
                if starts_with_spec(rest, from@) {
                    assert(rest.take(f@.len() as int) =~= v@.subrange(i as int, i + f@.len()));
                }
            }
            r.push(v[i]);
            assert(rest.drop_first() =~= v@.skip(i + 1));
            assert(before + (seq![rest[0]] + replace_spec(v@.skip(i + 1), from@, to@)) =~= r@
                + replace_spec(v@.skip(i + 1), from@, to@));
            i += 1;
        }
    }
    assert(v@.skip(n as int) =~= Seq::empty());
    assert(r@ + Seq::<char>::empty() =~= r@);
    r
}

/// Whether `a` comes before `b` in the order of their characters.
pub open spec fn text_lt(a: Seq<char>, b: Seq<char>) -> bool
    decreases a.len(),
{
    if b.len() == 0 {
        false
    } else if a.len() == 0 {
        true
    } else if a[0] != b[0] {
        a[0] < b[0]
    } else {
        text_lt(a.drop_first(), b.drop_first())
    }
}

/// Whether `a` comes before `b` in the order of their characters.
pub fn before(a: &Vec<char>, b: &Vec<char>) -> (r: bool)
    ensures
        r == text_lt(a@, b@),
{
    let mut i: usize = 0;
    assert(a@.skip(0) =~= a@ && b@.skip(0) =~= b@);
    while i < a.len() && i < b.len() && a[i] == b[i]
        invariant
            i <= a@.len(),
            i <= b@.len(),
            text_lt(a@, b@) == text_lt(a@.skip(i as int), b@.skip(i as int)),
        decreases a@.len() - i,
    {
        assert(a@.skip(i as int).drop_first() =~= a@.skip(i + 1));
        assert(b@.skip(i as int).drop_first() =~= b@.skip(i + 1));
        i += 1;
    }
    if i >= b.len() {
        false
    } else if i >= a.len() {
        true
    } else {
        a[i] < b[i]
    }
}

/// The order of texts has no cycles and leaves no two texts apart.
pub proof fn text_order(a: Seq<char>, b: Seq<char>, c: Seq<char>)
    ensures
        !text_lt(a, a),
        text_lt(a, b) && text_lt(b, c) ==> text_lt(a, c),
        !text_lt(a, b) && !text_lt(b, a) ==> a == b,
    decreases a.len() + b.len() + c.len(),
{
    if a.len() > 0 && b.len() > 0 && c.len() > 0 {
        text_order(a.drop_first(), b.drop_first(), c.drop_first());
    }
    if a.len() > 0 {
        text_irreflexive(a);
    }
    if a.len() > 0 && b.len() > 0 {
        text_total(a, b);
    } else if !text_lt(a, b) && !text_lt(b, a) {
        assert(a =~= b);
    }
}

proof fn text_irreflexive(a: Seq<char>)
    ensures
        !text_lt(a, a),
    decreases a.len(),
{
    if a.len() > 0 {
        text_irreflexive(a.drop_first());
    }
}

proof fn text_total(a: Seq<char>, b: Seq<char>)
    ensures
        !text_lt(a, b) && !text_lt(b, a) ==> a == b,
    decreases a.len(),
{
    if a.len() > 0 && b.len() > 0 {
        text_total(a.drop_first(), b.drop_first());
        if !text_lt(a, b) && !text_lt(b, a) {
            assert(a[0] == b[0]);
            assert(seq![a[0]] + a.drop_first() =~= a);
            assert(seq![b[0]] + b.drop_first() =~= b);
        }
    } else if !text_lt(a, b) && !text_lt(b, a) {
        assert(a =~= b);
    }
}

// ---------------------------------------------------------------------------
// Decimal numerals
// ---------------------------------------------------------------------------

/// The ASCII digits.
pub open spec fn is_digit(c: char) -> bool {
    '0' <= c <= '9'
}

/// Whether `s` holds digits only.
pub open spec fn all_digits(s: Seq<char>) -> bool {
    forall|i: int| 0 <= i < s.len() ==> is_digit(#[trigger] s[i])
}

/// The number that the digits of `s` stand for.
pub open spec fn digits_value(s: Seq<char>) -> nat
    decreases s.len(),
{
    if s.len() == 0 {
        0
    } else {
        10 * digits_value(s.drop_last()) + (s.last() as u32 - 0x30) as nat
    }
}

/// The digit `d`.
pub open spec fn digit_char(d: nat) -> char {
    ((0x30 + d) as u8) as char
}

/// The decimal numeral of `n`.
pub open spec fn nat_text(n: nat) -> Seq<char>
    decreases n,
{
    if n < 10 {
        seq![digit_char(n)]
    } else {
        nat_text(n / 10).push(digit_char(n % 10))
    }
}

/// A decimal numeral holds digits only and stands for its number.
pub proof fn nat_text_value(n: nat)
    ensures
        all_digits(nat_text(n)),
        digits_value(nat_text(n)) == n,
        nat_text(n).len() >= 1,
    decreases n,
{
    if n >= 10 {
        nat_text_value(n / 10);
        assert(nat_text(n).drop_last() =~= nat_text(n / 10));
    } else {
        assert(nat_text(n).drop_last() =~= Seq::empty());
        assert(digits_value(Seq::empty()) == 0);
    }
}

/// Appends the decimal numeral of `n`.
pub fn put_nat(v: &mut Vec<char>, n: u128)
    ensures
        final(v)@ == old(v)@ + nat_text(n as nat),
    decreases n,
{
    let ghost before = v@;
    if n >= 10 {
        put_nat(v, n / 10);
    }
    let d: u8 = (n % 10) as u8;
    v.push((0x30 + d) as char);
    assert(v@ =~= before + nat_text(n as nat));
}

/// Whether `v` holds digits only.
pub fn only_digits(v: &Vec<char>) -> (r: bool)
    ensures
        r == all_digits(v@),
{
    for i in 0..v.len()
        invariant
            forall|j: int| 0 <= j < i ==> is_digit(#[trigger] v@[j]),
    {
        if !('0' <= v[i] && v[i] <= '9') {
            assert(!is_digit(v@[i as int]));
            return false;
        }
    }
    true
}

/// The number that `v` stands for, or `cap` where that is less.
pub fn digits_capped(v: &Vec<char>, cap: u128) -> (r: u128)
    requires
        all_digits(v@),
        cap <= 0x1000_0000_0000_0000_0000_0000_0000_0000,
    ensures
        r == if digits_value(v@) < cap {
            digits_value(v@)
        } else {
            cap as nat
        },
{
    let mut acc: u128 = 0;
    assert(v@.take(0) =~= Seq::empty());
    for i in 0..v.len()
        invariant
            all_digits(v@),
            cap <= 0x1000_0000_0000_0000_0000_0000_0000_0000,
            acc == if digits_value(v@.take(i as int)) < cap {
                digits_value(v@.take(i as int))
            } else {
                cap as nat
            },
    {
        assert(v@.take(i + 1).drop_last() =~= v@.take(i as int));
        assert(is_digit(v@[i as int]));
        let d: u128 = (v[i] as u32 - 0x30) as u128;
        let next: u128 = acc * 10 + d;
        acc = if next < cap {
            next
        } else {
            cap
        };
    }
    assert(v@.take(v@.len() as int) =~= v@);
    acc
}

/// The natural number that `s` spells: digits, perhaps after a plus sign.
pub open spec fn nat_spec(s: Seq<char>) -> Option<nat> {
    let t = if s.len() > 0 && s[0] == '+' {
        s.drop_first()
    } else {
        s
    };
    if t.len() > 0 && all_digits(t) {
        Some(digits_value(t))
    } else {
        None
    }
}

/// The natural number that `v` spells, where it is no more than `max`.
pub fn parse_nat(v: &Vec<char>, max: u64) -> (r: Option<u64>)
    ensures
        match nat_spec(v@) {
            Some(n) if n <= max => r == Some(n as u64),
            _ => r is None,
        },
{
    let start: usize = if v.len() > 0 && v[0] == '+' {
        1
    } else {
        0
    };
    let t = piece(v, start, v.len());
    assert(v@.subrange(0, v@.len() as int) =~= v@);
    assert(v@.len() > 0 ==> v@.subrange(1, v@.len() as int) =~= v@.drop_first());
    if t.len() == 0 || !only_digits(&t) {
        return None;
    }
    let n: u128 = digits_capped(&t, max as u128 + 1);
    if n <= max as u128 {
        Some(n as u64)
    } else {
        None
    }
}

/// What [`str::to_lowercase`] makes of a text that is not ASCII, by the Unicode
/// tables.
pub uninterp spec fn unicode_lowercase(s: Seq<char>) -> Seq<char>;

/// Whether `s` holds ASCII characters only.
pub open spec fn is_ascii_text(s: Seq<char>) -> bool {
    forall|i: int| 0 <= i < s.len() ==> (#[trigger] s[i] as u32) < 128
}

/// A text in lower case.
pub open spec fn lowercase_spec(s: Seq<char>) -> Seq<char> {
    if is_ascii_text(s) {
        lower_spec(s)
    } else {
        unicode_lowercase(s)
    }
}

/// `str::to_lowercase` maps an ASCII text letter by letter, and any other by the
/// Unicode tables.
pub assume_specification[ str::to_lowercase ](s: &str) -> (r: String)
    ensures
        is_ascii_text(s@) ==> r@ == lower_spec(s@),
        !is_ascii_text(s@) ==> r@ == unicode_lowercase(s@),
;

/// A text in lower case.
pub fn lowercase(v: &Vec<char>) -> (r: Vec<char>)
    ensures
        r@ == lowercase_spec(v@),
{
    let s = string_of(v);
    let t = s.as_str().to_lowercase();
    chars_of(t.as_str())
}

} // verus!
