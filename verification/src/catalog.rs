//! Source catalogs: tables of text with named columns.
//!
//! A catalog comes as tab-separated values, as comma-separated values, as a
//! VOTable, in SExtractor's `ASCII_HEAD` format (column names in comment lines), or
//! as bare columns.

use crate::num::Double;
use crate::sorting::{arrangement, stable_order, KeyList, Keys};
use crate::text::{
    chars_of, contains_spec, find, find_spec, find_text, find_white, find_white_spec, is_white,
    lines, lines_spec, lower, lower_spec, nat_spec, nat_text, parse_nat, piece, put_nat, put_text,
    replace, replace_spec, same_text, split, split_spec, starts_with, starts_with_spec, string_of,
    strip_back, strip_front, text_lt, texts, trim, trim_back_char, trim_front, trim_front_char,
    trim_spec, white, words, words_spec,
};
use vstd::prelude::*;

verus! {

/// A table of text.
#[derive(Clone, Debug)]
pub struct Catalog {
    pub columns: Vec<String>,
    pub rows: Vec<Vec<String>>,
}

/// A table by its contents.
#[verifier::ext_equal]
pub struct CatalogView {
    pub columns: Seq<Seq<char>>,
    pub rows: Seq<Seq<Seq<char>>>,
}

/// The direction of a sort.
#[derive(Clone, Copy, Debug, PartialEq, Eq, Structural)]
pub enum SortDir {
    Asc,
    Desc,
}

/// The texts that a list of strings holds.
pub open spec fn names(v: Seq<String>) -> Seq<Seq<char>> {
    Seq::new(v.len(), |i: int| v[i]@)
}

/// The texts that a table holds.
pub open spec fn cells(v: Seq<Vec<String>>) -> Seq<Seq<Seq<char>>> {
    Seq::new(v.len(), |i: int| names(v[i]@))
}

impl View for Catalog {
    type V = CatalogView;

    open spec fn view(&self) -> CatalogView {
        CatalogView { columns: names(self.columns@), rows: cells(self.rows@) }
    }
}

/// The strings with the given characters.
pub fn strings_of(v: &Vec<Vec<char>>) -> (r: Vec<String>)
    ensures
        names(r@) == texts(v@),
{
    let mut r: Vec<String> = Vec::new();
    for i in 0..v.len()
        invariant
            names(r@) =~= texts(v@).take(i as int),
    {
        let s = string_of(&v[i]);
        let ghost b = names(r@);
        r.push(s);
        assert(names(r@) =~= b.push(texts(v@)[i as int]));
    }
    assert(names(r@) =~= texts(v@));
    r
}

/// The name of a column that has none, by its place.
pub open spec fn column_name(n: nat) -> Seq<char> {
    "col"@ + nat_text(n)
}

fn name_column(n: u128) -> (r: String)
    ensures
        r@ == column_name(n as nat),
{
    let mut v: Vec<char> = Vec::new();
    put_text(&mut v, "col");
    put_nat(&mut v, n);
    assert(v@ =~= column_name(n as nat));
    string_of(&v)
}

/// Column names, with names by their places added up to `n` of them.
pub open spec fn padded_columns(columns: Seq<Seq<char>>, n: nat) -> Seq<Seq<char>> {
    if columns.len() >= n {
        columns
    } else {
        columns + Seq::new((n - columns.len()) as nat, |i: int| column_name(columns.len() + i as nat + 1))
    }
}

/// Column names for a table: at least as many as its first row has cells.
pub open spec fn columns_for(columns: Seq<Seq<char>>, rows: Seq<Seq<Seq<char>>>) -> Seq<Seq<char>> {
    if rows.len() > 0 {
        padded_columns(columns, rows[0].len())
    } else {
        columns
    }
}

fn pad_columns(columns: &mut Vec<String>, n: usize)
    ensures
        names(final(columns)@) == padded_columns(names(old(columns)@), n as nat),
{
    let ghost c0 = names(columns@);
    let start: usize = columns.len();
    if start >= n {
        return;
    }
    while columns.len() < n
        invariant
            c0.len() == start <= columns@.len() <= n,
            names(columns@) =~= padded_columns(c0, n as nat).take(columns@.len() as int),
        decreases n - columns@.len(),
    {
        let k: usize = columns.len();
        columns.push(name_column(k as u128 + 1));
    }
    assert(names(columns@) =~= padded_columns(c0, n as nat));
}

/// The table with its column names padded to its first row.
fn with_padding(columns: Vec<String>, rows: Vec<Vec<String>>) -> (r: Catalog)
    ensures
        r@ == (CatalogView {
            columns: columns_for(names(columns@), cells(rows@)),
            rows: cells(rows@),
        }),
{
    let mut columns = columns;
    if rows.len() > 0 {
        let n: usize = rows[0].len();
        assert(cells(rows@)[0].len() == n);
        pad_columns(&mut columns, n);
    }
    Catalog { columns, rows }
}

// ---------------------------------------------------------------------------
// Tab-separated values
// ---------------------------------------------------------------------------

/// The lines of a text split at tabs.
pub open spec fn tab_rows(lines: Seq<Seq<char>>) -> Seq<Seq<Seq<char>>> {
    Seq::new(lines.len(), |i: int| split_spec(lines[i], '\t'))
}

/// A table whose first row holds the column names.
pub open spec fn headed(rows: Seq<Seq<Seq<char>>>) -> CatalogView {
    if rows.len() == 0 {
        CatalogView { columns: Seq::empty(), rows: Seq::empty() }
    } else {
        CatalogView { columns: rows[0], rows: rows.drop_first() }
    }
}

/// The table whose first row holds the column names.
fn head_off(rows: Vec<Vec<String>>) -> (r: Catalog)
    ensures
        r@ == headed(cells(rows@)),
{
    let mut rows = rows;
    if rows.len() == 0 {
        let r = Catalog { columns: Vec::new(), rows: Vec::new() };
        assert(r@ =~= headed(cells(rows@)));
        return r;
    }
    let ghost all = cells(rows@);
    let columns = rows.remove(0);
    assert(cells(rows@) =~= all.drop_first());
    Catalog { columns, rows }
}

// ---------------------------------------------------------------------------
// SExtractor
// ---------------------------------------------------------------------------

/// The column name that a comment of the header gives: a number, one white space,
/// and the name. `s` is what stands behind the `#`.
pub open spec fn header_name(s: Seq<char>) -> Option<Seq<char>> {
    let t = trim_spec(s);
    let a = find_white_spec(t);
    let tail = t.skip(a + 1);
    if a < t.len() && (nat_spec(t.take(a)) matches Some(n) && n <= usize::MAX) {
        Some(tail.take(find_white_spec(tail)))
    } else {
        None
    }
}

fn header_name_of(v: &Vec<char>) -> (r: Option<Vec<char>>)
    ensures
        match r {
            Some(name) => header_name(v@) == Some(name@),
            None => header_name(v@) is None,
        },
{
    let t = trim(v);
    let a: usize = find_white(&t);
    if a >= t.len() {
        return None;
    }
    let number = piece(&t, 0, a);
    assert(number@ =~= t@.take(a as int));
    if parse_nat(&number, usize::MAX as u64).is_none() {
        return None;
    }
    let tail = piece(&t, a + 1, t.len());
    assert(tail@ =~= t@.skip(a + 1));
    let b: usize = find_white(&tail);
    let name = piece(&tail, 0, b);
    assert(name@ =~= tail@.take(b as int));
    Some(name)
}

/// The columns and rows that the lines of a SExtractor catalog give.
pub open spec fn sextractor_lines(lines: Seq<Seq<char>>) -> CatalogView
    decreases lines.len(),
{
    if lines.len() == 0 {
        CatalogView { columns: Seq::empty(), rows: Seq::empty() }
    } else {
        let st = sextractor_lines(lines.drop_last());
        let line = trim_spec(lines.last());
        if line.len() == 0 {
            st
        } else if line[0] == '#' {
            match header_name(line.drop_first()) {
                Some(name) => CatalogView { columns: st.columns.push(name), rows: st.rows },
                None => st,
            }
        } else {
            CatalogView { columns: st.columns, rows: st.rows.push(words_spec(line)) }
        }
    }
}

/// The table that a SExtractor catalog holds.
pub open spec fn sextractor_spec(text: Seq<char>) -> CatalogView {
    let st = sextractor_lines(lines_spec(text));
    CatalogView { columns: columns_for(st.columns, st.rows), rows: st.rows }
}

// ---------------------------------------------------------------------------
// Comma-separated values
// ---------------------------------------------------------------------------

/// The fields of a line that has been read in part.
pub struct Fields {
    pub done: Seq<Seq<char>>,
    pub open: Seq<char>,
    pub quoted: bool,
}

/// The fields of `s`: a comma ends a field unless it stands within quotes; the
/// quotes themselves are dropped.
pub open spec fn fields_spec(s: Seq<char>) -> Fields
    decreases s.len(),
{
    if s.len() == 0 {
        Fields { done: Seq::empty(), open: Seq::empty(), quoted: false }
    } else {
        let st = fields_spec(s.drop_last());
        let c = s.last();
        if c == '"' {
            Fields { quoted: !st.quoted, ..st }
        } else if c == ',' && !st.quoted {
            Fields { done: st.done.push(trim_spec(st.open)), open: Seq::empty(), ..st }
        } else {
            Fields { open: st.open.push(c), ..st }
        }
    }
}

/// The trimmed fields of a line of comma-separated values.
pub open spec fn csv_row(s: Seq<char>) -> Seq<Seq<char>> {
    let st = fields_spec(s);
    st.done.push(trim_spec(st.open))
}

fn csv_row_of(v: &Vec<char>) -> (r: Vec<String>)
    ensures
        names(r@) == csv_row(v@),
{
    let mut done: Vec<String> = Vec::new();
    let mut open: Vec<char> = Vec::new();
    let mut quoted: bool = false;
    assert(v@.take(0) =~= Seq::empty());
    assert(names(done@) =~= Seq::empty());
    for i in 0..v.len()
        invariant
            fields_spec(v@.take(i as int)) == (Fields {
                done: names(done@),
                open: open@,
                quoted,
            }),
    {
        assert(v@.take(i + 1).drop_last() =~= v@.take(i as int));
        let c = v[i];
        if c == '"' {
            quoted = !quoted;
        } else if c == ',' && !quoted {
            let ghost d = names(done@);
            let t = trim(&open);
            done.push(string_of(&t));
            open = Vec::new();
            assert(names(done@) =~= d.push(t@));
        } else {
            open.push(c);
        }
    }
    assert(v@.take(v@.len() as int) =~= v@);
    let ghost d = names(done@);
    let t = trim(&open);
    done.push(string_of(&t));
    assert(names(done@) =~= d.push(t@));
    done
}

/// The lines that are not blank.
pub open spec fn inked(lines: Seq<Seq<char>>) -> Seq<Seq<char>>
    decreases lines.len(),
{
    if lines.len() == 0 {
        Seq::empty()
    } else if trim_spec(lines.last()).len() == 0 {
        inked(lines.drop_last())
    } else {
        inked(lines.drop_last()).push(lines.last())
    }
}

/// The lines of `v` that are not blank.
fn inked_lines(v: &Vec<char>) -> (r: Vec<Vec<char>>)
    ensures
        texts(r@) == inked(lines_spec(v@)),
{
    let all = lines(v);
    let n: usize = all.len();
    let mut r: Vec<Vec<char>> = Vec::new();
    assert(texts(all@).take(0) =~= Seq::empty());
    assert(texts(r@) =~= Seq::empty());
    for i in 0..n
        invariant
            n == all@.len(),
            texts(r@) == inked(texts(all@).take(i as int)),
    {
        let ghost t = texts(all@);
        assert(t.take(i + 1).drop_last() =~= t.take(i as int));
        assert(t.take(i + 1).last() == all@[i as int]@);
        let w = trim(&all[i]);
        if w.len() > 0 {
            let ghost b = texts(r@);
            let line = piece(&all[i], 0, all[i].len());
            assert(line@ =~= all@[i as int]@);
            r.push(line);
            assert(texts(r@) =~= b.push(all@[i as int]@));
        }
    }
    assert(texts(all@).take(n as int) =~= texts(all@));
    r
}

/// The lines of a text split into fields.
pub open spec fn csv_rows(lines: Seq<Seq<char>>) -> Seq<Seq<Seq<char>>> {
    Seq::new(lines.len(), |i: int| csv_row(lines[i]))
}

/// The words of each line.
pub open spec fn word_rows(lines: Seq<Seq<char>>) -> Seq<Seq<Seq<char>>> {
    Seq::new(lines.len(), |i: int| words_spec(lines[i]))
}

/// A table of bare columns, named by their places.
pub open spec fn bare_spec(text: Seq<char>) -> CatalogView {
    let rows = word_rows(inked(lines_spec(text)));
    CatalogView { columns: columns_for(Seq::empty(), rows), rows }
}

// ---------------------------------------------------------------------------
// VOTable
// ---------------------------------------------------------------------------

/// A VOTable that has been read in part: the names of its fields, the rows that
/// are complete, and the cells of the row that is not.
pub struct Votable {
    pub columns: Seq<Seq<char>>,
    pub rows: Seq<Seq<Seq<char>>>,
    pub row: Seq<Seq<char>>,
}

/// A text without the quotes around it.
pub open spec fn unquoted(s: Seq<char>) -> Seq<char> {
    let t = trim_back_char(trim_front_char(s, '"'), '"');
    trim_back_char(trim_front_char(t, '\''), '\'')
}

/// The words of a tag, as far as it has been read.
pub struct TagWords {
    /// The words that are complete.
    pub done: Seq<Seq<char>>,
    /// The word that is being read.
    pub word: Seq<char>,
    /// The quote that is open.
    pub quote: Option<char>,
}

/// The words of a tag, parted by the white space that does not stand in quotes.
pub open spec fn tag_words_read(s: Seq<char>) -> TagWords
    decreases s.len(),
{
    if s.len() == 0 {
        TagWords { done: Seq::empty(), word: Seq::empty(), quote: None }
    } else {
        let p = tag_words_read(s.drop_last());
        let c = s.last();
        match p.quote {
            Some(q) => TagWords {
                word: p.word.push(c),
                quote: if c == q {
                    None
                } else {
                    Some(q)
                },
                ..p
            },
            None => if !is_white(c) {
                TagWords {
                    word: p.word.push(c),
                    quote: if c == '"' || c == '\'' {
                        Some(c)
                    } else {
                        None
                    },
                    ..p
                }
            } else if p.word.len() > 0 {
                TagWords { done: p.done.push(p.word), word: Seq::empty(), ..p }
            } else {
                p
            },
        }
    }
}

/// The words of a tag.
pub open spec fn tag_words(s: Seq<char>) -> Seq<Seq<char>> {
    let p = tag_words_read(s);
    if p.word.len() > 0 {
        p.done.push(p.word)
    } else {
        p.done
    }
}

/// The place of the first `>` that does not stand in quotes; none where a `<`, which no quoted
/// value holds, comes first.
pub open spec fn quoted_end(s: Seq<char>, quote: Option<char>) -> Option<int>
    decreases s.len(),
{
    if s.len() == 0 || s[0] == '<' {
        None
    } else {
        match quote {
            Some(q) => shifted(
                quoted_end(
                    s.skip(1),
                    if s[0] == q {
                        None
                    } else {
                        quote
                    },
                ),
                1,
            ),
            None => if s[0] == '>' {
                Some(0)
            } else {
                shifted(
                    quoted_end(
                        s.skip(1),
                        if s[0] == '"' || s[0] == '\'' {
                            Some(s[0])
                        } else {
                            None
                        },
                    ),
                    1,
                )
            },
        }
    }
}

/// A place that is counted from `k` places before.
pub open spec fn shifted(place: Option<int>, k: int) -> Option<int> {
    match place {
        Some(i) => Some(i + k),
        None => None,
    }
}

/// Where a tag ends: at the first `>` outside quotes, or, where quotes are left open, at the first
/// one.
pub open spec fn tag_end(s: Seq<char>) -> int {
    match quoted_end(s, None) {
        Some(i) => i,
        None => find_spec(s, '>', '>'),
    }
}

proof fn quoted_end_range(s: Seq<char>, quote: Option<char>)
    ensures
        quoted_end(s, quote) matches Some(i) ==> 0 <= i < s.len(),
    decreases s.len(),
{
    if s.len() > 0 && s[0] != '<' {
        quoted_end_range(s.skip(1), None);
        quoted_end_range(s.skip(1), quote);
        quoted_end_range(s.skip(1), Some(s[0]));
    }
}

proof fn tag_end_range(s: Seq<char>)
    ensures
        0 <= tag_end(s) <= s.len(),
{
    quoted_end_range(s, None);
    find_range(s, '>', '>');
}

fn find_tag_end(v: &Vec<char>) -> (r: usize)
    ensures
        r == tag_end(v@),
{
    let n: usize = v.len();
    let mut quote: Option<char> = None;
    let mut i: usize = 0;
    assert(v@.skip(0) =~= v@);
    assert(shifted(quoted_end(v@, None), 0) == quoted_end(v@, None));
    while i < n && v[i] != '<'
        invariant
            n == v@.len(),
            i <= n,
            quoted_end(v@, None) == shifted(quoted_end(v@.skip(i as int), quote), i as int),
        decreases n - i,
    {
        assert(v@.skip(i as int).skip(1) =~= v@.skip(i + 1));
        match quote {
            Some(q) => if v[i] == q {
                quote = None;
            },
            None => if v[i] == '>' {
                return i;
            } else if v[i] == '"' || v[i] == '\'' {
                quote = Some(v[i]);
            },
        }
        i = i + 1;
    }
    assert(quoted_end(v@.skip(i as int), quote) is None);
    find(v, '>', '>')
}

/// The value of an attribute: what stands between its quotes.
pub open spec fn attribute_value(s: Seq<char>) -> Seq<char> {
    if s.len() >= 2 && (s[0] == '"' || s[0] == '\'') && s.last() == s[0] {
        s.subrange(1, s.len() - 1)
    } else {
        unquoted(s)
    }
}

/// The name that a word of a tag gives, if it is a `name=` attribute.
pub open spec fn name_of_word(w: Seq<char>) -> Option<Seq<char>> {
    let t = trim_back_char(w, '/');
    if starts_with_spec(t, "name="@) {
        Some(attribute_value(t.skip(5)))
    } else {
        None
    }
}

/// The name that the words of a tag give: that of the first attribute that does.
pub open spec fn name_of_words(ws: Seq<Seq<char>>) -> Option<Seq<char>>
    decreases ws.len(),
{
    if ws.len() == 0 {
        None
    } else {
        match name_of_word(ws[0]) {
            Some(n) => Some(n),
            None => name_of_words(ws.drop_first()),
        }
    }
}

/// The text of a cell, with the entities for `&`, `<`, `>` and `"` replaced.
pub open spec fn decoded(s: Seq<char>) -> Seq<char> {
    replace_spec(
        replace_spec(
            replace_spec(replace_spec(s, "&amp;"@, "&"@), "&lt;"@, "<"@),
            "&gt;"@,
            ">"@,
        ),
        "&quot;"@,
        "\""@,
    )
}

/// The name of a tag in lower case, without the slash of a closing tag or of an empty element.
pub open spec fn tag_name(tag: Seq<char>) -> Seq<char> {
    let ws = words_spec(trim_front_char(tag, '/'));
    if ws.len() == 0 {
        Seq::empty()
    } else {
        lower_spec(trim_back_char(ws[0], '/'))
    }
}

/// What a tag, with the trimmed text behind it, does to the table.
pub open spec fn tag_step(st: Votable, tag: Seq<char>, body: Seq<char>) -> Votable {
    let closes = tag.len() > 0 && tag[0] == '/';
    let name = tag_name(tag);
    if name == "field"@ && !closes {
        let column = match name_of_words(tag_words(tag)) {
            Some(n) => n,
            None => column_name(st.columns.len() + 1),
        };
        Votable { columns: st.columns.push(column), ..st }
    } else if name == "td"@ && !closes {
        // An empty element holds no text.
        let text = if tag.len() > 0 && tag.last() == '/' {
            Seq::empty()
        } else {
            decoded(body)
        };
        Votable { row: st.row.push(text), ..st }
    } else if name == "tr"@ && closes && st.row.len() > 0 {
        Votable { rows: st.rows.push(st.row), row: Seq::empty(), ..st }
    } else {
        st
    }
}

/// The table after the tags of `s`.
pub open spec fn votable_tags(s: Seq<char>, st: Votable) -> Votable
    decreases s.len(),
    via votable_tags_ends
{
    let open = find_spec(s, '<', '<');
    let after = s.skip(open + 1);
    let close = tag_end(after);
    let tail = after.skip(close + 1);
    let next = find_spec(tail, '<', '<');
    if open >= s.len() || close >= after.len() {
        st
    } else {
        votable_tags(
            tail.skip(next),
            tag_step(st, after.take(close), trim_spec(tail.take(next))),
        )
    }
}

#[via_fn]
proof fn votable_tags_ends(s: Seq<char>, st: Votable) {
    let open = find_spec(s, '<', '<');
    let after = s.skip(open + 1);
    let close = tag_end(after);
    let tail = after.skip(close + 1);
    find_range(s, '<', '<');
    tag_end_range(after);
    find_range(tail, '<', '<');
}

proof fn find_range(s: Seq<char>, a: char, b: char)
    ensures
        0 <= find_spec(s, a, b) <= s.len(),
    decreases s.len(),
{
    if s.len() > 0 && s[0] != a && s[0] != b {
        find_range(s.drop_first(), a, b);
    }
}

/// The table that a VOTable holds.
pub open spec fn votable_spec(text: Seq<char>) -> CatalogView {
    let st = votable_tags(
        text,
        Votable { columns: Seq::empty(), rows: Seq::empty(), row: Seq::empty() },
    );
    CatalogView { columns: columns_for(st.columns, st.rows), rows: st.rows }
}

fn unquote(v: &Vec<char>) -> (r: Vec<char>)
    ensures
        r@ == unquoted(v@),
{
    let a = strip_front(v, '"');
    let b = strip_back(&a, '"');
    let c = strip_front(&b, '\'');
    strip_back(&c, '\'')
}

fn attribute_value_of(v: &Vec<char>) -> (r: Vec<char>)
    ensures
        r@ == attribute_value(v@),
{
    let n: usize = v.len();
    if n >= 2 && (v[0] == '"' || v[0] == '\'') && v[n - 1] == v[0] {
        piece(v, 1, n - 1)
    } else {
        unquote(v)
    }
}

fn tag_words_of(tag: &Vec<char>) -> (r: Vec<Vec<char>>)
    ensures
        texts(r@) == tag_words(tag@),
{
    let n: usize = tag.len();
    let mut done: Vec<Vec<char>> = Vec::new();
    let mut word: Vec<char> = Vec::new();
    let mut quote: Option<char> = None;
    assert(tag@.take(0) =~= Seq::empty());
    assert(texts(done@) =~= Seq::empty());
    for i in 0..n
        invariant
            n == tag@.len(),
            tag_words_read(tag@.take(i as int)) == (TagWords {
                done: texts(done@),
                word: word@,
                quote,
            }),
    {
        let c: char = tag[i];
        assert(tag@.take(i + 1).drop_last() =~= tag@.take(i as int));
        assert(tag@.take(i + 1).last() == c);
        match quote {
            Some(q) => {
                word.push(c);
                if c == q {
                    quote = None;
                }
            },
            None => if !white(c) {
                word.push(c);
                if c == '"' || c == '\'' {
                    quote = Some(c);
                }
            } else if word.len() > 0 {
                let ghost d = texts(done@);
                let ghost w = word@;
                done.push(word);
                word = Vec::new();
                assert(texts(done@) =~= d.push(w));
            },
        }
    }
    assert(tag@.take(n as int) =~= tag@);
    if word.len() > 0 {
        let ghost d = texts(done@);
        let ghost w = word@;
        done.push(word);
        assert(texts(done@) =~= d.push(w));
    }
    done
}

fn attribute_name(ws: &Vec<Vec<char>>) -> (r: Option<Vec<char>>)
    ensures
        match r {
            Some(n) => name_of_words(texts(ws@)) == Some(n@),
            None => name_of_words(texts(ws@)) is None,
        },
{
    let n: usize = ws.len();
    assert(texts(ws@).skip(0) =~= texts(ws@));
    for i in 0..n
        invariant
            n == ws@.len(),
            name_of_words(texts(ws@)) == name_of_words(texts(ws@).skip(i as int)),
    {
        let ghost rest = texts(ws@).skip(i as int);
        assert(rest[0] == ws@[i as int]@);
        assert(rest.drop_first() =~= texts(ws@).skip(i + 1));
        let t = strip_back(&ws[i], '/');
        if starts_with(&t, "name=") {
            proof {
                reveal_strlit("name=");
            }
            let tail = piece(&t, 5, t.len());
            assert(tail@ =~= t@.skip(5));
            return Some(attribute_value_of(&tail));
        }
    }
    None
}

fn decode(v: &Vec<char>) -> (r: Vec<char>)
    ensures
        r@ == decoded(v@),
{
    let a = replace(v, "&amp;", "&");
    let b = replace(&a, "&lt;", "<");
    let c = replace(&b, "&gt;", ">");
    replace(&c, "&quot;", "\"")
}

fn tag_name_of(tag: &Vec<char>) -> (r: Vec<char>)
    ensures
        r@ == tag_name(tag@),
{
    let t = strip_front(tag, '/');
    let ws = words(&t);
    if ws.len() == 0 {
        assert(texts(ws@).len() == 0);
        Vec::new()
    } else {
        assert(texts(ws@)[0] == ws@[0]@);
        let w = strip_back(&ws[0], '/');
        lower(&w)
    }
}

// ---------------------------------------------------------------------------
// Any of them
// ---------------------------------------------------------------------------

/// The first line that is not blank.
pub open spec fn first_line(text: Seq<char>) -> Seq<char> {
    let ls = inked(lines_spec(text));
    if ls.len() == 0 {
        Seq::empty()
    } else {
        ls[0]
    }
}

/// The first 256 characters.
pub open spec fn head_spec(text: Seq<char>) -> Seq<char> {
    if text.len() > 256 {
        text.take(256)
    } else {
        text
    }
}

/// The table that a text holds, in the format that its beginning shows: an XML tag
/// of a VOTable among the first characters; else, by the first line that is not
/// blank, a comment sign, a tab, a comma, or none of these.
pub open spec fn catalog_spec(text: Seq<char>) -> CatalogView {
    let head = head_spec(text);
    let first = first_line(text);
    let opening = trim_front(first);
    if contains_spec(head, "<VOTABLE"@) || contains_spec(head, "<votable"@) || contains_spec(
        head,
        "<TABLE"@,
    ) {
        votable_spec(text)
    } else if opening.len() > 0 && opening[0] == '#' {
        sextractor_spec(text)
    } else if first.contains('\t') {
        headed(tab_rows(lines_spec(text)))
    } else if first.contains(',') {
        headed(csv_rows(inked(lines_spec(text))))
    } else {
        bare_spec(text)
    }
}

/// Trimming leaves the first character that is not white space.
proof fn trim_keeps_first(s: Seq<char>)
    requires
        trim_spec(s).len() > 0,
    ensures
        trim_front(s).len() > 0,
        trim_front(s)[0] == trim_spec(s)[0],
{
    trim_back_first(trim_front(s));
}

proof fn trim_back_first(s: Seq<char>)
    requires
        crate::text::trim_back(s).len() > 0,
    ensures
        s.len() > 0,
        crate::text::trim_back(s)[0] == s[0],
    decreases s.len(),
{
    if s.len() > 0 && is_white(s.last()) {
        trim_back_first(s.drop_last());
    }
}

/// The column names that hold positions along x, the first of them preferred.
pub open spec fn x_names() -> Seq<Seq<char>> {
    seq!["X_IMAGE"@, "XWIN_IMAGE"@, "X"@, "x"@, "XCEN"@, "x_image"@]
}

/// The column names that hold positions along y, the first of them preferred.
pub open spec fn y_names() -> Seq<Seq<char>> {
    seq!["Y_IMAGE"@, "YWIN_IMAGE"@, "Y"@, "y"@, "YCEN"@, "y_image"@]
}

/// The place of the first column with the given name.
pub open spec fn col_spec(columns: Seq<Seq<char>>, name: Seq<char>) -> Option<nat> {
    if columns.contains(name) {
        Some(columns.index_of_first(name)->0 as nat)
    } else {
        None
    }
}

/// The place of the first column with one of the given names, tried in turn.
pub open spec fn first_col(columns: Seq<Seq<char>>, wanted: Seq<Seq<char>>) -> Option<nat>
    decreases wanted.len(),
{
    if wanted.len() == 0 {
        None
    } else {
        match col_spec(columns, wanted[0]) {
            Some(i) => Some(i),
            None => first_col(columns, wanted.drop_first()),
        }
    }
}

/// The number in a cell of a row, if the cell is there and holds one.
pub open spec fn cell_number(row: Seq<Seq<char>>, col: nat) -> Option<Double> {
    if col < row.len() {
        Double::parse_spec(row[col as int])
    } else {
        None
    }
}

/// The number in a cell of a row.
pub fn cell_number_of(row: &Vec<String>, col: usize) -> (r: Option<Double>)
    ensures
        r == cell_number(names(row@), col as nat),
{
    if col < row.len() {
        let v = chars_of(row[col].as_str());
        Double::parse(&v)
    } else {
        None
    }
}

/// The positions that the rows give in two columns; a row without both is left out.
pub open spec fn positions(rows: Seq<Seq<Seq<char>>>, xi: nat, yi: nat) -> Seq<(Double, Double)>
    decreases rows.len(),
{
    if rows.len() == 0 {
        Seq::empty()
    } else {
        let front = positions(rows.drop_last(), xi, yi);
        match (cell_number(rows.last(), xi), cell_number(rows.last(), yi)) {
            (Some(x), Some(y)) => front.push((x, y)),
            _ => front,
        }
    }
}

impl Default for Catalog {
    /// The empty table.
    fn default() -> (r: Catalog)
        ensures
            r.columns@.len() == 0,
            r.rows@.len() == 0,
    {
        Catalog { columns: Vec::new(), rows: Vec::new() }
    }
}

impl Catalog {
    /// The number of rows.
    pub fn len(&self) -> (r: usize)
        ensures
            r == self@.rows.len(),
    {
        self.rows.len()
    }

    /// Whether there are no rows.
    pub fn is_empty(&self) -> (r: bool)
        ensures
            r == (self@.rows.len() == 0),
    {
        self.rows.len() == 0
    }

    /// Tab-separated values with a header row.
    pub fn from_tsv(input: &str) -> (r: Catalog)
        ensures
            r@ == headed(tab_rows(lines_spec(input@))),
    {
        let v = chars_of(input);
        let all = lines(&v);
        let n: usize = all.len();
        let mut rows: Vec<Vec<String>> = Vec::new();
        for i in 0..n
            invariant
                n == all@.len(),
                cells(rows@) =~= tab_rows(texts(all@)).take(i as int),
        {
            let parts = split(&all[i], '\t');
            let ghost b = cells(rows@);
            rows.push(strings_of(&parts));
            assert(cells(rows@) =~= b.push(tab_rows(texts(all@))[i as int]));
        }
        assert(cells(rows@) =~= tab_rows(texts(all@)));
        head_off(rows)
    }

    /// SExtractor's `ASCII_HEAD` output: column names in lines like
    /// `#   1 NUMBER       Running object number`, then rows of values between white
    /// space. Where the first row has more values than there are names, names by
    /// place are added.
    pub fn from_sextractor(input: &str) -> (r: Catalog)
        ensures
            r@ == sextractor_spec(input@),
    {
        let v = chars_of(input);
        let all = lines(&v);
        let n: usize = all.len();
        let mut columns: Vec<String> = Vec::new();
        let mut rows: Vec<Vec<String>> = Vec::new();
        assert(texts(all@).take(0) =~= Seq::empty());
        assert(names(columns@) =~= Seq::empty());
        assert(cells(rows@) =~= Seq::empty());
        for i in 0..n
            invariant
                n == all@.len(),
                sextractor_lines(texts(all@).take(i as int)) == (CatalogView {
                    columns: names(columns@),
                    rows: cells(rows@),
                }),
        {
            let ghost t = texts(all@);
            assert(t.take(i + 1).drop_last() =~= t.take(i as int));
            assert(t.take(i + 1).last() == all@[i as int]@);
            let line = trim(&all[i]);
            if line.len() > 0 {
                if line[0] == '#' {
                    let rest = piece(&line, 1, line.len());
                    assert(rest@ =~= line@.drop_first());
                    if let Some(name) = header_name_of(&rest) {
                        let ghost c = names(columns@);
                        columns.push(string_of(&name));
                        assert(names(columns@) =~= c.push(name@));
                    }
                } else {
                    let ws = words(&line);
                    let ghost c = cells(rows@);
                    rows.push(strings_of(&ws));
                    assert(cells(rows@) =~= c.push(words_spec(line@)));
                }
            }
        }
        assert(texts(all@).take(n as int) =~= texts(all@));
        with_padding(columns, rows)
    }

    /// Comma-separated values with a header row. A field may stand in quotes and
    /// then hold commas.
    pub fn from_csv(input: &str) -> (r: Catalog)
        ensures
            r@ == headed(csv_rows(inked(lines_spec(input@)))),
    {
        let v = chars_of(input);
        let all = inked_lines(&v);
        let n: usize = all.len();
        let mut rows: Vec<Vec<String>> = Vec::new();
        for i in 0..n
            invariant
                n == all@.len(),
                cells(rows@) =~= csv_rows(texts(all@)).take(i as int),
        {
            let ghost b = cells(rows@);
            rows.push(csv_row_of(&all[i]));
            assert(cells(rows@) =~= b.push(csv_rows(texts(all@))[i as int]));
        }
        assert(cells(rows@) =~= csv_rows(texts(all@)));
        head_off(rows)
    }

    /// The fields and rows of a VOTable. Nesting, name spaces and other attributes
    /// do not count.
    pub fn from_votable(input: &str) -> (r: Catalog)
        ensures
            r@ == votable_spec(input@),
    {
        let v = chars_of(input);
        let mut buf = v;
        let mut columns: Vec<String> = Vec::new();
        let mut rows: Vec<Vec<String>> = Vec::new();
        let mut row: Vec<String> = Vec::new();
        let ghost mut st = Votable {
            columns: Seq::empty(),
            rows: Seq::empty(),
            row: Seq::empty(),
        };
        let ghost whole = votable_tags(input@, st);
        assert(names(columns@) =~= Seq::empty());
        assert(cells(rows@) =~= Seq::empty());
        assert(names(row@) =~= Seq::empty());
        loop
            invariant_except_break
                votable_tags(buf@, st) == whole,
                st == (Votable { columns: names(columns@), rows: cells(rows@), row: names(row@) }),
            ensures
                whole.columns == names(columns@),
                whole.rows == cells(rows@),
            decreases buf@.len(),
        {
            let open: usize = find(&buf, '<', '<');
            if open >= buf.len() {
                break;
            }
            let after = piece(&buf, open + 1, buf.len());
            assert(after@ =~= buf@.skip(open + 1));
            let close: usize = find_tag_end(&after);
            if close >= after.len() {
                break;
            }
            let tag = piece(&after, 0, close);
            assert(tag@ =~= after@.take(close as int));
            let tail = piece(&after, close + 1, after.len());
            assert(tail@ =~= after@.skip(close + 1));
            let next: usize = find(&tail, '<', '<');
            let inner = piece(&tail, 0, next);
            assert(inner@ =~= tail@.take(next as int));
            let body = trim(&inner);
            let name = tag_name_of(&tag);
            let closes: bool = tag.len() > 0 && tag[0] == '/';
            let ghost st0 = st;
            if same_text(&name, "field") && !closes {
                let ws = tag_words_of(&tag);
                let column: String = match attribute_name(&ws) {
                    Some(n) => string_of(&n),
                    None => name_column(columns.len() as u128 + 1),
                };
                let ghost c = names(columns@);
                columns.push(column);
                assert(names(columns@) =~= c.push(column@));
            } else if same_text(&name, "td") && !closes {
                let t = if tag.len() > 0 && tag[tag.len() - 1] == '/' {
                    Vec::new()
                } else {
                    decode(&body)
                };
                let ghost c = names(row@);
                row.push(string_of(&t));
                assert(names(row@) =~= c.push(t@));
            } else if same_text(&name, "tr") && closes {
                if row.len() > 0 {
                    let ghost c = cells(rows@);
                    let ghost d = names(row@);
                    rows.push(row);
                    row = Vec::new();
                    assert(cells(rows@) =~= c.push(d));
                    assert(names(row@) =~= Seq::empty());
                }
            }
            proof {
                st = tag_step(st0, tag@, body@);
            }
            let rest = piece(&tail, next, tail.len());
            assert(rest@ =~= tail@.skip(next as int));
            buf = rest;
        }
        with_padding(columns, rows)
    }

    /// The table that a text holds, in whichever of the formats it comes.
    pub fn from_text_auto(input: &str) -> (r: Catalog)
        ensures
            r@ == catalog_spec(input@),
    {
        let v = chars_of(input);
        let head: Vec<char> = if v.len() > 256 {
            piece(&v, 0, 256)
        } else {
            piece(&v, 0, v.len())
        };
        assert(head@ =~= head_spec(input@));
        if find_text(&head, "<VOTABLE").is_some() || find_text(&head, "<votable").is_some()
            || find_text(&head, "<TABLE").is_some() {
            return Catalog::from_votable(input);
        }
        let all = inked_lines(&v);
        let n: usize = all.len();
        let ghost ls = inked(lines_spec(input@));
        let first: Vec<char> = if n > 0 {
            assert(ls[0] == all@[0]@);
            piece(&all[0], 0, all[0].len())
        } else {
            Vec::new()
        };
        assert(first@ =~= first_line(input@));
        let opening = trim(&first);
        proof {
            if opening@.len() > 0 {
                trim_keeps_first(first@);
            } else {
                trim_blank(first@);
            }
        }
        if opening.len() > 0 && opening[0] == '#' {
            return Catalog::from_sextractor(input);
        }
        if find(&first, '\t', '\t') < first.len() {
            return Catalog::from_tsv(input);
        }
        if find(&first, ',', ',') < first.len() {
            return Catalog::from_csv(input);
        }
        let mut rows: Vec<Vec<String>> = Vec::new();
        for i in 0..n
            invariant
                n == all@.len(),
                cells(rows@) =~= word_rows(texts(all@)).take(i as int),
        {
            let ws = words(&all[i]);
            let ghost b = cells(rows@);
            rows.push(strings_of(&ws));
            assert(cells(rows@) =~= b.push(word_rows(texts(all@))[i as int]));
        }
        assert(cells(rows@) =~= word_rows(texts(all@)));
        let columns: Vec<String> = Vec::new();
        assert(names(columns@) =~= Seq::empty());
        with_padding(columns, rows)
    }

    /// The place of the first column with the given name.
    pub fn col_index(&self, name: &str) -> (r: Option<usize>)
        ensures
            match r {
                Some(i) => col_spec(self@.columns, name@) == Some(i as nat),
                None => col_spec(self@.columns, name@) is None,
            },
            r is Some ==> r->0 < self.columns@.len(),
    {
        let ghost cols = self@.columns;
        for i in 0..self.columns.len()
            invariant
                cols == names(self.columns@),
                forall|j: int| 0 <= j < i ==> cols[j] != name@,
        {
            let c = chars_of(self.columns[i].as_str());
            if same_text(&c, name) {
                assert(cols[i as int] == name@);
                proof {
                    cols.index_of_first_ensures(name@);
                }
                return Some(i);
            }
        }
        assert(!cols.contains(name@));
        None
    }

    /// The place of the first column with one of the given names, tried in turn.
    pub fn first_column(&self, a: &str, b: &str, c: &str, d: &str, e: &str, f: &str) -> (r: Option<
        usize,
    >)
        ensures
            match r {
                Some(i) => first_col(self@.columns, seq![a@, b@, c@, d@, e@, f@]) == Some(i as nat),
                None => first_col(self@.columns, seq![a@, b@, c@, d@, e@, f@]) is None,
            },
            r is Some ==> r->0 < self.columns@.len(),
    {
        let ghost cols = self@.columns;
        proof {
            let w = seq![a@, b@, c@, d@, e@, f@];
            assert(w.drop_first() =~= seq![b@, c@, d@, e@, f@]);
            assert(w.drop_first().drop_first() =~= seq![c@, d@, e@, f@]);
            assert(w.drop_first().drop_first().drop_first() =~= seq![d@, e@, f@]);
            assert(w.drop_first().drop_first().drop_first().drop_first() =~= seq![e@, f@]);
            assert(w.drop_first().drop_first().drop_first().drop_first().drop_first() =~= seq![f@]);
            reveal_with_fuel(first_col, 7);
        }
        let x: Option<usize> = self.col_index(a);
        if x.is_some() {
            return x;
        }
        let x: Option<usize> = self.col_index(b);
        if x.is_some() {
            return x;
        }
        let x: Option<usize> = self.col_index(c);
        if x.is_some() {
            return x;
        }
        let x: Option<usize> = self.col_index(d);
        if x.is_some() {
            return x;
        }
        let x: Option<usize> = self.col_index(e);
        if x.is_some() {
            return x;
        }
        self.col_index(f)
    }

    /// The places of the columns that hold image positions.
    pub open spec fn xy_spec(columns: Seq<Seq<char>>) -> Option<(nat, nat)> {
        match (first_col(columns, x_names()), first_col(columns, y_names())) {
            (Some(x), Some(y)) => Some((x, y)),
            _ => None,
        }
    }

    /// The places of the columns that hold image positions.
    pub fn xy_columns(&self) -> (r: Option<(usize, usize)>)
        ensures
            match r {
                Some(p) => Catalog::xy_spec(self@.columns) == Some((p.0 as nat, p.1 as nat)),
                None => Catalog::xy_spec(self@.columns) is None,
            },
            r matches Some(p) ==> p.0 < self.columns@.len() && p.1 < self.columns@.len(),
    {
        match self.first_column("X_IMAGE", "XWIN_IMAGE", "X", "x", "XCEN", "x_image") {
            Some(x) => match self.first_column("Y_IMAGE", "YWIN_IMAGE", "Y", "y", "YCEN", "y_image") {
                Some(y) => Some((x, y)),
                None => None,
            },
            None => None,
        }
    }

    /// The image positions of the rows; a row without one is left out.
    pub fn xy_iter(&self) -> (r: Vec<(Double, Double)>)
        ensures
            r@ == match Catalog::xy_spec(self@.columns) {
                Some(p) => positions(self@.rows, p.0, p.1),
                None => Seq::empty(),
            },
    {
        let mut out: Vec<(Double, Double)> = Vec::new();
        match self.xy_columns() {
            None => {
                assert(out@ =~= Seq::empty());
                out
            },
            Some((xi, yi)) => {
                let ghost all = self@.rows;
                assert(all.take(0) =~= Seq::empty());
                for i in 0..self.rows.len()
                    invariant
                        all == cells(self.rows@),
                        out@ == positions(all.take(i as int), xi as nat, yi as nat),
                {
                    assert(all.take(i + 1).drop_last() =~= all.take(i as int));
                    assert(all.take(i + 1).last() == names(self.rows@[i as int]@));
                    let x: Option<Double> = cell_number_of(&self.rows[i], xi);
                    let y: Option<Double> = cell_number_of(&self.rows[i], yi);
                    if let (Some(x), Some(y)) = (x, y) {
                        out.push((x, y));
                    }
                }
                assert(all.take(all.len() as int) =~= all);
                out
            },
        }
    }
}

/// A cell of a row; empty where the row is too short.
pub open spec fn cell(row: Seq<Seq<char>>, col: int) -> Seq<char> {
    if 0 <= col < row.len() {
        row[col]
    } else {
        Seq::empty()
    }
}

/// The number that a cell sorts by: not-a-number where it holds none.
pub open spec fn sort_number(s: Seq<char>) -> Double {
    match Double::parse_spec(trim_spec(s)) {
        Some(x) => x,
        None => Double { bits: 0x7ff8_0000_0000_0000 },
    }
}

/// Whether every cell of a column that is there holds a number.
pub open spec fn is_numeric(rows: Seq<Seq<Seq<char>>>, col: int) -> bool {
    forall|i: int|
        0 <= i < rows.len() && col < (#[trigger] rows[i]).len() ==> Double::parse_spec(
            trim_spec(rows[i][col]),
        ) is Some
}

/// Whether row `a` has to come before row `b`: by the numbers of a numeric column,
/// by the text of another.
pub open spec fn row_first(
    a: Seq<Seq<char>>,
    b: Seq<Seq<char>>,
    col: int,
    numeric: bool,
    dir: SortDir,
) -> bool {
    let (x, y) = match dir {
        SortDir::Asc => (a, b),
        SortDir::Desc => (b, a),
    };
    if numeric {
        sort_number(cell(x, col)).lt(sort_number(cell(y, col)))
    } else {
        text_lt(cell(x, col), cell(y, col))
    }
}

/// Whether the rows can be put in order by a column: a numeric one holds no
/// not-a-number and has a cell in every row.
pub open spec fn is_sortable(rows: Seq<Seq<Seq<char>>>, col: int) -> bool {
    is_numeric(rows, col) ==> forall|i: int|
        0 <= i < rows.len() ==> !sort_number(cell(#[trigger] rows[i], col)).is_nan()
}

/// Whether `sorted` holds the rows as `order` arranges them: each row once and, where
/// the rows can be put in order, in a stable order by the column.
pub open spec fn is_sort_of(
    rows: Seq<Seq<Seq<char>>>,
    sorted: Seq<Seq<Seq<char>>>,
    order: Seq<usize>,
    col: int,
    dir: SortDir,
) -> bool {
    let numeric = is_numeric(rows, col);
    &&& arrangement(order, 0, rows.len() as int)
    &&& sorted == Seq::new(rows.len(), |i: int| rows[order[i] as int])
    &&& is_sortable(rows, col) ==> forall|i: int, j: int|
        0 <= i < j < rows.len() ==> ({
            let (a, b) = (rows[#[trigger] order[i] as int], rows[#[trigger] order[j] as int]);
            ||| row_first(a, b, col, numeric, dir)
            ||| !row_first(b, a, col, numeric, dir) && order[i] < order[j]
        })
}

/// A row with the same cells.
fn copy_row(row: &Vec<String>) -> (r: Vec<String>)
    ensures
        names(r@) == names(row@),
{
    let mut r: Vec<String> = Vec::new();
    for i in 0..row.len()
        invariant
            names(r@) =~= names(row@).take(i as int),
    {
        let ghost b = names(r@);
        let c = chars_of(row[i].as_str());
        r.push(string_of(&c));
        assert(names(r@) =~= b.push(names(row@)[i as int]));
    }
    assert(names(r@) =~= names(row@));
    r
}

fn cell_of(row: &Vec<String>, col: usize) -> (r: Vec<char>)
    ensures
        r@ == cell(names(row@), col as int),
{
    if col < row.len() {
        chars_of(row[col].as_str())
    } else {
        Vec::new()
    }
}

impl Catalog {
    fn numeric(&self, col: usize) -> (r: bool)
        ensures
            r == is_numeric(self@.rows, col as int),
    {
        let ghost rows = self@.rows;
        for i in 0..self.rows.len()
            invariant
                rows == cells(self.rows@),
                forall|k: int|
                    0 <= k < i && (col as int) < (#[trigger] rows[k]).len() ==> Double::parse_spec(
                        trim_spec(rows[k][col as int]),
                    ) is Some,
        {
            assert(rows[i as int] == names(self.rows@[i as int]@));
            if col < self.rows[i].len() {
                let c = chars_of(self.rows[i][col].as_str());
                let t = trim(&c);
                if Double::parse(&t).is_none() {
                    assert(rows[i as int][col as int] == c@);
                    return false;
                }
            }
        }
        true
    }

    fn sort_keys(&self, col: usize, numeric: bool, dir: SortDir) -> (r: Keys)
        ensures
            r.count() == self@.rows.len(),
            r.descending == (dir == SortDir::Desc),
            match r.values {
                KeyList::Numbers(v) => numeric && forall|i: int|
                    0 <= i < v@.len() ==> #[trigger] v@[i] == sort_number(
                        cell(self@.rows[i], col as int),
                    ),
                KeyList::Singles(v) => false,
                KeyList::Texts(v) => !numeric && forall|i: int|
                    0 <= i < v@.len() ==> (#[trigger] v@[i])@ == cell(self@.rows[i], col as int),
            },
    {
        let ghost rows = self@.rows;
        let descending: bool = match dir {
            SortDir::Asc => false,
            SortDir::Desc => true,
        };
        if numeric {
            let mut v: Vec<Double> = Vec::new();
            for i in 0..self.rows.len()
                invariant
                    rows == cells(self.rows@),
                    v@.len() == i,
                    forall|k: int|
                        0 <= k < i ==> #[trigger] v@[k] == sort_number(cell(rows[k], col as int)),
            {
                assert(rows[i as int] == names(self.rows@[i as int]@));
                let c = cell_of(&self.rows[i], col);
                let t = trim(&c);
                let x: Double = match Double::parse(&t) {
                    Some(x) => x,
                    None => Double { bits: 0x7ff8_0000_0000_0000 },
                };
                v.push(x);
            }
            Keys { values: KeyList::Numbers(v), descending }
        } else {
            let mut v: Vec<Vec<char>> = Vec::new();
            for i in 0..self.rows.len()
                invariant
                    rows == cells(self.rows@),
                    v@.len() == i,
                    forall|k: int|
                        0 <= k < i ==> (#[trigger] v@[k])@ == cell(rows[k], col as int),
            {
                assert(rows[i as int] == names(self.rows@[i as int]@));
                v.push(cell_of(&self.rows[i], col));
            }
            Keys { values: KeyList::Texts(v), descending }
        }
    }

    /// Sorts the rows by a column, in a stable order; by number where every cell of
    /// the column holds one, else by text. A column that is not there changes nothing.
    pub fn sort_by(&mut self, col: usize, dir: SortDir)
        ensures
            final(self)@.columns == old(self)@.columns,
            col >= old(self)@.columns.len() ==> final(self)@ == old(self)@,
            col < old(self)@.columns.len() ==> exists|order: Seq<usize>|
                is_sort_of(old(self)@.rows, final(self)@.rows, order, col as int, dir),
    {
        if col >= self.columns.len() {
            return;
        }
        let ghost rows = self@.rows;
        let numeric: bool = self.numeric(col);
        let keys = self.sort_keys(col, numeric, dir);
        let order = stable_order(&keys);
        let mut out: Vec<Vec<String>> = Vec::new();
        for i in 0..order.len()
            invariant
                rows == cells(self.rows@),
                arrangement(order@, 0, rows.len() as int),
                out@.len() == i,
                forall|k: int| 0 <= k < i ==> names(#[trigger] out@[k]@) == rows[order@[k] as int],
        {
            assert(0 <= order@[i as int] < rows.len());
            out.push(copy_row(&self.rows[order[i]]));
        }
        self.rows = out;
        proof {
            assert(self@.rows =~= Seq::new(rows.len(), |i: int| rows[order@[i] as int]));
            if is_sortable(rows, col as int) {
                match keys.values {
                    KeyList::Numbers(v) => {
                        assert forall|i: int| 0 <= i < v@.len() implies !(
                        #[trigger] v@[i]).is_nan() by {
                            assert(v@[i] == sort_number(cell(rows[i], col as int)));
                        }
                    },
                    _ => {},
                }
                assert(keys.comparable());
                assert forall|i: int, j: int| 0 <= i < j < rows.len() implies ({
                    let (a, b) = (
                        rows[#[trigger] order@[i] as int],
                        rows[#[trigger] order@[j] as int],
                    );
                    ||| row_first(a, b, col as int, numeric, dir)
                    ||| !row_first(b, a, col as int, numeric, dir) && order@[i] < order@[j]
                }) by {
                    assert(keys.in_order(order@[i] as int, order@[j] as int));
                }
            }
            assert(is_sort_of(rows, self@.rows, order@, col as int, dir));
        }
    }
}

/// What is all white space leaves nothing to trim from either end.
proof fn trim_blank(s: Seq<char>)
    requires
        trim_spec(s).len() == 0,
    ensures
        trim_front(s).len() == 0,
{
    trim_front_starts(s);
    let t = trim_front(s);
    if t.len() > 0 {
        trim_back_keeps(t);
    }
}

proof fn trim_front_starts(s: Seq<char>)
    ensures
        trim_front(s).len() > 0 ==> !is_white(trim_front(s)[0]),
    decreases s.len(),
{
    if s.len() > 0 && is_white(s[0]) {
        trim_front_starts(s.drop_first());
    }
}

proof fn trim_back_keeps(s: Seq<char>)
    requires
        s.len() > 0,
        !is_white(s[0]),
    ensures
        crate::text::trim_back(s).len() > 0,
    decreases s.len(),
{
    if is_white(s.last()) {
        trim_back_keeps(s.drop_last());
    }
}

} // verus!
