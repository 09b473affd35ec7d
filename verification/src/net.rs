//! Messages to other programs and queries of catalog services: their texts, and what is
//! read from the replies.

use crate::text::{
    chars_of, contains_spec, find, find_chars, find_spec, find_text, lines, lines_spec, piece,
    place_spec, put_chars, put_text, same_text, starts_with, starts_with_spec, string_of, texts,
    trim, trim_spec,
};
use vstd::prelude::*;
use vstd::utf8::*;

verus! {

// ---------------------------------------------------------------------------
// XML
// ---------------------------------------------------------------------------

/// A character as it stands in XML text or in an attribute.
pub open spec fn escape_char(c: char) -> Seq<char> {
    if c == '&' {
        "&amp;"@
    } else if c == '<' {
        "&lt;"@
    } else if c == '>' {
        "&gt;"@
    } else if c == '"' {
        "&quot;"@
    } else if c == '\'' {
        "&apos;"@
    } else {
        seq![c]
    }
}

/// A text as it stands in XML.
pub open spec fn escape_spec(s: Seq<char>) -> Seq<char>
    decreases s.len(),
{
    if s.len() == 0 {
        Seq::empty()
    } else {
        escape_spec(s.drop_last()) + escape_char(s.last())
    }
}

/// Appends a text as it stands in XML.
fn put_escaped(out: &mut Vec<char>, s: &Vec<char>)
    ensures
        final(out)@ == old(out)@ + escape_spec(s@),
{
    let ghost before = out@;
    assert(s@.take(0) =~= Seq::empty());
    assert(out@ =~= before + escape_spec(s@.take(0)));
    for i in 0..s.len()
        invariant
            out@ == before + escape_spec(s@.take(i as int)),
    {
        assert(s@.take(i + 1).drop_last() =~= s@.take(i as int));
        let c = s[i];
        let ghost was = out@;
        if c == '&' {
            put_text(out, "&amp;");
        } else if c == '<' {
            put_text(out, "&lt;");
        } else if c == '>' {
            put_text(out, "&gt;");
        } else if c == '"' {
            put_text(out, "&quot;");
        } else if c == '\'' {
            put_text(out, "&apos;");
        } else {
            out.push(c);
        }
        assert(out@ =~= was + escape_char(c));
        assert(out@ =~= before + escape_spec(s@.take(i + 1)));
    }
    assert(s@.take(s@.len() as int) =~= s@);
}

/// A text as it stands in XML.
pub fn xml_escape(s: &str) -> (r: String)
    ensures
        r@ == escape_spec(s@),
{
    let v = chars_of(s);
    let mut out: Vec<char> = Vec::new();
    put_escaped(&mut out, &v);
    assert(out@ =~= escape_spec(s@));
    string_of(&out)
}

/// An escaped text holds no character that has a meaning in XML, but for the ampersands of
/// its entities.
pub proof fn escaped_is_plain(s: Seq<char>)
    ensures
        forall|i: int|
            0 <= i < escape_spec(s).len() ==> ({
                let c = #[trigger] escape_spec(s)[i];
                c != '<' && c != '>' && c != '"' && c != '\''
            }),
    decreases s.len(),
{
    reveal_strlit("&amp;");
    reveal_strlit("&lt;");
    reveal_strlit("&gt;");
    reveal_strlit("&quot;");
    reveal_strlit("&apos;");
    if s.len() > 0 {
        escaped_is_plain(s.drop_last());
        let (a, b) = (escape_spec(s.drop_last()), escape_char(s.last()));
        assert forall|i: int| 0 <= i < escape_spec(s).len() implies ({
            let c = #[trigger] escape_spec(s)[i];
            c != '<' && c != '>' && c != '"' && c != '\''
        }) by {
            if i < a.len() {
                assert(escape_spec(s)[i] == a[i]);
            } else {
                assert(escape_spec(s)[i] == b[i - a.len()]);
            }
        }
    }
}

// ---------------------------------------------------------------------------
// XML-RPC
// ---------------------------------------------------------------------------

/// A member of a value: a name and a text.
pub struct Field {
    pub name: String,
    pub text: String,
}

/// A value of a remote call.
pub enum XV {
    Str(String),
    /// Named texts.
    Struct(Vec<Field>),
    /// A message: its type, and its parameters as named texts.
    Message(String, Vec<Field>),
}

/// A text value.
pub open spec fn string_xml(s: Seq<char>) -> Seq<char> {
    "<value><string>"@ + escape_spec(s) + "</string></value>"@
}

/// A member of a structure.
pub open spec fn member_xml(name: Seq<char>, value: Seq<char>) -> Seq<char> {
    "<member><name>"@ + escape_spec(name) + "</name>"@ + value + "</member>"@
}

/// The members of a structure, the first `n` of them.
pub open spec fn members_xml(fields: Seq<Field>, n: nat) -> Seq<char>
    decreases n,
{
    if n == 0 {
        Seq::empty()
    } else {
        members_xml(fields, (n - 1) as nat) + member_xml(
            fields[n - 1].name@,
            string_xml(fields[n - 1].text@),
        )
    }
}

/// A structure with the given members.
pub open spec fn struct_xml(members: Seq<char>) -> Seq<char> {
    "<value><struct>"@ + members + "</struct></value>"@
}

/// A value of a remote call.
pub open spec fn xv_xml(v: XV) -> Seq<char> {
    match v {
        XV::Str(s) => string_xml(s@),
        XV::Struct(fields) => struct_xml(members_xml(fields@, fields@.len())),
        XV::Message(mtype, fields) => struct_xml(
            member_xml("samp.mtype"@, string_xml(mtype@)) + member_xml(
                "samp.params"@,
                struct_xml(members_xml(fields@, fields@.len())),
            ),
        ),
    }
}

fn put_string(out: &mut Vec<char>, s: &String)
    ensures
        final(out)@ == old(out)@ + string_xml(s@),
{
    let ghost before = out@;
    put_text(out, "<value><string>");
    let v = chars_of(s.as_str());
    put_escaped(out, &v);
    put_text(out, "</string></value>");
    assert(out@ =~= before + string_xml(s@));
}

fn put_name(out: &mut Vec<char>, name: &str)
    ensures
        final(out)@ == old(out)@ + ("<member><name>"@ + escape_spec(name@) + "</name>"@),
{
    let ghost before = out@;
    put_text(out, "<member><name>");
    let v = chars_of(name);
    put_escaped(out, &v);
    put_text(out, "</name>");
    assert(out@ =~= before + ("<member><name>"@ + escape_spec(name@) + "</name>"@));
}

fn put_struct(out: &mut Vec<char>, fields: &Vec<Field>)
    ensures
        final(out)@ == old(out)@ + struct_xml(members_xml(fields@, fields@.len())),
{
    let ghost start = out@;
    put_text(out, "<value><struct>");
    let ghost before = out@;
    assert(out@ =~= before + members_xml(fields@, 0));
    for i in 0..fields.len()
        invariant
            out@ == before + members_xml(fields@, i as nat),
    {
        let ghost was = out@;
        put_name(out, fields[i].name.as_str());
        put_string(out, &fields[i].text);
        put_text(out, "</member>");
        assert(out@ =~= was + member_xml(
            fields@[i as int].name@,
            string_xml(fields@[i as int].text@),
        ));
        assert(out@ =~= before + members_xml(fields@, (i + 1) as nat));
    }
    put_text(out, "</struct></value>");
    assert(out@ =~= start + struct_xml(members_xml(fields@, fields@.len())));
}

fn put_xv(out: &mut Vec<char>, v: &XV)
    ensures
        final(out)@ == old(out)@ + xv_xml(*v),
{
    let ghost before = out@;
    match v {
        XV::Str(s) => {
            put_string(out, s);
        },
        XV::Struct(fields) => {
            put_struct(out, fields);
        },
        XV::Message(mtype, fields) => {
            put_text(out, "<value><struct>");
            put_name(out, "samp.mtype");
            put_string(out, mtype);
            put_text(out, "</member>");
            put_name(out, "samp.params");
            put_struct(out, fields);
            put_text(out, "</member>");
            put_text(out, "</struct></value>");
            assert(out@ =~= before + xv_xml(*v));
        },
    }
}

/// A value of a remote call as XML.
pub fn xv_to_xml(v: &XV) -> (r: String)
    ensures
        r@ == xv_xml(*v),
{
    let mut out: Vec<char> = Vec::new();
    put_xv(&mut out, v);
    assert(out@ =~= xv_xml(*v));
    string_of(&out)
}

/// The parameters of a remote call, the first `n` of them.
pub open spec fn params_xml(params: Seq<XV>, n: nat) -> Seq<char>
    decreases n,
{
    if n == 0 {
        Seq::empty()
    } else {
        params_xml(params, (n - 1) as nat) + "<param>"@ + xv_xml(params[n - 1]) + "</param>"@
    }
}

/// The text of a remote call.
pub open spec fn call_xml(method: Seq<char>, params: Seq<XV>) -> Seq<char> {
    "<?xml version=\"1.0\"?><methodCall><methodName>"@ + escape_spec(method)
        + "</methodName><params>"@ + params_xml(params, params.len()) + "</params></methodCall>"@
}

/// The text of a remote call.
pub fn xmlrpc_call(method: &str, params: &Vec<XV>) -> (r: String)
    ensures
        r@ == call_xml(method@, params@),
{
    let mut out: Vec<char> = Vec::new();
    put_text(&mut out, "<?xml version=\"1.0\"?><methodCall><methodName>");
    let m = chars_of(method);
    put_escaped(&mut out, &m);
    put_text(&mut out, "</methodName><params>");
    let ghost before = out@;
    assert(out@ =~= before + params_xml(params@, 0));
    for i in 0..params.len()
        invariant
            out@ == before + params_xml(params@, i as nat),
    {
        let ghost was = out@;
        put_text(&mut out, "<param>");
        put_xv(&mut out, &params[i]);
        put_text(&mut out, "</param>");
        assert(out@ =~= was + "<param>"@ + xv_xml(params@[i as int]) + "</param>"@);
        assert(out@ =~= before + params_xml(params@, (i + 1) as nat));
    }
    put_text(&mut out, "</params></methodCall>");
    assert(out@ =~= call_xml(method@, params@));
    string_of(&out)
}

/// What stands between the first `open` of a text and the first `close` behind it.
pub open spec fn between_spec(s: Seq<char>, open: Seq<char>, close: Seq<char>) -> Option<Seq<char>> {
    match place_spec(s, open) {
        Some(i) => {
            let rest = s.skip(i + open.len());
            match place_spec(rest, close) {
                Some(j) => Some(rest.take(j)),
                None => None,
            }
        },
        None => None,
    }
}

fn between(v: &Vec<char>, open: &str, close: &str) -> (r: Option<Vec<char>>)
    ensures
        match r {
            Some(t) => between_spec(v@, open@, close@) == Some(t@),
            None => between_spec(v@, open@, close@) is None,
        },
{
    let o = chars_of(open);
    match find_chars(v, &o) {
        Some(i) => {
            let n: usize = v.len();
            let rest = piece(v, i + o.len(), n);
            assert(rest@ =~= v@.skip(i + o@.len()));
            match find_text(&rest, close) {
                Some(j) => {
                    let t = piece(&rest, 0, j);
                    assert(t@ =~= rest@.take(j as int));
                    Some(t)
                },
                None => None,
            }
        },
        None => None,
    }
}

/// The text of the member `key` of the structure in a reply: what stands in the first string
/// behind its name.
pub open spec fn member_spec(body: Seq<char>, key: Seq<char>) -> Option<Seq<char>> {
    let needle = "<name>"@ + key + "</name>"@;
    match place_spec(body, needle) {
        Some(i) => between_spec(body.skip(i + needle.len()), "<string>"@, "</string>"@),
        None => None,
    }
}

fn member_of(body: &Vec<char>, key: &str) -> (r: Option<Vec<char>>)
    ensures
        match r {
            Some(t) => member_spec(body@, key@) == Some(t@),
            None => member_spec(body@, key@) is None,
        },
{
    let mut needle: Vec<char> = Vec::new();
    put_text(&mut needle, "<name>");
    put_text(&mut needle, key);
    put_text(&mut needle, "</name>");
    assert(needle@ =~= "<name>"@ + key@ + "</name>"@);
    match find_chars(body, &needle) {
        Some(i) => {
            let n: usize = body.len();
            let rest = piece(body, i + needle.len(), n);
            assert(rest@ =~= body@.skip(i + needle@.len()));
            between(&rest, "<string>", "</string>")
        },
        None => None,
    }
}

/// The text of the member `key` of the structure in a reply.
pub fn xmlrpc_struct_str(body: &str, key: &str) -> (r: Option<String>)
    ensures
        match r {
            Some(t) => member_spec(body@, key@) == Some(t@),
            None => member_spec(body@, key@) is None,
        },
{
    let v = chars_of(body);
    match member_of(&v, key) {
        Some(t) => Some(string_of(&t)),
        None => None,
    }
}

// ---------------------------------------------------------------------------
// SAMP
// ---------------------------------------------------------------------------

/// The path of a file in a directory: a slash stands between them, unless the directory ends in
/// one or is empty.
pub open spec fn in_directory(dir: Seq<char>, name: Seq<char>) -> Seq<char> {
    if dir.len() == 0 || dir.last() == '/' {
        dir + name
    } else {
        dir.push('/') + name
    }
}

/// The file that tells where the hub is: the one that the environment names, by a file URL or
/// a plain path, or `.samp` in the home directory.
pub open spec fn lockfile_path_spec(hub: Option<Seq<char>>, home: Option<Seq<char>>) -> Option<
    Seq<char>,
> {
    let prefix = "std-lockurl:file://"@;
    match hub {
        Some(s) if starts_with_spec(s, prefix) => Some(s.skip(prefix.len() as int)),
        Some(s) if s.len() > 0 && !contains_spec(s, "://"@) => Some(s),
        _ => match home {
            Some(h) => Some(in_directory(h, ".samp"@)),
            None => None,
        },
    }
}

/// The texts of two options.
pub open spec fn text_of(s: Option<&str>) -> Option<Seq<char>> {
    match s {
        Some(t) => Some(t@),
        None => None,
    }
}

/// The file that tells where the hub is.
pub fn samp_lockfile_path(hub: Option<&str>, home: Option<&str>) -> (r: Option<String>)
    ensures
        match r {
            Some(p) => lockfile_path_spec(text_of(hub), text_of(home)) == Some(p@),
            None => lockfile_path_spec(text_of(hub), text_of(home)) is None,
        },
{
    if let Some(s) = hub {
        let v = chars_of(s);
        if starts_with(&v, "std-lockurl:file://") {
            let prefix = chars_of("std-lockurl:file://");
            let rest = piece(&v, prefix.len(), v.len());
            assert(rest@ =~= v@.skip(prefix@.len() as int));
            return Some(string_of(&rest));
        }
        if v.len() > 0 && find_text(&v, "://").is_none() {
            return Some(string_of(&v));
        }
    }
    match home {
        Some(h) => {
            let mut v = chars_of(h);
            if v.len() > 0 && v[v.len() - 1] != '/' {
                v.push('/');
            }
            put_text(&mut v, ".samp");
            Some(string_of(&v))
        },
        None => None,
    }
}

/// A line `key = value`: the trimmed key and the trimmed value; none for a blank line, a
/// comment or a line without an equals sign.
pub open spec fn setting_spec(line: Seq<char>) -> Option<(Seq<char>, Seq<char>)> {
    let t = trim_spec(line);
    let eq = find_spec(t, '=', '=');
    if t.len() == 0 || t[0] == '#' || eq >= t.len() {
        None
    } else {
        Some((trim_spec(t.take(eq)), trim_spec(t.skip(eq + 1))))
    }
}

/// A line `key = value`.
pub fn setting(line: &Vec<char>) -> (r: Option<(Vec<char>, Vec<char>)>)
    ensures
        match r {
            Some(kv) => setting_spec(line@) == Some((kv.0@, kv.1@)),
            None => setting_spec(line@) is None,
        },
{
    let t = trim(line);
    if t.len() == 0 || t[0] == '#' {
        return None;
    }
    let eq: usize = find(&t, '=', '=');
    if eq >= t.len() {
        return None;
    }
    let k = piece(&t, 0, eq);
    assert(k@ =~= t@.take(eq as int));
    let v = piece(&t, eq + 1, t.len());
    assert(v@ =~= t@.skip(eq + 1));
    Some((trim(&k), trim(&v)))
}

/// The last value of a key in the lines.
pub open spec fn last_setting(lines: Seq<Seq<char>>, key: Seq<char>) -> Option<Seq<char>>
    decreases lines.len(),
{
    if lines.len() == 0 {
        None
    } else {
        match setting_spec(lines.last()) {
            Some((k, v)) if k == key => Some(v),
            _ => last_setting(lines.drop_last(), key),
        }
    }
}

fn find_setting(all: &Vec<Vec<char>>, key: &str) -> (r: Option<Vec<char>>)
    ensures
        match r {
            Some(v) => last_setting(texts(all@), key@) == Some(v@),
            None => last_setting(texts(all@), key@) is None,
        },
{
    let mut i: usize = all.len();
    assert(texts(all@).take(i as int) =~= texts(all@));
    while i > 0
        invariant
            i <= all@.len(),
            last_setting(texts(all@), key@) == last_setting(texts(all@).take(i as int), key@),
        decreases i,
    {
        i = i - 1;
        let ghost t = texts(all@).take(i + 1);
        assert(t.drop_last() =~= texts(all@).take(i as int));
        assert(t.last() == all@[i as int]@);
        if let Some((k, v)) = setting(&all[i]) {
            if same_text(&k, key) {
                return Some(v);
            }
        }
    }
    None
}

/// The address and the secret of the hub, from the text of its file: both have to be there.
pub fn samp_read_lockfile(body: &str) -> (r: Result<(String, String), String>)
    ensures
        ({
            let ls = lines_spec(body@);
            match (last_setting(ls, "samp.hub.xmlrpc.url"@), last_setting(ls, "samp.secret"@)) {
                (Some(u), Some(s)) => r is Ok && r->Ok_0.0@ == u && r->Ok_0.1@ == s,
                _ => r is Err && r->Err_0@
                    == "samp: lockfile missing xmlrpc url or secret (no hub running?)"@,
            }
        }),
{
    let v = chars_of(body);
    let all = lines(&v);
    match (find_setting(&all, "samp.hub.xmlrpc.url"), find_setting(&all, "samp.secret")) {
        (Some(u), Some(s)) => Ok((string_of(&u), string_of(&s))),
        _ => {
            let e = chars_of("samp: lockfile missing xmlrpc url or secret (no hub running?)");
            Err(string_of(&e))
        },
    }
}

fn owned(s: &str) -> (r: String)
    ensures
        r@ == s@,
{
    let v = chars_of(s);
    string_of(&v)
}

/// The call that registers with the hub.
pub fn samp_register(secret: &str) -> (r: String)
    ensures
        exists|p: Seq<XV>|
            #![trigger call_xml("samp.hub.register"@, p)]
            p.len() == 1 && p[0] is Str && p[0]->Str_0@ == secret@ && r@ == call_xml(
                "samp.hub.register"@,
                p,
            ),
{
    let mut p: Vec<XV> = Vec::new();
    p.push(XV::Str(owned(secret)));
    xmlrpc_call("samp.hub.register", &p)
}

/// The key that the hub's reply to a registration gives, or why there is none.
pub open spec fn registered_spec(body: Seq<char>) -> Result<Seq<char>, Seq<char>> {
    if contains_spec(body, "<fault>"@) {
        Err("samp: register fault: "@ + body)
    } else {
        match member_spec(body, "samp.private-key"@) {
            Some(k) => Ok(k),
            None => Err("samp: register response missing samp.private-key: "@ + body),
        }
    }
}

/// The key that the hub's reply to a registration gives, or why there is none.
pub fn samp_registered(body: &str) -> (r: Result<String, String>)
    ensures
        match r {
            Ok(k) => registered_spec(body@) == Ok::<Seq<char>, Seq<char>>(k@),
            Err(e) => registered_spec(body@) == Err::<Seq<char>, Seq<char>>(e@),
        },
{
    let v = chars_of(body);
    if find_text(&v, "<fault>").is_some() {
        let mut e = chars_of("samp: register fault: ");
        put_chars(&mut e, &v);
        return Err(string_of(&e));
    }
    match member_of(&v, "samp.private-key") {
        Some(k) => Ok(string_of(&k)),
        None => {
            let mut e = chars_of("samp: register response missing samp.private-key: ");
            put_chars(&mut e, &v);
            Err(string_of(&e))
        },
    }
}

/// The call that ends a registration.
pub fn samp_unregister(key: &str) -> (r: String)
    ensures
        exists|p: Seq<XV>|
            #![trigger call_xml("samp.hub.unregister"@, p)]
            p.len() == 1 && p[0] is Str && p[0]->Str_0@ == key@ && r@ == call_xml(
                "samp.hub.unregister"@,
                p,
            ),
{
    let mut p: Vec<XV> = Vec::new();
    p.push(XV::Str(owned(key)));
    xmlrpc_call("samp.hub.unregister", &p)
}

/// Whether the fields hold the given names and texts.
pub open spec fn has_fields(f: Seq<Field>, want: Seq<(Seq<char>, Seq<char>)>) -> bool {
    f.len() == want.len() && forall|i: int|
        0 <= i < f.len() ==> (#[trigger] f[i]).name@ == want[i].0 && f[i].text@ == want[i].1
}

fn field(name: &str, text: &str) -> (r: Field)
    ensures
        r.name@ == name@,
        r.text@ == text@,
{
    Field { name: owned(name), text: owned(text) }
}

/// What this program tells the hub of itself.
pub open spec fn metadata() -> Seq<(Seq<char>, Seq<char>)> {
    seq![
        ("samp.name"@, "ds9-rust"@),
        ("samp.description.text"@, "ds9-rust — slint port of SAOImage DS9"@),
        ("ds9-rust.version"@, "0.1"@),
    ]
}

/// The call that tells the hub of this program.
pub fn samp_declare_metadata(key: &str) -> (r: String)
    ensures
        exists|p: Seq<XV>|
            #![trigger call_xml("samp.hub.declareMetadata"@, p)]
            p.len() == 2 && p[0] is Str && p[0]->Str_0@ == key@ && p[1] is Struct && has_fields(
                p[1]->Struct_0@,
                metadata(),
            ) && r@ == call_xml("samp.hub.declareMetadata"@, p),
{
    let mut m: Vec<Field> = Vec::new();
    m.push(field("samp.name", "ds9-rust"));
    m.push(field("samp.description.text", "ds9-rust — slint port of SAOImage DS9"));
    m.push(field("ds9-rust.version", "0.1"));
    assert(has_fields(m@, metadata()));
    let mut p: Vec<XV> = Vec::new();
    p.push(XV::Str(owned(key)));
    p.push(XV::Struct(m));
    xmlrpc_call("samp.hub.declareMetadata", &p)
}

/// The call that has the hub pass a file on to all programs: a message of the given type with
/// the file's address and name.
pub fn samp_notify_all(key: &str, mtype: &str, url: &str, name: &str) -> (r: String)
    ensures
        exists|p: Seq<XV>|
            #![trigger call_xml("samp.hub.notifyAll"@, p)]
            p.len() == 2 && p[0] is Str && p[0]->Str_0@ == key@ && p[1] is Message
                && p[1]->Message_0@ == mtype@ && has_fields(
                p[1]->Message_1@,
                seq![("url"@, url@), ("name"@, name@)],
            ) && r@ == call_xml("samp.hub.notifyAll"@, p),
{
    let mut m: Vec<Field> = Vec::new();
    m.push(field("url", url));
    m.push(field("name", name));
    assert(has_fields(m@, seq![("url"@, url@), ("name"@, name@)]));
    let mut p: Vec<XV> = Vec::new();
    p.push(XV::Str(owned(key)));
    p.push(XV::Message(owned(mtype), m));
    xmlrpc_call("samp.hub.notifyAll", &p)
}

/// What the hub's reply to a message says: a fault, or that all is well.
pub fn samp_notified(body: &str) -> (r: Result<(), String>)
    ensures
        match r {
            Ok(()) => !contains_spec(body@, "<fault>"@),
            Err(e) => contains_spec(body@, "<fault>"@) && e@ == "samp: notifyAll fault: "@ + body@,
        },
{
    let v = chars_of(body);
    if find_text(&v, "<fault>").is_some() {
        let mut e = chars_of("samp: notifyAll fault: ");
        put_chars(&mut e, &v);
        return Err(string_of(&e));
    }
    Ok(())
}

} // verus!
