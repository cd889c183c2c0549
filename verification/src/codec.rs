use vstd::prelude::*;
use vstd::string::{StrSliceExecFns, StringExecFns};

verus! {

use crate::errors::PGError;
use crate::portnum::spec_digit_char;
use crate::store::{
    contains_name, lemma_save_then_load, lookup, views_of, Profile, ProfileView, Store,
};

// --- The escaped string literal form -------------------------------------
//
// The record document is this library's own format. Writing a string
// goes through serde_json, whose escape table is fixed: the quote, the
// backslash and every control character are escaped (five of them by a
// short form, the rest as \u00 plus two lowercase hex digits), and
// every other character is written as it is. That table is stated here
// exactly, so both directions of the codec can be held to it.

/// The lowercase hex digit for a value below sixteen.
pub open spec fn hex_digit(d: int) -> char {
    if d < 10 {
        spec_digit_char(d)
    } else if d == 10 {
        'a'
    } else if d == 11 {
        'b'
    } else if d == 12 {
        'c'
    } else if d == 13 {
        'd'
    } else if d == 14 {
        'e'
    } else {
        'f'
    }
}

/// What one character becomes inside a JSON string literal.
pub open spec fn escape_char(c: char) -> Seq<char> {
    if c == '"' {
        seq!['\\', '"']
    } else if c == '\\' {
        seq!['\\', '\\']
    } else if c == '\u{8}' {
        seq!['\\', 'b']
    } else if c == '\u{9}' {
        seq!['\\', 't']
    } else if c == '\u{A}' {
        seq!['\\', 'n']
    } else if c == '\u{C}' {
        seq!['\\', 'f']
    } else if c == '\u{D}' {
        seq!['\\', 'r']
    } else if (c as u32) < 0x20 {
        seq!['\\', 'u', '0', '0', hex_digit(c as u32 as int / 16), hex_digit(c as u32 as int % 16)]
    } else {
        seq![c]
    }
}

/// The body of a string literal: every character escaped, in order.
pub open spec fn escape(s: Seq<char>) -> Seq<char>
    decreases s.len(),
{
    if s.len() == 0 {
        Seq::<char>::empty()
    } else {
        escape_char(s[0]) + escape(s.drop_first())
    }
}

/// The JSON string literal denoting `s`, exactly as serde_json writes it.
pub open spec fn json_string(s: Seq<char>) -> Seq<char> {
    seq!['"'] + escape(s) + seq!['"']
}

/// Relies on serde_json::to_string on a string slice: it writes the
/// opening quote, each character through the fixed escape table stated
/// by `escape_char` (specials and control characters escaped, all else
/// raw), and the closing quote; serializing a string slice never fails.
#[verifier::external_body]
fn json_quote(s: &str) -> (r: String)
    ensures
        r@ == json_string(s@),
{
    serde_json::to_string(s).unwrap()
}

/// Relies on std's String::push: appends exactly the one character.
#[verifier::external_body]
fn push_char(s: &mut String, c: char)
    ensures
        final(s)@ == old(s)@ + seq![c],
{
    s.push(c);
}

// --- The serialized document ----------------------------------------------

/// The serialized form of one profile: a JSON object with the five
/// string members, in this fixed order.
pub open spec fn profile_json(p: ProfileView) -> Seq<char> {
    "{\"connection_name\":"@ + json_string(p.name) + ",\"host\":"@ + json_string(p.host)
        + ",\"port\":"@ + json_string(p.port) + ",\"user\":"@ + json_string(p.user)
        + ",\"dbname\":"@ + json_string(p.dbname) + "}"@
}

/// The serialized forms of the profiles, in order, separated by commas.
pub open spec fn profiles_json(s: Seq<ProfileView>) -> Seq<char>
    decreases s.len(),
{
    if s.len() == 0 {
        Seq::<char>::empty()
    } else if s.len() == 1 {
        profile_json(s[0])
    } else {
        profiles_json(s.drop_last()) + ","@ + profile_json(s.last())
    }
}

/// The whole store document: one object whose `connections` member is
/// the array of profiles.
pub open spec fn store_json(s: Seq<ProfileView>) -> Seq<char> {
    "{\"connections\":["@ + profiles_json(s) + "]}"@
}

/// Appends the serialized form of `p` to `out`.
fn append_profile_json(out: &mut String, p: &Profile)
    ensures
        final(out)@ == old(out)@ + profile_json(p@),
{
    out.append("{\"connection_name\":");
    let piece = json_quote(p.name.as_str());
    out.append(piece.as_str());
    out.append(",\"host\":");
    let piece = json_quote(p.host.as_str());
    out.append(piece.as_str());
    out.append(",\"port\":");
    let piece = json_quote(p.port.as_str());
    out.append(piece.as_str());
    out.append(",\"user\":");
    let piece = json_quote(p.user.as_str());
    out.append(piece.as_str());
    out.append(",\"dbname\":");
    let piece = json_quote(p.dbname.as_str());
    out.append(piece.as_str());
    out.append("}");
    proof {
        assert(out@ =~= old(out)@ + profile_json(p@));
    }
}

/// Serializes the store to the exact document that is written back to
/// the record file.
pub fn store_to_json(store: &Store) -> (r: String)
    ensures
        r@ == store_json(store@),
{
    let mut out = String::from_str("{\"connections\":[");
    let n = store.len();
    proof {
        assert(out@ =~= "{\"connections\":["@ + profiles_json(store@.subrange(0, 0)));
    }
    for i in 0..n
        invariant
            n == store@.len(),
            out@ == "{\"connections\":["@ + profiles_json(store@.subrange(0, i as int)),
    {
        let ghost pre = store@.subrange(0, i as int);
        if i > 0 {
            out.append(",");
        }
        append_profile_json(&mut out, store.get(i));
        proof {
            let post = store@.subrange(0, i as int + 1);
            assert(post.drop_last() =~= pre);
            assert(post.last() == store@[i as int]);
            assert(out@ =~= "{\"connections\":["@ + profiles_json(post));
        }
    }
    proof {
        assert(store@.subrange(0, n as int) =~= store@);
    }
    out.append("]}");
    proof {
        assert(out@ =~= store_json(store@));
    }
    out
}

// --- The grammar of the document ------------------------------------------
//
// Reading is defined by a deterministic recursive-descent grammar: a
// text is a well-formed store document exactly when `spec_parse_store`
// accepts it, and what it denotes is what that function returns. The
// grammar covers the serializer's output and admits JSON whitespace
// between tokens, the five members of a profile in any order, and
// every escape the table knows inside strings.

/// The position after `lit` when the text carries exactly `lit` at `i`.
pub open spec fn spec_expect(t: Seq<char>, i: int, lit: Seq<char>) -> Option<int> {
    if 0 <= i && i + lit.len() <= t.len() && t.subrange(i, i + lit.len()) == lit {
        Some(i + lit.len())
    } else {
        None
    }
}

/// The JSON whitespace characters.
pub open spec fn is_ws(c: char) -> bool {
    c == ' ' || c == '\u{9}' || c == '\u{A}' || c == '\u{D}'
}

/// The first position at or after `i` holding no whitespace.
pub open spec fn skip_ws(t: Seq<char>, i: int) -> int
    decreases t.len() - i,
{
    if 0 <= i < t.len() && is_ws(t[i]) {
        skip_ws(t, i + 1)
    } else {
        i
    }
}

/// The position after the token `lit`: whitespace is skipped, then the
/// text must carry exactly `lit`.
pub open spec fn spec_tok(t: Seq<char>, i: int, lit: Seq<char>) -> Option<int> {
    spec_expect(t, skip_ws(t, i), lit)
}

/// The characters that may follow a backslash as a short escape.
pub open spec fn is_short_escape(c: char) -> bool {
    c == '"' || c == '\\' || c == 'b' || c == 't' || c == 'n' || c == 'f' || c == 'r'
}

/// The character a short escape stands for.
pub open spec fn short_unescape(c: char) -> char {
    if c == '"' {
        '"'
    } else if c == '\\' {
        '\\'
    } else if c == 'b' {
        '\u{8}'
    } else if c == 't' {
        '\u{9}'
    } else if c == 'n' {
        '\u{A}'
    } else if c == 'f' {
        '\u{C}'
    } else {
        '\u{D}'
    }
}

/// Whether `c` is a lowercase hex digit.
pub open spec fn is_hex_lower(c: char) -> bool {
    ('0' <= c && c <= '9') || ('a' <= c && c <= 'f')
}

/// The value of a lowercase hex digit.
pub open spec fn hex_val(c: char) -> int {
    if '0' <= c && c <= '9' {
        c as u32 as int - '0' as u32 as int
    } else {
        c as u32 as int - 'a' as u32 as int + 10
    }
}

/// Scans a string literal's body from `i`, the opening quote already
/// consumed: the characters it denotes and the position after the
/// closing quote. Raw control characters are not part of a literal.
pub open spec fn scan_jstring(t: Seq<char>, i: int) -> Option<(Seq<char>, int)>
    decreases t.len() - i,
{
    if !(0 <= i < t.len()) {
        None
    } else if t[i] == '"' {
        Some((Seq::<char>::empty(), i + 1))
    } else if t[i] == '\\' {
        if i + 1 < t.len() && is_short_escape(t[i + 1]) {
            match scan_jstring(t, i + 2) {
                Some(rj) => Some((seq![short_unescape(t[i + 1])] + rj.0, rj.1)),
                None => None,
            }
        } else if i + 5 < t.len() && t[i + 1] == 'u' && t[i + 2] == '0' && t[i + 3] == '0'
            && is_hex_lower(t[i + 4]) && is_hex_lower(t[i + 5]) && hex_val(t[i + 4]) * 16 + hex_val(
            t[i + 5],
        ) < 0x20 {
            match scan_jstring(t, i + 6) {
                Some(rj) => Some(
                    (seq![((hex_val(t[i + 4]) * 16 + hex_val(t[i + 5])) as u8) as char] + rj.0, rj.1),
                ),
                None => None,
            }
        } else {
            None
        }
    } else if (t[i] as u32) < 0x20 {
        None
    } else {
        match scan_jstring(t, i + 1) {
            Some(rj) => Some((seq![t[i]] + rj.0, rj.1)),
            None => None,
        }
    }
}

/// One member of a profile object at `i`: the quoted key, a colon,
/// and a string value; the value's characters and the position after
/// the value's closing quote.
pub open spec fn spec_member(t: Seq<char>, i: int, key: Seq<char>) -> Option<(Seq<char>, int)> {
    match spec_tok(t, i, key) {
        None => None,
        Some(a) => match spec_tok(t, a, ":"@) {
            None => None,
            Some(b) => match spec_tok(t, b, "\""@) {
                None => None,
                Some(c) => scan_jstring(t, c),
            },
        },
    }
}

/// A partly read profile: the members seen so far.
pub ghost struct PartialProfile {
    pub name: Option<Seq<char>>,
    pub host: Option<Seq<char>>,
    pub port: Option<Seq<char>>,
    pub user: Option<Seq<char>>,
    pub dbname: Option<Seq<char>>,
}

/// No member read yet.
pub open spec fn empty_partial() -> PartialProfile {
    PartialProfile { name: None, host: None, port: None, user: None, dbname: None }
}

/// Whether field `k` (in key order: name, host, port, user, dbname)
/// was already read.
pub open spec fn partial_has(acc: PartialProfile, k: int) -> bool {
    if k == 0 {
        acc.name is Some
    } else if k == 1 {
        acc.host is Some
    } else if k == 2 {
        acc.port is Some
    } else if k == 3 {
        acc.user is Some
    } else {
        acc.dbname is Some
    }
}

/// `acc` with field `k` set to `v`.
pub open spec fn partial_set(acc: PartialProfile, k: int, v: Seq<char>) -> PartialProfile {
    if k == 0 {
        PartialProfile { name: Some(v), host: acc.host, port: acc.port, user: acc.user, dbname: acc.dbname }
    } else if k == 1 {
        PartialProfile { name: acc.name, host: Some(v), port: acc.port, user: acc.user, dbname: acc.dbname }
    } else if k == 2 {
        PartialProfile { name: acc.name, host: acc.host, port: Some(v), user: acc.user, dbname: acc.dbname }
    } else if k == 3 {
        PartialProfile { name: acc.name, host: acc.host, port: acc.port, user: Some(v), dbname: acc.dbname }
    } else {
        PartialProfile { name: acc.name, host: acc.host, port: acc.port, user: acc.user, dbname: Some(v) }
    }
}

/// Whether all five members were read.
pub open spec fn partial_complete(acc: PartialProfile) -> bool {
    acc.name is Some && acc.host is Some && acc.port is Some && acc.user is Some
        && acc.dbname is Some
}

/// The profile a complete reading denotes.
pub open spec fn partial_view(acc: PartialProfile) -> ProfileView {
    ProfileView {
        name: acc.name.unwrap(),
        host: acc.host.unwrap(),
        port: acc.port.unwrap(),
        user: acc.user.unwrap(),
        dbname: acc.dbname.unwrap(),
    }
}

/// The member starting at `i`, whichever of the five keys it carries:
/// the field's number, its value, and the position after it.
pub open spec fn spec_any_member(t: Seq<char>, i: int) -> Option<(int, Seq<char>, int)> {
    match spec_member(t, i, "\"connection_name\""@) {
        Some(m) => Some((0int, m.0, m.1)),
        None => match spec_member(t, i, "\"host\""@) {
            Some(m) => Some((1int, m.0, m.1)),
            None => match spec_member(t, i, "\"port\""@) {
                Some(m) => Some((2int, m.0, m.1)),
                None => match spec_member(t, i, "\"user\""@) {
                    Some(m) => Some((3int, m.0, m.1)),
                    None => match spec_member(t, i, "\"dbname\""@) {
                        Some(m) => Some((4int, m.0, m.1)),
                        None => None,
                    },
                },
            },
        },
    }
}

/// Reads comma-separated members until the closing brace: each of the
/// five keys exactly once, in any order.
pub open spec fn spec_parse_members(t: Seq<char>, i: int, acc: PartialProfile) -> Option<
    (ProfileView, int),
>
    decreases t.len() - i,
{
    match spec_any_member(t, i) {
        None => None,
        Some(m) => if partial_has(acc, m.0) || !(i < m.2 <= t.len()) {
            None
        } else {
            match spec_tok(t, m.2, ","@) {
                Some(k) => if !(m.2 < k <= t.len()) {
                    None
                } else {
                    spec_parse_members(t, k, partial_set(acc, m.0, m.1))
                },
                None => match spec_tok(t, m.2, "}"@) {
                    Some(end) => if partial_complete(partial_set(acc, m.0, m.1)) {
                        Some((partial_view(partial_set(acc, m.0, m.1)), end))
                    } else {
                        None
                    },
                    None => None,
                },
            }
        },
    }
}

/// Reads one profile object at `i`: an object holding the five string
/// members, each exactly once, in any order; the position after the
/// closing brace.
pub open spec fn spec_parse_profile(t: Seq<char>, i: int) -> Option<(ProfileView, int)> {
    match spec_tok(t, i, "{"@) {
        None => None,
        Some(a) => spec_parse_members(t, a, empty_partial()),
    }
}

/// Reads one or more comma-separated profiles from `i`.
pub open spec fn spec_parse_profiles(t: Seq<char>, i: int) -> Option<(Seq<ProfileView>, int)>
    decreases t.len() - i,
{
    match spec_parse_profile(t, i) {
        None => None,
        Some(pj) => if !(i < pj.1 <= t.len()) {
            None
        } else {
            match spec_tok(t, pj.1, ","@) {
                Some(k) => if !(pj.1 < k <= t.len()) {
                    None
                } else {
                    match spec_parse_profiles(t, k) {
                        Some(qs) => Some((seq![pj.0] + qs.0, qs.1)),
                        None => None,
                    }
                },
                None => Some((seq![pj.0], pj.1)),
            }
        },
    }
}

/// The store document's grammar: one object whose `connections` member
/// is an array of profile objects, each holding the five string
/// members once, in any order, with JSON whitespace allowed between
/// tokens. `None` when the text is no such document.
pub open spec fn spec_parse_store(t: Seq<char>) -> Option<Seq<ProfileView>> {
    match spec_tok(t, 0, "{"@) {
        None => None,
        Some(a) => match spec_tok(t, a, "\"connections\""@) {
            None => None,
            Some(b) => match spec_tok(t, b, ":"@) {
                None => None,
                Some(c) => match spec_tok(t, c, "["@) {
                    None => None,
                    Some(d) => match spec_tok(t, d, "]"@) {
                        Some(e) => match spec_tok(t, e, "}"@) {
                            Some(f) => if skip_ws(t, f) == t.len() {
                                Some(Seq::<ProfileView>::empty())
                            } else {
                                None
                            },
                            None => None,
                        },
                        None => match spec_parse_profiles(t, d) {
                            None => None,
                            Some(ps) => match spec_tok(t, ps.1, "]"@) {
                                None => None,
                                Some(e) => match spec_tok(t, e, "}"@) {
                                    Some(f) => if skip_ws(t, f) == t.len() {
                                        Some(ps.0)
                                    } else {
                                        None
                                    },
                                    None => None,
                                },
                            },
                        },
                    },
                },
            },
        },
    }
}

// --- The parser, verified against the grammar ------------------------------

/// Matches `lit` at `i`, as `spec_expect` reads it.
fn match_lit(s: &str, i: usize, lit: &str) -> (r: Option<usize>)
    ensures
        r is Some <==> spec_expect(s@, i as int, lit@) is Some,
        r matches Some(j) ==> spec_expect(s@, i as int, lit@) == Some(j as int),
{
    let n = s.unicode_len();
    let m = lit.unicode_len();
    if i > n || n - i < m {
        return None;
    }
    let mut k: usize = 0;
    while k < m
        invariant
            k <= m,
            i + m <= n,
            n == s@.len(),
            m == lit@.len(),
            forall|x: int| 0 <= x < k ==> s@[i + x] == lit@[x],
        decreases m - k,
    {
        if s.get_char(i + k) != lit.get_char(k) {
            proof {
                assert(s@.subrange(i as int, i as int + m as int)[k as int] != lit@[k as int]);
            }
            return None;
        }
        k += 1;
    }
    proof {
        assert(s@.subrange(i as int, i as int + m as int) =~= lit@);
    }
    Some(i + m)
}

fn is_ws_exec(c: char) -> (r: bool)
    ensures
        r == is_ws(c),
{
    c == ' ' || c == '\u{9}' || c == '\u{A}' || c == '\u{D}'
}

/// Walks past whitespace, as `skip_ws` reads it.
fn skip_ws_exec(s: &str, i: usize) -> (r: usize)
    requires
        i <= s@.len(),
    ensures
        r as int == skip_ws(s@, i as int),
        i <= r <= s@.len(),
{
    let len = s.unicode_len();
    let mut j = i;
    while j < len
        invariant
            i <= j <= len,
            len == s@.len(),
            skip_ws(s@, i as int) == skip_ws(s@, j as int),
        decreases len - j,
    {
        if !is_ws_exec(s.get_char(j)) {
            return j;
        }
        j += 1;
    }
    j
}

/// Matches the token `lit` past any whitespace, as `spec_tok` reads it.
fn match_tok(s: &str, i: usize, lit: &str) -> (r: Option<usize>)
    requires
        i <= s@.len(),
    ensures
        r is Some <==> spec_tok(s@, i as int, lit@) is Some,
        r matches Some(j) ==> spec_tok(s@, i as int, lit@) == Some(j as int) && i <= j <= s@.len(),
{
    let j = skip_ws_exec(s, i);
    match match_lit(s, j, lit) {
        Some(k) => Some(k),
        None => None,
    }
}

fn is_short_escape_exec(c: char) -> (r: bool)
    ensures
        r == is_short_escape(c),
{
    c == '"' || c == '\\' || c == 'b' || c == 't' || c == 'n' || c == 'f' || c == 'r'
}

fn short_unescape_exec(c: char) -> (r: char)
    ensures
        r == short_unescape(c),
{
    if c == '"' {
        '"'
    } else if c == '\\' {
        '\\'
    } else if c == 'b' {
        '\u{8}'
    } else if c == 't' {
        '\u{9}'
    } else if c == 'n' {
        '\u{A}'
    } else if c == 'f' {
        '\u{C}'
    } else {
        '\u{D}'
    }
}

fn is_hex_lower_exec(c: char) -> (r: bool)
    ensures
        r == is_hex_lower(c),
{
    ('0' <= c && c <= '9') || ('a' <= c && c <= 'f')
}

fn hex_val_exec(c: char) -> (r: u8)
    requires
        is_hex_lower(c),
    ensures
        r as int == hex_val(c),
{
    if c <= '9' {
        (c as u32 - '0' as u32) as u8
    } else {
        (c as u32 - 'a' as u32 + 10) as u8
    }
}

/// Scans a string literal's body, as `scan_jstring` reads it.
fn scan_string(s: &str, i: usize) -> (r: Option<(String, usize)>)
    ensures
        r is Some <==> scan_jstring(s@, i as int) is Some,
        r matches Some(xj) ==> scan_jstring(s@, i as int) == Some((xj.0@, xj.1 as int)) && xj.1
            <= s@.len(),
    decreases s@.len() - i,
{
    let len = s.unicode_len();
    if i >= len {
        return None;
    }
    let c = s.get_char(i);
    if c == '"' {
        Some((String::new(), i + 1))
    } else if c == '\\' {
        if len - i >= 2 && is_short_escape_exec(s.get_char(i + 1)) {
            let u = short_unescape_exec(s.get_char(i + 1));
            match scan_string(s, i + 2) {
                Some(rest) => {
                    let mut out = String::new();
                    push_char(&mut out, u);
                    out.append(rest.0.as_str());
                    proof {
                        assert(out@ =~= seq![short_unescape(s@[i as int + 1])] + rest.0@);
                    }
                    Some((out, rest.1))
                },
                None => None,
            }
        } else if len - i >= 6 && s.get_char(i + 1) == 'u' && s.get_char(i + 2) == '0' && s.get_char(
            i + 3,
        ) == '0' && is_hex_lower_exec(s.get_char(i + 4)) && is_hex_lower_exec(s.get_char(i + 5))
            && hex_val_exec(s.get_char(i + 4)) * 16 + hex_val_exec(s.get_char(i + 5)) < 0x20 {
            let v: u8 = hex_val_exec(s.get_char(i + 4)) * 16 + hex_val_exec(s.get_char(i + 5));
            let u: char = v as char;
            match scan_string(s, i + 6) {
                Some(rest) => {
                    let mut out = String::new();
                    push_char(&mut out, u);
                    out.append(rest.0.as_str());
                    proof {
                        assert(out@ =~= seq![
                            ((hex_val(s@[i as int + 4]) * 16 + hex_val(s@[i as int + 5])) as u8) as char,
                        ] + rest.0@);
                    }
                    Some((out, rest.1))
                },
                None => None,
            }
        } else {
            None
        }
    } else if (c as u32) < 0x20 {
        None
    } else {
        match scan_string(s, i + 1) {
            Some(rest) => {
                let mut out = String::new();
                push_char(&mut out, c);
                out.append(rest.0.as_str());
                proof {
                    assert(out@ =~= seq![s@[i as int]] + rest.0@);
                }
                Some((out, rest.1))
            },
            None => None,
        }
    }
}

/// Reads one member, as `spec_member` reads it.
fn parse_member(s: &str, i: usize, key: &str) -> (r: Option<(String, usize)>)
    requires
        i <= s@.len(),
    ensures
        r is Some <==> spec_member(s@, i as int, key@) is Some,
        r matches Some(xj) ==> spec_member(s@, i as int, key@) == Some((xj.0@, xj.1 as int))
            && xj.1 <= s@.len(),
{
    let a = match match_tok(s, i, key) {
        Some(x) => x,
        None => {
            return None;
        },
    };
    let b = match match_tok(s, a, ":") {
        Some(x) => x,
        None => {
            return None;
        },
    };
    let c = match match_tok(s, b, "\"") {
        Some(x) => x,
        None => {
            return None;
        },
    };
    scan_string(s, c)
}

/// A partly read profile, as the parser assembles it.
struct PartialStrings {
    name: Option<String>,
    host: Option<String>,
    port: Option<String>,
    user: Option<String>,
    dbname: Option<String>,
}

/// The image of a partly read profile.
spec fn partial_view_of(a: PartialStrings) -> PartialProfile {
    PartialProfile {
        name: match a.name {
            Some(s) => Some(s@),
            None => None,
        },
        host: match a.host {
            Some(s) => Some(s@),
            None => None,
        },
        port: match a.port {
            Some(s) => Some(s@),
            None => None,
        },
        user: match a.user {
            Some(s) => Some(s@),
            None => None,
        },
        dbname: match a.dbname {
            Some(s) => Some(s@),
            None => None,
        },
    }
}

/// Reads whichever member stands at `i`, as `spec_any_member` reads it.
fn parse_any_member(s: &str, i: usize) -> (r: Option<(usize, String, usize)>)
    requires
        i <= s@.len(),
    ensures
        r is Some <==> spec_any_member(s@, i as int) is Some,
        r matches Some(m) ==> spec_any_member(s@, i as int) == Some(
            (m.0 as int, m.1@, m.2 as int),
        ) && m.2 <= s@.len() && m.0 < 5,
{
    if let Some((v, j)) = parse_member(s, i, "\"connection_name\"") {
        return Some((0, v, j));
    }
    if let Some((v, j)) = parse_member(s, i, "\"host\"") {
        return Some((1, v, j));
    }
    if let Some((v, j)) = parse_member(s, i, "\"port\"") {
        return Some((2, v, j));
    }
    if let Some((v, j)) = parse_member(s, i, "\"user\"") {
        return Some((3, v, j));
    }
    if let Some((v, j)) = parse_member(s, i, "\"dbname\"") {
        return Some((4, v, j));
    }
    None
}

/// Reads the members of one profile object, as `spec_parse_members`
/// reads them.
fn parse_members(s: &str, i: usize, acc: PartialStrings) -> (r: Option<(Profile, usize)>)
    requires
        i <= s@.len(),
    ensures
        r is Some <==> spec_parse_members(s@, i as int, partial_view_of(acc)) is Some,
        r matches Some(pj) ==> spec_parse_members(s@, i as int, partial_view_of(acc)) == Some(
            (pj.0@, pj.1 as int),
        ) && pj.1 <= s@.len(),
    decreases s@.len() - i,
{
    let len = s.unicode_len();
    let (k, v, j) = match parse_any_member(s, i) {
        Some(x) => x,
        None => {
            return None;
        },
    };
    let has = if k == 0 {
        acc.name.is_some()
    } else if k == 1 {
        acc.host.is_some()
    } else if k == 2 {
        acc.port.is_some()
    } else if k == 3 {
        acc.user.is_some()
    } else {
        acc.dbname.is_some()
    };
    if has {
        return None;
    }
    if !(i < j && j <= len) {
        return None;
    }
    let ghost accv = partial_view_of(acc);
    let ghost vv = v@;
    let acc2 = if k == 0 {
        PartialStrings {
            name: Some(v),
            host: acc.host,
            port: acc.port,
            user: acc.user,
            dbname: acc.dbname,
        }
    } else if k == 1 {
        PartialStrings {
            name: acc.name,
            host: Some(v),
            port: acc.port,
            user: acc.user,
            dbname: acc.dbname,
        }
    } else if k == 2 {
        PartialStrings {
            name: acc.name,
            host: acc.host,
            port: Some(v),
            user: acc.user,
            dbname: acc.dbname,
        }
    } else if k == 3 {
        PartialStrings {
            name: acc.name,
            host: acc.host,
            port: acc.port,
            user: Some(v),
            dbname: acc.dbname,
        }
    } else {
        PartialStrings {
            name: acc.name,
            host: acc.host,
            port: acc.port,
            user: acc.user,
            dbname: Some(v),
        }
    };
    proof {
        assert(partial_view_of(acc2) == partial_set(accv, k as int, vv));
    }
    match match_tok(s, j, ",") {
        Some(next) => {
            if !(j < next && next <= len) {
                return None;
            }
            parse_members(s, next, acc2)
        },
        None => {
            match match_tok(s, j, "}") {
                Some(end) => {
                    let name = match acc2.name {
                        Some(x) => x,
                        None => {
                            return None;
                        },
                    };
                    let host = match acc2.host {
                        Some(x) => x,
                        None => {
                            return None;
                        },
                    };
                    let port = match acc2.port {
                        Some(x) => x,
                        None => {
                            return None;
                        },
                    };
                    let user = match acc2.user {
                        Some(x) => x,
                        None => {
                            return None;
                        },
                    };
                    let dbname = match acc2.dbname {
                        Some(x) => x,
                        None => {
                            return None;
                        },
                    };
                    Some((Profile::new(name, host, port, user, dbname), end))
                },
                None => None,
            }
        },
    }
}

/// Reads one profile object, as `spec_parse_profile` reads it.
fn parse_profile(s: &str, i: usize) -> (r: Option<(Profile, usize)>)
    requires
        i <= s@.len(),
    ensures
        r is Some <==> spec_parse_profile(s@, i as int) is Some,
        r matches Some(pj) ==> spec_parse_profile(s@, i as int) == Some((pj.0@, pj.1 as int))
            && pj.1 <= s@.len(),
{
    let a = match match_tok(s, i, "{") {
        Some(x) => x,
        None => {
            return None;
        },
    };
    let start = PartialStrings { name: None, host: None, port: None, user: None, dbname: None };
    proof {
        assert(partial_view_of(start) == empty_partial());
    }
    parse_members(s, a, start)
}

/// Reads the comma-separated profiles, as `spec_parse_profiles` reads
/// them.
fn parse_profiles(s: &str, i: usize) -> (r: Option<(Vec<Profile>, usize)>)
    requires
        i <= s@.len(),
    ensures
        r is Some <==> spec_parse_profiles(s@, i as int) is Some,
        r matches Some(pj) ==> spec_parse_profiles(s@, i as int) == Some(
            (views_of(pj.0@), pj.1 as int),
        ) && pj.1 <= s@.len(),
    decreases s@.len() - i,
{
    let len = s.unicode_len();
    let (p, j) = match parse_profile(s, i) {
        Some(x) => x,
        None => {
            return None;
        },
    };
    if !(i < j && j <= len) {
        return None;
    }
    match match_tok(s, j, ",") {
        Some(k) => {
            if !(j < k && k <= len) {
                return None;
            }
            match parse_profiles(s, k) {
                Some(rest) => {
                    let ghost rv = rest.0@;
                    let mut out = rest.0;
                    out.insert(0, p);
                    proof {
                        assert(out@ =~= seq![p] + rv);
                        assert(views_of(out@) =~= seq![p@] + views_of(rv));
                    }
                    Some((out, rest.1))
                },
                None => None,
            }
        },
        None => {
            let mut out: Vec<Profile> = Vec::new();
            out.push(p);
            proof {
                assert(views_of(out@) =~= seq![p@]);
            }
            Some((out, j))
        },
    }
}

/// Rebuilds a store from the text of the record file. Succeeds exactly
/// when the text is a well-formed store document — the grammar of
/// `spec_parse_store`: the `connections` array of profile objects,
/// whitespace free between tokens, members in any order — and then
/// holds exactly the document's profiles, in order. Any other text is
/// reported as the store being unreadable.
pub fn parse_store(text: &str) -> (r: Result<Store, PGError>)
    ensures
        r is Ok <==> spec_parse_store(text@) is Some,
        r matches Ok(st) ==> spec_parse_store(text@) == Some(st@),
        r matches Err(e) ==> e == PGError::JSONOpenFileError,
{
    let len = text.unicode_len();
    let a = match match_tok(text, 0, "{") {
        Some(x) => x,
        None => {
            return Err(PGError::JSONOpenFileError);
        },
    };
    let b = match match_tok(text, a, "\"connections\"") {
        Some(x) => x,
        None => {
            return Err(PGError::JSONOpenFileError);
        },
    };
    let c = match match_tok(text, b, ":") {
        Some(x) => x,
        None => {
            return Err(PGError::JSONOpenFileError);
        },
    };
    let d = match match_tok(text, c, "[") {
        Some(x) => x,
        None => {
            return Err(PGError::JSONOpenFileError);
        },
    };
    match match_tok(text, d, "]") {
        Some(e) => {
            let f = match match_tok(text, e, "}") {
                Some(x) => x,
                None => {
                    return Err(PGError::JSONOpenFileError);
                },
            };
            if skip_ws_exec(text, f) == len {
                Ok(Store::empty())
            } else {
                Err(PGError::JSONOpenFileError)
            }
        },
        None => {
            let (profiles, j) = match parse_profiles(text, d) {
                Some(x) => x,
                None => {
                    return Err(PGError::JSONOpenFileError);
                },
            };
            let e = match match_tok(text, j, "]") {
                Some(x) => x,
                None => {
                    return Err(PGError::JSONOpenFileError);
                },
            };
            let f = match match_tok(text, e, "}") {
                Some(x) => x,
                None => {
                    return Err(PGError::JSONOpenFileError);
                },
            };
            if skip_ws_exec(text, f) == len {
                Ok(Store::from_profiles(profiles))
            } else {
                Err(PGError::JSONOpenFileError)
            }
        },
    }
}

// --- The round trip through the text ---------------------------------------

/// Splits knowledge of a stretch of `t` into its two parts.
proof fn lemma_peel(t: Seq<char>, i: int, a: Seq<char>, b: Seq<char>)
    requires
        0 <= i,
        i + a.len() + b.len() <= t.len(),
        t.subrange(i, i + a.len() + b.len()) == a + b,
    ensures
        t.subrange(i, i + a.len()) == a,
        t.subrange(i + a.len(), i + a.len() + b.len()) == b,
{
    assert(t.subrange(i, i + a.len()) =~= a);
    assert forall|k: int| 0 <= k < b.len() implies t[i + a.len() + k] == b[k] by {
        assert(t[i + a.len() + k] == t.subrange(i, i + a.len() + b.len())[a.len() + k]);
        assert((a + b)[a.len() + k] == b[k]);
    }
    assert(t.subrange(i + a.len(), i + a.len() + b.len()) =~= b);
}

/// The hex digits this library writes are read back as themselves.
proof fn lemma_hex_digit(d: int)
    requires
        0 <= d < 16,
    ensures
        is_hex_lower(hex_digit(d)),
        hex_val(hex_digit(d)) == d,
{
}

/// Scanning reads back exactly the characters whose escaped form it
/// stands before: the string codec is a round trip.
proof fn lemma_scan_escape(t: Seq<char>, i: int, x: Seq<char>)
    requires
        0 <= i,
        i + escape(x).len() + 1 <= t.len(),
        t.subrange(i, i + escape(x).len() + 1) == escape(x) + seq!['"'],
    ensures
        scan_jstring(t, i) == Some((x, i + escape(x).len() + 1)),
    decreases x.len(),
{
    if x.len() == 0 {
        assert(t[i] == (escape(x) + seq!['"'])[0]);
    } else {
        let c = x[0];
        let e0 = escape_char(c);
        let rest = escape(x.drop_first());
        assert(escape(x) == e0 + rest);
        assert forall|k: int| 0 <= k < e0.len() implies t[i + k] == e0[k] by {
            assert(t[i + k] == t.subrange(i, i + escape(x).len() + 1)[k]);
            assert((escape(x) + seq!['"'])[k] == (e0 + rest)[k]);
        }
        assert(t[i] == e0[0]) by {
            assert(t[i + 0] == e0[0]);
        }
        if e0.len() > 1 {
            assert(t[i + 1] == e0[1]);
        }
        assert(t.subrange(i + e0.len(), i + escape(x).len() + 1) =~= rest + seq!['"']) by {
            assert forall|k: int| 0 <= k < rest.len() + 1 implies t[i + e0.len() + k] == (rest
                + seq!['"'])[k] by {
                assert(t[i + e0.len() + k] == t.subrange(i, i + escape(x).len() + 1)[e0.len() + k]);
                assert((escape(x) + seq!['"'])[e0.len() + k] == (rest + seq!['"'])[k]);
            }
        }
        lemma_scan_escape(t, i + e0.len(), x.drop_first());
        let j = i + escape(x).len() + 1;
        if c == '"' || c == '\\' {
            assert(t[i] == '\\' && t[i + 1] == c);
            assert(is_short_escape(t[i + 1]) && short_unescape(t[i + 1]) == c);
            assert(seq![c] + x.drop_first() =~= x);
            assert(scan_jstring(t, i) == Some((x, j)));
        } else if c == '\u{8}' || c == '\u{9}' || c == '\u{A}' || c == '\u{C}' || c == '\u{D}' {
            assert(t[i] == '\\' && is_short_escape(t[i + 1]) && short_unescape(t[i + 1]) == c);
            assert(seq![c] + x.drop_first() =~= x);
            assert(scan_jstring(t, i) == Some((x, j)));
        } else if (c as u32) < 0x20 {
            let v = c as u32 as int;
            assert(t[i] == '\\' && t[i + 1] == 'u' && t[i + 2] == '0' && t[i + 3] == '0');
            assert(!is_short_escape('u'));
            lemma_hex_digit(v / 16);
            lemma_hex_digit(v % 16);
            assert(t[i + 4] == hex_digit(v / 16) && t[i + 5] == hex_digit(v % 16));
            assert(hex_val(t[i + 4]) * 16 + hex_val(t[i + 5]) == v);
            assert(0 <= v < 0x20);
            assert(v as u8 == v);
            vstd::utf8::char_u32_cast(c, c as u32);
            assert(((v as u8) as char) == c);
            assert(seq![c] + x.drop_first() =~= x);
            assert(scan_jstring(t, i) == Some((x, j)));
        } else {
            assert(t[i] == c);
            assert(seq![c] + x.drop_first() =~= x);
            assert(scan_jstring(t, i) == Some((x, j)));
        }
    }
}

/// A token standing directly at `i` is read there: its first
/// character is no whitespace, so nothing is skipped before it.
proof fn lemma_tok_here(t: Seq<char>, i: int, lit: Seq<char>)
    requires
        0 <= i,
        lit.len() > 0,
        !is_ws(lit[0]),
        i + lit.len() <= t.len(),
        t.subrange(i, i + lit.len()) == lit,
    ensures
        spec_tok(t, i, lit) == Some(i + lit.len()),
{
    assert(t[i] == lit[0]) by {
        assert(t.subrange(i, i + lit.len())[0] == lit[0]);
    }
    assert(skip_ws(t, i) == i);
}

/// One member in its canonical written form — the quoted key, the
/// colon, the escaped value — reads back as exactly that value.
proof fn lemma_member_json(t: Seq<char>, i: int, key: Seq<char>, x: Seq<char>, rest: Seq<char>)
    requires
        0 <= i,
        key.len() > 0,
        !is_ws(key[0]),
        i + key.len() + 1 + json_string(x).len() + rest.len() <= t.len(),
        t.subrange(i, i + key.len() + 1 + json_string(x).len() + rest.len()) == key + ":"@
            + json_string(x) + rest,
    ensures
        spec_member(t, i, key) == Some((x, i + key.len() + 1 + json_string(x).len())),
        t.subrange(i, i + key.len()) == key,
        t.subrange(
            i + key.len() + 1 + json_string(x).len(),
            i + key.len() + 1 + json_string(x).len() + rest.len(),
        ) == rest,
{
    reveal_strlit(":");
    reveal_strlit("\"");
    let colon = ":"@;
    let quote = "\""@;
    assert(colon.len() == 1 && colon[0] == ':');
    assert(quote.len() == 1 && quote[0] == '"');
    let e = escape(x);
    let js = json_string(x);
    assert(js =~= quote + (e + seq!['"']));
    let r1 = colon + js + rest;
    assert(t.subrange(i, i + key.len() + r1.len() as int) == key + r1) by {
        assert(key + r1 =~= key + ":"@ + json_string(x) + rest);
    }
    lemma_peel(t, i, key, r1);
    lemma_tok_here(t, i, key);
    let i1 = i + key.len() as int;
    let r2 = js + rest;
    assert(t.subrange(i1, i1 + colon.len() + r2.len() as int) == colon + r2) by {
        assert(colon + r2 =~= r1);
    }
    lemma_peel(t, i1, colon, r2);
    lemma_tok_here(t, i1, colon);
    let i2 = i1 + 1;
    let r3 = (e + seq!['"']) + rest;
    assert(t.subrange(i2, i2 + quote.len() + r3.len() as int) == quote + r3) by {
        assert(quote + r3 =~= r2);
    }
    lemma_peel(t, i2, quote, r3);
    lemma_tok_here(t, i2, quote);
    let i3 = i2 + 1;
    assert(t.subrange(i3, i3 + (e + seq!['"']).len() + rest.len() as int) == (e + seq!['"'])
        + rest);
    lemma_peel(t, i3, e + seq!['"'], rest);
    lemma_scan_escape(t, i3, x);
}

/// A member whose key stands at `i` does not read under a key whose
/// second character differs.
proof fn lemma_member_key_mismatch(t: Seq<char>, i: int, actual: Seq<char>, tried: Seq<char>)
    requires
        0 <= i,
        actual.len() >= 2,
        tried.len() >= 2,
        i + actual.len() <= t.len(),
        t.subrange(i, i + actual.len()) == actual,
        !is_ws(actual[0]),
        actual[1] != tried[1],
    ensures
        spec_member(t, i, tried) is None,
{
    assert(t[i] == actual[0]) by {
        assert(t.subrange(i, i + actual.len())[0] == actual[0]);
    }
    assert(t[i + 1] == actual[1]) by {
        assert(t.subrange(i, i + actual.len())[1] == actual[1]);
    }
    assert(skip_ws(t, i) == i);
    assert(spec_expect(t, i, tried) is None) by {
        if spec_expect(t, i, tried) is Some {
            assert(t.subrange(i, i + tried.len())[1] == tried[1]);
        }
    }
}

/// At each later member's key, the keys written earlier do not read:
/// their second characters differ.
proof fn lemma_profile_mismatches(t: Seq<char>, b: int, c: int, d: int, g: int)
    requires
        0 <= b && b + "\"host\""@.len() <= t.len(),
        0 <= c && c + "\"port\""@.len() <= t.len(),
        0 <= d && d + "\"user\""@.len() <= t.len(),
        0 <= g && g + "\"dbname\""@.len() <= t.len(),
        t.subrange(b, b + "\"host\""@.len()) == "\"host\""@,
        t.subrange(c, c + "\"port\""@.len()) == "\"port\""@,
        t.subrange(d, d + "\"user\""@.len()) == "\"user\""@,
        t.subrange(g, g + "\"dbname\""@.len()) == "\"dbname\""@,
    ensures
        spec_member(t, b, "\"connection_name\""@) is None,
        spec_member(t, c, "\"connection_name\""@) is None,
        spec_member(t, c, "\"host\""@) is None,
        spec_member(t, d, "\"connection_name\""@) is None,
        spec_member(t, d, "\"host\""@) is None,
        spec_member(t, d, "\"port\""@) is None,
        spec_member(t, g, "\"connection_name\""@) is None,
        spec_member(t, g, "\"host\""@) is None,
        spec_member(t, g, "\"port\""@) is None,
        spec_member(t, g, "\"user\""@) is None,
{
    reveal_strlit("\"connection_name\"");
    reveal_strlit("\"host\"");
    reveal_strlit("\"port\"");
    reveal_strlit("\"user\"");
    reveal_strlit("\"dbname\"");
    let k1 = "\"connection_name\""@;
    let k2 = "\"host\""@;
    let k3 = "\"port\""@;
    let k4 = "\"user\""@;
    let k5 = "\"dbname\""@;
    lemma_member_key_mismatch(t, b, k2, k1);
    lemma_member_key_mismatch(t, c, k3, k1);
    lemma_member_key_mismatch(t, c, k3, k2);
    lemma_member_key_mismatch(t, d, k4, k1);
    lemma_member_key_mismatch(t, d, k4, k2);
    lemma_member_key_mismatch(t, d, k4, k3);
    lemma_member_key_mismatch(t, g, k5, k1);
    lemma_member_key_mismatch(t, g, k5, k2);
    lemma_member_key_mismatch(t, g, k5, k3);
    lemma_member_key_mismatch(t, g, k5, k4);
}

/// The five members written in canonical order read back, through the
/// any-order member rule, as the one profile they spell.
proof fn lemma_members_chain(
    t: Seq<char>,
    a: int,
    b: int,
    c: int,
    d: int,
    g: int,
    e1: int,
    e2: int,
    e3: int,
    e4: int,
    e5: int,
    p: ProfileView,
)
    requires
        spec_member(t, a, "\"connection_name\""@) == Some((p.name, e1)),
        spec_member(t, b, "\"host\""@) == Some((p.host, e2)),
        spec_member(t, c, "\"port\""@) == Some((p.port, e3)),
        spec_member(t, d, "\"user\""@) == Some((p.user, e4)),
        spec_member(t, g, "\"dbname\""@) == Some((p.dbname, e5)),
        spec_member(t, b, "\"connection_name\""@) is None,
        spec_member(t, c, "\"connection_name\""@) is None,
        spec_member(t, c, "\"host\""@) is None,
        spec_member(t, d, "\"connection_name\""@) is None,
        spec_member(t, d, "\"host\""@) is None,
        spec_member(t, d, "\"port\""@) is None,
        spec_member(t, g, "\"connection_name\""@) is None,
        spec_member(t, g, "\"host\""@) is None,
        spec_member(t, g, "\"port\""@) is None,
        spec_member(t, g, "\"user\""@) is None,
        spec_tok(t, e1, ","@) == Some(b),
        spec_tok(t, e2, ","@) == Some(c),
        spec_tok(t, e3, ","@) == Some(d),
        spec_tok(t, e4, ","@) == Some(g),
        spec_tok(t, e5, ","@) is None,
        spec_tok(t, e5, "}"@) == Some(e5 + 1),
        a < e1 <= t.len(),
        e1 < b <= t.len(),
        b < e2 <= t.len(),
        e2 < c <= t.len(),
        c < e3 <= t.len(),
        e3 < d <= t.len(),
        d < e4 <= t.len(),
        e4 < g <= t.len(),
        g < e5 <= t.len(),
    ensures
        spec_parse_members(t, a, empty_partial()) == Some((p, e5 + 1)),
{
    let acc0 = empty_partial();
    let acc1 = partial_set(acc0, 0, p.name);
    let acc2 = partial_set(acc1, 1, p.host);
    let acc3 = partial_set(acc2, 2, p.port);
    let acc4 = partial_set(acc3, 3, p.user);
    let acc5 = partial_set(acc4, 4, p.dbname);
    assert(spec_any_member(t, a) == Some((0int, p.name, e1)));
    assert(spec_any_member(t, b) == Some((1int, p.host, e2)));
    assert(spec_any_member(t, c) == Some((2int, p.port, e3)));
    assert(spec_any_member(t, d) == Some((3int, p.user, e4)));
    assert(spec_any_member(t, g) == Some((4int, p.dbname, e5)));
    assert(partial_complete(acc5));
    assert(partial_view(acc5) == p);
    assert(spec_parse_members(t, g, acc4) == Some((p, e5 + 1)));
    assert(spec_parse_members(t, d, acc3) == Some((p, e5 + 1)));
    assert(spec_parse_members(t, c, acc2) == Some((p, e5 + 1)));
    assert(spec_parse_members(t, b, acc1) == Some((p, e5 + 1)));
    assert(spec_parse_members(t, a, acc0) == Some((p, e5 + 1)));
}

/// A profile's serialized form reads back as exactly that profile.
#[verifier::rlimit(100)]
proof fn lemma_parse_profile_json(t: Seq<char>, i: int, p: ProfileView)
    requires
        0 <= i,
        i + profile_json(p).len() <= t.len(),
        t.subrange(i, i + profile_json(p).len()) == profile_json(p),
    ensures
        spec_parse_profile(t, i) == Some((p, i + profile_json(p).len())),
        profile_json(p).len() > 0,
{
    reveal_strlit("{\"connection_name\":");
    reveal_strlit(",\"host\":");
    reveal_strlit(",\"port\":");
    reveal_strlit(",\"user\":");
    reveal_strlit(",\"dbname\":");
    reveal_strlit("}");
    reveal_strlit("{");
    reveal_strlit(",");
    reveal_strlit(":");
    reveal_strlit("\"connection_name\"");
    reveal_strlit("\"host\"");
    reveal_strlit("\"port\"");
    reveal_strlit("\"user\"");
    reveal_strlit("\"dbname\"");
    let ob = "{"@;
    let cm = ","@;
    let cb = "}"@;
    let k1 = "\"connection_name\""@;
    let k2 = "\"host\""@;
    let k3 = "\"port\""@;
    let k4 = "\"user\""@;
    let k5 = "\"dbname\""@;
    let colon = ":"@;
    assert("{\"connection_name\":"@ =~= ob + k1 + colon);
    assert(",\"host\":"@ =~= cm + k2 + colon);
    assert(",\"port\":"@ =~= cm + k3 + colon);
    assert(",\"user\":"@ =~= cm + k4 + colon);
    assert(",\"dbname\":"@ =~= cm + k5 + colon);
    let m1 = k1 + colon + json_string(p.name);
    let m2 = k2 + colon + json_string(p.host);
    let m3 = k3 + colon + json_string(p.port);
    let m4 = k4 + colon + json_string(p.user);
    let m5 = k5 + colon + json_string(p.dbname);
    let total = profile_json(p).len() as int;
    let r0 = m1 + cm + m2 + cm + m3 + cm + m4 + cm + m5 + cb;
    assert(t.subrange(i, i + ob.len() + r0.len() as int) == ob + r0) by {
        assert(ob + r0 =~= profile_json(p));
    }
    lemma_peel(t, i, ob, r0);
    lemma_tok_here(t, i, ob);
    let a = i + 1;
    let r1 = cm + m2 + cm + m3 + cm + m4 + cm + m5 + cb;
    assert(t.subrange(a, a + k1.len() + 1 + json_string(p.name).len() + r1.len() as int) == k1
        + ":"@ + json_string(p.name) + r1) by {
        assert(k1 + ":"@ + json_string(p.name) + r1 =~= r0);
    }
    lemma_member_json(t, a, k1, p.name, r1);
    let e1 = a + k1.len() + 1 + json_string(p.name).len() as int;
    let r2 = m2 + cm + m3 + cm + m4 + cm + m5 + cb;
    assert(t.subrange(e1, e1 + cm.len() + r2.len() as int) == cm + r2) by {
        assert(cm + r2 =~= r1);
    }
    lemma_peel(t, e1, cm, r2);
    lemma_tok_here(t, e1, cm);
    let b = e1 + 1;
    let r3 = cm + m3 + cm + m4 + cm + m5 + cb;
    assert(t.subrange(b, b + k2.len() + 1 + json_string(p.host).len() + r3.len() as int) == k2
        + ":"@ + json_string(p.host) + r3) by {
        assert(k2 + ":"@ + json_string(p.host) + r3 =~= r2);
    }
    lemma_member_json(t, b, k2, p.host, r3);
    let e2 = b + k2.len() + 1 + json_string(p.host).len() as int;
    let r4 = m3 + cm + m4 + cm + m5 + cb;
    assert(t.subrange(e2, e2 + cm.len() + r4.len() as int) == cm + r4) by {
        assert(cm + r4 =~= r3);
    }
    lemma_peel(t, e2, cm, r4);
    lemma_tok_here(t, e2, cm);
    let c = e2 + 1;
    let r5 = cm + m4 + cm + m5 + cb;
    assert(t.subrange(c, c + k3.len() + 1 + json_string(p.port).len() + r5.len() as int) == k3
        + ":"@ + json_string(p.port) + r5) by {
        assert(k3 + ":"@ + json_string(p.port) + r5 =~= r4);
    }
    lemma_member_json(t, c, k3, p.port, r5);
    let e3 = c + k3.len() + 1 + json_string(p.port).len() as int;
    let r6 = m4 + cm + m5 + cb;
    assert(t.subrange(e3, e3 + cm.len() + r6.len() as int) == cm + r6) by {
        assert(cm + r6 =~= r5);
    }
    lemma_peel(t, e3, cm, r6);
    lemma_tok_here(t, e3, cm);
    let d = e3 + 1;
    let r7 = cm + m5 + cb;
    assert(t.subrange(d, d + k4.len() + 1 + json_string(p.user).len() + r7.len() as int) == k4
        + ":"@ + json_string(p.user) + r7) by {
        assert(k4 + ":"@ + json_string(p.user) + r7 =~= r6);
    }
    lemma_member_json(t, d, k4, p.user, r7);
    let e4 = d + k4.len() + 1 + json_string(p.user).len() as int;
    let r8 = m5 + cb;
    assert(t.subrange(e4, e4 + cm.len() + r8.len() as int) == cm + r8) by {
        assert(cm + r8 =~= r7);
    }
    lemma_peel(t, e4, cm, r8);
    lemma_tok_here(t, e4, cm);
    let g = e4 + 1;
    assert(t.subrange(g, g + k5.len() + 1 + json_string(p.dbname).len() + cb.len() as int) == k5
        + ":"@ + json_string(p.dbname) + cb) by {
        assert(k5 + ":"@ + json_string(p.dbname) + cb =~= r8);
    }
    lemma_member_json(t, g, k5, p.dbname, cb);
    let e1 = a + k1.len() + 1 + json_string(p.name).len() as int;
    let e5 = g + k5.len() + 1 + json_string(p.dbname).len() as int;
    lemma_tok_here(t, e5, cb);
    assert(e5 + 1 == i + total);
    assert(t[e5] == '}') by {
        assert(t.subrange(e5, e5 + cb.len() as int)[0] == cb[0]);
    }
    assert(skip_ws(t, e5) == e5);
    assert(spec_tok(t, e5, cm) is None) by {
        if spec_tok(t, e5, cm) is Some {
            assert(t.subrange(e5, e5 + 1)[0] == cm[0]);
        }
    }
    lemma_profile_mismatches(t, b, c, d, g);
    lemma_members_chain(t, a, b, c, d, g, e1, e2, e3, e4, e5, p);
    assert(spec_parse_profile(t, i) == Some((p, i + total)));
}

/// The serialized profiles in head form: the first profile, a comma,
/// then the rest.
proof fn lemma_profiles_json_cons(s: Seq<ProfileView>)
    requires
        s.len() >= 2,
    ensures
        profiles_json(s) == profile_json(s[0]) + ","@ + profiles_json(s.drop_first()),
    decreases s.len(),
{
    if s.len() == 2 {
        assert(s.drop_last() =~= seq![s[0]]);
        assert(s.drop_first() =~= seq![s[1]]);
        assert(profiles_json(s) == profiles_json(s.drop_last()) + ","@ + profile_json(s.last()));
    } else {
        lemma_profiles_json_cons(s.drop_last());
        assert(s.drop_last()[0] == s[0]);
        assert(s.drop_last().drop_first() =~= s.drop_first().drop_last());
        assert(s.drop_first().last() == s.last());
        assert(s.drop_first().len() >= 2);
        assert(profiles_json(s.drop_first()) == profiles_json(s.drop_first().drop_last()) + ","@
            + profile_json(s.drop_first().last()));
        assert(profiles_json(s) =~= profile_json(s[0]) + ","@ + profiles_json(s.drop_first()));
    }
}

/// A comma-separated run of serialized profiles, closed by the array's
/// end, reads back as exactly those profiles.
#[verifier::rlimit(100)]
proof fn lemma_parse_profiles_json(t: Seq<char>, i: int, s: Seq<ProfileView>)
    requires
        s.len() >= 1,
        0 <= i,
        i + profiles_json(s).len() < t.len(),
        t.subrange(i, i + profiles_json(s).len()) == profiles_json(s),
        t[i + profiles_json(s).len()] == ']',
    ensures
        spec_parse_profiles(t, i) == Some((s, i + profiles_json(s).len())),
    decreases s.len(),
{
    reveal_strlit(",");
    if s.len() == 1 {
        assert(profiles_json(s) == profile_json(s[0]));
        lemma_parse_profile_json(t, i, s[0]);
        let j = i + profile_json(s[0]).len();
        assert(!is_ws(']'));
        assert(skip_ws(t, j) == j);
        assert(spec_tok(t, j, ","@) is None) by {
            if spec_tok(t, j, ","@) is Some {
                assert(t.subrange(j, j + 1)[0] == ","@[0]);
            }
        }
        assert(seq![s[0]] =~= s);
    } else {
        lemma_profiles_json_cons(s);
        let pl = profiles_json(s);
        let head = profile_json(s[0]);
        let tail = profiles_json(s.drop_first());
        assert(t.subrange(i, i + head.len() + (","@ + tail).len() as int) == head + (","@ + tail))
            by {
            assert(head + (","@ + tail) =~= pl);
        }
        lemma_peel(t, i, head, ","@ + tail);
        let j = i + head.len() as int;
        lemma_peel(t, j, ","@, tail);
        lemma_parse_profile_json(t, i, s[0]);
        lemma_tok_here(t, j, ","@);
        lemma_parse_profiles_json(t, j + 1, s.drop_first());
        assert(seq![s[0]] + s.drop_first() =~= s);
    }
}

/// A profile's serialized form opens with its brace.
proof fn lemma_profile_json_first(p: ProfileView)
    ensures
        profile_json(p).len() > 0,
        profile_json(p)[0] == '{',
{
    reveal_strlit("{\"connection_name\":");
    assert(profile_json(p)[0] == "{\"connection_name\":"@[0]);
}

/// The frame of a written document: where each structural token of
/// `store_json(s)` stands, and that the profiles fill the array.
#[verifier::rlimit(100)]
proof fn lemma_store_frame(s: Seq<ProfileView>)
    ensures
        ({
            let t = store_json(s);
            let d = "{\"connections\":["@.len() as int;
            let j = d + profiles_json(s).len() as int;
            &&& d == 16
            &&& spec_tok(t, 0, "{"@) == Some(1int)
            &&& spec_tok(t, 1, "\"connections\""@) == Some(14int)
            &&& spec_tok(t, 14, ":"@) == Some(15int)
            &&& spec_tok(t, 15, "["@) == Some(16int)
            &&& t.subrange(d, j) == profiles_json(s)
            &&& j + 2 == t.len()
            &&& t[j] == ']'
            &&& spec_tok(t, j, "]"@) == Some(j + 1)
            &&& spec_tok(t, j + 1, "}"@) == Some(j + 2)
        }),
{
    reveal_strlit("{\"connections\":[");
    reveal_strlit("{");
    reveal_strlit("\"connections\"");
    reveal_strlit(":");
    reveal_strlit("[");
    reveal_strlit("]");
    reveal_strlit("}");
    reveal_strlit("]}");
    let t = store_json(s);
    let h = "{\"connections\":["@;
    let e = "]}"@;
    let pl = profiles_json(s);
    let ob = "{"@;
    let kc = "\"connections\""@;
    let colon = ":"@;
    let obr = "["@;
    let cbr = "]"@;
    let cb = "}"@;
    assert(h =~= ob + kc + colon + obr);
    assert(e =~= cbr + cb);
    let r0 = kc + colon + obr + (pl + e);
    assert(t.subrange(0, ob.len() + r0.len() as int) == ob + r0) by {
        assert(ob + r0 =~= t);
        assert(t.subrange(0, t.len() as int) =~= t);
    }
    lemma_peel(t, 0, ob, r0);
    lemma_tok_here(t, 0, ob);
    let a: int = 1;
    let r1 = colon + obr + (pl + e);
    assert(t.subrange(a, a + kc.len() + r1.len() as int) == kc + r1) by {
        assert(kc + r1 =~= r0);
    }
    lemma_peel(t, a, kc, r1);
    lemma_tok_here(t, a, kc);
    let b = a + kc.len() as int;
    let r2 = obr + (pl + e);
    assert(t.subrange(b, b + colon.len() + r2.len() as int) == colon + r2) by {
        assert(colon + r2 =~= r1);
    }
    lemma_peel(t, b, colon, r2);
    lemma_tok_here(t, b, colon);
    let c = b + 1;
    assert(t.subrange(c, c + obr.len() + (pl + e).len() as int) == obr + (pl + e)) by {
        assert(obr + (pl + e) =~= r2);
    }
    lemma_peel(t, c, obr, pl + e);
    lemma_tok_here(t, c, obr);
    let d = c + 1;
    lemma_peel(t, d, pl, e);
    let j = d + pl.len() as int;
    assert(t.subrange(j, j + cbr.len() + cb.len() as int) == cbr + cb) by {
        assert(cbr + cb =~= e);
    }
    lemma_peel(t, j, cbr, cb);
    lemma_tok_here(t, j, cbr);
    lemma_tok_here(t, j + 1, cb);
    assert(t[j] == ']') by {
        assert(t.subrange(j, j + 1)[0] == cbr[0]);
    }
}

#[verifier::rlimit(100)]
pub proof fn lemma_text_round_trip(s: Seq<ProfileView>)
    ensures
        spec_parse_store(store_json(s)) == Some(s),
{
    reveal_strlit("{\"connections\":[");
    reveal_strlit("]");
    let t = store_json(s);
    let pl = profiles_json(s);
    let d: int = 16;
    lemma_store_frame(s);
    let j = d + pl.len() as int;
    assert(skip_ws(t, t.len() as int) == t.len());
    if s.len() == 0 {
        assert(pl.len() == 0);
        assert(spec_parse_store(t) == Some(Seq::<ProfileView>::empty()));
        assert(Seq::<ProfileView>::empty() =~= s);
    } else {
        assert(t[d] == '{') by {
            if s.len() == 1 {
                assert(pl == profile_json(s[0]));
            } else {
                lemma_profiles_json_cons(s);
            }
            lemma_profile_json_first(s[0]);
            assert(pl[0] == profile_json(s[0])[0]);
            assert(t.subrange(d, d + pl.len())[0] == pl[0]);
        }
        assert(skip_ws(t, d) == d);
        assert(spec_tok(t, d, "]"@) is None) by {
            if spec_tok(t, d, "]"@) is Some {
                assert(t.subrange(d, d + 1)[0] == "]"@[0]);
            }
        }
        lemma_parse_profiles_json(t, d, s);
    }
}

/// Save then load through the persisted text: the document written for
/// a store extended with a fresh-named profile reads back as exactly
/// that store, in which looking the name up returns exactly that
/// profile.
pub proof fn lemma_text_save_then_load(s: Seq<ProfileView>, p: ProfileView)
    requires
        !contains_name(s, p.name),
    ensures
        spec_parse_store(store_json(s.push(p))) == Some(s.push(p)),
        lookup(s.push(p), p.name) == Some(p),
{
    lemma_text_round_trip(s.push(p));
    lemma_save_then_load(s, p);
}

} // verus!
