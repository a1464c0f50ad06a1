//! Header names, header values and `http::HeaderMap`.
//!
//! The map itself stays `http`'s; verified code sees it through
//! `header_entries`, the sequence of (name, value bytes) pairs in the order the
//! map's iterator yields them, and through the wrappers below, whose contracts
//! say what each call does to that sequence.
use http::header::{HeaderName, HeaderValue};
use http::HeaderMap;
use std::str::FromStr;
use vstd::prelude::*;
use vstd::utf8::encode_utf8;

verus! {

#[verifier::external_type_specification]
#[verifier::external_body]
#[verifier::reject_recursive_types(T)]
pub struct ExHeaderMap<T>(HeaderMap<T>);

#[verifier::external_type_specification]
#[verifier::external_body]
pub struct ExHeaderValue(HeaderValue);

/// The number of entries below which `HeaderMap::insert` never panics.
///
/// The map panics ("size overflows MAX_SIZE") only when it must grow its
/// index table beyond 2^15 slots; with fewer than 6554 entries (32768 / 5,
/// its lowest load factor threshold) that never happens.
pub const MAX_HEADER_ENTRIES: usize = 6553;

// ---------------------------------------------------------------------------
// Names and values
// ---------------------------------------------------------------------------

/// A character that `http` accepts in a header name (an RFC 7230 `tchar`).
pub open spec fn is_token_char(c: char) -> bool {
    let u = c as u32;
    u == 33 || (35 <= u <= 39) || u == 42 || u == 43 || u == 45 || u == 46 || (48 <= u <= 57) || (
    65 <= u <= 90) || (94 <= u <= 122) || u == 124 || u == 126
}

/// The lower-case form of an ASCII letter; other characters are unchanged.
pub open spec fn lower_char(c: char) -> char {
    if 65 <= (c as u32) <= 90 {
        ((c as u32) + 32) as char
    } else {
        c
    }
}

/// `s` with ASCII letters in lower case.
pub open spec fn lowercase(s: Seq<char>) -> Seq<char> {
    s.map_values(|c: char| lower_char(c))
}

/// A string that `HeaderName::from_str` accepts.
pub open spec fn valid_header_name(s: Seq<char>) -> bool {
    1 <= s.len() <= 65535 && forall|k: int| 0 <= k < s.len() ==> is_token_char(#[trigger] s[k])
}

/// A valid header name that is already in lower case, as the map stores it.
pub open spec fn normalized_header_name(s: Seq<char>) -> bool {
    valid_header_name(s) && lowercase(s) == s
}

/// A byte that `HeaderValue` accepts.
pub open spec fn valid_value_byte(b: u8) -> bool {
    (b >= 32 && b != 127) || b == 9
}

/// Bytes that `HeaderValue::from_str` / `from_bytes` accept.
pub open spec fn valid_header_value(bytes: Seq<u8>) -> bool {
    forall|k: int| 0 <= k < bytes.len() ==> valid_value_byte(#[trigger] bytes[k])
}

/// A byte that `HeaderValue::to_str` accepts (visible ASCII or tab).
pub open spec fn visible_byte(b: u8) -> bool {
    (32 <= b && b < 127) || b == 9
}

/// The text of a header value as it is rendered: the value read as ASCII when
/// every byte is visible ASCII or tab, else the empty string
/// (`value.to_str().unwrap_or("")`).
pub open spec fn value_text(bytes: Seq<u8>) -> Seq<char> {
    if forall|k: int| 0 <= k < bytes.len() ==> visible_byte(#[trigger] bytes[k]) {
        bytes.map_values(|b: u8| b as char)
    } else {
        Seq::empty()
    }
}

/// The text of a header value.
pub fn value_text_chars(bytes: &Vec<u8>) -> (out: Vec<char>)
    ensures
        out@ == value_text(bytes@),
{
    let mut out: Vec<char> = Vec::new();
    let mut i: usize = 0;
    while i < bytes.len()
        invariant
            i <= bytes.len(),
            forall|k: int| 0 <= k < i ==> visible_byte(#[trigger] bytes@[k]),
            out@ == bytes@.take(i as int).map_values(|b: u8| b as char),
        decreases bytes.len() - i,
    {
        let b = bytes[i];
        if !((32 <= b && b < 127) || b == 9) {
            return Vec::new();
        }
        out.push(b as char);
        i = i + 1;
        assert(out@ =~= bytes@.take(i as int).map_values(|b: u8| b as char));
    }
    assert(bytes@.take(i as int) =~= bytes@);
    out
}

/// Checks a header name and returns its normalized (lower-case) form.
///
/// Calls `HeaderName::from_str` and reads the result back with `as_str`.
/// Claimed, from `http`'s `parse_hdr` and its `HEADER_CHARS` table: the name
/// is accepted exactly when it has 1 to 65535 characters, all of them `tchar`;
/// an accepted name reads back with its ASCII letters in lower case.
#[verifier::external_body]
pub(crate) fn parse_header_name(s: &str) -> (name: Option<String>)
    ensures
        name is Some <==> valid_header_name(s@),
        name matches Some(n) ==> n@ == lowercase(s@),
{
    match HeaderName::from_str(s) {
        Ok(n) => Some(n.as_str().to_string()),
        Err(_) => None,
    }
}

/// Whether `HeaderValue::from_str` accepts `s`.
///
/// Claimed, from `HeaderValue::try_from_generic` and `is_valid`: it accepts
/// exactly the strings whose bytes are all tab or at least 32 and not 127.
#[verifier::external_body]
pub(crate) fn header_value_accepts(s: &str) -> (ok: bool)
    ensures
        ok == valid_header_value(encode_utf8(s@)),
{
    HeaderValue::from_str(s).is_ok()
}

// ---------------------------------------------------------------------------
// The sequence model of a header map
// ---------------------------------------------------------------------------

/// The entries of a header map as its iterator yields them: each name (as
/// `HeaderName::as_str` gives it) with the bytes of one of its values.
pub uninterp spec fn header_entries(map: HeaderMap) -> Seq<(Seq<char>, Seq<u8>)>;

/// The first index at or after `i` holding the name `k`, or -1.
pub open spec fn find_name_from(es: Seq<(Seq<char>, Seq<u8>)>, k: Seq<char>, i: int) -> int
    decreases es.len() - i,
{
    if i < 0 || i >= es.len() {
        -1
    } else if es[i].0 == k {
        i
    } else {
        find_name_from(es, k, i + 1)
    }
}

/// The first index holding the name `k`, or -1.
pub open spec fn find_name(es: Seq<(Seq<char>, Seq<u8>)>, k: Seq<char>) -> int {
    find_name_from(es, k, 0)
}

/// The first value stored under `k` (what `HeaderMap::get` returns).
pub open spec fn first_value(es: Seq<(Seq<char>, Seq<u8>)>, k: Seq<char>) -> Option<Seq<u8>> {
    let i = find_name(es, k);
    if i < 0 {
        None
    } else {
        Some(es[i].1)
    }
}

/// `es` without the entries named `k`.
pub open spec fn drop_name(es: Seq<(Seq<char>, Seq<u8>)>, k: Seq<char>) -> Seq<
    (Seq<char>, Seq<u8>),
>
    decreases es.len(),
{
    if es.len() == 0 {
        es
    } else if es[0].0 == k {
        drop_name(es.drop_first(), k)
    } else {
        seq![es[0]] + drop_name(es.drop_first(), k)
    }
}

/// The entries after `HeaderMap::insert(k, v)`: the first entry named `k`
/// takes the value `v` and the other values of `k` go; a new name is added at
/// the end.
pub open spec fn insert_entry(es: Seq<(Seq<char>, Seq<u8>)>, k: Seq<char>, v: Seq<u8>) -> Seq<
    (Seq<char>, Seq<u8>),
> {
    let i = find_name(es, k);
    if i < 0 {
        es.push((k, v))
    } else {
        es.take(i).push((k, v)) + drop_name(es.skip(i + 1), k)
    }
}

/// The entries after `HeaderMap::remove(k)` on a map whose names are
/// distinct: the last entry moves into the place of the removed one.
pub open spec fn remove_entry(es: Seq<(Seq<char>, Seq<u8>)>, k: Seq<char>) -> Seq<
    (Seq<char>, Seq<u8>),
> {
    let i = find_name(es, k);
    if i < 0 {
        es
    } else {
        es.update(i, es.last()).drop_last()
    }
}

/// No name occurs twice.
pub open spec fn distinct_names(es: Seq<(Seq<char>, Seq<u8>)>) -> bool {
    forall|i: int, j: int| 0 <= i < j < es.len() ==> es[i].0 != es[j].0
}

/// What `find_name_from` returns.
pub proof fn lemma_find_name_from(es: Seq<(Seq<char>, Seq<u8>)>, k: Seq<char>, i: int)
    requires
        0 <= i,
    ensures
        find_name_from(es, k, i) == -1 || (i <= find_name_from(es, k, i) < es.len() && es[find_name_from(es, k, i)].0 == k),
        forall|j: int|
            i <= j < es.len() && (find_name_from(es, k, i) == -1 || j < find_name_from(es, k, i))
                ==> es[j].0 != k,
    decreases es.len() - i,
{
    if i < es.len() && es[i].0 != k {
        lemma_find_name_from(es, k, i + 1);
    }
}

/// Dropping a name that does not occur changes nothing.
pub proof fn lemma_drop_absent_name(es: Seq<(Seq<char>, Seq<u8>)>, k: Seq<char>)
    requires
        forall|j: int| 0 <= j < es.len() ==> es[j].0 != k,
    ensures
        drop_name(es, k) == es,
    decreases es.len(),
{
    if es.len() > 0 {
        lemma_drop_absent_name(es.drop_first(), k);
        assert(seq![es[0]] + es.drop_first() =~= es);
    }
}

/// On a map with distinct names, `insert` replaces the value in place or
/// appends a new entry.
pub proof fn lemma_insert_distinct(es: Seq<(Seq<char>, Seq<u8>)>, k: Seq<char>, v: Seq<u8>)
    requires
        distinct_names(es),
    ensures
        find_name(es, k) >= 0 ==> insert_entry(es, k, v) == es.update(find_name(es, k), (k, v)),
        find_name(es, k) < 0 ==> insert_entry(es, k, v) == es.push((k, v)),
{
    lemma_find_name_from(es, k, 0);
    let i = find_name(es, k);
    if i >= 0 {
        let rest = es.skip(i + 1);
        assert forall|j: int| 0 <= j < rest.len() implies rest[j].0 != k by {
            assert(rest[j] == es[i + 1 + j]);
        }
        lemma_drop_absent_name(rest, k);
        assert(es.take(i).push((k, v)) + rest =~= es.update(i, (k, v)));
    }
}

/// Inserting into a map with distinct names keeps the names distinct, and a
/// read of the inserted name gives back the inserted value while reads of
/// other names are unchanged.
pub proof fn lemma_insert_then_get(
    es: Seq<(Seq<char>, Seq<u8>)>,
    k: Seq<char>,
    v: Seq<u8>,
    other: Seq<char>,
)
    requires
        distinct_names(es),
        other != k,
    ensures
        distinct_names(insert_entry(es, k, v)),
        first_value(insert_entry(es, k, v), k) == Some(v),
        first_value(insert_entry(es, k, v), other) == first_value(es, other),
{
    lemma_insert_distinct(es, k, v);
    lemma_find_name_from(es, k, 0);
    lemma_find_name_from(es, other, 0);
    let es2 = insert_entry(es, k, v);
    lemma_find_name_from(es2, k, 0);
    lemma_find_name_from(es2, other, 0);
    let i = find_name(es, k);
    let i2 = find_name(es2, k);
    if i >= 0 {
        assert(es2[i].0 == k);
        assert(i2 == i);
    } else {
        assert(es2[es.len() as int].0 == k);
        assert(i2 == es.len());
    }
    let j = find_name(es, other);
    let j2 = find_name(es2, other);
    if j >= 0 {
        assert(es2[j].0 == other);
        assert(j2 == j);
    } else {
        assert(j2 == -1);
    }
}

/// Inserting into a map with distinct names keeps them distinct.
pub proof fn lemma_insert_keeps_distinct(es: Seq<(Seq<char>, Seq<u8>)>, k: Seq<char>, v: Seq<u8>)
    requires
        distinct_names(es),
    ensures
        distinct_names(insert_entry(es, k, v)),
{
    lemma_insert_distinct(es, k, v);
    lemma_find_name_from(es, k, 0);
}

/// Removing from a map with distinct names keeps the names distinct and
/// leaves no value under the removed name.
pub proof fn lemma_remove_distinct(es: Seq<(Seq<char>, Seq<u8>)>, k: Seq<char>)
    requires
        distinct_names(es),
    ensures
        distinct_names(remove_entry(es, k)),
        first_value(remove_entry(es, k), k) is None,
{
    lemma_find_name_from(es, k, 0);
    let es2 = remove_entry(es, k);
    lemma_find_name_from(es2, k, 0);
    let i = find_name(es, k);
    if i >= 0 {
        assert forall|a: int, b: int| 0 <= a < b < es2.len() implies es2[a].0 != es2[b].0 by {
            if a == i {
                assert(es2[a] == es[es.len() - 1]);
            } else if b == i {
                assert(es2[b] == es[es.len() - 1]);
            }
        }
        if find_name(es2, k) >= 0 {
            let j = find_name(es2, k);
            if j == i {
                assert(es2[j] == es[es.len() - 1]);
            } else {
                assert(es2[j] == es[j]);
            }
        }
    }
}

// ---------------------------------------------------------------------------
// Wrappers of the map's methods
// ---------------------------------------------------------------------------

/// An empty map (`HeaderMap::new`, which holds no entries).
#[verifier::external_body]
pub(crate) fn header_map_new() -> (map: HeaderMap)
    ensures
        header_entries(map) == Seq::<(Seq<char>, Seq<u8>)>::empty(),
{
    HeaderMap::new()
}

/// `HeaderMap::get` with a normalized name, reading the value's bytes.
///
/// Claimed: the result is the first value stored under `name`, the one the
/// map's iterator yields first (the entry's own value precedes its extra
/// values).
#[verifier::external_body]
pub(crate) fn header_map_get(map: &HeaderMap, name: &str) -> (value: Option<Vec<u8>>)
    requires
        normalized_header_name(name@),
    ensures
        match value {
            Some(v) => first_value(header_entries(*map), name@) == Some(v@),
            None => first_value(header_entries(*map), name@) is None,
        },
{
    map.get(name).map(|v| v.as_bytes().to_vec())
}

/// `HeaderMap::insert` of a header built by `HeaderName::from_str` and
/// `HeaderValue::from_str`.
///
/// Claimed, from `insert_occupied` and `try_insert_entry`: an existing name
/// keeps its place and takes the new value, its extra values go; a new name
/// is pushed at the end of the entries. The entry count bound keeps the map
/// below the size at which `insert` panics.
#[verifier::external_body]
pub(crate) fn header_map_insert(map: &mut HeaderMap, name: &str, value: &str)
    requires
        valid_header_name(name@),
        valid_header_value(encode_utf8(value@)),
        header_entries(*old(map)).len() <= MAX_HEADER_ENTRIES,
    ensures
        header_entries(*final(map)) == insert_entry(
            header_entries(*old(map)),
            lowercase(name@),
            encode_utf8(value@),
        ),
{
    map.insert(HeaderName::from_str(name).unwrap(), HeaderValue::from_str(value).unwrap());
}

/// `HeaderMap::try_insert` of a header built by `HeaderName::from_str` and
/// `HeaderValue::from_str`; `false` when the map reports `MaxSizeReached`.
///
/// Claimed, from `try_insert2`, `try_reserve_one`, `try_grow` and
/// `try_insert_entry`: on success the entries change as `insert` changes
/// them; on failure they are unchanged (the error comes before any entry is
/// touched); with at most `MAX_HEADER_ENTRIES` values it succeeds. Whether a
/// larger map can grow depends on its index table, which follows its hashing
/// history, so that is left unstated.
#[verifier::external_body]
pub(crate) fn header_map_try_insert(map: &mut HeaderMap, name: &str, value: &str) -> (inserted:
    bool)
    requires
        valid_header_name(name@),
        valid_header_value(encode_utf8(value@)),
    ensures
        inserted ==> header_entries(*final(map)) == insert_entry(
            header_entries(*old(map)),
            lowercase(name@),
            encode_utf8(value@),
        ),
        !inserted ==> header_entries(*final(map)) == header_entries(*old(map)),
        header_entries(*old(map)).len() <= MAX_HEADER_ENTRIES ==> inserted,
{
    map.try_insert(HeaderName::from_str(name).unwrap(), HeaderValue::from_str(value).unwrap()).is_ok()
}

/// `HeaderMap::remove` with a normalized name, reading the removed value's
/// bytes.
///
/// Claimed: the result is the first value stored under `name`. On a map whose
/// names are distinct, the entry is taken out with `Vec::swap_remove`, so the
/// last entry moves into its place. What becomes of the entries of a map
/// holding extra values is left unstated.
#[verifier::external_body]
pub(crate) fn header_map_remove(map: &mut HeaderMap, name: &str) -> (value: Option<Vec<u8>>)
    requires
        normalized_header_name(name@),
    ensures
        match value {
            Some(v) => first_value(header_entries(*old(map)), name@) == Some(v@),
            None => first_value(header_entries(*old(map)), name@) is None,
        },
        distinct_names(header_entries(*old(map))) ==> header_entries(*final(map))
            == remove_entry(header_entries(*old(map)), name@),
{
    map.remove(name).map(|v| v.as_bytes().to_vec())
}

/// The number of values a header map holds (`HeaderMap::len`, which counts
/// every value the iterator yields).
#[verifier::external_body]
pub(crate) fn header_map_len(map: &HeaderMap) -> (n: usize)
    ensures
        n == header_entries(*map).len(),
{
    map.len()
}

/// The entries of the map in iteration order (`HeaderMap::iter`), each name
/// read with `as_str` and each value as its bytes.
#[verifier::external_body]
pub(crate) fn header_map_entries(map: &HeaderMap) -> (out: Vec<(String, Vec<u8>)>)
    ensures
        out@.len() == header_entries(*map).len(),
        forall|k: int|
            0 <= k < out@.len() ==> (#[trigger] out@[k]).0@ == header_entries(*map)[k].0
                && out@[k].1@ == header_entries(*map)[k].1,
{
    map.iter().map(|(k, v)| (k.as_str().to_string(), v.as_bytes().to_vec())).collect()
}

} // verus!
