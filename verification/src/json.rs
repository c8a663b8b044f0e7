use vstd::prelude::*;

use crate::text::str_eq;

verus! {

/// A JSON number, held as the two integer readings that the formatting
/// logic takes of it.
#[derive(Debug, PartialEq)]
pub struct JsonNumber {
    /// `Some` when the number is an integer that fits in `i64`.
    pub int: Option<i64>,
    /// The number converted to `i64` by truncation towards zero, saturating at
    /// the bounds of `i64`.
    pub truncated: i64,
}

/// A JSON value. An object keeps its members in order; a key is looked up by
/// its first occurrence.
#[derive(Debug, PartialEq)]
pub enum Json {
    Null,
    Bool(bool),
    Number(JsonNumber),
    Str(String),
    Array(Vec<Json>),
    Object(Vec<(String, Json)>),
}

/// The value of the first member of `es` named `key`.
pub open spec fn entry_lookup(es: Seq<(String, Json)>, key: Seq<char>) -> Option<Json>
    decreases es.len(),
{
    if es.len() == 0 {
        None
    } else if es[0].0@ == key {
        Some(es[0].1)
    } else {
        entry_lookup(es.drop_first(), key)
    }
}

/// `Value::get` with a key: the member named `key` of an object, and nothing
/// for any other value.
pub open spec fn get(v: Json, key: Seq<char>) -> Option<Json> {
    match v {
        Json::Object(es) => entry_lookup(es@, key),
        _ => None,
    }
}

/// `get` on a value that may be missing.
pub open spec fn opt_get(v: Option<Json>, key: Seq<char>) -> Option<Json> {
    match v {
        Some(x) => get(x, key),
        None => None,
    }
}

/// `Value::as_str`.
pub open spec fn as_str(v: Option<Json>) -> Option<Seq<char>> {
    match v {
        Some(Json::Str(s)) => Some(s@),
        _ => None,
    }
}

/// `Value::as_array`.
pub open spec fn as_array(v: Option<Json>) -> Option<Seq<Json>> {
    match v {
        Some(Json::Array(a)) => Some(a@),
        _ => None,
    }
}

/// `Value::as_i64`.
pub open spec fn as_i64(v: Option<Json>) -> Option<i64> {
    match v {
        Some(Json::Number(n)) => n.int,
        _ => None,
    }
}

/// `Value::as_f64` followed by a saturating cast to `i64`.
pub open spec fn as_truncated(v: Option<Json>) -> Option<i64> {
    match v {
        Some(Json::Number(n)) => Some(n.truncated),
        _ => None,
    }
}

/// Whether a value is present and not `null`.
pub open spec fn present(v: Option<Json>) -> bool {
    v is Some && v != Some(Json::Null)
}

/// The string member `key` of `v`, if it is one.
pub open spec fn get_str(v: Json, key: Seq<char>) -> Option<Seq<char>> {
    as_str(get(v, key))
}

/// `o.unwrap_or(d)` on an optional string.
pub open spec fn str_or(o: Option<Seq<char>>, d: Seq<char>) -> Seq<char> {
    match o {
        Some(s) => s,
        None => d,
    }
}

/// A member found in an object lies inside it.
pub proof fn lemma_get_decreases(v: Json, key: Seq<char>)
    ensures
        get(v, key) matches Some(c) ==> decreases_to!(v => c),
{
    if let Json::Object(es) = v {
        lemma_lookup_decreases(es@, key);
        if let Some(c) = entry_lookup(es@, key) {
            assert(decreases_to!(v => es));
            assert(decreases_to!(es => es@));
        }
    }
}

proof fn lemma_lookup_decreases(es: Seq<(String, Json)>, key: Seq<char>)
    ensures
        entry_lookup(es, key) matches Some(c) ==> decreases_to!(es => c),
    decreases es.len(),
{
    if es.len() > 0 {
        if es[0].0@ == key {
            assert(decreases_to!(es => es[0]));
            assert(decreases_to!(es[0] => es[0].1));
        } else {
            lemma_lookup_decreases(es.drop_first(), key);
            if let Some(c) = entry_lookup(es, key) {
                assert(decreases_to!(es => es.drop_first()));
            }
        }
    }
}

/// The value of the first member of `es` named `key`.
pub fn entries_get<'a>(es: &'a Vec<(String, Json)>, key: &str) -> (r: Option<&'a Json>)
    ensures
        r matches Some(x) ==> entry_lookup(es@, key@) == Some(*x),
        r is None ==> entry_lookup(es@, key@) is None,
{
    let n = es.len();
    let mut i: usize = 0;
    assert(es@.skip(0) =~= es@);
    while i < n
        invariant
            n == es@.len(),
            i <= n,
            entry_lookup(es@, key@) == entry_lookup(es@.skip(i as int), key@),
        decreases n - i,
    {
        assert(es@.skip(i as int).drop_first() =~= es@.skip(i + 1));
        if str_eq(es[i].0.as_str(), key) {
            return Some(&es[i].1);
        }
        i = i + 1;
    }
    None
}

/// The member `key` of `v`.
pub fn json_get<'a>(v: &'a Json, key: &str) -> (r: Option<&'a Json>)
    ensures
        r matches Some(x) ==> get(*v, key@) == Some(*x),
        r is None ==> get(*v, key@) is None,
{
    match v {
        Json::Object(es) => entries_get(es, key),
        _ => None,
    }
}

/// The member `key` of `v` as a string.
pub fn json_get_str<'a>(v: &'a Json, key: &str) -> (r: Option<&'a String>)
    ensures
        r matches Some(s) ==> get_str(*v, key@) == Some(s@),
        r is None ==> get_str(*v, key@) is None,
{
    match json_get(v, key) {
        Some(Json::Str(s)) => Some(s),
        _ => None,
    }
}

/// The member `key` of `v` as an array.
pub fn json_get_array<'a>(v: &'a Json, key: &str) -> (r: Option<&'a Vec<Json>>)
    ensures
        r matches Some(a) ==> as_array(get(*v, key@)) == Some(a@),
        r is None ==> as_array(get(*v, key@)) is None,
{
    match json_get(v, key) {
        Some(Json::Array(a)) => Some(a),
        _ => None,
    }
}

/// The member `key` of `v` as an `i64`.
pub fn json_get_i64(v: &Json, key: &str) -> (r: Option<i64>)
    ensures
        r == as_i64(get(*v, key@)),
{
    match json_get(v, key) {
        Some(Json::Number(n)) => n.int,
        _ => None,
    }
}

/// The member `key` of `v` as a number cut to an `i64`.
pub fn json_get_truncated(v: &Json, key: &str) -> (r: Option<i64>)
    ensures
        r == as_truncated(get(*v, key@)),
{
    match json_get(v, key) {
        Some(Json::Number(n)) => Some(n.truncated),
        _ => None,
    }
}

/// Whether `v` is `null`.
pub fn json_is_null(v: &Json) -> (r: bool)
    ensures
        r == (*v == Json::Null),
{
    match v {
        Json::Null => true,
        _ => false,
    }
}


/// The value behind an optional reference.
pub open spec fn deref_opt(r: Option<&Json>) -> Option<Json> {
    match r {
        Some(x) => Some(*x),
        None => None,
    }
}

/// The member `key` of an optional value.
pub fn opt_json_get<'a>(v: Option<&'a Json>, key: &str) -> (r: Option<&'a Json>)
    ensures
        deref_opt(r) == opt_get(deref_opt(v), key@),
{
    match v {
        Some(x) => json_get(x, key),
        None => None,
    }
}

/// `Value::as_str` on an optional value.
pub fn opt_as_str<'a>(v: Option<&'a Json>) -> (r: Option<&'a String>)
    ensures
        r matches Some(s) ==> as_str(deref_opt(v)) == Some(s@),
        r is None ==> as_str(deref_opt(v)) is None,
{
    match v {
        Some(Json::Str(s)) => Some(s),
        _ => None,
    }
}

/// `Value::as_array` on an optional value.
pub fn opt_as_array<'a>(v: Option<&'a Json>) -> (r: Option<&'a Vec<Json>>)
    ensures
        r matches Some(a) ==> as_array(deref_opt(v)) == Some(a@),
        r is None ==> as_array(deref_opt(v)) is None,
{
    match v {
        Some(Json::Array(a)) => Some(a),
        _ => None,
    }
}

/// `Value::as_i64` on an optional value.
pub fn opt_as_i64(v: Option<&Json>) -> (r: Option<i64>)
    ensures
        r == as_i64(deref_opt(v)),
{
    match v {
        Some(Json::Number(n)) => n.int,
        _ => None,
    }
}

/// Whether an optional value is present and not `null`.
pub fn opt_present(v: Option<&Json>) -> (r: bool)
    ensures
        r == present(deref_opt(v)),
{
    match v {
        Some(Json::Null) => false,
        Some(_) => true,
        None => false,
    }
}


/// The mathematical value of a JSON value: strings as character sequences,
/// arrays and objects as sequences.
pub enum JsonV {
    Null,
    Bool(bool),
    Number(JsonNumber),
    Str(Seq<char>),
    Array(Seq<JsonV>),
    Object(Seq<(Seq<char>, JsonV)>),
}

/// The mathematical value of `j`.
pub open spec fn jv(j: Json) -> JsonV
    decreases j, 1nat,
{
    match j {
        Json::Null => JsonV::Null,
        Json::Bool(b) => JsonV::Bool(b),
        Json::Number(n) => JsonV::Number(n),
        Json::Str(s) => JsonV::Str(s@),
        Json::Array(a) => {
            proof {
                assert(decreases_to!(j => a));
                assert(decreases_to!(a => a@));
            }
            JsonV::Array(jv_items(a@))
        },
        Json::Object(es) => {
            proof {
                assert(decreases_to!(j => es));
                assert(decreases_to!(es => es@));
            }
            JsonV::Object(jv_members(es@))
        },
    }
}

/// The mathematical values of the items `s`.
pub open spec fn jv_items(s: Seq<Json>) -> Seq<JsonV>
    decreases s, 0nat,
{
    if s.len() == 0 {
        Seq::<JsonV>::empty()
    } else {
        jv_items(s.subrange(0, s.len() - 1)).push(jv(s[s.len() - 1]))
    }
}

/// The mathematical values of the members `es`.
pub open spec fn jv_members(es: Seq<(String, Json)>) -> Seq<(Seq<char>, JsonV)>
    decreases es, 0nat,
{
    if es.len() == 0 {
        Seq::<(Seq<char>, JsonV)>::empty()
    } else {
        let last = es[es.len() - 1];
        proof {
            assert(decreases_to!(es => last));
        }
        jv_members(es.subrange(0, es.len() - 1)).push((last.0@, jv(last.1)))
    }
}

/// Each member has one mathematical member.
pub proof fn lemma_jv_members_len(es: Seq<(String, Json)>)
    ensures
        jv_members(es).len() == es.len(),
    decreases es.len(),
{
    if es.len() > 0 {
        lemma_jv_members_len(es.subrange(0, es.len() - 1));
    }
}

/// A string value.
pub fn json_str(s: &str) -> (r: Json)
    ensures
        jv(r) == JsonV::Str(s@),
{
    Json::Str(s.to_owned())
}

/// An object with the single member `key`.
pub fn json_single(key: &str, value: Json) -> (r: Json)
    ensures
        jv(r) == JsonV::Object(seq![(key@, jv(value))]),
{
    let k = key.to_owned();
    let ghost gv = value;
    let mut v: Vec<(String, Json)> = Vec::new();
    v.push((k, value));
    let r = Json::Object(v);
    proof {
        let es = v@;
        assert(es.len() == 1);
        assert(es[0].0@ == key@);
        assert(es[0].1 == gv);
        assert(es.subrange(0, 0) =~= Seq::<(String, Json)>::empty());
        assert(jv_members(Seq::<(String, Json)>::empty()) =~= Seq::<(Seq<char>, JsonV)>::empty());
        assert(jv_members(es) =~= seq![(key@, jv(value))]);
    }
    r
}


/// Adds the member `key` to the members `es`.
pub fn push_member(es: &mut Vec<(String, Json)>, key: &str, value: Json)
    ensures
        jv_members(final(es)@) == jv_members(old(es)@).push((key@, jv(value))),
{
    let ghost gv = value;
    es.push((key.to_owned(), value));
    proof {
        let s = es@;
        assert(s.subrange(0, s.len() - 1) =~= old(es)@);
        assert(s[s.len() - 1].1 == gv);
    }
}

/// Adds the item `value` to the items `a`.
pub fn push_item(a: &mut Vec<Json>, value: Json)
    ensures
        jv_items(final(a)@) == jv_items(old(a)@).push(jv(value)),
{
    let ghost gv = value;
    a.push(value);
    proof {
        let s = a@;
        assert(s.subrange(0, s.len() - 1) =~= old(a)@);
        assert(s[s.len() - 1] == gv);
    }
}

} // verus!
