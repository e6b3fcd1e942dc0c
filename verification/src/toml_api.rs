//! Trusted interface to the `toml` crate. The manifest text is structured
//! configuration; parsing it is the `toml` crate's work, and this module
//! gives names to what a parsed value holds: its table keys, the entry at a
//! key, its string characters, its array items. Everything built on top of
//! these is verified against the contracts stated here.

use vstd::prelude::*;

verus! {

#[verifier::external_type_specification]
#[verifier::external_body]
pub struct ExTomlValue(toml::Value);

/// Whether the text parses as a well-formed TOML document.
pub uninterp spec fn toml_src_wf(s: Seq<char>) -> bool;

/// The document a well-formed text parses to; parsing depends on the text
/// alone.
pub uninterp spec fn doc_of(s: Seq<char>) -> toml::Value;

/// The keys a TOML table value holds, in table order; `None` when the
/// value is not a table.
pub uninterp spec fn value_keys(v: toml::Value) -> Option<Seq<Seq<char>>>;

/// The entry a TOML table value holds at `key`; meaningful when
/// `value_keys(v)` is a key list containing `key`.
pub uninterp spec fn value_at(v: toml::Value, key: Seq<char>) -> toml::Value;

/// The characters of a TOML string value; `None` when the value is not a
/// string.
pub uninterp spec fn value_str(v: toml::Value) -> Option<Seq<char>>;

/// The items a TOML array value holds, in order; `None` when the value is
/// not an array.
pub uninterp spec fn value_items(v: toml::Value) -> Option<Seq<toml::Value>>;

/// Relies on `str::parse::<toml::Value>` (the `toml` crate's `FromStr`):
/// parsing succeeds exactly on well-formed TOML text, and parsing depends
/// on the text alone. The parsed value is almost always a table, but the
/// contract does not say so: nothing here needs it, and callers learn
/// table-ness from the lookups they make on the value.
#[verifier::external_body]
pub(crate) fn parse_toml(s: &str) -> (r: Option<toml::Value>)
    ensures
        r is Some <==> toml_src_wf(s@),
        r matches Some(v) ==> v == doc_of(s@),
{
    match s.parse::<toml::Value>() {
        Ok(v) => Some(v),
        Err(_) => None,
    }
}

/// Relies on `toml::Value::get` with a string index: on a table it looks
/// the key up; on any other value it yields `None`.
#[verifier::external_body]
pub(crate) fn toml_get<'a>(v: &'a toml::Value, key: &str) -> (r: Option<&'a toml::Value>)
    ensures
        match value_keys(*v) {
            Some(ks) => {
                &&& (r is Some <==> ks.contains(key@))
                &&& (r matches Some(w) ==> *w == value_at(*v, key@))
            },
            None => r is None,
        },
{
    v.get(key)
}

/// Relies on `toml::Value::is_table`.
#[verifier::external_body]
pub(crate) fn toml_is_table(v: &toml::Value) -> (r: bool)
    ensures
        r == (value_keys(*v) is Some),
{
    v.is_table()
}

/// Relies on `toml::Value::as_str`: the string slice of a string value.
#[verifier::external_body]
pub(crate) fn toml_str<'a>(v: &'a toml::Value) -> (r: Option<&'a str>)
    ensures
        match r {
            Some(s) => value_str(*v) == Some(s@),
            None => value_str(*v) is None,
        },
{
    v.as_str()
}

/// Relies on `toml::Value::as_table` and `toml::map::Map::keys`: the keys
/// of a table value, in table order; an empty list for any other value.
#[verifier::external_body]
pub(crate) fn toml_keys(v: &toml::Value) -> (r: Vec<String>)
    ensures
        match value_keys(*v) {
            Some(ks) => r.deep_view() == ks,
            None => r@.len() == 0,
        },
{
    match v.as_table() {
        Some(t) => t.keys().cloned().collect(),
        None => Vec::new(),
    }
}

/// Relies on `toml::Value::as_array`: the items of an array value.
#[verifier::external_body]
pub(crate) fn toml_items<'a>(v: &'a toml::Value) -> (r: Option<&'a Vec<toml::Value>>)
    ensures
        match r {
            Some(a) => value_items(*v) == Some(a@),
            None => value_items(*v) is None,
        },
{
    v.as_array()
}

} // verus!
