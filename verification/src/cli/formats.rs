//! Documents in JSON and TOML, as far as the tools look into them.

use vstd::prelude::*;
use crate::text;

verus! {

/// The text that a JSON document holds in a field: nothing where the document is no object, has
/// no such field, or holds something else than a string there; what is said of the document where
/// it is no JSON.
pub uninterp spec fn json_text(data: Seq<u8>, field: Seq<char>) -> Result<
    Option<Seq<char>>,
    Seq<char>,
>;

/// The keys of the table that a TOML document is: nothing where it is no table; what is said of
/// the document where it is no TOML.
pub uninterp spec fn toml_keys(src: Seq<char>) -> Result<Option<Seq<Seq<char>>>, Seq<char>>;

/// The texts of a field.
pub open spec fn field_texts(r: Result<Option<String>, String>) -> Result<
    Option<Seq<char>>,
    Seq<char>,
> {
    match r {
        Ok(Some(s)) => Ok(Some(s@)),
        Ok(None) => Ok(None),
        Err(e) => Err(e@),
    }
}

/// The texts of the keys of a table.
pub open spec fn key_texts(r: Result<Option<Vec<String>>, String>) -> Result<
    Option<Seq<Seq<char>>>,
    Seq<char>,
> {
    match r {
        Ok(Some(keys)) => Ok(Some(text::texts(keys@))),
        Ok(None) => Ok(None),
        Err(e) => Err(e@),
    }
}

/// `serde_json::from_slice` into a `serde_json::Value`, and the string in one of its fields, by
/// `Value`'s index and `as_str`, neither of which fails. Whether the bytes are JSON, what the
/// field holds, and the `Display` text of the error, depend on the bytes and the name of the field
/// alone.
#[verifier::external_body]
pub(crate) fn json_field(data: &[u8], field: &str) -> (out: Result<Option<String>, String>)
    ensures
        field_texts(out) == json_text(data@, field@),
{
    match serde_json::from_slice::<serde_json::Value>(data) {
        Ok(v) => Ok(v[field].as_str().map(|s| s.to_string())),
        Err(e) => Err(e.to_string()),
    }
}

/// `toml::Value`'s `FromStr`, and the keys of the table. Whether the text is TOML, which keys the
/// table has and in which order it lists them, and the `Display` text of the error, depend on the
/// text alone.
#[verifier::external_body]
pub(crate) fn toml_key_list(src: &str) -> (out: Result<Option<Vec<String>>, String>)
    ensures
        key_texts(out) == toml_keys(src@),
{
    match src.parse::<toml::Value>() {
        Ok(toml::Value::Table(table)) => Ok(Some(table.keys().cloned().collect())),
        Ok(_) => Ok(None),
        Err(e) => Err(e.to_string()),
    }
}

} // verus!
