//! A plain tree of TOML values.
//!
//! The TOML text codec is an outside primitive; its output is carried
//! into the library as this tree of plain values, and everything that
//! reads a manifest or a configuration is verified against the tree.

use vstd::prelude::*;

verus! {

/// One TOML value, as plain data.  Tables keep their keys in the
/// parser's order (ascending).  Values that carry no manifest data
/// (floats, datetimes) appear as `Other`.
#[derive(Debug)]
pub enum TomlValue {
    Text(String),
    Int(i64),
    Bool(bool),
    Arr(Vec<TomlValue>),
    Obj(Vec<(String, TomlValue)>),
    Other,
}

/// The tree a TOML text parses to, or `None` when the text is not
/// valid TOML.  A function of the text alone.
pub uninterp spec fn toml_doc_of(s: Seq<char>) -> Option<TomlValue>;

#[verifier::external_type_specification]
#[verifier::external_body]
pub struct ExTomlValue(toml::Value);

/// Relies on toml::Value's variants: each parsed node moves
/// one-for-one into the library's tree; floats and datetimes carry no
/// manifest data and become `Other`.
#[verifier::external_body]
fn toml_node(v: toml::Value) -> TomlValue {
    match v {
        toml::Value::String(s) => TomlValue::Text(s),
        toml::Value::Integer(i) => TomlValue::Int(i),
        toml::Value::Float(_) => TomlValue::Other,
        toml::Value::Boolean(b) => TomlValue::Bool(b),
        toml::Value::Datetime(_) => TomlValue::Other,
        toml::Value::Array(a) => TomlValue::Arr(a.into_iter().map(toml_node).collect()),
        toml::Value::Table(t) => TomlValue::Obj(
            t.into_iter().map(|(k, x)| (k, toml_node(x))).collect(),
        ),
    }
}

/// Relies on toml::from_str::<toml::Value>: parsing TOML text is a
/// function of the text alone; its table iteration order (ascending
/// keys) is deterministic.
#[verifier::external_body]
fn parse_toml_raw(s: &str) -> (r: Option<TomlValue>)
    ensures
        r == toml_doc_of(s@),
{
    match toml::from_str::<toml::Value>(s) {
        Ok(v) => Some(toml_node(v)),
        Err(_) => None,
    }
}

/// Parses TOML text into the library's value tree; `None` when the
/// text is not valid TOML.
pub fn parse_toml(s: &str) -> (r: Option<TomlValue>)
    ensures
        r == toml_doc_of(s@),
{
    parse_toml_raw(s)
}

} // verus!
