//! The raw configuration document: a plain tree of TOML values.
//!
//! The `toml` crate parses the configuration text; the result is converted,
//! value for value, into `RawValue`, a tree of plain values the rest of the
//! library reads and verifies against. What a given text parses to is named
//! by `toml_parse_of`: a function of the text alone.

use vstd::prelude::*;

verus! {

/// A TOML value as plain data. Floats and datetimes, which the configuration
/// schema has no use for, collapse to `Other`.
#[derive(Debug)]
pub enum RawValue {
    /// A TOML integer.
    Int(i64),
    /// A TOML boolean.
    Bool(bool),
    /// A TOML string.
    Str(String),
    /// A TOML array.
    Arr(Vec<RawValue>),
    /// A TOML table, as key-value pairs in the parser's order.
    Table(Vec<(String, RawValue)>),
    /// A value of a type the configuration schema never uses.
    Other,
}

/// How a parse failed: the parser's message and the byte offset it points at.
#[derive(Debug, Clone, PartialEq, Eq)]
pub struct TomlFail {
    /// The parser's error message.
    pub message: String,
    /// Byte offset into the text where the error starts, when known.
    pub offset: Option<usize>,
}

#[verifier::external_type_specification]
#[verifier::external_body]
pub struct ExTomlValue(toml::Value);

/// What the `toml` crate parses a given text to, converted to plain values:
/// a function of the text alone.
pub uninterp spec fn toml_parse_of(text: Seq<char>) -> Result<RawValue, TomlFail>;

/// Relies on `toml::Value`'s variants: each is carried over one for one;
/// floats and datetimes become `Other`.
#[verifier::external_body]
fn toml_value_to_raw(v: &toml::Value) -> RawValue {
    match v {
        toml::Value::String(s) => RawValue::Str(s.clone()),
        toml::Value::Integer(i) => RawValue::Int(*i),
        toml::Value::Boolean(b) => RawValue::Bool(*b),
        toml::Value::Array(a) => RawValue::Arr(a.iter().map(toml_value_to_raw).collect()),
        toml::Value::Table(t) => RawValue::Table(
            t.iter().map(|(k, val)| (k.clone(), toml_value_to_raw(val))).collect(),
        ),
        _ => RawValue::Other,
    }
}

/// Relies on `toml::Table::from_str` (and `toml::de::Error::message`/`span`):
/// parsing a document is deterministic in the text and yields a table.
#[verifier::external_body]
pub(crate) fn parse_toml_text(text: &str) -> (r: Result<RawValue, TomlFail>)
    ensures
        r == toml_parse_of(text@),
{
    match text.parse::<toml::Table>() {
        Ok(t) => Ok(
            RawValue::Table(t.iter().map(|(k, v)| (k.clone(), toml_value_to_raw(v))).collect()),
        ),
        Err(e) => Err(
            TomlFail {
                message: e.message().to_owned(),
                offset: e.span().map(|s| s.start),
            },
        ),
    }
}

} // verus!
