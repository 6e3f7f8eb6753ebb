//! JSON documents, held as serde_json values, and what a JSON pointer finds
//! in them.
use vstd::prelude::*;

verus! {

#[verifier::external_type_specification]
#[verifier::external_body]
pub struct ExJsonValue(serde_json::Value);

/// What a JSON pointer addresses in a document: a scalar as plain values, or
/// only the kind of a container.
pub enum Target {
    Null,
    Bool(bool),
    /// A number, as the IEEE-754 encoding of the double it reads as.
    Number { bits: u64 },
    String(String),
    Array,
    Object,
}

/// What a document holds at each JSON pointer that resolves in it.
pub uninterp spec fn targets(doc: serde_json::Value) -> Map<Seq<char>, Target>;

/// What `pointer` addresses in `doc`, if anything.
pub open spec fn target_at(doc: serde_json::Value, pointer: Seq<char>) -> Option<Target> {
    if targets(doc).contains_key(pointer) {
        Some(targets(doc)[pointer])
    } else {
        None
    }
}

/// Relies on `serde_json::Value::pointer`, which resolves a JSON pointer
/// against the document, and on `serde_json::Number::as_f64` for the double
/// that a number reads as.
#[verifier::external_body]
pub(crate) fn lookup(doc: &serde_json::Value, pointer: &str) -> (r: Option<Target>)
    ensures
        r == (if targets(*doc).contains_key(pointer@) {
            Some(targets(*doc)[pointer@])
        } else {
            None
        }),
{
    doc.pointer(pointer).map(|v| match v {
        serde_json::Value::Null => Target::Null,
        serde_json::Value::Bool(b) => Target::Bool(*b),
        serde_json::Value::Number(n) => Target::Number {
            bits: n.as_f64().unwrap_or_default().to_bits(),
        },
        serde_json::Value::String(s) => Target::String(s.clone()),
        serde_json::Value::Array(_) => Target::Array,
        serde_json::Value::Object(_) => Target::Object,
    })
}

/// The document that JSON text parses to, if it is valid JSON.
pub uninterp spec fn parsed_doc(text: Seq<char>) -> Option<serde_json::Value>;

/// Relies on `serde_json::from_str`, which parses JSON text into a document;
/// a failure is handed on as its message.
#[verifier::external_body]
pub(crate) fn parse(text: &str) -> (r: core::result::Result<serde_json::Value, String>)
    ensures
        r is Ok <==> parsed_doc(text@) is Some,
        r matches Ok(d) ==> parsed_doc(text@) == Some(d),
{
    match serde_json::from_str(text) {
        Ok(v) => Ok(v),
        Err(e) => Err(e.to_string()),
    }
}

/// Relies on serde_json's `Display` for a document: its JSON text, for
/// diagnostics.
#[verifier::external_body]
pub(crate) fn document_text(doc: &serde_json::Value) -> (r: String) {
    doc.to_string()
}

} // verus!
