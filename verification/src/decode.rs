//! The metadata decoder: one blob of compact textual object notation becomes
//! an ordered mapping from entry name to raw value.
//!
//! The parse itself is done by the `ron` crate behind trusted wrappers; what
//! a given blob decodes to is named by the uninterpreted function
//! `decoded_blob`, and everything downstream is verified against that name.

use vstd::prelude::*;

verus! {

/// One decoded metadata value: either a verbatim string entry or a
/// structured value held as its re-serialized canonical text.
pub enum RawValue {
    Text(String),
    Structured(String),
}

impl RawValue {
    /// The string reduction of the value: the verbatim string for a textual
    /// entry, the re-serialized text for a structured one.
    pub open spec fn text_view(&self) -> Seq<char> {
        match self {
            RawValue::Text(s) => s@,
            RawValue::Structured(s) => s@,
        }
    }

    /// Whether the value was written as a plain string in the blob.
    pub open spec fn is_text(&self) -> bool {
        match self {
            RawValue::Text(_) => true,
            RawValue::Structured(_) => false,
        }
    }

    /// Whether the value was written as a plain string, for the
    /// materializer's choice of rewriting.
    pub fn written_as_text(&self) -> (r: bool)
        ensures
            r == self.is_text(),
    {
        match self {
            RawValue::Text(_) => true,
            RawValue::Structured(_) => false,
        }
    }

    /// The string reduction, for the materializer's rewriting step.
    pub fn text(&self) -> (r: &str)
        ensures
            r@ == self.text_view(),
    {
        match self {
            RawValue::Text(s) => s.as_str(),
            RawValue::Structured(s) => s.as_str(),
        }
    }
}

/// Failure to decode a whole metadata blob; there is no partial recovery.
#[derive(Debug, PartialEq, Eq, Structural)]
pub enum DecodeError {
    Malformed,
}

/// What a metadata blob decodes to: a flag telling whether the blob is
/// well-formed, and, when it is, the decoded entries in their deterministic
/// decoding order, each as (entry name, written-as-string, string reduction).
pub uninterp spec fn decoded_blob(s: Seq<char>) -> (bool, Seq<(Seq<char>, bool, Seq<char>)>);

/// The blob parses as a string-keyed map of values.
pub open spec fn blob_ok(s: Seq<char>) -> bool {
    decoded_blob(s).0
}

/// The decoded entries of a well-formed blob.
pub open spec fn blob_entries(s: Seq<char>) -> Seq<(Seq<char>, bool, Seq<char>)> {
    decoded_blob(s).1
}

/// Relies on `ron::from_str` to parse the blob as a string-keyed map and on
/// `ron::to_string` to re-serialize each non-string value into its canonical
/// text.  The map is a `BTreeMap`, so the entries come back sorted by name:
/// the whole result is a function of the blob text alone, and is what
/// `decoded_blob` names.
#[verifier::external_body]
pub(crate) fn decode_blob(blob: &str) -> (r: Result<Vec<(String, RawValue)>, DecodeError>)
    ensures
        r is Ok <==> decoded_blob(blob@).0,
        r is Ok ==> r.unwrap()@.len() == decoded_blob(blob@).1.len(),
        r is Ok ==> forall|i: int|
            0 <= i < decoded_blob(blob@).1.len() ==> {
                &&& (#[trigger] r.unwrap()@[i].0)@ == decoded_blob(blob@).1[i].0
                &&& r.unwrap()@[i].1.is_text() == decoded_blob(blob@).1[i].1
                &&& r.unwrap()@[i].1.text_view() == decoded_blob(blob@).1[i].2
            },
{
    let parsed: std::collections::BTreeMap<String, ron::Value> = match ron::from_str(blob) {
        Ok(m) => m,
        Err(_) => return Err(DecodeError::Malformed),
    };
    let mut out = Vec::new();
    for (name, value) in parsed {
        out.push((name, match value {
            ron::Value::String(t) => RawValue::Text(t),
            v => match ron::to_string(&v) {
                Ok(t) => RawValue::Structured(t),
                Err(_) => return Err(DecodeError::Malformed),
            },
        }));
    }
    Ok(out)
}

/// Whether the generic value deserializer accepts a framed value text;
/// acceptance depends on the text alone.
pub uninterp spec fn deserializer_accepts(s: Seq<char>) -> bool;

/// Relies on `ron::from_str` for `ron::Value`: the generic deserializer
/// accepts exactly the texts that parse as a value, constructor-call syntax
/// included.
#[verifier::external_body]
pub(crate) fn value_text_accepted(s: &str) -> (r: bool)
    ensures
        r == deserializer_accepts(s@),
{
    ron::from_str::<ron::Value>(s).is_ok()
}

} // verus!
