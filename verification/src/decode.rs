//! Decoders of other crates that the report handling relies on. What they
//! return is taken on trust: nothing in this file is proved.

use vstd::prelude::*;

verus! {

/// Error of the Base64 decoder.
#[verifier::external_type_specification]
#[verifier::external_body]
pub struct ExDecodeError(base64::DecodeError);

/// Error of the JSON parser.
#[verifier::external_type_specification]
#[verifier::external_body]
pub struct ExJsonError(serde_json::Error);

/// What `base64::decode` makes of the given bytes: the decoded bytes, or
/// `None` where it reports an error.
pub uninterp spec fn base64_decoded(input: Seq<u8>) -> Option<Seq<u8>>;

/// What `serde_json` finds under `key` at the top of the JSON document
/// `doc`: `None` where the document does not parse.
pub uninterp spec fn json_field_of(doc: Seq<u8>, key: Seq<char>) -> Option<JsonFieldView>;

/// A member of a JSON object, as far as the report handling reads it.
#[derive(Clone, Debug, PartialEq, Eq)]
pub enum JsonField {
    /// A string.
    Text(String),
    /// A number that is a non-negative integer below 2^64.
    Unsigned(u64),
    /// Anything else, a missing member too.
    Other,
}

/// Mathematical value of a JSON member.
pub enum JsonFieldView {
    Text(Seq<char>),
    Unsigned(u64),
    Other,
}

impl View for JsonField {
    type V = JsonFieldView;

    open spec fn view(&self) -> JsonFieldView {
        match *self {
            JsonField::Text(text) => JsonFieldView::Text(text@),
            JsonField::Unsigned(number) => JsonFieldView::Unsigned(number),
            JsonField::Other => JsonFieldView::Other,
        }
    }
}

/// Calls `base64::decode`, the decoder for the standard alphabet with
/// padding. The contract only names the result: the same bytes always decode
/// to the same bytes or fail alike.
#[verifier::external_body]
pub(crate) fn base64_decode(input: &[u8]) -> (out: Result<Vec<u8>, base64::DecodeError>)
    ensures
        match out {
            Ok(bytes) => base64_decoded(input@) == Some(bytes@),
            Err(_) => base64_decoded(input@) is None,
        },
{
    base64::decode(input)
}

/// Calls `serde_json::from_slice` for a `serde_json::Value` and reads the
/// member `key` of it with `Value`'s index operator, which gives `Null` for a
/// missing member and for a document that is no object. The contract only
/// names the result: the same document and key always give the same member.
#[verifier::external_body]
pub(crate) fn json_field(doc: &[u8], key: &str) -> (out: Result<JsonField, serde_json::Error>)
    ensures
        match out {
            Ok(field) => json_field_of(doc@, key@) == Some(field@),
            Err(_) => json_field_of(doc@, key@) is None,
        },
{
    let value: serde_json::Value = serde_json::from_slice(doc)?;
    Ok(
        match &value[key] {
            serde_json::Value::String(text) => JsonField::Text(text.clone()),
            serde_json::Value::Number(number) => match number.as_u64() {
                Some(unsigned) => JsonField::Unsigned(unsigned),
                None => JsonField::Other,
            },
            _ => JsonField::Other,
        },
    )
}

} // verus!
