//! JSON to BSON document encoding.
//!
//! BSON is the payload format for stored documents. It preserves types that a
//! text encoding would flatten.
//!
//! Only JSON objects are storable. BSON's top-level type *is* a document, so a
//! bare scalar or array has no representation; rejecting those here beats
//! silently wrapping them in a synthetic field the caller never asked for.

use crate::error::{CndbError, ErrorView};
use serde_json::Value;
use vstd::prelude::*;
use vstd::string::StringExecFns;

verus! {

/// `serde_json::Value`, any JSON value. Two values are the same when they are
/// built alike, objects with their members in the same order.
#[verifier::external_type_specification]
#[verifier::external_body]
pub struct ExValue(serde_json::Value);

/// `bson::Document`, a BSON document in memory. Two documents are the same when
/// they hold the same fields in the same order; how its fields are hashed is no
/// part of a document.
#[verifier::external_type_specification]
#[verifier::external_body]
pub struct ExDocument(bson::Document);

/// The type of a JSON value.
#[derive(Debug, Clone, Copy, PartialEq, Eq, Structural)]
pub enum JsonType {
    Null,
    Bool,
    Number,
    String,
    Array,
    Object,
}

/// Length of the longest JSON text of a document that is encoded.
///
/// BSON puts the length of a string, terminator included, in a signed 32-bit
/// integer. A string is no longer than a text that it stands in.
pub const MAX_TEXT_LEN: usize = 0x7fff_fffe;

/// Which variant of `serde_json::Value` a value is.
pub uninterp spec fn json_type(value: Value) -> JsonType;

/// What `bson::to_document` makes of a JSON value, or the text of its error.
pub uninterp spec fn json_to_document(value: Value) -> Result<bson::Document, Seq<char>>;

/// What `serde_json::to_vec` makes of a document, or the text of its error.
pub uninterp spec fn document_to_text(document: bson::Document) -> Result<Seq<u8>, Seq<char>>;

/// What `bson::Document::to_writer` writes, or the text of its error.
pub uninterp spec fn document_to_bytes(document: bson::Document) -> Result<Seq<u8>, Seq<char>>;

/// The document that `bson::from_slice` finds in bytes, or the text of its
/// error.
pub uninterp spec fn bytes_to_document(bytes: Seq<u8>) -> Result<bson::Document, Seq<char>>;

/// The JSON value that `bson::from_document` makes of a document, or the text
/// of its error.
pub uninterp spec fn document_to_json(document: bson::Document) -> Result<Value, Seq<char>>;

/// A `match` on `serde_json::Value`: which variant the value is.
#[verifier::external_body]
fn variant(value: &Value) -> (found: JsonType)
    ensures
        found == json_type(*value),
{
    match value {
        Value::Null => JsonType::Null,
        Value::Bool(_) => JsonType::Bool,
        Value::Number(_) => JsonType::Number,
        Value::String(_) => JsonType::String,
        Value::Array(_) => JsonType::Array,
        Value::Object(_) => JsonType::Object,
    }
}

/// `bson::to_document` on a JSON value. The document, or the text of the error,
/// depends on the value alone. Nested values are visited by recursion.
#[verifier::external_body]
fn to_document(value: &Value) -> (result: Result<bson::Document, String>)
    ensures
        result is Ok == json_to_document(*value) is Ok,
        result is Ok ==> result->Ok_0 == json_to_document(*value)->Ok_0,
        result is Err ==> result->Err_0@ == json_to_document(*value)->Err_0,
{
    bson::to_document(value).map_err(|e| e.to_string())
}

/// `serde_json::to_vec` on a document. The text, or that of the error, depends on
/// the document alone. Nested values are visited by recursion.
#[verifier::external_body]
fn text_of(document: &bson::Document) -> (result: Result<Vec<u8>, String>)
    ensures
        result is Ok == document_to_text(*document) is Ok,
        result is Ok ==> result->Ok_0@ == document_to_text(*document)->Ok_0,
        result is Err ==> result->Err_0@ == document_to_text(*document)->Err_0,
{
    serde_json::to_vec(document).map_err(|e| e.to_string())
}

/// `bson::Document::to_writer` into memory. What it writes, or the text of the
/// error, depends on the document alone.
///
/// `bson` adds one to the length of each string as a signed 32-bit integer, which
/// must not overflow. Every string that it writes with a length stands in the
/// JSON text of the document, quoted and escaped, so a bound on the text bounds
/// them all. Nested values are visited by recursion.
#[verifier::external_body]
fn write_document(document: &bson::Document) -> (result: Result<Vec<u8>, String>)
    requires
        document_to_text(*document) is Ok,
        document_to_text(*document)->Ok_0.len() <= MAX_TEXT_LEN,
    ensures
        result is Ok == document_to_bytes(*document) is Ok,
        result is Ok ==> result->Ok_0@ == document_to_bytes(*document)->Ok_0,
        result is Err ==> result->Err_0@ == document_to_bytes(*document)->Err_0,
{
    let mut out = Vec::new();
    document.to_writer(&mut out).map_err(|e| e.to_string())?;
    Ok(out)
}

/// `bson::from_slice` into a document. The document, or the text of the error,
/// depends on the bytes alone. Nested values are visited by recursion.
#[verifier::external_body]
fn read_document(bytes: &[u8]) -> (result: Result<bson::Document, String>)
    ensures
        result is Ok == bytes_to_document(bytes@) is Ok,
        result is Ok ==> result->Ok_0 == bytes_to_document(bytes@)->Ok_0,
        result is Err ==> result->Err_0@ == bytes_to_document(bytes@)->Err_0,
{
    bson::from_slice(bytes).map_err(|e| e.to_string())
}

/// `bson::from_document` into a JSON value. The value, or the text of the
/// error, depends on the document alone. How it relates to the value that the
/// document was made of is left open. Nested values are visited by recursion.
#[verifier::external_body]
fn from_document(document: bson::Document) -> (result: Result<Value, String>)
    ensures
        result is Ok == document_to_json(document) is Ok,
        result is Ok ==> result->Ok_0 == document_to_json(document)->Ok_0,
        result is Err ==> result->Err_0@ == document_to_json(document)->Err_0,
{
    bson::from_document(document).map_err(|e| e.to_string())
}

/// The name of a JSON type, as error messages give it.
pub open spec fn type_text(found: JsonType) -> Seq<char> {
    match found {
        JsonType::Null => "null"@,
        JsonType::Bool => "a boolean"@,
        JsonType::Number => "a number"@,
        JsonType::String => "a string"@,
        JsonType::Array => "an array"@,
        JsonType::Object => "an object"@,
    }
}

/// The complaint about a document whose text is over the limit.
pub open spec fn too_long_text() -> Seq<char> {
    "document is too long to encode"@
}

/// The bytes of a document, or why it cannot be encoded.
pub open spec fn document_to_payload(document: bson::Document) -> Result<Seq<u8>, ErrorView> {
    match document_to_text(document) {
        Err(text) => Err(ErrorView::Bson(text)),
        Ok(text) => if text.len() > MAX_TEXT_LEN {
            Err(ErrorView::Bson(too_long_text()))
        } else {
            match document_to_bytes(document) {
                Err(text) => Err(ErrorView::Bson(text)),
                Ok(bytes) => Ok(bytes),
            }
        },
    }
}

/// The payload that a JSON value is stored as, or why it is refused.
///
/// The type comes first: what is not an object is refused as such, whatever
/// else may be wrong with it.
pub open spec fn json_to_payload(value: Value) -> Result<Seq<u8>, ErrorView> {
    if json_type(value) != JsonType::Object {
        Err(ErrorView::NotAnObject { found: type_text(json_type(value)) })
    } else {
        match json_to_document(value) {
            Err(text) => Err(ErrorView::Bson(text)),
            Ok(document) => document_to_payload(document),
        }
    }
}

/// The JSON value that a payload holds, or what is wrong with it.
pub open spec fn payload_to_json(payload: Seq<u8>) -> Result<Value, ErrorView> {
    match bytes_to_document(payload) {
        Err(text) => Err(ErrorView::Bson(text)),
        Ok(document) => match document_to_json(document) {
            Err(text) => Err(ErrorView::Bson(text)),
            Ok(value) => Ok(value),
        },
    }
}

/// The JSON type name, for error messages.
pub fn json_type_name(found: JsonType) -> (name: &'static str)
    ensures
        name@ == type_text(found),
{
    match found {
        JsonType::Null => "null",
        JsonType::Bool => "a boolean",
        JsonType::Number => "a number",
        JsonType::String => "a string",
        JsonType::Array => "an array",
        JsonType::Object => "an object",
    }
}

/// Let JSON objects through and refuse every other type by name.
pub fn require_object(found: JsonType) -> (result: Result<(), CndbError>)
    ensures
        match result {
            Ok(()) => found == JsonType::Object,
            Err(e) => found != JsonType::Object && e@ == (ErrorView::NotAnObject {
                found: type_text(found),
            }),
        },
{
    match found {
        JsonType::Object => Ok(()),
        other => Err(CndbError::NotAnObject { found: json_type_name(other) }),
    }
}

/// Turn the text of a BSON error into an error of this crate.
pub fn bson_result<T>(result: Result<T, String>) -> (mapped: Result<T, CndbError>)
    ensures
        match result {
            Ok(value) => mapped == Ok::<T, CndbError>(value),
            Err(text) => mapped matches Err(e) && e@ == ErrorView::Bson(text@),
        },
{
    match result {
        Ok(value) => Ok(value),
        Err(text) => Err(CndbError::Bson(text)),
    }
}

/// Let texts up to the limit through and refuse longer ones.
pub fn require_short(len: usize) -> (result: Result<(), CndbError>)
    ensures
        match result {
            Ok(()) => len <= MAX_TEXT_LEN,
            Err(e) => len > MAX_TEXT_LEN && e@ == ErrorView::Bson(too_long_text()),
        },
{
    if len > MAX_TEXT_LEN {
        return Err(CndbError::Bson(String::from_str("document is too long to encode")));
    }
    Ok(())
}

/// Encode a document, unless it is too long.
fn encode_document(document: &bson::Document) -> (result: Result<Vec<u8>, CndbError>)
    ensures
        match result {
            Ok(bytes) => document_to_payload(*document) == Ok::<Seq<u8>, ErrorView>(bytes@),
            Err(e) => document_to_payload(*document) == Err::<Seq<u8>, ErrorView>(e@),
        },
{
    let text = match bson_result(text_of(document)) {
        Ok(text) => text,
        Err(e) => return Err(e),
    };
    match require_short(text.len()) {
        Err(e) => Err(e),
        Ok(()) => bson_result(write_document(document)),
    }
}

/// Encode a JSON object as BSON bytes.
///
/// An object whose document takes over [`MAX_TEXT_LEN`] bytes as JSON text is
/// refused; it is far over what a record may hold.
///
/// That decoding gives the object back is not stated, since it does not hold of
/// every object: `bson` takes members such as `{"$numberDouble": "1.5"}` for
/// values of its own types.
pub fn to_bson_bytes(value: &Value) -> (result: Result<Vec<u8>, CndbError>)
    ensures
        match result {
            Ok(bytes) => json_to_payload(*value) == Ok::<Seq<u8>, ErrorView>(bytes@),
            Err(e) => json_to_payload(*value) == Err::<Seq<u8>, ErrorView>(e@),
        },
{
    match require_object(variant(value)) {
        Err(e) => Err(e),
        Ok(()) => match bson_result(to_document(value)) {
            Err(e) => Err(e),
            Ok(document) => encode_document(&document),
        },
    }
}

/// Decode BSON bytes back into a JSON object.
pub fn from_bson_bytes(bytes: &[u8]) -> (result: Result<Value, CndbError>)
    ensures
        match result {
            Ok(value) => payload_to_json(bytes@) == Ok::<Value, ErrorView>(value),
            Err(e) => payload_to_json(bytes@) == Err::<Value, ErrorView>(e@),
        },
{
    match bson_result(read_document(bytes)) {
        Err(e) => Err(e),
        Ok(document) => bson_result(from_document(document)),
    }
}

/// A JSON value is stored exactly when it is an object, `bson` makes a document
/// of it, that document is not too long, and `bson` can write it; and what is
/// stored is all of what `bson` writes for that document.
pub proof fn an_object_is_stored_as_bson_writes_it(value: Value, payload: Seq<u8>)
    ensures
        json_to_payload(value) == Ok::<Seq<u8>, ErrorView>(payload) <==> {
            &&& json_type(value) == JsonType::Object
            &&& json_to_document(value) matches Ok(document) && {
                &&& document_to_text(document) matches Ok(text) && text.len() <= 0x7fff_fffe
                &&& document_to_bytes(document) == Ok::<Seq<u8>, Seq<char>>(payload)
            }
        },
{
}

/// Why a JSON value is not stored: because of its type, which is named; else
/// because of the first thing that `bson` or `serde_json` complained of, in its
/// own words; else because it is too long.
pub proof fn a_refused_value_is_refused_for_a_reason(value: Value, refusal: ErrorView)
    requires
        json_to_payload(value) == Err::<Seq<u8>, ErrorView>(refusal),
    ensures
        match json_type(value) {
            JsonType::Null => refusal == (ErrorView::NotAnObject { found: "null"@ }),
            JsonType::Bool => refusal == (ErrorView::NotAnObject { found: "a boolean"@ }),
            JsonType::Number => refusal == (ErrorView::NotAnObject { found: "a number"@ }),
            JsonType::String => refusal == (ErrorView::NotAnObject { found: "a string"@ }),
            JsonType::Array => refusal == (ErrorView::NotAnObject { found: "an array"@ }),
            JsonType::Object => refusal matches ErrorView::Bson(words) && {
                ||| json_to_document(value) == Err::<bson::Document, Seq<char>>(words)
                ||| json_to_document(value) matches Ok(document) && {
                    ||| document_to_text(document) == Err::<Seq<u8>, Seq<char>>(words)
                    ||| document_to_text(document) matches Ok(text) && text.len() > 0x7fff_fffe
                        && words == "document is too long to encode"@
                    ||| document_to_text(document) matches Ok(text) && text.len() <= 0x7fff_fffe
                        && document_to_bytes(document) == Err::<Seq<u8>, Seq<char>>(words)
                }
            },
        },
{
}

/// A payload is decoded to all of what `bson` reads in it, and refused in the
/// words of `bson`.
pub proof fn a_payload_is_read_as_bson_reads_it(payload: Seq<u8>, value: Value)
    ensures
        payload_to_json(payload) == Ok::<Value, ErrorView>(value) <==> {
            &&& bytes_to_document(payload) matches Ok(document) && document_to_json(document)
                == Ok::<Value, Seq<char>>(value)
        },
        payload_to_json(payload) matches Err(refusal) ==> (refusal matches ErrorView::Bson(words)
            && {
            ||| bytes_to_document(payload) == Err::<bson::Document, Seq<char>>(words)
            ||| bytes_to_document(payload) matches Ok(document) && document_to_json(document)
                == Err::<Value, Seq<char>>(words)
        }),
{
}

/// An object that `bson` gives back from the bytes it wrote is decoded to itself:
/// nothing is lost between the document that was made of an object and the one
/// that is read. What `bson` does to members that it reserves is its own.
pub proof fn what_bson_keeps_is_kept(value: Value, document: bson::Document, payload: Seq<u8>)
    requires
        json_type(value) == JsonType::Object,
        json_to_document(value) == Ok::<bson::Document, Seq<char>>(document),
        document_to_text(document) matches Ok(text) && text.len() <= 0x7fff_fffe,
        document_to_bytes(document) == Ok::<Seq<u8>, Seq<char>>(payload),
        bytes_to_document(payload) matches Ok(read) && document_to_json(read) == Ok::<
            Value,
            Seq<char>,
        >(value),
    ensures
        json_to_payload(value) matches Ok(stored) && payload_to_json(stored) == Ok::<
            Value,
            ErrorView,
        >(value),
{
}

} // verus!
