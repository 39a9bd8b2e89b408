use cndb::document::codec::{
    bson_result, from_bson_bytes, json_type_name, require_object, require_short, to_bson_bytes,
    JsonType, MAX_TEXT_LEN,
};
use cndb::error::CndbError;
use serde_json::Value;

fn json(text: &str) -> Value {
    serde_json::from_str(text).unwrap()
}

fn roundtrip(value: Value) -> Value {
    from_bson_bytes(&to_bson_bytes(&value).unwrap()).unwrap()
}

#[test]
fn flat_objects_roundtrip() {
    let doc = json(r#"{ "name": "parse_header", "line": 42, "public": true }"#);
    assert_eq!(roundtrip(doc.clone()), doc);
}

#[test]
fn nested_objects_and_arrays_roundtrip() {
    let doc = json(
        r#"{
            "kind": "Function",
            "qualified_name": "cndb::storage::engine::StorageEngine::commit",
            "span": { "start_line": 231, "end_line": 268, "start_byte": 7104 },
            "params": [
                { "name": "self", "by_ref": true },
                { "name": "force", "by_ref": false }
            ],
            "doc": null,
            "tags": ["storage", "commit", "durability"]
        }"#,
    );
    assert_eq!(roundtrip(doc.clone()), doc);
}

#[test]
fn scalar_types_keep_their_identity() {
    let doc = json(
        r#"{
            "null": null,
            "true": true,
            "false": false,
            "int": 42,
            "negative": -7,
            "zero": 0,
            "float": 1.5,
            "string": "",
            "unicode": "λ → ∀ 日本語",
            "empty_object": {},
            "empty_array": []
        }"#,
    );
    let out = roundtrip(doc.clone());
    assert_eq!(out, doc);
    assert!(out["null"].is_null());
    assert_eq!(out["int"], Value::from(42));
    assert_eq!(out["float"], Value::from(1.5));
}

#[test]
fn integers_do_not_silently_become_floats() {
    let mut doc = serde_json::Map::new();
    doc.insert(String::from("n"), Value::from(9_007_199_254_740_993i64));
    let out = roundtrip(Value::Object(doc));
    assert_eq!(out["n"], Value::from(9_007_199_254_740_993i64));
    assert!(out["n"].is_i64(), "large integers must stay integral");
}

#[test]
fn deep_nesting_roundtrips() {
    let mut doc = json(r#"{ "leaf": true }"#);
    for i in 0..32 {
        let mut outer = serde_json::Map::new();
        outer.insert(String::from("depth"), Value::from(i));
        outer.insert(String::from("child"), doc);
        doc = Value::Object(outer);
    }
    assert_eq!(roundtrip(doc.clone()), doc);
}

#[test]
fn non_objects_are_refused_with_their_type_named() {
    for (value, expected) in [
        (json("null"), "null"),
        (json("true"), "a boolean"),
        (json("3"), "a number"),
        (json("\"text\""), "a string"),
        (json("[1, 2, 3]"), "an array"),
    ] {
        match to_bson_bytes(&value) {
            Err(CndbError::NotAnObject { found }) => assert_eq!(found, expected),
            other => panic!("expected {value} to be refused, got {other:?}"),
        }
    }
}

#[test]
fn garbage_bytes_do_not_decode() {
    assert!(from_bson_bytes(b"not bson at all").is_err());
    assert!(from_bson_bytes(&[]).is_err());
}

#[test]
fn a_truncated_document_does_not_decode() {
    let bytes = to_bson_bytes(&json(r#"{ "key": "a value long enough to cut" }"#)).unwrap();
    assert!(from_bson_bytes(&bytes[..bytes.len() - 5]).is_err());
}

#[test]
fn the_encoding_is_bson() {
    // Length, one element of type string, terminator.
    let bytes = to_bson_bytes(&json(r#"{ "a": "b" }"#)).unwrap();
    assert_eq!(
        bytes,
        [14, 0, 0, 0, 2, b'a', 0, 2, 0, 0, 0, b'b', 0, 0],
        "a document of one string"
    );
    let empty = to_bson_bytes(&json("{}")).unwrap();
    assert_eq!(empty, [5, 0, 0, 0, 0]);
}

#[test]
fn what_bson_cannot_hold_is_refused_as_such() {
    // Larger than any signed 64-bit integer.
    let too_large = json(r#"{ "n": 18446744073709551615 }"#);
    assert!(matches!(
        to_bson_bytes(&too_large),
        Err(CndbError::Bson(_))
    ));
    assert!(matches!(
        from_bson_bytes(b"not bson at all"),
        Err(CndbError::Bson(_))
    ));
}

#[test]
fn only_objects_pass() {
    assert!(require_object(JsonType::Object).is_ok());
    for (found, name) in [
        (JsonType::Null, "null"),
        (JsonType::Bool, "a boolean"),
        (JsonType::Number, "a number"),
        (JsonType::String, "a string"),
        (JsonType::Array, "an array"),
    ] {
        assert_eq!(json_type_name(found), name);
        match require_object(found) {
            Err(CndbError::NotAnObject { found }) => assert_eq!(found, name),
            other => panic!("unexpected {other:?}"),
        }
    }
    assert_eq!(json_type_name(JsonType::Object), "an object");
}

#[test]
fn bson_errors_keep_their_text() {
    assert_eq!(bson_result::<u8>(Ok(7)).unwrap(), 7);
    match bson_result::<u8>(Err(String::from("bad byte"))) {
        Err(CndbError::Bson(text)) => assert_eq!(text, "bad byte"),
        other => panic!("unexpected {other:?}"),
    }
}

#[test]
fn members_that_bson_reserves_are_taken_for_its_own_types() {
    let out = roundtrip(json(r#"{ "n": { "$numberDouble": "1.5" } }"#));
    assert_eq!(out, json(r#"{ "n": 1.5 }"#));
}

#[test]
fn a_text_over_the_limit_is_refused() {
    assert_eq!(MAX_TEXT_LEN as u64, i32::MAX as u64 - 1);
    assert!(require_short(0).is_ok());
    assert!(require_short(MAX_TEXT_LEN).is_ok());
    match require_short(MAX_TEXT_LEN + 1) {
        Err(CndbError::Bson(text)) => assert_eq!(text, "document is too long to encode"),
        other => panic!("unexpected {other:?}"),
    }
}

#[test]
fn strings_that_need_escaping_are_encoded_as_they_are() {
    let doc = json(r#"{ "a\u0001": "tab\t quote\" \u0000 end" }"#);
    assert_eq!(roundtrip(doc.clone()), doc);
}
