use teo_result::bridge::{decode, encode};
use teo_result::{Error, ExceptionKind, NativeException};

fn one_entry(k: &str, v: &str) -> indexmap::IndexMap<String, String> {
    let mut m = indexmap::IndexMap::new();
    m.insert(k.to_owned(), v.to_owned());
    m
}

#[test]
fn encode_end_to_end_text() {
    let e = Error::new_with_code_errors("validation failed", 400, one_entry("email", "invalid format"));
    let exc = encode(e);
    assert!(matches!(exc.kind, ExceptionKind::GenericFailure));
    assert_eq!(
        exc.reason,
        "TeoError: {\"code\":400,\"message\":\"validation failed\",\"errors\":{\"email\":\"invalid format\"}}"
    );
}

#[test]
fn round_trip_reproduces_the_error() {
    let e = Error::new_with_code_errors("validation failed", 400, one_entry("email", "invalid format"));
    let back = decode(encode(e));
    assert_eq!(back.code(), 400);
    assert_eq!(back.message(), "validation failed");
    assert_eq!(back.errors(), Some(&one_entry("email", "invalid format")));
    assert!(back.platform_native_object().is_some());
}

#[test]
fn round_trip_without_field_errors() {
    let e = Error::new_with_code("gone", 410);
    let back = decode(encode(e));
    assert_eq!(back.code(), 410);
    assert_eq!(back.message(), "gone");
    assert!(back.errors().is_none());
}

#[test]
fn round_trip_with_awkward_characters() {
    let e = Error::new_with_code("tab\there \"quoted\" \\slash\\ and\nnewline", 400);
    let back = decode(encode(e));
    assert_eq!(back.message(), "tab\there \"quoted\" \\slash\\ and\nnewline");
    assert_eq!(back.code(), 400);
}

#[test]
fn encode_returns_the_stored_native_exception() {
    let exc = NativeException::new(ExceptionKind::Other, "original");
    let decoded = decode(exc);
    assert_eq!(decoded.message(), "original");
    let re_encoded = encode(decoded);
    assert!(matches!(re_encoded.kind, ExceptionKind::Other));
    assert_eq!(re_encoded.reason, "original");
}

#[test]
fn decode_degrades_on_foreign_text() {
    let exc = NativeException::new(ExceptionKind::GenericFailure, "segfault in module x");
    let e = decode(exc);
    assert_eq!(e.code(), 500);
    assert_eq!(e.message(), "segfault in module x");
    assert!(e.errors().is_none());
    assert!(e.platform_native_object().is_some());
}

#[test]
fn decode_ignores_sentinel_on_other_classifications() {
    let exc = NativeException::new(
        ExceptionKind::Other,
        "TeoError: {\"code\":400,\"message\":\"m\",\"errors\":null}",
    );
    let e = decode(exc);
    assert_eq!(e.code(), 500);
    assert_eq!(e.message(), "TeoError: {\"code\":400,\"message\":\"m\",\"errors\":null}");
}

#[test]
fn decode_strips_the_rethrown_sentinel_first() {
    let exc = NativeException::new(
        ExceptionKind::GenericFailure,
        "Error: TeoError: {\"code\":404,\"message\":\"not found\",\"errors\":null}",
    );
    let e = decode(exc);
    assert_eq!(e.code(), 404);
    assert_eq!(e.message(), "not found");
    assert!(e.errors().is_none());
}

#[test]
fn decode_falls_back_on_malformed_json() {
    let exc = NativeException::new(ExceptionKind::GenericFailure, "TeoError: not-json");
    let e = decode(exc);
    assert_eq!(e.code(), 500);
    assert_eq!(e.message(), "TeoError: not-json");
    assert!(e.errors().is_none());
}

#[test]
fn decode_falls_back_on_truncated_json() {
    let exc = NativeException::new(
        ExceptionKind::GenericFailure,
        "TeoError: {\"code\":400,\"message\":\"cut",
    );
    let e = decode(exc);
    assert_eq!(e.message(), "TeoError: {\"code\":400,\"message\":\"cut");
    assert_eq!(e.code(), 500);
}

#[test]
fn decode_treats_non_string_field_values_as_unstructured() {
    let exc = NativeException::new(
        ExceptionKind::GenericFailure,
        "TeoError: {\"code\":400,\"message\":\"m\",\"errors\":{\"a\":3}}",
    );
    let e = decode(exc);
    assert_eq!(e.code(), 500);
    assert_eq!(e.message(), "TeoError: {\"code\":400,\"message\":\"m\",\"errors\":{\"a\":3}}");
    assert!(e.errors().is_none());
}

#[test]
fn decode_maps_empty_errors_object_to_none() {
    let exc = NativeException::new(
        ExceptionKind::GenericFailure,
        "TeoError: {\"code\":400,\"message\":\"m\",\"errors\":{}}",
    );
    let e = decode(exc);
    assert_eq!(e.code(), 400);
    assert!(e.errors().is_none());
}

#[test]
fn decode_accepts_missing_errors_member() {
    let exc = NativeException::new(
        ExceptionKind::GenericFailure,
        "TeoError: {\"code\":401,\"message\":\"no\"}",
    );
    let e = decode(exc);
    assert_eq!(e.code(), 401);
    assert_eq!(e.message(), "no");
    assert!(e.errors().is_none());
}

#[test]
fn decode_keeps_field_error_order() {
    let exc = NativeException::new(
        ExceptionKind::GenericFailure,
        "TeoError: {\"code\":400,\"message\":\"m\",\"errors\":{\"z\":\"1\",\"a\":\"2\"}}",
    );
    let e = decode(exc);
    let errors = e.errors().unwrap();
    assert_eq!(errors.get_index(0), Some((&"z".to_owned(), &"1".to_owned())));
    assert_eq!(errors.get_index(1), Some((&"a".to_owned(), &"2".to_owned())));
}

#[test]
fn re_encoding_a_decoded_exception_returns_it_unchanged() {
    let reason = "TeoError: {\"code\":400,\"message\":\"m\",\"errors\":null}";
    let exc = NativeException::new(ExceptionKind::GenericFailure, reason);
    let e = decode(exc);
    let back = encode(e);
    assert!(matches!(back.kind, ExceptionKind::GenericFailure));
    assert_eq!(back.reason, reason);
}

#[test]
fn decode_degrades_on_non_canonical_spacing() {
    let exc = NativeException::new(
        ExceptionKind::GenericFailure,
        "TeoError: {\"code\": 400, \"message\": \"m\", \"errors\": null}",
    );
    let e = decode(exc);
    assert_eq!(e.code(), 500);
    assert_eq!(e.message(), "TeoError: {\"code\": 400, \"message\": \"m\", \"errors\": null}");
}

#[test]
fn decode_reads_canonical_escapes() {
    let exc = NativeException::new(
        ExceptionKind::GenericFailure,
        "TeoError: {\"code\":400,\"message\":\"a\\u0009b\\n\\\\c\\\"d\",\"errors\":null}",
    );
    let e = decode(exc);
    assert_eq!(e.code(), 400);
    assert_eq!(e.message(), "a\tb\n\\c\"d");
}
