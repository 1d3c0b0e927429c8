use teo_result::{Error, ErrorSerializable, ResultExt};

fn one_entry(k: &str, v: &str) -> indexmap::IndexMap<String, String> {
    let mut m = indexmap::IndexMap::new();
    m.insert(k.to_owned(), v.to_owned());
    m
}

#[test]
fn new_defaults_to_internal_error() {
    let e = Error::new("boom");
    assert_eq!(e.code(), 500);
    assert_eq!(e.message(), "boom");
    assert!(e.errors().is_none());
    assert!(e.platform_native_object().is_none());
}

#[test]
fn new_with_code_keeps_code() {
    let e = Error::new_with_code("missing", 404);
    assert_eq!(e.code(), 404);
    assert_eq!(e.message(), "missing");
}

#[test]
fn new_with_code_errors_keeps_entries_in_order() {
    let mut m = indexmap::IndexMap::new();
    m.insert("b".to_owned(), "second".to_owned());
    m.insert("a".to_owned(), "first".to_owned());
    let e = Error::new_with_code_errors("invalid", 400, m);
    let errors = e.errors().unwrap();
    assert_eq!(errors.get_index(0), Some((&"b".to_owned(), &"second".to_owned())));
    assert_eq!(errors.get_index(1), Some((&"a".to_owned(), &"first".to_owned())));
}

#[test]
fn new_pathed_builds_single_entry() {
    let e = Error::new_pathed("invalid", 400, "email", "bad format");
    assert_eq!(e.code(), 400);
    assert_eq!(e.errors(), Some(&one_entry("email", "bad format")));
}

#[test]
fn message_prefixed_without_field_errors_prefixes_message() {
    let e = Error::new("went wrong").message_prefixed("saving");
    assert_eq!(e.message(), "saving: went wrong");
    assert!(e.errors().is_none());
}

#[test]
fn message_prefixed_with_field_errors_prefixes_values_only() {
    let e = Error::new_with_code_errors("invalid", 400, one_entry("a", "bad"));
    let p = e.message_prefixed("X");
    assert_eq!(p.message(), "invalid");
    assert_eq!(p.errors(), Some(&one_entry("a", "X: bad")));
    assert_eq!(p.code(), 400);
}

#[test]
fn path_prefixed_rewrites_keys() {
    let e = Error::new_with_code_errors("invalid", 400, one_entry("name", "required"));
    let p = e.path_prefixed("user");
    assert_eq!(p.errors(), Some(&one_entry("user.name", "required")));
    assert_eq!(p.message(), "invalid");
}

#[test]
fn path_prefixed_without_field_errors_is_a_no_op() {
    let e = Error::new("plain").path_prefixed("user");
    assert_eq!(e.message(), "plain");
    assert!(e.errors().is_none());
}

#[test]
fn map_path_rewrites_each_key() {
    let mut m = indexmap::IndexMap::new();
    m.insert("a".to_owned(), "one".to_owned());
    m.insert("b".to_owned(), "two".to_owned());
    let e = Error::new_with_code_errors("invalid", 400, m);
    let p = e.map_path(|k| format!("items.0.{}", k));
    let errors = p.errors().unwrap();
    assert_eq!(errors.get_index(0), Some((&"items.0.a".to_owned(), &"one".to_owned())));
    assert_eq!(errors.get_index(1), Some((&"items.0.b".to_owned(), &"two".to_owned())));
}

#[test]
fn with_code_overrides_code_only() {
    let e = Error::new("oops").with_code(503);
    assert_eq!(e.code(), 503);
    assert_eq!(e.message(), "oops");
}

#[test]
fn inferred_title_knows_the_table() {
    assert_eq!(Error::new_with_code("x", 404).inferred_title(), "NotFound");
    assert_eq!(Error::new_with_code("x", 999).inferred_title(), "ServerError(999)");
    assert_eq!(Error::new_with_code("x", 200).inferred_title(), "OK");
    assert_eq!(Error::new_with_code("x", 500).inferred_title(), "InternalServerError");
    assert_eq!(Error::new_with_code("x", 100).inferred_title(), "Continue");
    assert_eq!(Error::new_with_code("x", 0).inferred_title(), "ServerError(0)");
}

#[test]
fn convenience_constructors() {
    assert_eq!(Error::not_found().code(), 404);
    assert_eq!(Error::not_found().message(), "not found");
    assert_eq!(Error::invalid_request().code(), 400);
    assert_eq!(Error::invalid_request().message(), "value is invalid");
    assert_eq!(Error::internal_server_error().code(), 500);
    assert_eq!(Error::internal_server_error().message(), "internal server error");
    assert_eq!(Error::unauthorized().code(), 401);
    assert_eq!(Error::unauthorized().message(), "unauthorized");
}

#[test]
fn result_ext_leaves_ok_alone() {
    let r: Result<u32, Error> = Ok(7);
    assert_eq!(r.error_message_prefixed("ctx").unwrap(), 7);
    let r: Result<u32, Error> = Ok(7);
    assert_eq!(r.error_path_prefixed("ctx").unwrap(), 7);
    let r: Result<u32, Error> = Ok(7);
    assert_eq!(r.alter_error_code(503).unwrap(), 7);
}

#[test]
fn result_ext_rewrites_err() {
    let r: Result<u32, Error> = Err(Error::new("bad"));
    let e = r.error_message_prefixed("ctx").unwrap_err();
    assert_eq!(e.message(), "ctx: bad");

    let r: Result<u32, Error> = Err(Error::new_with_code_errors("bad", 400, {
        let mut m = indexmap::IndexMap::new();
        m.insert("f".to_owned(), "oops".to_owned());
        m
    }));
    let e = r.error_path_prefixed("outer").unwrap_err();
    assert!(e.errors().unwrap().contains_key("outer.f"));

    let r: Result<u32, Error> = Err(Error::new("bad"));
    let e = r.alter_error_code(418).unwrap_err();
    assert_eq!(e.code(), 418);
}

#[test]
fn error_string_is_the_wire_form() {
    let e = Error::new_with_code("not here", 404);
    assert_eq!(
        ErrorSerializable::error_string(&e),
        "{\"code\":404,\"message\":\"not here\",\"errors\":null}"
    );
}

#[test]
fn error_string_escapes_specials() {
    let e = Error::new("say \"hi\"\\\n");
    assert_eq!(
        ErrorSerializable::error_string(&e),
        "{\"code\":500,\"message\":\"say \\\"hi\\\"\\\\\\u000a\",\"errors\":null}"
    );
}

#[test]
fn serialized_form_agrees_with_a_standard_json_reader() {
    let e = Error::new_with_code_errors("invalid", 422, one_entry("email", "taken"));
    let text = ErrorSerializable::error_string(&e);
    let v: serde_json::Value = serde_json::from_str(&text).unwrap();
    assert_eq!(v["code"], serde_json::Value::from(422u64));
    assert_eq!(v["message"], serde_json::Value::from("invalid"));
    assert_eq!(v["errors"]["email"], serde_json::Value::from("taken"));
}

#[test]
fn from_json_str_accepts_any_key_order() {
    let rec =
        ErrorSerializable::from_json_str("{\"message\":\"m\",\"errors\":null,\"code\":404}")
            .unwrap();
    assert_eq!(rec.code, 404);
    assert_eq!(rec.message, "m");
    assert!(rec.errors.is_none());
}

#[test]
fn from_json_str_rejects_non_string_field_values() {
    assert!(
        ErrorSerializable::from_json_str("{\"code\":400,\"message\":\"m\",\"errors\":{\"a\":1}}")
            .is_none()
    );
}

#[test]
fn from_json_str_rejects_repeated_keys_and_garbage() {
    assert!(ErrorSerializable::from_json_str("{\"code\":400,\"code\":401,\"message\":\"m\"}")
        .is_none());
    assert!(ErrorSerializable::from_json_str("not-json").is_none());
    assert!(ErrorSerializable::from_json_str("{\"message\":\"m\"}").is_none());
    assert!(ErrorSerializable::from_json_str("{\"code\":70000,\"message\":\"m\"}").is_none());
}

#[test]
fn from_error_then_to_json_round_trips_through_reader() {
    let e = Error::new_with_code_errors("invalid", 400, one_entry("a", "bad"));
    let rec = ErrorSerializable::from_error(&e);
    let text = rec.to_json_string();
    let back = ErrorSerializable::from_json_str(&text).unwrap();
    assert_eq!(back.code, 400);
    assert_eq!(back.message, "invalid");
    assert_eq!(back.errors, Some(one_entry("a", "bad")));
}
