use codex_resume_tracker::json::{Json, JsonObject};

#[test]
fn values_are_read_and_written() {
    let source = "{\"a\":[null,true,18446744073709551615,-9223372036854775808,\"\\u00e9\\n\"],\"b\":{}}";
    let value = Json::parse(source).unwrap();
    assert_eq!(
        value.compact(),
        "{\"a\":[null,true,18446744073709551615,-9223372036854775808,\"é\\n\"],\"b\":{}}"
    );
    let again = Json::parse(&value.pretty()).unwrap();
    assert_eq!(again.compact(), value.compact());
    assert!(Json::parse("{\"a\":}").is_err());
    assert!(Json::parse(&"[".repeat(200)).is_err());
}

#[test]
fn the_later_of_two_fields_counts() {
    let object = JsonObject::new()
        .with("x", Json::number(1))
        .with("y", Json::text("t"))
        .with("x", Json::number(2));
    let value = Json::object(object);
    assert_eq!(value.u64_field("x"), Some(2));
    assert_eq!(value.compact(), "{\"x\":2,\"y\":\"t\"}");
    assert_eq!(Json::parse("{\"k\":1,\"k\":2}").unwrap().u64_field("k"), Some(2));
}

#[test]
fn fields_are_read_by_their_kind() {
    let value = Json::parse("{\"n\":5,\"m\":-5,\"f\":5.0,\"s\":\"5\",\"l\":[1]}").unwrap();
    assert_eq!(value.u64_field("n"), Some(5));
    assert_eq!(value.i64_field("n"), Some(5));
    assert_eq!(value.u64_field("m"), None);
    assert_eq!(value.i64_field("m"), Some(-5));
    assert_eq!(value.i64_field("f"), None);
    assert_eq!(value.i64_field("s"), None);
    assert_eq!(value.text_field("s"), Some("5"));
    assert_eq!(value.text_field("n"), None);
    assert_eq!(value.array_field("l").unwrap().len(), 1);
    assert!(value.array_field("s").is_none());
    assert!(value.get("missing").is_none());
    assert!(Json::Null.get("n").is_none());
    assert_eq!(Json::text("x").as_str(), Some("x"));
    let large = Json::parse("{\"n\":9223372036854775808}").unwrap();
    assert_eq!(large.i64_field("n"), None);
    assert_eq!(large.u64_field("n"), Some(9223372036854775808));
}

#[test]
fn fields_can_be_taken_out() {
    let mut object = JsonObject::new().with("x", Json::number(1)).with("y", Json::Null);
    assert!(object.take("z").is_none());
    assert!(matches!(object.take("x"), Some(Json::Number(_))));
    assert!(object.get("x").is_none());
    assert!(object.get("y").is_some());
}
