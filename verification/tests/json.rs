use schema_mirror::json::{member, Json, Member};

fn named(name: &str, value: Json) -> Member {
    Member { name: name.to_string(), value }
}

#[test]
fn string_is_written_in_quotes() {
    assert_eq!(Json::Text("cpu".to_string()).text(), "\"cpu\"");
    assert_eq!(Json::Text(String::new()).text(), "\"\"");
}

#[test]
fn string_is_escaped_as_the_grammar_asks() {
    assert_eq!(Json::Text("a\"b".to_string()).text(), "\"a\\\"b\"");
    assert_eq!(Json::Text("a\\b".to_string()).text(), "\"a\\\\b\"");
    assert_eq!(Json::Text("line\nbreak".to_string()).text(), "\"line\\nbreak\"");
    assert_eq!(Json::Text("temp\u{e9}rature".to_string()).text(), "\"temp\u{e9}rature\"");
}

#[test]
fn string_text_is_what_serde_json_prints() {
    for text in ["cpu", "a\"b", "tab\there", "\u{1}", "", "\u{6e29}\u{5ea6}"] {
        let printed = serde_json::Value::String(text.to_string()).to_string();
        assert_eq!(Json::Text(text.to_string()).text(), printed);
    }
}

#[test]
fn scalars_are_written_plainly() {
    assert_eq!(Json::Null.text(), "null");
    assert_eq!(Json::Bool(true).text(), "true");
    assert_eq!(Json::Bool(false).text(), "false");
    assert_eq!(Json::Number("42".to_string()).text(), "42");
    assert_eq!(Json::Number("-1.5".to_string()).text(), "-1.5");
}

#[test]
fn array_is_written_with_commas() {
    assert_eq!(Json::Array(Vec::new()).text(), "[]");
    assert_eq!(Json::Array(vec![Json::Number("1".to_string())]).text(), "[1]");
    let nested = Json::Array(vec![
        Json::Text("a".to_string()),
        Json::Array(vec![Json::Null, Json::Bool(true)]),
        Json::Number("3".to_string()),
    ]);
    assert_eq!(nested.text(), "[\"a\",[null,true],3]");
}

#[test]
fn object_is_written_with_names_and_colons() {
    assert_eq!(Json::Object(Vec::new()).text(), "{}");
    let object = Json::Object(vec![
        named("city", Json::Text("London".to_string())),
        named("n", Json::Array(vec![Json::Number("1".to_string()), Json::Number("2".to_string())])),
    ]);
    assert_eq!(object.text(), "{\"city\":\"London\",\"n\":[1,2]}");
}

#[test]
fn container_text_is_what_serde_json_prints() {
    let object = Json::Object(vec![
        named("a", Json::Array(vec![Json::Null, Json::Text("x\"y".to_string())])),
        named("b", Json::Object(vec![named("c", Json::Bool(false))])),
    ]);
    let parsed: serde_json::Value =
        serde_json::from_str("{\"a\": [null, \"x\\\"y\"], \"b\": {\"c\": false}}").unwrap();
    assert_eq!(object.text(), parsed.to_string());
}

#[test]
fn member_is_found_by_its_name() {
    let members = vec![
        named("statement_id", Json::Number("0".to_string())),
        named("series", Json::Array(Vec::new())),
        named("series", Json::Null),
    ];
    assert!(matches!(member(&members, "series"), Some(Json::Array(_))));
    assert!(matches!(member(&members, "statement_id"), Some(Json::Number(_))));
    assert!(member(&members, "values").is_none());
    assert!(member(&members, "serie").is_none());
    assert!(member(&Vec::new(), "series").is_none());
}

#[test]
fn items_and_members_tell_the_kinds_apart() {
    let array = Json::Array(vec![Json::Null]);
    let object = Json::Object(vec![named("a", Json::Null)]);
    assert_eq!(array.items().map(|items| items.len()), Some(1));
    assert!(array.members().is_none());
    assert_eq!(object.members().map(|members| members.len()), Some(1));
    assert!(object.items().is_none());
    assert!(Json::Text("x".to_string()).items().is_none());
    assert!(Json::Null.members().is_none());
}
