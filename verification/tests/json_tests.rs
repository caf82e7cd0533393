use mavlink2rest::json::JsonValue;

fn sample() -> JsonValue {
    // keys in alphabetical order, so that the text survives a round trip
    // through serde_json's sorted maps unchanged
    JsonValue::Object(vec![
        ("count".to_string(), JsonValue::Num("42".to_string())),
        (
            "items".to_string(),
            JsonValue::Array(vec![
                JsonValue::Num("1".to_string()),
                JsonValue::Str("two".to_string()),
                JsonValue::Array(vec![]),
                JsonValue::Object(vec![]),
            ]),
        ),
        ("missing".to_string(), JsonValue::Null),
        ("name".to_string(), JsonValue::Str("mav\"link\n".to_string())),
        ("ok".to_string(), JsonValue::Bool(true)),
        ("ratio".to_string(), JsonValue::Num("-1.5".to_string())),
    ])
}

#[test]
fn compact_rendering_matches_serde_json() {
    let text = sample().to_compact_string();
    let doc: serde_json::Value = serde_json::from_str(&text).unwrap();
    assert_eq!(text, serde_json::to_string(&doc).unwrap());
}

#[test]
fn pretty_rendering_matches_serde_json() {
    let text = sample().to_pretty_string();
    let doc: serde_json::Value = serde_json::from_str(&text).unwrap();
    assert_eq!(text, serde_json::to_string_pretty(&doc).unwrap());
}

#[test]
fn escapes_control_characters() {
    let value = JsonValue::Str("a\tb\u{1}c\\d".to_string());
    assert_eq!(value.to_compact_string(), "\"a\\tb\\u0001c\\\\d\"");
}

#[test]
fn empty_pointer_names_the_document() {
    let value = sample();
    let found = value.pointer("").unwrap();
    assert_eq!(found.to_compact_string(), value.to_compact_string());
}

#[test]
fn pointer_navigates_objects_and_arrays() {
    let value = sample();
    assert_eq!(value.pointer("/count").unwrap().to_compact_string(), "42");
    assert_eq!(value.pointer("/items/1").unwrap().to_compact_string(), "\"two\"");
    assert_eq!(value.pointer("/items/3").unwrap().to_compact_string(), "{}");
    assert!(value.pointer("/items/4").is_none());
    assert!(value.pointer("/nothing").is_none());
    assert!(value.pointer("no-slash").is_none());
}

#[test]
fn pointer_rejects_index_with_leading_zero() {
    let value = JsonValue::Array(vec![
        JsonValue::Num("10".to_string()),
        JsonValue::Num("20".to_string()),
    ]);
    assert_eq!(value.pointer("/0").unwrap().to_compact_string(), "10");
    assert!(value.pointer("/01").is_none());
    assert!(value.pointer("/-1").is_none());
}

#[test]
fn pointer_unescapes_tokens() {
    let value = JsonValue::Object(vec![
        ("a/b".to_string(), JsonValue::Num("1".to_string())),
        ("c~d".to_string(), JsonValue::Num("2".to_string())),
    ]);
    assert_eq!(value.pointer("/a~1b").unwrap().to_compact_string(), "1");
    assert_eq!(value.pointer("/c~0d").unwrap().to_compact_string(), "2");
}

#[test]
fn deep_clone_renders_identically() {
    let value = sample();
    let copy = value.deep_clone();
    assert_eq!(copy.to_pretty_string(), value.to_pretty_string());
}
