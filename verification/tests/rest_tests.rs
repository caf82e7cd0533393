use mavlink2rest::data::MAVLinkVehiclesData;
use mavlink2rest::json::JsonValue;
use mavlink2rest::rest_api::{
    extract_mavlink, helper_envelope, mavlink_post, parse_query, ExtractError, Info, InfoContent,
    JsonConfiguration,
};

fn posted_heartbeat() -> JsonValue {
    JsonValue::Object(vec![
        (
            "header".to_string(),
            JsonValue::Object(vec![
                ("system_id".to_string(), JsonValue::Num("1".to_string())),
                ("component_id".to_string(), JsonValue::Num("1".to_string())),
                ("sequence".to_string(), JsonValue::Num("0".to_string())),
            ]),
        ),
        (
            "message".to_string(),
            JsonValue::Object(vec![
                ("type".to_string(), JsonValue::Str("HEARTBEAT".to_string())),
                ("custom_mode".to_string(), JsonValue::Num("0".to_string())),
            ]),
        ),
    ])
}

#[test]
fn extracts_header_and_message() {
    let content = extract_mavlink(&posted_heartbeat()).unwrap();
    assert_eq!(content.header.system_id, 1);
    assert_eq!(content.header.component_id, 1);
    assert_eq!(content.header.sequence, 0);
    assert_eq!(content.name, "HEARTBEAT");
    assert_eq!(
        content.message.to_compact_string(),
        "{\"type\":\"HEARTBEAT\",\"custom_mode\":0}"
    );
}

#[test]
fn successful_post_updates_the_store() {
    let mut store = MAVLinkVehiclesData::new();
    let content = extract_mavlink(&posted_heartbeat()).unwrap();
    let updated = mavlink_post(&mut store, content, true, 7_000);
    assert!(updated);
    assert_eq!(
        store.pointer("vehicles/1/components/1/messages/HEARTBEAT/message/type"),
        "\"HEARTBEAT\""
    );
    assert_eq!(
        store.pointer("vehicles/1/components/1/messages/HEARTBEAT/status/time/counter"),
        "1"
    );
}

#[test]
fn failed_send_leaves_the_store_untouched() {
    let mut store = MAVLinkVehiclesData::new();
    let content = extract_mavlink(&posted_heartbeat()).unwrap();
    let updated = mavlink_post(&mut store, content, false, 7_000);
    assert!(!updated);
    assert_eq!(store.pointer("vehicles/1"), "None");
}

#[test]
fn rejects_documents_of_the_wrong_shape() {
    assert_eq!(
        extract_mavlink(&JsonValue::Num("1".to_string())).unwrap_err(),
        ExtractError::NotAnObject
    );
    assert_eq!(
        extract_mavlink(&JsonValue::Object(vec![])).unwrap_err(),
        ExtractError::MissingHeader
    );
    let bad_field = JsonValue::Object(vec![
        (
            "header".to_string(),
            JsonValue::Object(vec![
                ("system_id".to_string(), JsonValue::Num("300".to_string())),
                ("component_id".to_string(), JsonValue::Num("1".to_string())),
                ("sequence".to_string(), JsonValue::Num("0".to_string())),
            ]),
        ),
    ]);
    assert_eq!(extract_mavlink(&bad_field).unwrap_err(), ExtractError::BadHeaderField);
    let no_message = JsonValue::Object(vec![
        (
            "header".to_string(),
            JsonValue::Object(vec![
                ("system_id".to_string(), JsonValue::Num("1".to_string())),
                ("component_id".to_string(), JsonValue::Num("1".to_string())),
                ("sequence".to_string(), JsonValue::Num("0".to_string())),
            ]),
        ),
    ]);
    assert_eq!(extract_mavlink(&no_message).unwrap_err(), ExtractError::MissingMessage);
    let no_type = JsonValue::Object(vec![
        (
            "header".to_string(),
            JsonValue::Object(vec![
                ("system_id".to_string(), JsonValue::Num("1".to_string())),
                ("component_id".to_string(), JsonValue::Num("1".to_string())),
                ("sequence".to_string(), JsonValue::Num("0".to_string())),
            ]),
        ),
        ("message".to_string(), JsonValue::Object(vec![])),
    ]);
    assert_eq!(extract_mavlink(&no_type).unwrap_err(), ExtractError::MissingType);
}

#[test]
fn helper_envelope_wraps_a_default_header() {
    let message = JsonValue::Object(vec![
        ("type".to_string(), JsonValue::Str("HEARTBEAT".to_string())),
        ("custom_mode".to_string(), JsonValue::Num("0".to_string())),
        ("mavlink_version".to_string(), JsonValue::Num("0".to_string())),
    ]);
    let envelope = helper_envelope(message);
    let text = envelope.to_pretty_string();
    let doc: serde_json::Value = serde_json::from_str(&text).unwrap();
    assert_eq!(doc.pointer("/header/system_id").unwrap(), &serde_json::Value::from(255u8));
    assert_eq!(doc.pointer("/header/component_id").unwrap(), &serde_json::Value::from(0u8));
    assert_eq!(doc.pointer("/header/sequence").unwrap(), &serde_json::Value::from(0u8));
    assert_eq!(
        doc.pointer("/message/type").unwrap(),
        &serde_json::Value::from("HEARTBEAT")
    );
}

#[test]
fn info_document_shape() {
    let info = Info {
        version: 0,
        service: InfoContent {
            name: "mavlink2rest".to_string(),
            version: "1.0.0".to_string(),
            sha: "abcdef0".to_string(),
            build_date: "2024-01-01".to_string(),
            authors: "someone".to_string(),
        },
    };
    let text = info.to_json().to_compact_string();
    assert_eq!(
        text,
        "{\"version\":0,\"service\":{\"name\":\"mavlink2rest\",\"version\":\"1.0.0\",\
         \"sha\":\"abcdef0\",\"build_date\":\"2024-01-01\",\"authors\":\"someone\"}}"
    );
}

#[test]
fn parse_query_honours_the_pretty_flag() {
    let value = JsonValue::Object(vec![("a".to_string(), JsonValue::Num("1".to_string()))]);
    assert_eq!(parse_query(&value, &JsonConfiguration { pretty: Some(true) }), "{\n  \"a\": 1\n}");
    assert_eq!(parse_query(&value, &JsonConfiguration { pretty: Some(false) }), "{\"a\":1}");
    assert_eq!(parse_query(&value, &JsonConfiguration { pretty: None }), "{\"a\":1}");
}
