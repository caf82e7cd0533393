use mavlink2rest::data::{milli_decimal_string, MAVLinkVehiclesData, Temporal};
use mavlink2rest::json::JsonValue;
use mavlink2rest::mavlink_vehicle::MavHeader;

fn heartbeat_json() -> JsonValue {
    JsonValue::Object(vec![
        ("type".to_string(), JsonValue::Str("HEARTBEAT".to_string())),
        ("custom_mode".to_string(), JsonValue::Num("0".to_string())),
    ])
}

fn header(system_id: u8, component_id: u8) -> MavHeader {
    MavHeader { system_id, component_id, sequence: 0 }
}

#[test]
fn counter_and_frequency_after_two_heartbeats() {
    let mut store = MAVLinkVehiclesData::new();
    // two heartbeats from (sys=1, comp=1), two seconds apart
    store.update(&header(1, 1), "HEARTBEAT".to_string(), heartbeat_json(), 1_000);
    store.update(&header(1, 1), "HEARTBEAT".to_string(), heartbeat_json(), 3_000);
    assert_eq!(
        store.pointer("vehicles/1/components/1/messages/HEARTBEAT/status/time/counter"),
        "2"
    );
    assert_eq!(
        store.pointer("vehicles/1/components/1/messages/HEARTBEAT/status/time/frequency"),
        "1.0"
    );
    assert_eq!(
        store.pointer("vehicles/1/components/1/messages/HEARTBEAT/status/time/first_update"),
        "1000"
    );
    assert_eq!(
        store.pointer("vehicles/1/components/1/messages/HEARTBEAT/status/time/last_update"),
        "3000"
    );
}

#[test]
fn missing_vehicle_answers_none() {
    let mut store = MAVLinkVehiclesData::new();
    store.update(&header(1, 1), "HEARTBEAT".to_string(), heartbeat_json(), 0);
    assert_eq!(store.pointer("vehicles/9/components/0"), "None");
}

#[test]
fn counter_equals_the_number_of_updates() {
    let mut store = MAVLinkVehiclesData::new();
    for k in 0..5i64 {
        store.update(&header(2, 3), "ATTITUDE".to_string(), heartbeat_json(), k * 500);
    }
    assert_eq!(
        store.pointer("vehicles/2/components/3/messages/ATTITUDE/status/time/counter"),
        "5"
    );
    assert_eq!(
        store.pointer("vehicles/2/components/3/messages/ATTITUDE/status/time/last_update"),
        "2000"
    );
    // five updates over two whole seconds: 2.5 per second
    assert_eq!(
        store.pointer("vehicles/2/components/3/messages/ATTITUDE/status/time/frequency"),
        "2.5"
    );
}

#[test]
fn frequency_is_zero_below_one_second_of_span() {
    let mut store = MAVLinkVehiclesData::new();
    store.update(&header(1, 1), "HEARTBEAT".to_string(), heartbeat_json(), 100);
    store.update(&header(1, 1), "HEARTBEAT".to_string(), heartbeat_json(), 900);
    assert_eq!(
        store.pointer("vehicles/1/components/1/messages/HEARTBEAT/status/time/frequency"),
        "0.0"
    );
}

#[test]
fn latest_message_replaces_the_previous_one() {
    let mut store = MAVLinkVehiclesData::new();
    let first = JsonValue::Object(vec![
        ("type".to_string(), JsonValue::Str("HEARTBEAT".to_string())),
        ("custom_mode".to_string(), JsonValue::Num("1".to_string())),
    ]);
    let second = JsonValue::Object(vec![
        ("type".to_string(), JsonValue::Str("HEARTBEAT".to_string())),
        ("custom_mode".to_string(), JsonValue::Num("2".to_string())),
    ]);
    store.update(&header(1, 1), "HEARTBEAT".to_string(), first, 0);
    store.update(&header(1, 1), "HEARTBEAT".to_string(), second, 10);
    assert_eq!(
        store.pointer("vehicles/1/components/1/messages/HEARTBEAT/message/custom_mode"),
        "2"
    );
}

#[test]
fn query_tree_matches_serde_json_pointer() {
    let mut store = MAVLinkVehiclesData::new();
    store.update(&header(1, 1), "HEARTBEAT".to_string(), heartbeat_json(), 1_000);
    store.update(&header(1, 2), "ATTITUDE".to_string(), heartbeat_json(), 2_000);
    let whole = store.pointer("");
    let doc: serde_json::Value = serde_json::from_str(&whole).unwrap();
    for path in [
        "vehicles",
        "vehicles/1",
        "vehicles/1/components/1",
        "vehicles/1/components/2/messages/ATTITUDE/status/time/counter",
        "vehicles/1/components/1/messages/HEARTBEAT/message/type",
    ] {
        let sub = doc.pointer(&format!("/{path}")).unwrap();
        let answer: serde_json::Value = serde_json::from_str(&store.pointer(path)).unwrap();
        assert_eq!(&answer, sub);
    }
}

#[test]
fn temporal_update_wraps_its_counter() {
    let mut t = Temporal { first_update: 0, last_update: 0, counter: u64::MAX, frequency_millihertz: 0 };
    t.update(500);
    assert_eq!(t.counter, 0);
    assert_eq!(t.last_update, 500);
}

#[test]
fn milli_decimal_rendering() {
    assert_eq!(milli_decimal_string(0), "0.0");
    assert_eq!(milli_decimal_string(1_000), "1.0");
    assert_eq!(milli_decimal_string(1_250), "1.25");
    assert_eq!(milli_decimal_string(1_200), "1.2");
    assert_eq!(milli_decimal_string(333), "0.333");
    assert_eq!(milli_decimal_string(1_005), "1.005");
}

#[test]
fn separate_components_have_separate_entries() {
    let mut store = MAVLinkVehiclesData::new();
    store.update(&header(1, 1), "HEARTBEAT".to_string(), heartbeat_json(), 0);
    store.update(&header(1, 2), "HEARTBEAT".to_string(), heartbeat_json(), 0);
    store.update(&header(4, 1), "HEARTBEAT".to_string(), heartbeat_json(), 0);
    assert_eq!(
        store.pointer("vehicles/1/components/1/messages/HEARTBEAT/status/time/counter"),
        "1"
    );
    assert_eq!(
        store.pointer("vehicles/1/components/2/messages/HEARTBEAT/status/time/counter"),
        "1"
    );
    assert_eq!(store.pointer("vehicles/4/id"), "4");
}

#[test]
fn update_with_the_real_clock_records_one_observation() {
    let mut store = MAVLinkVehiclesData::new();
    store.update_now(&header(1, 1), "HEARTBEAT".to_string(), heartbeat_json());
    assert_eq!(
        store.pointer("vehicles/1/components/1/messages/HEARTBEAT/status/time/counter"),
        "1"
    );
    // a fresh observation has a zero span, hence no frequency yet
    assert_eq!(
        store.pointer("vehicles/1/components/1/messages/HEARTBEAT/status/time/frequency"),
        "0.0"
    );
}
