use mavlink2rest::json::JsonValue;
use mavlink2rest::websocket_manager::WebsocketManager;

fn heartbeat_value(n: &str) -> JsonValue {
    JsonValue::Object(vec![("custom_mode".to_string(), JsonValue::Num(n.to_string()))])
}

#[test]
fn filtered_subscriber_receives_only_matching_names_in_order() {
    let mut manager = WebsocketManager::new();
    let heartbeat_only = manager.subscribe("^HEARTBEAT$".to_string());
    let everything = manager.subscribe(".*".to_string());

    let first = heartbeat_value("1");
    let second = heartbeat_value("2");
    let attitude = heartbeat_value("3");

    let out1 = manager.send(&first, "HEARTBEAT");
    let out2 = manager.send(&attitude, "ATTITUDE");
    let out3 = manager.send(&second, "HEARTBEAT");

    let texts_for = |outs: &[Vec<(u64, String)>], id: u64| -> Vec<String> {
        outs.iter()
            .flat_map(|o| o.iter().filter(|d| d.0 == id).map(|d| d.1.clone()))
            .collect()
    };
    let outs = [out1, out2, out3];

    // the filtered subscriber sees both heartbeats, in broadcast order
    assert_eq!(
        texts_for(&outs, heartbeat_only),
        vec![first.to_pretty_string(), second.to_pretty_string()]
    );
    // the catch-all subscriber sees everything
    assert_eq!(
        texts_for(&outs, everything),
        vec![
            first.to_pretty_string(),
            attitude.to_pretty_string(),
            second.to_pretty_string()
        ]
    );
}

#[test]
fn anchored_filter_does_not_match_supersets() {
    let mut manager = WebsocketManager::new();
    let id = manager.subscribe("^HEARTBEAT$".to_string());
    let value = heartbeat_value("1");
    assert!(manager.send(&value, "HEARTBEAT_X").iter().all(|d| d.0 != id));
    assert!(manager.send(&value, "HEARTBEAT").iter().any(|d| d.0 == id));
}

#[test]
fn invalid_filter_matches_nothing() {
    let mut manager = WebsocketManager::new();
    let broken = manager.subscribe("(".to_string());
    let value = heartbeat_value("1");
    let out = manager.send(&value, "HEARTBEAT");
    assert!(out.iter().all(|d| d.0 != broken));
}

#[test]
fn unsubscribed_clients_receive_nothing() {
    let mut manager = WebsocketManager::new();
    let id = manager.subscribe(".*".to_string());
    let keep = manager.subscribe(".*".to_string());
    manager.unsubscribe(id);
    let value = heartbeat_value("1");
    let out = manager.send(&value, "HEARTBEAT");
    assert_eq!(out.len(), 1);
    assert_eq!(out[0].0, keep);
}

#[test]
fn broadcast_order_matches_registration_order() {
    let mut manager = WebsocketManager::new();
    let a = manager.subscribe(".*".to_string());
    let b = manager.subscribe("HEART".to_string());
    let value = heartbeat_value("1");
    let out = manager.send(&value, "HEARTBEAT");
    assert_eq!(out.iter().map(|d| d.0).collect::<Vec<_>>(), vec![a, b]);
}

#[test]
fn missing_callback_error_is_canonical() {
    assert_eq!(
        WebsocketManager::on_text_error(),
        "{\"error\":\"MAVLink callback does not exist.\"}"
    );
}
