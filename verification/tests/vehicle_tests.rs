use mavlink2rest::mavlink_vehicle::{
    connection_string_supported, heartbeat_message, MavAutopilot, MavState, MavType,
    MavlinkVersion, MAVLinkVehicle,
};

#[test]
fn heartbeat_fields_are_fixed() {
    let heartbeat = heartbeat_message();
    assert_eq!(heartbeat.custom_mode, 0);
    assert_eq!(heartbeat.mavtype, MavType::OnboardController);
    assert_eq!(heartbeat.autopilot, MavAutopilot::Invalid);
    assert_eq!(heartbeat.base_mode, 0);
    assert_eq!(heartbeat.system_status, MavState::Standby);
    assert_eq!(heartbeat.mavlink_version, 3);
}

#[test]
fn heartbeat_sequence_has_no_gaps_and_wraps() {
    let mut vehicle = MAVLinkVehicle::new("udpin:0.0.0.0:14550", MavlinkVersion::V2, 255, 0);
    let mut sequences = Vec::new();
    for _ in 0..300 {
        let (header, _message) = vehicle.next_heartbeat();
        assert_eq!(header.system_id, 255);
        assert_eq!(header.component_id, 0);
        sequences.push(header.sequence);
    }
    for (k, seq) in sequences.iter().enumerate() {
        assert_eq!(*seq as usize, k % 256);
    }
}

#[test]
fn new_handle_starts_at_sequence_zero() {
    let vehicle = MAVLinkVehicle::new("tcpout:1.2.3.4:5760", MavlinkVersion::V1, 1, 2);
    assert_eq!(vehicle.header.sequence, 0);
    assert_eq!(vehicle.header.system_id, 1);
    assert_eq!(vehicle.header.component_id, 2);
    assert_eq!(vehicle.connection_string, "tcpout:1.2.3.4:5760");
    assert_eq!(vehicle.version, MavlinkVersion::V1);
}

#[test]
fn connection_strings() {
    assert!(connection_string_supported("udpin:0.0.0.0:14550"));
    assert!(connection_string_supported("udpout:10.0.0.1:14550"));
    assert!(connection_string_supported("tcpin:0.0.0.0:5760"));
    assert!(connection_string_supported("tcpout:0.0.0.0:5760"));
    assert!(connection_string_supported("serial:/dev/ttyACM0:115200"));
    assert!(!connection_string_supported("http://localhost"));
    assert!(!connection_string_supported("udp:0.0.0.0:1"));
    assert!(!connection_string_supported(""));
}
