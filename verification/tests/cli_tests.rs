use mavlink2rest::cli::{
    default_api_version, init, is_verbose, mavlink_connection_string,
    mavlink_system_and_component_id, mavlink_version, server_address, CliError,
};

fn args(words: &[&str]) -> Vec<String> {
    words.iter().map(|w| w.to_string()).collect()
}

#[test]
fn default_arguments() {
    let settings = init(&args(&["mavlink2rest"])).unwrap();
    assert!(!is_verbose(&settings));
    assert_eq!(mavlink_connection_string(&settings), "udpin:0.0.0.0:14550");
    assert_eq!(server_address(&settings), "0.0.0.0:8088");
    assert_eq!(mavlink_version(&settings), 2);
    assert_eq!(default_api_version(&settings), 1);
}

#[test]
fn parses_every_option() {
    let settings = init(&args(&[
        "mavlink2rest",
        "--verbose",
        "--connect",
        "tcpout:10.0.0.1:5760",
        "--server",
        "127.0.0.1:9000",
        "--mavlink",
        "1",
        "--system-id",
        "42",
        "--component-id",
        "7",
        "--default-api-version",
        "1",
    ]))
    .unwrap();
    assert!(is_verbose(&settings));
    assert_eq!(mavlink_connection_string(&settings), "tcpout:10.0.0.1:5760");
    assert_eq!(server_address(&settings), "127.0.0.1:9000");
    assert_eq!(mavlink_version(&settings), 1);
    assert_eq!(mavlink_system_and_component_id(&settings), (42, 7));
}

#[test]
fn short_options() {
    let settings = init(&args(&["m", "-v", "-c", "serial:/dev/ttyUSB0:57600", "-s", "0.0.0.0:80"]))
        .unwrap();
    assert!(is_verbose(&settings));
    assert_eq!(mavlink_connection_string(&settings), "serial:/dev/ttyUSB0:57600");
    assert_eq!(server_address(&settings), "0.0.0.0:80");
}

#[test]
fn rejects_unknown_argument() {
    assert_eq!(init(&args(&["m", "--unknown"])).unwrap_err(), CliError::UnknownArgument);
}

#[test]
fn rejects_bad_mavlink_version() {
    assert_eq!(init(&args(&["m", "--mavlink", "3"])).unwrap_err(), CliError::InvalidValue);
}

#[test]
fn rejects_bad_system_id() {
    assert_eq!(init(&args(&["m", "--system-id", "300"])).unwrap_err(), CliError::InvalidValue);
    assert_eq!(init(&args(&["m", "--system-id", "abc"])).unwrap_err(), CliError::InvalidValue);
}

#[test]
fn rejects_missing_value() {
    assert_eq!(init(&args(&["m", "--connect"])).unwrap_err(), CliError::MissingValue);
}

#[test]
fn rejects_bad_api_version() {
    assert_eq!(
        init(&args(&["m", "--default-api-version", "2"])).unwrap_err(),
        CliError::InvalidValue
    );
}
