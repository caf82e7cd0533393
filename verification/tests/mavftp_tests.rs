use mavlink2rest::mavftp::{
    parse_directory_entry, EntryType, MavlinkFtpNak, MavlinkFtpOpcode, MavlinkFtpPayload,
    PayloadDecodeError,
};

#[test]
fn encode_list_directory_request() {
    let payload = MavlinkFtpPayload::newListDirectory(0x1234, 7, 0x0000_0010, ".");
    assert_eq!(payload.seq_number, 0x1234);
    assert_eq!(payload.opcode, MavlinkFtpOpcode::ListDirectory);
    assert_eq!(payload.size, 1);
    assert_eq!(payload.req_opcode, MavlinkFtpOpcode::NoOp);
    let bytes = payload.to_bytes();
    assert_eq!(
        bytes,
        vec![0x34, 0x12, 0x07, 0x03, 0x01, 0x00, 0x00, 0x00, 0x10, 0x00, 0x00, 0x00, 0x2e]
    );
    assert_eq!(bytes.len(), 13);
}

#[test]
fn round_trip_of_valid_payloads() {
    let samples = vec![
        MavlinkFtpPayload::newResetSesions(1, 0),
        MavlinkFtpPayload::newTerminateSession(2, 3),
        MavlinkFtpPayload::newListDirectory(0xffff, 255, 0xffff_ffff, "a/b/c"),
        MavlinkFtpPayload::newOpenFile(9, 1, "some/file.txt"),
        MavlinkFtpPayload::newReadFile(10, 1, 4096, 0),
        MavlinkFtpPayload::newCalcFileCRC32(11, 2, "x"),
    ];
    for payload in samples {
        let bytes = payload.to_bytes();
        assert_eq!(bytes.len(), 12 + payload.data.len());
        let decoded = MavlinkFtpPayload::from_bytes(&bytes).unwrap();
        assert_eq!(decoded, payload);
    }
}

#[test]
fn decode_rejects_short_frames() {
    assert_eq!(
        MavlinkFtpPayload::from_bytes(&[0u8; 11]).unwrap_err(),
        PayloadDecodeError::InvalidFrame
    );
    assert_eq!(
        MavlinkFtpPayload::from_bytes(&[]).unwrap_err(),
        PayloadDecodeError::InvalidFrame
    );
}

#[test]
fn decode_rejects_unknown_opcodes() {
    let mut bytes = vec![0u8; 12];
    bytes[3] = 200;
    assert_eq!(
        MavlinkFtpPayload::from_bytes(&bytes).unwrap_err(),
        PayloadDecodeError::InvalidOpcode
    );
    let mut bytes = vec![0u8; 12];
    bytes[5] = 17;
    assert_eq!(
        MavlinkFtpPayload::from_bytes(&bytes).unwrap_err(),
        PayloadDecodeError::InvalidOpcode
    );
}

#[test]
fn decode_rejects_truncated_data() {
    let mut bytes = vec![0u8; 13];
    bytes[4] = 5;
    assert_eq!(
        MavlinkFtpPayload::from_bytes(&bytes).unwrap_err(),
        PayloadDecodeError::TruncatedData
    );
}

#[test]
fn decode_reads_fields_little_endian() {
    let bytes = vec![
        0x34, 0x12, 0x07, 0x80, 0x02, 0x03, 0x01, 0x00, 0x78, 0x56, 0x34, 0x12, 0xaa, 0xbb,
    ];
    let payload = MavlinkFtpPayload::from_bytes(&bytes).unwrap();
    assert_eq!(payload.seq_number, 0x1234);
    assert_eq!(payload.session, 7);
    assert_eq!(payload.opcode, MavlinkFtpOpcode::Ack);
    assert_eq!(payload.size, 2);
    assert_eq!(payload.req_opcode, MavlinkFtpOpcode::ListDirectory);
    assert_eq!(payload.burst_complete, 1);
    assert_eq!(payload.offset, 0x1234_5678);
    assert_eq!(payload.data, vec![0xaa, 0xbb]);
}

#[test]
fn opcode_values_round_trip() {
    let all = [
        MavlinkFtpOpcode::NoOp,
        MavlinkFtpOpcode::TerminateSession,
        MavlinkFtpOpcode::ResetSessions,
        MavlinkFtpOpcode::ListDirectory,
        MavlinkFtpOpcode::OpenFileRO,
        MavlinkFtpOpcode::ReadFile,
        MavlinkFtpOpcode::CreateFile,
        MavlinkFtpOpcode::WriteFile,
        MavlinkFtpOpcode::RemoveFile,
        MavlinkFtpOpcode::CreateDirectory,
        MavlinkFtpOpcode::RemoveDirectory,
        MavlinkFtpOpcode::OpenFileWO,
        MavlinkFtpOpcode::TruncateFile,
        MavlinkFtpOpcode::Rename,
        MavlinkFtpOpcode::CalcFileCRC32,
        MavlinkFtpOpcode::BurstReadFile,
        MavlinkFtpOpcode::Ack,
        MavlinkFtpOpcode::Nak,
    ];
    for op in all {
        assert_eq!(MavlinkFtpOpcode::from_u8(op.to_u8()), Some(op));
    }
    assert_eq!(MavlinkFtpOpcode::from_u8(16), None);
    assert_eq!(MavlinkFtpOpcode::from_u8(130), None);
}

#[test]
fn nak_values() {
    assert_eq!(MavlinkFtpNak::from_u8(6), Some(MavlinkFtpNak::EOF));
    assert_eq!(MavlinkFtpNak::from_u8(10), Some(MavlinkFtpNak::FileNotFound));
    assert_eq!(MavlinkFtpNak::from_u8(11), None);
}

#[test]
fn parses_file_entry() {
    let entry = parse_directory_entry("Ffoo\t10").unwrap();
    assert_eq!(entry.entry_type, EntryType::File);
    assert_eq!(entry.name, "foo");
    assert_eq!(entry.size, 10);
}

#[test]
fn parses_directory_entry_without_size() {
    let entry = parse_directory_entry("Dbar").unwrap();
    assert_eq!(entry.entry_type, EntryType::Directory);
    assert_eq!(entry.name, "bar");
    assert_eq!(entry.size, 0);
}

#[test]
fn parses_skip_entry() {
    let entry = parse_directory_entry("S").unwrap();
    assert_eq!(entry.entry_type, EntryType::Skip);
    assert_eq!(entry.name, "");
    assert_eq!(entry.size, 0);
}

#[test]
fn rejects_bad_entry_type() {
    assert_eq!(parse_directory_entry("").unwrap_err(), "Invalid entry type");
    assert_eq!(parse_directory_entry("Xfoo").unwrap_err(), "Invalid entry type");
}

#[test]
fn rejects_bad_entry_size() {
    assert_eq!(parse_directory_entry("Ffoo\tabc").unwrap_err(), "Invalid entry size");
    assert_eq!(parse_directory_entry("Ffoo\t").unwrap_err(), "Invalid entry size");
}

#[test]
fn entry_ignores_extra_fields() {
    let entry = parse_directory_entry("Ffoo\t10\tjunk").unwrap();
    assert_eq!(entry.entry_type, EntryType::File);
    assert_eq!(entry.size, 10);
}
