use mavlink2rest::controller::{Controller, ControllerEvent, OperationStatus};
use mavlink2rest::mavftp::{EntryType, MavlinkFtpOpcode, MavlinkFtpPayload};

fn ack(req: MavlinkFtpOpcode, seq: u16, offset: u32, burst_complete: u8, data: Vec<u8>) -> Vec<u8> {
    MavlinkFtpPayload {
        seq_number: seq,
        session: 0,
        opcode: MavlinkFtpOpcode::Ack,
        size: data.len(),
        req_opcode: req,
        burst_complete,
        padding: 0,
        offset,
        data,
    }
    .to_bytes()
}

fn nak(code: u8) -> Vec<u8> {
    MavlinkFtpPayload {
        seq_number: 1,
        session: 0,
        opcode: MavlinkFtpOpcode::Nak,
        size: 1,
        req_opcode: MavlinkFtpOpcode::NoOp,
        burst_complete: 0,
        padding: 0,
        offset: 0,
        data: vec![code],
    }
    .to_bytes()
}

#[test]
fn list_directory_collects_entries_and_goes_idle() {
    let mut controller = Controller::new();
    controller.list_directory(".".to_string());

    let request = controller.run().unwrap();
    assert_eq!(request.opcode, MavlinkFtpOpcode::ListDirectory);
    assert_eq!(request.offset, 0);
    assert_eq!(request.data, b".".to_vec());
    assert!(controller.run().is_none());

    let mut page = b"Ffoo\t10".to_vec();
    page.push(0);
    page.extend_from_slice(b"Dbar");
    let response = controller.parse_mavlink_message(&ack(
        MavlinkFtpOpcode::ListDirectory,
        1,
        0,
        0,
        page,
    ));
    let follow_up = response.reply.unwrap();
    assert_eq!(follow_up.opcode, MavlinkFtpOpcode::ListDirectory);
    assert_eq!(follow_up.offset, 2);

    let done = controller.parse_mavlink_message(&nak(6));
    assert!(matches!(done.event, Some(ControllerEvent::ListComplete)));
    assert!(done.reply.is_none());
    assert!(controller.status.is_none());

    assert_eq!(controller.entries.len(), 2);
    assert_eq!(controller.entries[0].entry_type, EntryType::File);
    assert_eq!(controller.entries[0].name, "./foo");
    assert_eq!(controller.entries[0].size, 10);
    assert_eq!(controller.entries[1].entry_type, EntryType::Directory);
    assert_eq!(controller.entries[1].name, "./bar");
    assert_eq!(controller.entries[1].size, 0);
}

#[test]
fn list_skips_entries_that_do_not_parse() {
    let mut controller = Controller::new();
    controller.list_directory("d".to_string());
    controller.run().unwrap();
    let mut page = b"Xbad".to_vec();
    page.push(0);
    page.extend_from_slice(b"Fok\t1");
    let response = controller.parse_mavlink_message(&ack(
        MavlinkFtpOpcode::ListDirectory,
        1,
        0,
        0,
        page,
    ));
    // both non-empty pieces count against the offset, only one parses
    assert_eq!(response.reply.unwrap().offset, 2);
    assert_eq!(controller.entries.len(), 1);
    assert_eq!(controller.entries[0].name, "d/ok");
}

#[test]
fn burst_read_writes_contiguous_chunks() {
    let mut controller = Controller::new();
    controller.read_file("plan.txt".to_string());

    let open_request = controller.run().unwrap();
    assert_eq!(open_request.opcode, MavlinkFtpOpcode::OpenFileRO);
    assert_eq!(open_request.data, b"plan.txt".to_vec());

    // the open acknowledgement announces a 16-byte file
    let opened = controller.parse_mavlink_message(&ack(
        MavlinkFtpOpcode::OpenFileRO,
        1,
        0,
        0,
        vec![16, 0, 0, 0],
    ));
    assert!(matches!(opened.event, Some(ControllerEvent::OpenFile { size: 16, .. })));
    assert!(matches!(
        controller.status,
        Some(OperationStatus::ReadingFile { offset: 0, file_size: 16, .. })
    ));

    let read_request = controller.run().unwrap();
    assert_eq!(read_request.opcode, MavlinkFtpOpcode::BurstReadFile);
    assert_eq!(read_request.offset, 0);
    assert_eq!(read_request.size, 239);

    // first chunk: eight bytes at offset zero, more to come
    let first = controller.parse_mavlink_message(&ack(
        MavlinkFtpOpcode::BurstReadFile,
        2,
        0,
        0,
        vec![1, 2, 3, 4, 5, 6, 7, 8],
    ));
    let write = first.write.unwrap();
    assert_eq!(write.offset, 0);
    assert_eq!(write.data, vec![1, 2, 3, 4, 5, 6, 7, 8]);
    assert!(first.reply.is_none());

    // second chunk completes the file exactly
    let second = controller.parse_mavlink_message(&ack(
        MavlinkFtpOpcode::BurstReadFile,
        3,
        8,
        1,
        vec![9, 10, 11, 12, 13, 14, 15, 16],
    ));
    let write = second.write.unwrap();
    assert_eq!(write.offset, 8);
    assert_eq!(write.data.len(), 8);
    assert!(matches!(second.event, Some(ControllerEvent::ReadComplete)));
    assert!(controller.status.is_none());
}

#[test]
fn burst_complete_mid_file_asks_for_more() {
    let mut controller = Controller::new();
    controller.read_file("f".to_string());
    controller.run().unwrap();
    controller.parse_mavlink_message(&ack(MavlinkFtpOpcode::OpenFileRO, 1, 0, 0, vec![32, 0, 0, 0]));
    controller.run().unwrap();
    let response = controller.parse_mavlink_message(&ack(
        MavlinkFtpOpcode::BurstReadFile,
        5,
        0,
        1,
        vec![0; 8],
    ));
    let follow_up = response.reply.unwrap();
    assert_eq!(follow_up.opcode, MavlinkFtpOpcode::BurstReadFile);
    assert_eq!(follow_up.seq_number, 6);
    assert_eq!(follow_up.offset, 8);
    assert!(controller.waiting);
}

#[test]
fn wrong_open_size_is_a_protocol_error() {
    let mut controller = Controller::new();
    controller.read_file("f".to_string());
    controller.run().unwrap();
    let response =
        controller.parse_mavlink_message(&ack(MavlinkFtpOpcode::OpenFileRO, 1, 0, 0, vec![1, 2]));
    assert!(matches!(response.event, Some(ControllerEvent::ProtocolError { .. })));
    assert!(controller.status.is_none());
}

#[test]
fn crc_reply_reports_the_checksum() {
    let mut controller = Controller::new();
    controller.crc("f".to_string());
    let request = controller.run().unwrap();
    assert_eq!(request.opcode, MavlinkFtpOpcode::CalcFileCRC32);
    let response = controller.parse_mavlink_message(&ack(
        MavlinkFtpOpcode::CalcFileCRC32,
        1,
        0,
        0,
        vec![0x78, 0x56, 0x34, 0x12],
    ));
    assert!(matches!(response.event, Some(ControllerEvent::Crc32 { value: 0x1234_5678 })));
    assert!(controller.status.is_none());
}

#[test]
fn reset_completes_on_matching_ack() {
    let mut controller = Controller::new();
    controller.reset();
    let request = controller.run().unwrap();
    assert_eq!(request.opcode, MavlinkFtpOpcode::ResetSessions);
    let response = controller.parse_mavlink_message(&ack(
        MavlinkFtpOpcode::ResetSessions,
        1,
        0,
        0,
        vec![],
    ));
    assert!(matches!(response.event, Some(ControllerEvent::ResetComplete)));
    assert!(controller.status.is_none());
}

#[test]
fn waiting_gate_blocks_until_a_frame_arrives() {
    let mut controller = Controller::new();
    controller.list_directory("p".to_string());
    assert!(controller.run().is_some());
    assert!(controller.run().is_none());
    controller.parse_mavlink_message(&nak(6));
    assert!(!controller.waiting);
}

#[test]
fn remote_error_aborts_the_operation() {
    let mut controller = Controller::new();
    controller.crc("f".to_string());
    controller.run().unwrap();
    let response = controller.parse_mavlink_message(&nak(10));
    assert!(matches!(response.event, Some(ControllerEvent::RemoteError { .. })));
    assert!(controller.status.is_none());
}

#[test]
fn undecodable_frame_is_dropped() {
    let mut controller = Controller::new();
    controller.list_directory("p".to_string());
    controller.run().unwrap();
    let response = controller.parse_mavlink_message(&[1, 2, 3]);
    assert!(matches!(response.event, Some(ControllerEvent::ProtocolError { .. })));
    // the pending operation survives a dropped frame
    assert!(matches!(controller.status, Some(OperationStatus::ScanningFolder { .. })));
}
