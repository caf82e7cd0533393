//! The MAVLink-FTP client: an operation-at-a-time controller.  `run` emits
//! the request of the pending operation, gated by a single-slot `waiting`
//! flag; `parse_mavlink_message` advances the state with each inbound FTP
//! frame.  The whole transition relation is stated as a specification
//! function, and both entry points are proved against it.
//!
//! The controller itself never touches the file system or the link: it
//! returns the payload to send, the chunk to write and the event to report,
//! and the caller performs them.

use vstd::prelude::*;

use crate::mavftp::{
    chunk_contrib, chunk_entry, entries_of, le32_value, nonempty_count, payload_decoded,
    split_chunks, utf8_lossy, EntryInfo, EntryInfoModel, FtpPayloadModel, MavlinkFtpNak,
    MavlinkFtpOpcode, MavlinkFtpPayload, PayloadDecodeError,
};
use vstd::string::StringExecFns;

verus! {

/// The operation the controller is driving, with its progress.
#[derive(Debug, Clone)]
pub enum OperationStatus {
    /// Listing a directory page by page.
    ScanningFolder { path: String, offset: u32 },
    /// Waiting for the open reply that announces the file size.
    OpeningFile { path: String },
    /// Receiving burst-read chunks of an open file.
    ReadingFile { path: String, offset: u32, file_size: u32 },
    /// Waiting for the reset acknowledgement.
    Reset,
    /// Waiting for the remote checksum.
    CalcFileCRC32 { path: String },
}

/// The mathematical content of an operation status.
#[verifier::ext_equal]
pub enum StatusModel {
    ScanningFolder { path: Seq<char>, offset: u32 },
    OpeningFile { path: Seq<char> },
    ReadingFile { path: Seq<char>, offset: u32, file_size: u32 },
    Reset,
    CalcFileCRC32 { path: Seq<char> },
}

impl View for OperationStatus {
    type V = StatusModel;

    open spec fn view(&self) -> StatusModel {
        match self {
            OperationStatus::ScanningFolder { path, offset } => StatusModel::ScanningFolder {
                path: path@,
                offset: *offset,
            },
            OperationStatus::OpeningFile { path } => StatusModel::OpeningFile { path: path@ },
            OperationStatus::ReadingFile { path, offset, file_size } => StatusModel::ReadingFile {
                path: path@,
                offset: *offset,
                file_size: *file_size,
            },
            OperationStatus::Reset => StatusModel::Reset,
            OperationStatus::CalcFileCRC32 { path } => StatusModel::CalcFileCRC32 { path: path@ },
        }
    }
}

/// A mishap of the FTP sub-protocol itself.
#[derive(Debug, Copy, Clone, PartialEq, Eq, Structural)]
pub enum FtpProtocolError {
    /// The frame did not decode as an FTP payload.
    BadPayload(PayloadDecodeError),
    /// An acknowledgement whose data has the wrong length for its request.
    WrongAckSize,
    /// A NAK that carries no error code.
    MissingNakCode,
    /// A NAK whose error code is not in the enumeration.
    UnknownNakCode,
}

/// A chunk of file content to be written at a given offset.
#[derive(Debug, Clone, PartialEq)]
pub struct WriteChunk {
    pub offset: u32,
    pub data: Vec<u8>,
}

/// The mathematical content of a write chunk.
#[verifier::ext_equal]
pub struct WriteModel {
    pub offset: u32,
    pub data: Seq<u8>,
}

impl View for WriteChunk {
    type V = WriteModel;

    open spec fn view(&self) -> WriteModel {
        WriteModel { offset: self.offset, data: self.data@ }
    }
}

/// What the caller has to act on after an inbound frame.
#[derive(Debug, Clone)]
pub enum ControllerEvent {
    /// The remote opened the file and announced its size: create the
    /// destination for writing.
    OpenFile { path: String, size: u32 },
    /// The remote checksum arrived.
    Crc32 { value: u32 },
    /// The directory listing is complete; the entries are available.
    ListComplete,
    /// The whole file has been received.
    ReadComplete,
    /// The reset acknowledgement arrived.
    ResetComplete,
    /// The remote rejected the operation.
    RemoteError { nak: MavlinkFtpNak },
    /// The frame or a field size broke the sub-protocol.
    ProtocolError { error: FtpProtocolError },
}

/// The mathematical content of a controller event.
#[verifier::ext_equal]
pub enum EventModel {
    OpenFile { path: Seq<char>, size: u32 },
    Crc32 { value: u32 },
    ListComplete,
    ReadComplete,
    ResetComplete,
    RemoteError { nak: MavlinkFtpNak },
    ProtocolError { error: FtpProtocolError },
}

impl View for ControllerEvent {
    type V = EventModel;

    open spec fn view(&self) -> EventModel {
        match self {
            ControllerEvent::OpenFile { path, size } => EventModel::OpenFile {
                path: path@,
                size: *size,
            },
            ControllerEvent::Crc32 { value } => EventModel::Crc32 { value: *value },
            ControllerEvent::ListComplete => EventModel::ListComplete,
            ControllerEvent::ReadComplete => EventModel::ReadComplete,
            ControllerEvent::ResetComplete => EventModel::ResetComplete,
            ControllerEvent::RemoteError { nak } => EventModel::RemoteError { nak: *nak },
            ControllerEvent::ProtocolError { error } => EventModel::ProtocolError {
                error: *error,
            },
        }
    }
}

/// Everything an inbound frame produced: at most one payload to send back,
/// one chunk to write, and one event to report.
#[derive(Debug)]
pub struct ControllerResponse {
    pub reply: Option<MavlinkFtpPayload>,
    pub write: Option<WriteChunk>,
    pub event: Option<ControllerEvent>,
}

/// The mathematical content of a response.
#[verifier::ext_equal]
pub struct ResponseModel {
    pub reply: Option<FtpPayloadModel>,
    pub write: Option<WriteModel>,
    pub event: Option<EventModel>,
}

impl View for ControllerResponse {
    type V = ResponseModel;

    open spec fn view(&self) -> ResponseModel {
        ResponseModel {
            reply: match &self.reply {
                Some(p) => Some(p@),
                None => None,
            },
            write: match &self.write {
                Some(w) => Some(w@),
                None => None,
            },
            event: match &self.event {
                Some(e) => Some(e@),
                None => None,
            },
        }
    }
}

/// The FTP client controller.
#[derive(Debug)]
pub struct Controller {
    pub session: u8,
    pub entries: Vec<EntryInfo>,
    pub status: Option<OperationStatus>,
    pub waiting: bool,
}

/// The mathematical content of the controller.
#[verifier::ext_equal]
pub struct ControllerModel {
    pub session: u8,
    pub entries: Seq<EntryInfoModel>,
    pub status: Option<StatusModel>,
    pub waiting: bool,
}

impl View for Controller {
    type V = ControllerModel;

    open spec fn view(&self) -> ControllerModel {
        ControllerModel {
            session: self.session,
            entries: self.entries@.map_values(|e: EntryInfo| e@),
            status: match &self.status {
                Some(s) => Some(s@),
                None => None,
            },
            waiting: self.waiting,
        }
    }
}

/// The path of the pending operation fits in one payload; requests can
/// always be emitted.
pub open spec fn status_wf(s: StatusModel) -> bool {
    match s {
        StatusModel::ScanningFolder { path, .. } => vstd::utf8::encode_utf8(path).len() <= 239,
        StatusModel::OpeningFile { path } => vstd::utf8::encode_utf8(path).len() <= 239,
        StatusModel::CalcFileCRC32 { path } => vstd::utf8::encode_utf8(path).len() <= 239,
        StatusModel::ReadingFile { .. } => true,
        StatusModel::Reset => true,
    }
}

impl Controller {
    /// The controller is well formed when the pending operation, if any,
    /// can be turned into a request.
    pub open spec fn wf(&self) -> bool {
        match self@.status {
            Some(s) => status_wf(s),
            None => true,
        }
    }

    /// A fresh controller: anonymous session, no entries, no operation.
    pub fn new() -> (r: Self)
        ensures
            r@.session == 0,
            r@.entries == Seq::<EntryInfoModel>::empty(),
            r@.status is None,
            r@.waiting == false,
            r.wf(),
    {
        let r = Self { session: 0, entries: Vec::new(), status: None, waiting: false };
        proof {
            assert(r@.entries =~= Seq::<EntryInfoModel>::empty());
        }
        r
    }

    /// Starts a directory listing at offset zero.
    pub fn list_directory(&mut self, path: String)
        requires
            vstd::utf8::encode_utf8(path@).len() <= 239,
        ensures
            final(self)@ == (ControllerModel {
                status: Some(StatusModel::ScanningFolder { path: path@, offset: 0 }),
                ..old(self)@
            }),
            final(self).wf(),
    {
        self.status = Some(OperationStatus::ScanningFolder { path, offset: 0 });
    }

    /// Starts reading a file: the file is opened first.
    pub fn read_file(&mut self, path: String)
        requires
            vstd::utf8::encode_utf8(path@).len() <= 239,
        ensures
            final(self)@ == (ControllerModel {
                status: Some(StatusModel::OpeningFile { path: path@ }),
                ..old(self)@
            }),
            final(self).wf(),
    {
        self.status = Some(OperationStatus::OpeningFile { path });
    }

    /// Starts a session reset.
    pub fn reset(&mut self)
        ensures
            final(self)@ == (ControllerModel { status: Some(StatusModel::Reset), ..old(self)@ }),
            final(self).wf(),
    {
        self.status = Some(OperationStatus::Reset);
    }

    /// Starts a remote checksum computation.
    pub fn crc(&mut self, path: String)
        requires
            vstd::utf8::encode_utf8(path@).len() <= 239,
        ensures
            final(self)@ == (ControllerModel {
                status: Some(StatusModel::CalcFileCRC32 { path: path@ }),
                ..old(self)@
            }),
            final(self).wf(),
    {
        self.status = Some(OperationStatus::CalcFileCRC32 { path });
    }
}

/// The request that `run` emits for a controller state, if any: nothing
/// while a reply is awaited or no operation is pending, else the request of
/// the pending operation, with sequence number 1.
pub open spec fn run_reply(c: ControllerModel) -> Option<FtpPayloadModel> {
    if c.waiting {
        None
    } else {
        match c.status {
            None => None,
            Some(StatusModel::Reset) => Some(reset_request(c.session)),
            Some(StatusModel::ScanningFolder { path, offset }) => Some(
                list_request(c.session, offset, path),
            ),
            Some(StatusModel::OpeningFile { path }) => Some(open_request(c.session, path)),
            Some(StatusModel::CalcFileCRC32 { path }) => Some(crc_request(c.session, path)),
            Some(StatusModel::ReadingFile { offset, .. }) => Some(
                burst_request(1, c.session, offset),
            ),
        }
    }
}

/// A ResetSessions request.
pub open spec fn reset_request(session: u8) -> FtpPayloadModel {
    FtpPayloadModel {
        seq_number: 1,
        session,
        opcode: MavlinkFtpOpcode::ResetSessions,
        size: 0,
        req_opcode: MavlinkFtpOpcode::NoOp,
        burst_complete: 0,
        padding: 0,
        offset: 0,
        data: Seq::<u8>::empty(),
    }
}

/// A ListDirectory request for the page starting at `offset`.
pub open spec fn list_request(session: u8, offset: u32, path: Seq<char>) -> FtpPayloadModel {
    FtpPayloadModel {
        seq_number: 1,
        session,
        opcode: MavlinkFtpOpcode::ListDirectory,
        size: vstd::utf8::encode_utf8(path).len(),
        req_opcode: MavlinkFtpOpcode::NoOp,
        burst_complete: 0,
        padding: 0,
        offset,
        data: vstd::utf8::encode_utf8(path),
    }
}

/// An OpenFileRO request.
pub open spec fn open_request(session: u8, path: Seq<char>) -> FtpPayloadModel {
    FtpPayloadModel {
        seq_number: 1,
        session,
        opcode: MavlinkFtpOpcode::OpenFileRO,
        size: vstd::utf8::encode_utf8(path).len(),
        req_opcode: MavlinkFtpOpcode::NoOp,
        burst_complete: 0,
        padding: 0,
        offset: 0,
        data: vstd::utf8::encode_utf8(path),
    }
}

/// A CalcFileCRC32 request.
pub open spec fn crc_request(session: u8, path: Seq<char>) -> FtpPayloadModel {
    FtpPayloadModel {
        seq_number: 1,
        session,
        opcode: MavlinkFtpOpcode::CalcFileCRC32,
        size: vstd::utf8::encode_utf8(path).len(),
        req_opcode: MavlinkFtpOpcode::NoOp,
        burst_complete: 0,
        padding: 0,
        offset: 0,
        data: vstd::utf8::encode_utf8(path),
    }
}

/// A BurstReadFile request for the bytes starting at `offset`, asking for
/// the 239-byte maximum chunk.
pub open spec fn burst_request(seq: u16, session: u8, offset: u32) -> FtpPayloadModel {
    FtpPayloadModel {
        seq_number: seq,
        session,
        opcode: MavlinkFtpOpcode::BurstReadFile,
        size: 239,
        req_opcode: MavlinkFtpOpcode::NoOp,
        burst_complete: 0,
        padding: 0,
        offset,
        data: Seq::<u8>::empty(),
    }
}

/// Addition on `u32` that stops at the maximum.
pub open spec fn sat_add_u32(a: u32, b: nat) -> u32 {
    if a + b > u32::MAX {
        u32::MAX
    } else {
        (a + b) as u32
    }
}

/// The successor of a sequence number, wrapping at 16 bits.
pub open spec fn wrap_inc_u16(s: u16) -> u16 {
    if s == 0xffff {
        0
    } else {
        (s + 1) as u16
    }
}

impl Controller {
    /// Emits the request of the pending operation, unless a reply is still
    /// awaited; sets the `waiting` gate when it emits.
    pub fn run(&mut self) -> (r: Option<MavlinkFtpPayload>)
        requires
            old(self).wf(),
        ensures
            final(self).wf(),
            match run_reply(old(self)@) {
                Some(p) => r is Some && r->0@ == p,
                None => r is None,
            },
            final(self)@ == (ControllerModel {
                waiting: old(self)@.waiting || run_reply(old(self)@) is Some,
                ..old(self)@
            }),
    {
        if self.waiting {
            proof {
                assert(self@ =~= (ControllerModel { waiting: true, ..self@ }));
            }
            return None;
        }
        let reply: Option<MavlinkFtpPayload> = match &self.status {
            None => None,
            Some(OperationStatus::Reset) => {
                let p = MavlinkFtpPayload::newResetSesions(1, self.session);
                proof {
                    assert(p@ =~= reset_request(self@.session));
                }
                Some(p)
            },
            Some(OperationStatus::ScanningFolder { path, offset }) => {
                let p = MavlinkFtpPayload::newListDirectory(1, self.session, *offset, path.as_str());
                proof {
                    assert(p@ =~= list_request(self@.session, *offset, path@));
                }
                Some(p)
            },
            Some(OperationStatus::OpeningFile { path }) => {
                let p = MavlinkFtpPayload::newOpenFile(1, self.session, path.as_str());
                proof {
                    assert(p@ =~= open_request(self@.session, path@));
                }
                Some(p)
            },
            Some(OperationStatus::CalcFileCRC32 { path }) => {
                let p = MavlinkFtpPayload::newCalcFileCRC32(1, self.session, path.as_str());
                proof {
                    assert(p@ =~= crc_request(self@.session, path@));
                }
                Some(p)
            },
            Some(OperationStatus::ReadingFile { offset, .. }) => {
                let p = MavlinkFtpPayload::newReadFile(1, self.session, *offset, 239);
                proof {
                    assert(p@ =~= burst_request(1, self@.session, *offset));
                }
                Some(p)
            },
        };
        if reply.is_some() {
            self.waiting = true;
        }
        proof {
            assert(self@ =~= (ControllerModel {
                waiting: old(self)@.waiting || run_reply(old(self)@) is Some,
                ..old(self)@
            }));
        }
        reply
    }
}

/// What one inbound frame does to a controller: the next state and the
/// response.  The `waiting` gate is cleared by every frame and re-set
/// exactly when a follow-up request is emitted or further burst chunks are
/// awaited.
pub open spec fn controller_step(c0: ControllerModel, bytes: Seq<u8>) -> (ControllerModel,
    ResponseModel) {
    let c = ControllerModel { waiting: false, ..c0 };
    let quiet = ResponseModel { reply: None, write: None, event: None };
    match payload_decoded(bytes) {
        Err(e) => (
            c,
            ResponseModel {
                event: Some(
                    EventModel::ProtocolError { error: FtpProtocolError::BadPayload(e) },
                ),
                ..quiet
            },
        ),
        Ok(p) => {
            if p.opcode == MavlinkFtpOpcode::Ack {
                match c.status {
                    None => (c, quiet),
                    Some(StatusModel::Reset) => {
                        if p.req_opcode == MavlinkFtpOpcode::ResetSessions {
                            (
                                ControllerModel { status: None, ..c },
                                ResponseModel { event: Some(EventModel::ResetComplete), ..quiet },
                            )
                        } else {
                            (c, quiet)
                        }
                    },
                    Some(StatusModel::ScanningFolder { path, offset }) => {
                        let chunks = split_chunks(p.data);
                        let new_offset = sat_add_u32(offset, nonempty_count(chunks));
                        (
                            ControllerModel {
                                status: Some(
                                    StatusModel::ScanningFolder { path, offset: new_offset },
                                ),
                                entries: c.entries + entries_of(chunks, path),
                                waiting: true,
                                ..c
                            },
                            ResponseModel {
                                reply: Some(list_request(c.session, new_offset, path)),
                                ..quiet
                            },
                        )
                    },
                    Some(StatusModel::OpeningFile { path }) => {
                        if p.size == 4 {
                            let file_size = le32_value(p.data);
                            (
                                ControllerModel {
                                    status: Some(
                                        StatusModel::ReadingFile { path, offset: 0, file_size },
                                    ),
                                    ..c
                                },
                                ResponseModel {
                                    event: Some(EventModel::OpenFile { path, size: file_size }),
                                    ..quiet
                                },
                            )
                        } else {
                            (
                                ControllerModel { status: None, ..c },
                                ResponseModel {
                                    event: Some(
                                        EventModel::ProtocolError {
                                            error: FtpProtocolError::WrongAckSize,
                                        },
                                    ),
                                    ..quiet
                                },
                            )
                        }
                    },
                    Some(StatusModel::CalcFileCRC32 { path }) => {
                        if p.req_opcode == MavlinkFtpOpcode::CalcFileCRC32 {
                            if p.size >= 4 {
                                (
                                    ControllerModel { status: None, ..c },
                                    ResponseModel {
                                        event: Some(
                                            EventModel::Crc32 { value: le32_value(p.data) },
                                        ),
                                        ..quiet
                                    },
                                )
                            } else {
                                (
                                    ControllerModel { status: None, ..c },
                                    ResponseModel {
                                        event: Some(
                                            EventModel::ProtocolError {
                                                error: FtpProtocolError::WrongAckSize,
                                            },
                                        ),
                                        ..quiet
                                    },
                                )
                            }
                        } else {
                            (c, quiet)
                        }
                    },
                    Some(StatusModel::ReadingFile { path, offset, file_size }) => {
                        let new_offset = sat_add_u32(p.offset, p.size);
                        let write = Some(WriteModel { offset: p.offset, data: p.data });
                        if new_offset >= file_size {
                            (
                                ControllerModel { status: None, ..c },
                                ResponseModel {
                                    write,
                                    event: Some(EventModel::ReadComplete),
                                    ..quiet
                                },
                            )
                        } else if p.burst_complete == 1 {
                            (
                                ControllerModel {
                                    status: Some(
                                        StatusModel::ReadingFile {
                                            path,
                                            offset: new_offset,
                                            file_size,
                                        },
                                    ),
                                    waiting: true,
                                    ..c
                                },
                                ResponseModel {
                                    reply: Some(
                                        burst_request(
                                            wrap_inc_u16(p.seq_number),
                                            c.session,
                                            new_offset,
                                        ),
                                    ),
                                    write,
                                    ..quiet
                                },
                            )
                        } else {
                            (
                                ControllerModel {
                                    status: Some(
                                        StatusModel::ReadingFile {
                                            path,
                                            offset: new_offset,
                                            file_size,
                                        },
                                    ),
                                    waiting: true,
                                    ..c
                                },
                                ResponseModel { write, ..quiet },
                            )
                        }
                    },
                }
            } else if p.opcode == MavlinkFtpOpcode::Nak {
                if p.size < 1 {
                    (
                        ControllerModel { status: None, ..c },
                        ResponseModel {
                            event: Some(
                                EventModel::ProtocolError {
                                    error: FtpProtocolError::MissingNakCode,
                                },
                            ),
                            ..quiet
                        },
                    )
                } else {
                    match crate::mavftp::nak_of_value(p.data[0]) {
                        None => (
                            ControllerModel { status: None, ..c },
                            ResponseModel {
                                event: Some(
                                    EventModel::ProtocolError {
                                        error: FtpProtocolError::UnknownNakCode,
                                    },
                                ),
                                ..quiet
                            },
                        ),
                        Some(code) => {
                            if code == MavlinkFtpNak::EOF && c.status matches Some(
                                StatusModel::ScanningFolder { .. },
                            ) {
                                (
                                    ControllerModel { status: None, ..c },
                                    ResponseModel {
                                        event: Some(EventModel::ListComplete),
                                        ..quiet
                                    },
                                )
                            } else if code == MavlinkFtpNak::EOF && c.status matches Some(
                                StatusModel::ReadingFile { .. },
                            ) {
                                (
                                    ControllerModel { status: None, ..c },
                                    ResponseModel {
                                        event: Some(EventModel::ReadComplete),
                                        ..quiet
                                    },
                                )
                            } else {
                                (
                                    ControllerModel { status: None, ..c },
                                    ResponseModel {
                                        event: Some(EventModel::RemoteError { nak: code }),
                                        ..quiet
                                    },
                                )
                            }
                        },
                    }
                }
            } else {
                (c, quiet)
            }
        },
    }
}

/// A burst of read replies as a well-behaved peer sends them: each frame is
/// an acknowledgement whose chunk starts exactly at the reader's current
/// offset and stays within the announced file size, and no frames follow
/// once the file is complete.
pub open spec fn burst_frames_ok(c: ControllerModel, frames: Seq<Seq<u8>>) -> bool
    decreases frames.len(),
{
    frames.len() == 0 || (c.status matches Some(
        StatusModel::ReadingFile { path, offset, file_size },
    ) && {
        let d = payload_decoded(frames[0]);
        &&& d is Ok
        &&& d->Ok_0.opcode == MavlinkFtpOpcode::Ack
        &&& d->Ok_0.offset == offset
        &&& offset + d->Ok_0.size <= file_size
        &&& burst_frames_ok(controller_step(c, frames[0]).0, frames.drop_first())
    })
}

/// The chunks a run of frames has the controller write, in order.
pub open spec fn burst_writes(c: ControllerModel, frames: Seq<Seq<u8>>) -> Seq<WriteModel>
    decreases frames.len(),
{
    if frames.len() == 0 {
        Seq::empty()
    } else {
        let s = controller_step(c, frames[0]);
        (match s.1.write {
            Some(w) => seq![w],
            None => Seq::<WriteModel>::empty(),
        }) + burst_writes(s.0, frames.drop_first())
    }
}

/// The controller state after a run of frames.
pub open spec fn burst_final(c: ControllerModel, frames: Seq<Seq<u8>>) -> ControllerModel
    decreases frames.len(),
{
    if frames.len() == 0 {
        c
    } else {
        burst_final(controller_step(c, frames[0]).0, frames.drop_first())
    }
}

/// How many bytes a list of chunks holds in all.
pub open spec fn total_write_len(ws: Seq<WriteModel>) -> nat
    decreases ws.len(),
{
    if ws.len() == 0 {
        0
    } else {
        ws[0].data.len() + total_write_len(ws.drop_first())
    }
}

/// Burst completion: while a reader at `start` of a `file_size`-byte file
/// is fed well-formed burst replies, it writes one chunk per frame, each at
/// the exact offset where the previous one ended; the written bytes never
/// pass the announced size, and the moment they reach it the controller is
/// back to idle.  In particular a burst from offset zero whose chunks reach
/// `file_size` writes exactly `file_size` bytes at contiguous offsets.
pub proof fn lemma_burst_read_contiguous(
    c: ControllerModel,
    frames: Seq<Seq<u8>>,
    path: Seq<char>,
    start: u32,
    file_size: u32,
)
    requires
        c.status == Some(StatusModel::ReadingFile { path, offset: start, file_size }),
        start <= file_size,
        burst_frames_ok(c, frames),
    ensures
        burst_writes(c, frames).len() == frames.len(),
        forall|i: int|
            0 <= i < frames.len() ==> #[trigger] burst_writes(c, frames)[i].offset == start
                + total_write_len(burst_writes(c, frames).take(i)),
        start + total_write_len(burst_writes(c, frames)) <= file_size,
        start + total_write_len(burst_writes(c, frames)) == file_size && frames.len() > 0
            ==> burst_final(c, frames).status is None,
        start + total_write_len(burst_writes(c, frames)) < file_size ==> burst_final(
            c,
            frames,
        ).status == Some(
            StatusModel::ReadingFile {
                path,
                offset: (start + total_write_len(burst_writes(c, frames))) as u32,
                file_size,
            },
        ),
    decreases frames.len(),
{
    if frames.len() == 0 {
        assert(burst_writes(c, frames) =~= Seq::<WriteModel>::empty());
        assert(total_write_len(burst_writes(c, frames)) == 0);
    } else {
        let d = payload_decoded(frames[0])->Ok_0;
        let s = controller_step(c, frames[0]);
        let w0 = WriteModel { offset: start, data: d.data };
        assert(s.1.write == Some(w0));
        let rest = frames.drop_first();
        let new_offset = sat_add_u32(start, d.size);
        assert(new_offset == start + d.size);
        let ws = burst_writes(c, frames);
        assert(ws =~= seq![w0] + burst_writes(s.0, rest));
        assert(d.data.len() == d.size);
        if new_offset == file_size {
            // the step went idle; a well-formed burst has no further frames
            assert(s.0.status is None);
            assert(rest.len() == 0) by {
                if rest.len() > 0 {
                    assert(burst_frames_ok(s.0, rest));
                }
            }
            assert(ws =~= seq![w0]);
            assert(ws.take(0) =~= Seq::<WriteModel>::empty());
            assert(ws.drop_first() =~= Seq::<WriteModel>::empty());
            assert(total_write_len(ws.drop_first()) == 0);
            assert(ws[0] == w0);
            assert(ws[0].data.len() == d.size);
            assert(total_write_len(ws) == d.size);
            assert(burst_final(c, frames) == burst_final(s.0, rest));
            assert(burst_final(s.0, rest) == s.0);
        } else {
            assert(s.0.status == Some(
                StatusModel::ReadingFile { path, offset: new_offset, file_size },
            ));
            lemma_burst_read_contiguous(s.0, rest, path, new_offset, file_size);
            let wr = burst_writes(s.0, rest);
            assert(total_write_len(ws) == d.size + total_write_len(wr)) by {
                assert(ws.drop_first() =~= wr);
            }
            assert forall|i: int| 0 <= i < frames.len() implies #[trigger] ws[i].offset == start
                + total_write_len(ws.take(i)) by {
                if i == 0 {
                    assert(ws.take(0) =~= Seq::<WriteModel>::empty());
                } else {
                    assert(ws[i] == wr[i - 1]);
                    assert(wr[i - 1].offset == new_offset + total_write_len(wr.take(i - 1)));
                    assert(ws.take(i).drop_first() =~= wr.take(i - 1));
                    assert(total_write_len(ws.take(i)) == d.size + total_write_len(
                        wr.take(i - 1),
                    ));
                }
            }
        }
    }
}

impl Controller {
    /// Advances the controller with one inbound FTP frame, as the
    /// transition function `controller_step` describes: the frame clears
    /// the `waiting` gate, an acknowledgement advances the pending
    /// operation, a NAK ends it, and anything the caller must do comes
    /// back in the response.
    pub fn parse_mavlink_message(&mut self, payload: &[u8]) -> (r: ControllerResponse)
        requires
            old(self).wf(),
        ensures
            final(self).wf(),
            final(self)@ == controller_step(old(self)@, payload@).0,
            r@ == controller_step(old(self)@, payload@).1,
    {
        let ghost c0 = old(self)@;
        let ghost step = controller_step(c0, payload@);
        self.waiting = false;
        let p = match MavlinkFtpPayload::from_bytes(payload) {
            Ok(p) => p,
            Err(e) => {
                proof {
                    assert(self@ =~~= step.0);
                }
                let r = ControllerResponse {
                    reply: None,
                    write: None,
                    event: Some(
                        ControllerEvent::ProtocolError { error: FtpProtocolError::BadPayload(e) },
                    ),
                };
                proof {
                    assert(r@ =~~= step.1);
                }
                return r;
            },
        };
        let ghost pm = payload_decoded(payload@)->Ok_0;
        proof {
            assert(pm.size <= 255);
        }
        if p.opcode == MavlinkFtpOpcode::Ack {
            let st = self.status.take();
            match st {
                None => {
                    proof {
                        assert(self@ =~~= step.0);
                    }
                    let r = ControllerResponse { reply: None, write: None, event: None };
                    proof {
                        assert(r@ =~~= step.1);
                    }
                    r
                },
                Some(OperationStatus::Reset) => {
                    if p.req_opcode == MavlinkFtpOpcode::ResetSessions {
                        proof {
                            assert(self@ =~~= step.0);
                        }
                        let r = ControllerResponse {
                            reply: None,
                            write: None,
                            event: Some(ControllerEvent::ResetComplete),
                        };
                        proof {
                            assert(r@ =~~= step.1);
                        }
                        r
                    } else {
                        self.status = Some(OperationStatus::Reset);
                        proof {
                            assert(self@ =~~= step.0);
                        }
                        let r = ControllerResponse { reply: None, write: None, event: None };
                        proof {
                            assert(r@ =~~= step.1);
                        }
                        r
                    }
                },
                Some(OperationStatus::ScanningFolder { path, offset }) => {
                    let ghost chunks = split_chunks(pm.data);
                    let ghost entries0 = self@.entries;
                    let parts = crate::mavftp::split_zeros(p.data.as_slice());
                    proof {
                        crate::mavftp::lemma_split_from_len(pm.data, 0);
                        assert(parts@.map_values(|q: Vec<u8>| q@) == chunks);
                        assert(parts@.len() == chunks.len());
                        assert(chunks.len() <= 256);
                        assert(entries0 + entries_of(chunks.take(0), path@) =~= entries0);
                    }
                    let mut count: u32 = 0;
                    let mut k: usize = 0;
                    while k < parts.len()
                        invariant
                            k <= parts@.len(),
                            parts@.map_values(|q: Vec<u8>| q@) == chunks,
                            parts@.len() == chunks.len(),
                            chunks.len() <= 256,
                            count as nat == nonempty_count(chunks.take(k as int)),
                            count <= k,
                            self.session == c0.session,
                            self.waiting == false,
                            self.status is None,
                            self@.entries == entries0 + entries_of(chunks.take(k as int), path@),
                        decreases parts@.len() - k,
                    {
                        proof {
                            crate::mavftp::lemma_chunks_take_step(chunks, path@, k as int);
                            assert(parts@[k as int]@ == chunks[k as int]);
                        }
                        if parts[k].len() > 0 {
                            count = count + 1;
                            let text = utf8_lossy(parts[k].as_slice());
                            match crate::mavftp::parse_directory_entry(text.as_str()) {
                                Ok(e) => {
                                    proof {
                                        reveal_strlit("/");
                                        assert("/"@ =~= seq!['/']);
                                    }
                                    let full = path.clone().concat("/").concat(e.name.as_str());
                                    let e2 = EntryInfo {
                                        entry_type: e.entry_type,
                                        name: full,
                                        size: e.size,
                                    };
                                    proof {
                                        assert(Some(e2@) == chunk_entry(chunks[k as int], path@));
                                    }
                                    let ghost pre = self@.entries;
                                    self.entries.push(e2);
                                    proof {
                                        assert(self@.entries =~= pre.push(e2@));
                                        assert(chunks[k as int].len() > 0);
                                        assert(chunk_contrib(chunks[k as int], path@) =~= seq![
                                            e2@,
                                        ]);
                                        assert(entries_of(chunks.take(k + 1), path@) =~=
                                            entries_of(chunks.take(k as int), path@) + seq![e2@]);
                                        assert(self@.entries =~= entries0 + entries_of(
                                            chunks.take(k + 1),
                                            path@,
                                        ));
                                    }
                                },
                                Err(_) => {
                                    proof {
                                        assert(chunk_entry(chunks[k as int], path@) is None);
                                        assert(self@.entries =~= entries0 + entries_of(
                                            chunks.take(k + 1),
                                            path@,
                                        ));
                                    }
                                },
                            }
                        } else {
                            proof {
                                assert(chunks[k as int].len() == 0);
                                assert(self@.entries =~= entries0 + entries_of(
                                    chunks.take(k + 1),
                                    path@,
                                ));
                            }
                        }
                        k = k + 1;
                    }
                    proof {
                        assert(chunks.take(chunks.len() as int) =~= chunks);
                    }
                    let new_offset: u32 = if offset <= u32::MAX - count {
                        offset + count
                    } else {
                        u32::MAX
                    };
                    proof {
                        assert(new_offset == sat_add_u32(offset, nonempty_count(chunks)));
                    }
                    let reply = MavlinkFtpPayload::newListDirectory(
                        1,
                        self.session,
                        new_offset,
                        path.as_str(),
                    );
                    proof {
                        assert(reply@ =~= list_request(c0.session, new_offset, path@));
                    }
                    self.status = Some(
                        OperationStatus::ScanningFolder { path, offset: new_offset },
                    );
                    self.waiting = true;
                    proof {
                        assert(self@ =~~= step.0);
                    }
                    let r = ControllerResponse { reply: Some(reply), write: None, event: None };
                    proof {
                        assert(r@ =~~= step.1);
                    }
                    r
                },
                Some(OperationStatus::OpeningFile { path }) => {
                    if p.size == 4 {
                        let file_size = crate::mavftp::le32_read(p.data.as_slice());
                        let event = ControllerEvent::OpenFile {
                            path: path.clone(),
                            size: file_size,
                        };
                        self.status = Some(
                            OperationStatus::ReadingFile { path, offset: 0, file_size },
                        );
                        proof {
                            assert(self@ =~~= step.0);
                        }
                        let r = ControllerResponse { reply: None, write: None, event: Some(event) };
                        proof {
                            assert(r@ =~~= step.1);
                        }
                        r
                    } else {
                        proof {
                            assert(self@ =~~= step.0);
                        }
                        let r = ControllerResponse {
                            reply: None,
                            write: None,
                            event: Some(
                                ControllerEvent::ProtocolError {
                                    error: FtpProtocolError::WrongAckSize,
                                },
                            ),
                        };
                        proof {
                            assert(r@ =~~= step.1);
                        }
                        r
                    }
                },
                Some(OperationStatus::CalcFileCRC32 { path }) => {
                    if p.req_opcode == MavlinkFtpOpcode::CalcFileCRC32 {
                        if p.size >= 4 {
                            let value = crate::mavftp::le32_read(p.data.as_slice());
                            proof {
                                assert(self@ =~~= step.0);
                            }
                            let r = ControllerResponse {
                                reply: None,
                                write: None,
                                event: Some(ControllerEvent::Crc32 { value }),
                            };
                            proof {
                                assert(r@ =~~= step.1);
                            }
                            r
                        } else {
                            proof {
                                assert(self@ =~~= step.0);
                            }
                            let r = ControllerResponse {
                                reply: None,
                                write: None,
                                event: Some(
                                    ControllerEvent::ProtocolError {
                                        error: FtpProtocolError::WrongAckSize,
                                    },
                                ),
                            };
                            proof {
                                assert(r@ =~~= step.1);
                            }
                            r
                        }
                    } else {
                        self.status = Some(OperationStatus::CalcFileCRC32 { path });
                        proof {
                            assert(self@ =~~= step.0);
                        }
                        let r = ControllerResponse { reply: None, write: None, event: None };
                        proof {
                            assert(r@ =~~= step.1);
                        }
                        r
                    }
                },
                Some(OperationStatus::ReadingFile { path, offset, file_size }) => {
                    let add: u32 = p.size as u32;
                    let new_offset: u32 = if p.offset <= u32::MAX - add {
                        p.offset + add
                    } else {
                        u32::MAX
                    };
                    proof {
                        assert(new_offset == sat_add_u32(pm.offset, pm.size));
                    }
                    let chunk_offset = p.offset;
                    let seq_number = p.seq_number;
                    let burst_complete = p.burst_complete;
                    let write = WriteChunk { offset: chunk_offset, data: p.data };
                    if new_offset >= file_size {
                        proof {
                            assert(self@ =~~= step.0);
                        }
                        let r = ControllerResponse {
                            reply: None,
                            write: Some(write),
                            event: Some(ControllerEvent::ReadComplete),
                        };
                        proof {
                            assert(r@ =~~= step.1);
                        }
                        r
                    } else if burst_complete == 1 {
                        let seq2: u16 = if seq_number == 0xffff {
                            0
                        } else {
                            seq_number + 1
                        };
                        let reply = MavlinkFtpPayload::newReadFile(
                            seq2,
                            self.session,
                            new_offset,
                            239,
                        );
                        proof {
                            assert(reply@ =~= burst_request(
                                wrap_inc_u16(pm.seq_number),
                                c0.session,
                                new_offset,
                            ));
                        }
                        self.status = Some(
                            OperationStatus::ReadingFile { path, offset: new_offset, file_size },
                        );
                        self.waiting = true;
                        proof {
                            assert(self@ =~~= step.0);
                        }
                        let r = ControllerResponse {
                            reply: Some(reply),
                            write: Some(write),
                            event: None,
                        };
                        proof {
                            assert(r@ =~~= step.1);
                        }
                        r
                    } else {
                        self.status = Some(
                            OperationStatus::ReadingFile { path, offset: new_offset, file_size },
                        );
                        self.waiting = true;
                        proof {
                            assert(self@ =~~= step.0);
                        }
                        let r = ControllerResponse {
                            reply: None,
                            write: Some(write),
                            event: None,
                        };
                        proof {
                            assert(r@ =~~= step.1);
                        }
                        r
                    }
                },
            }
        } else if p.opcode == MavlinkFtpOpcode::Nak {
            let was_scanning: bool = match &self.status {
                Some(OperationStatus::ScanningFolder { .. }) => true,
                _ => false,
            };
            let was_reading: bool = match &self.status {
                Some(OperationStatus::ReadingFile { .. }) => true,
                _ => false,
            };
            self.status = None;
            if p.data.len() < 1 {
                proof {
                    assert(self@ =~~= step.0);
                }
                let r = ControllerResponse {
                    reply: None,
                    write: None,
                    event: Some(
                        ControllerEvent::ProtocolError {
                            error: FtpProtocolError::MissingNakCode,
                        },
                    ),
                };
                proof {
                    assert(r@ =~~= step.1);
                }
                return r;
            }
            let event = match MavlinkFtpNak::from_u8(p.data[0]) {
                None => ControllerEvent::ProtocolError { error: FtpProtocolError::UnknownNakCode },
                Some(code) => {
                    if code == MavlinkFtpNak::EOF && was_scanning {
                        ControllerEvent::ListComplete
                    } else if code == MavlinkFtpNak::EOF && was_reading {
                        ControllerEvent::ReadComplete
                    } else {
                        ControllerEvent::RemoteError { nak: code }
                    }
                },
            };
            proof {
                assert(self@ =~~= step.0);
            }
            let r = ControllerResponse { reply: None, write: None, event: Some(event) };
            proof {
                assert(r@ =~~= step.1);
            }
            r
        } else {
            proof {
                assert(self@ =~~= step.0);
            }
            let r = ControllerResponse { reply: None, write: None, event: None };
            proof {
                assert(r@ =~~= step.1);
            }
            r
        }
    }
}

} // verus!
