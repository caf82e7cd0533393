//! The MAVLink-FTP sub-protocol: opcodes, NAK codes, the 12-byte payload
//! header with its data, and the directory-listing entry format.

use vstd::prelude::*;

use crate::text::{all_dec_digits, dec_value, parse_u32, push_char};
use vstd::string::StringSliceAdditionalSpecFns;
use vstd::string::StrSliceExecFns;

verus! {

/// Operation codes of the MAVLink-FTP sub-protocol.
#[derive(Debug, Copy, Clone, PartialEq, Eq, Structural)]
pub enum MavlinkFtpOpcode {
    NoOp,
    TerminateSession,
    ResetSessions,
    ListDirectory,
    OpenFileRO,
    ReadFile,
    CreateFile,
    WriteFile,
    RemoveFile,
    CreateDirectory,
    RemoveDirectory,
    OpenFileWO,
    TruncateFile,
    Rename,
    CalcFileCRC32,
    BurstReadFile,
    Ack,
    Nak,
}

/// The wire value of an opcode.
pub open spec fn opcode_value(op: MavlinkFtpOpcode) -> u8 {
    match op {
        MavlinkFtpOpcode::NoOp => 0,
        MavlinkFtpOpcode::TerminateSession => 1,
        MavlinkFtpOpcode::ResetSessions => 2,
        MavlinkFtpOpcode::ListDirectory => 3,
        MavlinkFtpOpcode::OpenFileRO => 4,
        MavlinkFtpOpcode::ReadFile => 5,
        MavlinkFtpOpcode::CreateFile => 6,
        MavlinkFtpOpcode::WriteFile => 7,
        MavlinkFtpOpcode::RemoveFile => 8,
        MavlinkFtpOpcode::CreateDirectory => 9,
        MavlinkFtpOpcode::RemoveDirectory => 10,
        MavlinkFtpOpcode::OpenFileWO => 11,
        MavlinkFtpOpcode::TruncateFile => 12,
        MavlinkFtpOpcode::Rename => 13,
        MavlinkFtpOpcode::CalcFileCRC32 => 14,
        MavlinkFtpOpcode::BurstReadFile => 15,
        MavlinkFtpOpcode::Ack => 128,
        MavlinkFtpOpcode::Nak => 129,
    }
}

/// The opcode a wire value stands for, if any.
pub open spec fn opcode_of_value(v: u8) -> Option<MavlinkFtpOpcode> {
    if v == 0 {
        Some(MavlinkFtpOpcode::NoOp)
    } else if v == 1 {
        Some(MavlinkFtpOpcode::TerminateSession)
    } else if v == 2 {
        Some(MavlinkFtpOpcode::ResetSessions)
    } else if v == 3 {
        Some(MavlinkFtpOpcode::ListDirectory)
    } else if v == 4 {
        Some(MavlinkFtpOpcode::OpenFileRO)
    } else if v == 5 {
        Some(MavlinkFtpOpcode::ReadFile)
    } else if v == 6 {
        Some(MavlinkFtpOpcode::CreateFile)
    } else if v == 7 {
        Some(MavlinkFtpOpcode::WriteFile)
    } else if v == 8 {
        Some(MavlinkFtpOpcode::RemoveFile)
    } else if v == 9 {
        Some(MavlinkFtpOpcode::CreateDirectory)
    } else if v == 10 {
        Some(MavlinkFtpOpcode::RemoveDirectory)
    } else if v == 11 {
        Some(MavlinkFtpOpcode::OpenFileWO)
    } else if v == 12 {
        Some(MavlinkFtpOpcode::TruncateFile)
    } else if v == 13 {
        Some(MavlinkFtpOpcode::Rename)
    } else if v == 14 {
        Some(MavlinkFtpOpcode::CalcFileCRC32)
    } else if v == 15 {
        Some(MavlinkFtpOpcode::BurstReadFile)
    } else if v == 128 {
        Some(MavlinkFtpOpcode::Ack)
    } else if v == 129 {
        Some(MavlinkFtpOpcode::Nak)
    } else {
        None
    }
}

impl MavlinkFtpOpcode {
    /// The wire value of this opcode.
    pub fn to_u8(&self) -> (v: u8)
        ensures
            v == opcode_value(*self),
    {
        match self {
            MavlinkFtpOpcode::NoOp => 0,
            MavlinkFtpOpcode::TerminateSession => 1,
            MavlinkFtpOpcode::ResetSessions => 2,
            MavlinkFtpOpcode::ListDirectory => 3,
            MavlinkFtpOpcode::OpenFileRO => 4,
            MavlinkFtpOpcode::ReadFile => 5,
            MavlinkFtpOpcode::CreateFile => 6,
            MavlinkFtpOpcode::WriteFile => 7,
            MavlinkFtpOpcode::RemoveFile => 8,
            MavlinkFtpOpcode::CreateDirectory => 9,
            MavlinkFtpOpcode::RemoveDirectory => 10,
            MavlinkFtpOpcode::OpenFileWO => 11,
            MavlinkFtpOpcode::TruncateFile => 12,
            MavlinkFtpOpcode::Rename => 13,
            MavlinkFtpOpcode::CalcFileCRC32 => 14,
            MavlinkFtpOpcode::BurstReadFile => 15,
            MavlinkFtpOpcode::Ack => 128,
            MavlinkFtpOpcode::Nak => 129,
        }
    }

    /// The opcode a wire value stands for, if any.
    pub fn from_u8(v: u8) -> (r: Option<MavlinkFtpOpcode>)
        ensures
            r == opcode_of_value(v),
    {
        if v == 0 {
            Some(MavlinkFtpOpcode::NoOp)
        } else if v == 1 {
            Some(MavlinkFtpOpcode::TerminateSession)
        } else if v == 2 {
            Some(MavlinkFtpOpcode::ResetSessions)
        } else if v == 3 {
            Some(MavlinkFtpOpcode::ListDirectory)
        } else if v == 4 {
            Some(MavlinkFtpOpcode::OpenFileRO)
        } else if v == 5 {
            Some(MavlinkFtpOpcode::ReadFile)
        } else if v == 6 {
            Some(MavlinkFtpOpcode::CreateFile)
        } else if v == 7 {
            Some(MavlinkFtpOpcode::WriteFile)
        } else if v == 8 {
            Some(MavlinkFtpOpcode::RemoveFile)
        } else if v == 9 {
            Some(MavlinkFtpOpcode::CreateDirectory)
        } else if v == 10 {
            Some(MavlinkFtpOpcode::RemoveDirectory)
        } else if v == 11 {
            Some(MavlinkFtpOpcode::OpenFileWO)
        } else if v == 12 {
            Some(MavlinkFtpOpcode::TruncateFile)
        } else if v == 13 {
            Some(MavlinkFtpOpcode::Rename)
        } else if v == 14 {
            Some(MavlinkFtpOpcode::CalcFileCRC32)
        } else if v == 15 {
            Some(MavlinkFtpOpcode::BurstReadFile)
        } else if v == 128 {
            Some(MavlinkFtpOpcode::Ack)
        } else if v == 129 {
            Some(MavlinkFtpOpcode::Nak)
        } else {
            None
        }
    }
}

/// Error codes carried by a NAK reply.
#[derive(Debug, Copy, Clone, PartialEq, Eq, Structural)]
pub enum MavlinkFtpNak {
    NoError,
    Fail,
    FailErrno,
    InvalidDataSize,
    InvalidSession,
    NoSessionsAvailable,
    EOF,
    UnknownCommand,
    FileExists,
    FileProtected,
    FileNotFound,
}

/// The NAK code a wire value stands for, if any.
pub open spec fn nak_of_value(v: u8) -> Option<MavlinkFtpNak> {
    if v == 0 {
        Some(MavlinkFtpNak::NoError)
    } else if v == 1 {
        Some(MavlinkFtpNak::Fail)
    } else if v == 2 {
        Some(MavlinkFtpNak::FailErrno)
    } else if v == 3 {
        Some(MavlinkFtpNak::InvalidDataSize)
    } else if v == 4 {
        Some(MavlinkFtpNak::InvalidSession)
    } else if v == 5 {
        Some(MavlinkFtpNak::NoSessionsAvailable)
    } else if v == 6 {
        Some(MavlinkFtpNak::EOF)
    } else if v == 7 {
        Some(MavlinkFtpNak::UnknownCommand)
    } else if v == 8 {
        Some(MavlinkFtpNak::FileExists)
    } else if v == 9 {
        Some(MavlinkFtpNak::FileProtected)
    } else if v == 10 {
        Some(MavlinkFtpNak::FileNotFound)
    } else {
        None
    }
}

impl MavlinkFtpNak {
    /// The NAK code a wire value stands for, if any.
    pub fn from_u8(v: u8) -> (r: Option<MavlinkFtpNak>)
        ensures
            r == nak_of_value(v),
    {
        if v == 0 {
            Some(MavlinkFtpNak::NoError)
        } else if v == 1 {
            Some(MavlinkFtpNak::Fail)
        } else if v == 2 {
            Some(MavlinkFtpNak::FailErrno)
        } else if v == 3 {
            Some(MavlinkFtpNak::InvalidDataSize)
        } else if v == 4 {
            Some(MavlinkFtpNak::InvalidSession)
        } else if v == 5 {
            Some(MavlinkFtpNak::NoSessionsAvailable)
        } else if v == 6 {
            Some(MavlinkFtpNak::EOF)
        } else if v == 7 {
            Some(MavlinkFtpNak::UnknownCommand)
        } else if v == 8 {
            Some(MavlinkFtpNak::FileExists)
        } else if v == 9 {
            Some(MavlinkFtpNak::FileProtected)
        } else if v == 10 {
            Some(MavlinkFtpNak::FileNotFound)
        } else {
            None
        }
    }
}

/// What a decoded reply means to a caller of the FTP client.
#[derive(Debug)]
pub enum MavlinkFtpResponse {
    NoResponse,
    TerminateSession(u8),
    ResetSessions,
    ListDirectory(Vec<EntryInfo>),
    Ack,
    Nak(MavlinkFtpNak),
}

/// The kind of a directory entry.
#[derive(Debug, Copy, Clone, PartialEq, Eq, Structural)]
pub enum EntryType {
    File,
    Directory,
    Skip,
}

/// One entry of a directory listing.
#[derive(Debug, Clone, PartialEq)]
pub struct EntryInfo {
    pub entry_type: EntryType,
    pub name: String,
    pub size: u32,
}

/// Why a byte string was rejected as an FTP payload.
#[derive(Debug, Copy, Clone, PartialEq, Eq, Structural)]
pub enum PayloadDecodeError {
    /// Fewer than the 12 header bytes.
    InvalidFrame,
    /// The opcode or the request opcode is not in the enumeration.
    InvalidOpcode,
    /// The header announces more data bytes than the frame holds.
    TruncatedData,
}

/// The FTP payload: a 12-byte header followed by `size` data bytes.
#[derive(Debug, Clone, PartialEq)]
pub struct MavlinkFtpPayload {
    /// Sequence number of the message.
    pub seq_number: u16,
    /// Session id for read and write operations.
    pub session: u8,
    /// Opcode of a command, or ACK/NAK for replies.
    pub opcode: MavlinkFtpOpcode,
    /// Number of bytes in `data`.
    pub size: usize,
    /// Opcode of the original request, set in ACK and NAK replies.
    pub req_opcode: MavlinkFtpOpcode,
    /// 1 when a burst is complete, 0 while more burst packets are coming.
    pub burst_complete: u8,
    /// Padding for 32-bit alignment.
    pub padding: u8,
    /// Content offset for ListDirectory and ReadFile commands.
    pub offset: u32,
    /// Command or response data.
    pub data: Vec<u8>,
}

/// The mathematical content of an FTP payload.
#[verifier::ext_equal]
pub struct FtpPayloadModel {
    pub seq_number: u16,
    pub session: u8,
    pub opcode: MavlinkFtpOpcode,
    pub size: nat,
    pub req_opcode: MavlinkFtpOpcode,
    pub burst_complete: u8,
    pub padding: u8,
    pub offset: u32,
    pub data: Seq<u8>,
}

impl View for MavlinkFtpPayload {
    type V = FtpPayloadModel;

    open spec fn view(&self) -> FtpPayloadModel {
        FtpPayloadModel {
            seq_number: self.seq_number,
            session: self.session,
            opcode: self.opcode,
            size: self.size as nat,
            req_opcode: self.req_opcode,
            burst_complete: self.burst_complete,
            padding: self.padding,
            offset: self.offset,
            data: self.data@,
        }
    }
}

/// A payload is valid when its size field equals the data length and the
/// data does not exceed the 239-byte cap of the carrier message.
pub open spec fn payload_valid(p: FtpPayloadModel) -> bool {
    p.size == p.data.len() && p.size <= 239
}

/// The wire form of a payload: `seq` as a little-endian 16-bit value, then
/// session, opcode, size, request opcode, burst flag and padding bytes, then
/// `offset` as a little-endian 32-bit value, then the data bytes.
pub open spec fn payload_encoded(p: FtpPayloadModel) -> Seq<u8> {
    seq![
        (p.seq_number % 256) as u8,
        (p.seq_number / 256) as u8,
        p.session,
        opcode_value(p.opcode),
        (p.size % 256) as u8,
        opcode_value(p.req_opcode),
        p.burst_complete,
        p.padding,
        (p.offset % 256) as u8,
        ((p.offset / 256) % 256) as u8,
        ((p.offset / 65536) % 256) as u8,
        ((p.offset / 16777216) % 256) as u8,
    ] + p.data
}

/// What decoding a byte string yields: the payload, or the first error in
/// the order length, opcode, request opcode, data length.
pub open spec fn payload_decoded(b: Seq<u8>) -> Result<FtpPayloadModel, PayloadDecodeError> {
    if b.len() < 12 {
        Err(PayloadDecodeError::InvalidFrame)
    } else if opcode_of_value(b[3]) is None || opcode_of_value(b[5]) is None {
        Err(PayloadDecodeError::InvalidOpcode)
    } else if 12 + b[4] as int > b.len() {
        Err(PayloadDecodeError::TruncatedData)
    } else {
        Ok(
            FtpPayloadModel {
                seq_number: (b[0] + 256 * b[1]) as u16,
                session: b[2],
                opcode: opcode_of_value(b[3])->0,
                size: b[4] as nat,
                req_opcode: opcode_of_value(b[5])->0,
                burst_complete: b[6],
                padding: b[7],
                offset: (b[8] + 256 * b[9] + 65536 * b[10] + 16777216 * b[11]) as u32,
                data: b.subrange(12, 12 + b[4] as int),
            },
        )
    }
}

impl MavlinkFtpPayload {
    /// A request to close all sessions.
    pub fn newResetSesions(seq_number: u16, session: u8) -> (r: Self)
        ensures
            r@ == (FtpPayloadModel {
                seq_number,
                session,
                opcode: MavlinkFtpOpcode::ResetSessions,
                size: 0,
                req_opcode: MavlinkFtpOpcode::NoOp,
                burst_complete: 0,
                padding: 0,
                offset: 0,
                data: Seq::<u8>::empty(),
            }),
    {
        let r = Self {
            seq_number,
            session,
            opcode: MavlinkFtpOpcode::ResetSessions,
            size: 0,
            req_opcode: MavlinkFtpOpcode::NoOp,
            burst_complete: 0,
            padding: 0,
            offset: 0,
            data: Vec::new(),
        };
        proof {
            assert(r@ =~= (FtpPayloadModel {
                seq_number,
                session,
                opcode: MavlinkFtpOpcode::ResetSessions,
                size: 0,
                req_opcode: MavlinkFtpOpcode::NoOp,
                burst_complete: 0,
                padding: 0,
                offset: 0,
                data: Seq::<u8>::empty(),
            }));
        }
        r
    }

    /// A request to end one session.
    pub fn newTerminateSession(seq_number: u16, session: u8) -> (r: Self)
        ensures
            r@ == (FtpPayloadModel {
                seq_number,
                session,
                opcode: MavlinkFtpOpcode::TerminateSession,
                size: 0,
                req_opcode: MavlinkFtpOpcode::NoOp,
                burst_complete: 0,
                padding: 0,
                offset: 0,
                data: Seq::<u8>::empty(),
            }),
    {
        let r = Self {
            seq_number,
            session,
            opcode: MavlinkFtpOpcode::TerminateSession,
            size: 0,
            req_opcode: MavlinkFtpOpcode::NoOp,
            burst_complete: 0,
            padding: 0,
            offset: 0,
            data: Vec::new(),
        };
        proof {
            assert(r@ =~= (FtpPayloadModel {
                seq_number,
                session,
                opcode: MavlinkFtpOpcode::TerminateSession,
                size: 0,
                req_opcode: MavlinkFtpOpcode::NoOp,
                burst_complete: 0,
                padding: 0,
                offset: 0,
                data: Seq::<u8>::empty(),
            }));
        }
        r
    }

    /// A request for one page of a directory listing, starting at `offset`.
    pub fn newListDirectory(seq_number: u16, session: u8, offset: u32, path: &str) -> (r: Self)
        requires
            path.spec_bytes().len() <= 239,
        ensures
            r@ == (FtpPayloadModel {
                seq_number,
                session,
                opcode: MavlinkFtpOpcode::ListDirectory,
                size: path.spec_bytes().len(),
                req_opcode: MavlinkFtpOpcode::NoOp,
                burst_complete: 0,
                padding: 0,
                offset,
                data: path.spec_bytes(),
            }),
    {
        let data = path.as_bytes_vec();
        let size = data.len();
        let r = Self {
            seq_number,
            session,
            opcode: MavlinkFtpOpcode::ListDirectory,
            size,
            req_opcode: MavlinkFtpOpcode::NoOp,
            burst_complete: 0,
            padding: 0,
            offset,
            data,
        };
        proof {
            assert(r@ =~= (FtpPayloadModel {
                seq_number,
                session,
                opcode: MavlinkFtpOpcode::ListDirectory,
                size: path.spec_bytes().len(),
                req_opcode: MavlinkFtpOpcode::NoOp,
                burst_complete: 0,
                padding: 0,
                offset,
                data: path.spec_bytes(),
            }));
        }
        r
    }

    /// A request to open a file for reading.
    pub fn newOpenFile(seq_number: u16, session: u8, path: &str) -> (r: Self)
        requires
            path.spec_bytes().len() <= 239,
        ensures
            r@ == (FtpPayloadModel {
                seq_number,
                session,
                opcode: MavlinkFtpOpcode::OpenFileRO,
                size: path.spec_bytes().len(),
                req_opcode: MavlinkFtpOpcode::NoOp,
                burst_complete: 0,
                padding: 0,
                offset: 0,
                data: path.spec_bytes(),
            }),
    {
        let data = path.as_bytes_vec();
        let size = data.len();
        let r = Self {
            seq_number,
            session,
            opcode: MavlinkFtpOpcode::OpenFileRO,
            size,
            req_opcode: MavlinkFtpOpcode::NoOp,
            burst_complete: 0,
            padding: 0,
            offset: 0,
            data,
        };
        proof {
            assert(r@ =~= (FtpPayloadModel {
                seq_number,
                session,
                opcode: MavlinkFtpOpcode::OpenFileRO,
                size: path.spec_bytes().len(),
                req_opcode: MavlinkFtpOpcode::NoOp,
                burst_complete: 0,
                padding: 0,
                offset: 0,
                data: path.spec_bytes(),
            }));
        }
        r
    }

    /// A burst-read request for the bytes starting at `offset`; the chunk
    /// size asked for is capped at 239, the data cap of one payload.
    pub fn newReadFile(seq_number: u16, session: u8, offset: u32, size_left: usize) -> (r: Self)
        ensures
            r@ == (FtpPayloadModel {
                seq_number,
                session,
                opcode: MavlinkFtpOpcode::BurstReadFile,
                size: if size_left <= 239 { size_left as nat } else { 239 },
                req_opcode: MavlinkFtpOpcode::NoOp,
                burst_complete: 0,
                padding: 0,
                offset,
                data: Seq::<u8>::empty(),
            }),
    {
        let size: usize = if size_left <= 239 {
            size_left
        } else {
            239
        };
        let r = Self {
            seq_number,
            session,
            opcode: MavlinkFtpOpcode::BurstReadFile,
            size,
            req_opcode: MavlinkFtpOpcode::NoOp,
            burst_complete: 0,
            padding: 0,
            offset,
            data: Vec::new(),
        };
        proof {
            assert(r@ =~= (FtpPayloadModel {
                seq_number,
                session,
                opcode: MavlinkFtpOpcode::BurstReadFile,
                size: if size_left <= 239 { size_left as nat } else { 239 },
                req_opcode: MavlinkFtpOpcode::NoOp,
                burst_complete: 0,
                padding: 0,
                offset,
                data: Seq::<u8>::empty(),
            }));
        }
        r
    }

    /// A request for the CRC32 of a remote file.
    pub fn newCalcFileCRC32(seq_number: u16, session: u8, path: &str) -> (r: Self)
        requires
            path.spec_bytes().len() <= 239,
        ensures
            r@ == (FtpPayloadModel {
                seq_number,
                session,
                opcode: MavlinkFtpOpcode::CalcFileCRC32,
                size: path.spec_bytes().len(),
                req_opcode: MavlinkFtpOpcode::NoOp,
                burst_complete: 0,
                padding: 0,
                offset: 0,
                data: path.spec_bytes(),
            }),
    {
        let data = path.as_bytes_vec();
        let size = data.len();
        let r = Self {
            seq_number,
            session,
            opcode: MavlinkFtpOpcode::CalcFileCRC32,
            size,
            req_opcode: MavlinkFtpOpcode::NoOp,
            burst_complete: 0,
            padding: 0,
            offset: 0,
            data,
        };
        proof {
            assert(r@ =~= (FtpPayloadModel {
                seq_number,
                session,
                opcode: MavlinkFtpOpcode::CalcFileCRC32,
                size: path.spec_bytes().len(),
                req_opcode: MavlinkFtpOpcode::NoOp,
                burst_complete: 0,
                padding: 0,
                offset: 0,
                data: path.spec_bytes(),
            }));
        }
        r
    }

    /// Serializes the payload into its wire form, 12 header bytes followed
    /// by the data.
    pub fn to_bytes(&self) -> (r: Vec<u8>)
        ensures
            r@ == payload_encoded(self@),
            r@.len() == 12 + self.data@.len(),
    {
        let mut bytes: Vec<u8> = Vec::new();
        bytes.push((self.seq_number % 256) as u8);
        bytes.push((self.seq_number / 256) as u8);
        bytes.push(self.session);
        bytes.push(self.opcode.to_u8());
        bytes.push((self.size % 256) as u8);
        bytes.push(self.req_opcode.to_u8());
        bytes.push(self.burst_complete);
        bytes.push(self.padding);
        bytes.push((self.offset % 256) as u8);
        bytes.push(((self.offset / 256) % 256) as u8);
        bytes.push(((self.offset / 65536) % 256) as u8);
        bytes.push(((self.offset / 16777216) % 256) as u8);
        let mut i: usize = 0;
        while i < self.data.len()
            invariant
                i <= self.data@.len(),
                bytes@ == payload_encoded(self@).subrange(0, 12 + i as int),
                payload_encoded(self@).len() == 12 + self.data@.len(),
            decreases self.data@.len() - i,
        {
            bytes.push(self.data[i]);
            proof {
                assert(bytes@ =~= payload_encoded(self@).subrange(0, 12 + i + 1));
            }
            i = i + 1;
        }
        proof {
            assert(bytes@ =~= payload_encoded(self@));
        }
        bytes
    }

    /// Deserializes a wire frame.  Succeeds exactly when the frame has the
    /// 12 header bytes, both opcode fields are in the enumeration, and the
    /// announced data length fits in the frame.
    pub fn from_bytes(bytes: &[u8]) -> (r: Result<MavlinkFtpPayload, PayloadDecodeError>)
        ensures
            match r {
                Ok(p) => payload_decoded(bytes@) is Ok && p@ == payload_decoded(bytes@)->Ok_0,
                Err(e) => payload_decoded(bytes@) is Err && e == payload_decoded(bytes@)->Err_0,
            },
    {
        if bytes.len() < 12 {
            return Err(PayloadDecodeError::InvalidFrame);
        }
        let opcode = match MavlinkFtpOpcode::from_u8(bytes[3]) {
            Some(op) => op,
            None => {
                return Err(PayloadDecodeError::InvalidOpcode);
            },
        };
        let req_opcode = match MavlinkFtpOpcode::from_u8(bytes[5]) {
            Some(op) => op,
            None => {
                return Err(PayloadDecodeError::InvalidOpcode);
            },
        };
        let size: usize = bytes[4] as usize;
        if bytes.len() < 12 + size {
            return Err(PayloadDecodeError::TruncatedData);
        }
        let mut data: Vec<u8> = Vec::new();
        let mut i: usize = 0;
        while i < size
            invariant
                i <= size,
                size <= 255,
                12 + size <= bytes@.len(),
                data@ == bytes@.subrange(12, 12 + i as int),
            decreases size - i,
        {
            data.push(bytes[12 + i]);
            proof {
                assert(data@ =~= bytes@.subrange(12, 12 + i + 1));
            }
            i = i + 1;
        }
        let seq_number: u16 = bytes[0] as u16 + 256 * (bytes[1] as u16);
        let offset: u32 = bytes[8] as u32 + 256 * (bytes[9] as u32) + 65536 * (bytes[10] as u32)
            + 16777216 * (bytes[11] as u32);
        let p = MavlinkFtpPayload {
            seq_number,
            session: bytes[2],
            opcode,
            size,
            req_opcode,
            burst_complete: bytes[6],
            padding: bytes[7],
            offset,
            data,
        };
        proof {
            assert(p@ =~= payload_decoded(bytes@)->Ok_0);
        }
        Ok(p)
    }
}

/// The mathematical content of a directory entry.
#[verifier::ext_equal]
pub struct EntryInfoModel {
    pub entry_type: EntryType,
    pub name: Seq<char>,
    pub size: u32,
}

impl View for EntryInfo {
    type V = EntryInfoModel;

    open spec fn view(&self) -> EntryInfoModel {
        EntryInfoModel { entry_type: self.entry_type, name: self.name@, size: self.size }
    }
}

/// What `String::from_utf8_lossy` makes of a byte string.
pub uninterp spec fn lossy_of(bytes: Seq<u8>) -> Seq<char>;

/// Whether every byte is plain ASCII.
pub open spec fn all_ascii(bytes: Seq<u8>) -> bool {
    forall|i: int| 0 <= i < bytes.len() ==> #[trigger] bytes[i] < 128
}

/// Relies on std's `String::from_utf8_lossy`: the result depends on the
/// bytes alone, and ASCII bytes come through as the same characters.
#[verifier::external_body]
pub fn utf8_lossy(bytes: &[u8]) -> (r: String)
    ensures
        r@ == lossy_of(bytes@),
        all_ascii(bytes@) ==> r@ == bytes@.map_values(|b: u8| b as char),
{
    String::from_utf8_lossy(bytes).into_owned()
}

/// The value of the first four bytes read as a little-endian 32-bit number.
pub open spec fn le32_value(d: Seq<u8>) -> u32 {
    (d[0] + 256 * d[1] + 65536 * d[2] + 16777216 * d[3]) as u32
}

/// Reads the first four bytes of `d` as a little-endian 32-bit number.
pub fn le32_read(d: &[u8]) -> (r: u32)
    requires
        d@.len() >= 4,
    ensures
        r == le32_value(d@),
{
    d[0] as u32 + 256 * (d[1] as u32) + 65536 * (d[2] as u32) + 16777216 * (d[3] as u32)
}

/// The position of the first zero byte at or after `i`, or the length when
/// there is none.
pub open spec fn zero_from(d: Seq<u8>, i: int) -> int
    decreases d.len() - i,
{
    if i < 0 || i >= d.len() {
        d.len() as int
    } else if d[i] == 0 {
        i
    } else {
        zero_from(d, i + 1)
    }
}

/// The first zero byte is never before the start of the search.
pub proof fn lemma_zero_from_bounds(d: Seq<u8>, i: int)
    requires
        0 <= i <= d.len(),
    ensures
        i <= zero_from(d, i) <= d.len(),
    decreases d.len() - i,
{
    if i < d.len() && d[i] != 0 {
        lemma_zero_from_bounds(d, i + 1);
    }
}

/// The pieces of `d` between zero bytes, from position `i` on.  As with
/// std's `split`, a trailing zero yields a trailing empty piece and empty
/// input yields one empty piece.
pub open spec fn split_from(d: Seq<u8>, i: int) -> Seq<Seq<u8>>
    decreases d.len() - i,
    via split_from_decreases
{
    if i < 0 || i > d.len() {
        Seq::empty()
    } else {
        let z = zero_from(d, i);
        if z == d.len() {
            seq![d.subrange(i, z)]
        } else {
            seq![d.subrange(i, z)] + split_from(d, z + 1)
        }
    }
}

#[via_fn]
proof fn split_from_decreases(d: Seq<u8>, i: int) {
    if 0 <= i <= d.len() {
        lemma_zero_from_bounds(d, i);
    }
}

/// The pieces of `d` between zero bytes.
pub open spec fn split_chunks(d: Seq<u8>) -> Seq<Seq<u8>> {
    split_from(d, 0)
}

/// How many pieces are non-empty.
pub open spec fn nonempty_count(chunks: Seq<Seq<u8>>) -> nat
    decreases chunks.len(),
{
    if chunks.len() == 0 {
        0
    } else {
        (if chunks[0].len() == 0 {
            0nat
        } else {
            1nat
        }) + nonempty_count(chunks.drop_first())
    }
}

/// The directory entry one listing piece stands for, if it parses: its name
/// is prefixed with the listed path and a slash.
pub open spec fn chunk_entry(chunk: Seq<u8>, path: Seq<char>) -> Option<EntryInfoModel> {
    let t = lossy_of(chunk);
    if t.len() >= 1 && entry_type_of(t[0]) is Some && entry_size_ok(t) {
        Some(
            EntryInfoModel {
                entry_type: entry_type_of(t[0])->0,
                name: path + seq!['/'] + entry_name(t),
                size: entry_size(t) as u32,
            },
        )
    } else {
        None
    }
}

/// The entries of a directory-listing page: each non-empty piece that
/// parses, in order.
pub open spec fn entries_of(chunks: Seq<Seq<u8>>, path: Seq<char>) -> Seq<EntryInfoModel>
    decreases chunks.len(),
{
    if chunks.len() == 0 {
        Seq::empty()
    } else {
        let rest = entries_of(chunks.drop_first(), path);
        if chunks[0].len() == 0 {
            rest
        } else {
            match chunk_entry(chunks[0], path) {
                Some(e) => seq![e] + rest,
                None => rest,
            }
        }
    }
}

/// What one listing piece adds to the entry list.
pub open spec fn chunk_contrib(chunk: Seq<u8>, path: Seq<char>) -> Seq<EntryInfoModel> {
    if chunk.len() == 0 {
        Seq::empty()
    } else {
        match chunk_entry(chunk, path) {
            Some(e) => seq![e],
            None => Seq::empty(),
        }
    }
}

/// Entries and the non-empty count grow piece by piece.
pub proof fn lemma_chunks_take_step(chunks: Seq<Seq<u8>>, path: Seq<char>, i: int)
    requires
        0 <= i < chunks.len(),
    ensures
        entries_of(chunks.take(i + 1), path) == entries_of(chunks.take(i), path) + chunk_contrib(
            chunks[i],
            path,
        ),
        nonempty_count(chunks.take(i + 1)) == nonempty_count(chunks.take(i)) + (if chunks[
            i
        ].len() == 0 {
            0nat
        } else {
            1nat
        }),
    decreases i,
{
    let t1 = chunks.take(i + 1);
    let t0 = chunks.take(i);
    if i == 0 {
        assert(t1 =~= seq![chunks[0]]);
        assert(t0 =~= Seq::<Seq<u8>>::empty());
        assert(t1.drop_first() =~= Seq::<Seq<u8>>::empty());
        assert(entries_of(t1, path) =~= chunk_contrib(chunks[0], path));
    } else {
        let d = chunks.drop_first();
        lemma_chunks_take_step(d, path, i - 1);
        assert(t1[0] == chunks[0]);
        assert(t0[0] == chunks[0]);
        assert(t1.drop_first() =~= d.take(i));
        assert(t0.drop_first() =~= d.take(i - 1));
        assert(d[i - 1] == chunks[i]);
        assert(entries_of(t1, path) =~= entries_of(t0, path) + chunk_contrib(chunks[i], path));
    }
}

/// A split of `n` bytes has at most `n + 1` pieces.
pub proof fn lemma_split_from_len(d: Seq<u8>, i: int)
    requires
        0 <= i <= d.len(),
    ensures
        split_from(d, i).len() <= d.len() - i + 1,
    decreases d.len() - i,
{
    lemma_zero_from_bounds(d, i);
    let z = zero_from(d, i);
    if z < d.len() {
        lemma_split_from_len(d, z + 1);
    }
}

/// Copies a range of a byte slice.
pub fn slice_range_to_vec(d: &[u8], a: usize, b: usize) -> (r: Vec<u8>)
    requires
        a <= b <= d@.len(),
    ensures
        r@ == d@.subrange(a as int, b as int),
{
    let mut r: Vec<u8> = Vec::new();
    let mut i: usize = a;
    while i < b
        invariant
            a <= i <= b <= d@.len(),
            r@ == d@.subrange(a as int, i as int),
        decreases b - i,
    {
        r.push(d[i]);
        proof {
            assert(r@ =~= d@.subrange(a as int, i + 1));
        }
        i = i + 1;
    }
    r
}

/// Finds the first zero byte at or after `from`, or the length.
pub fn find_zero(d: &[u8], from: usize) -> (r: usize)
    requires
        from <= d@.len(),
    ensures
        r == zero_from(d@, from as int),
        from <= r <= d@.len(),
{
    let n = d.len();
    let mut i: usize = from;
    while i < n
        invariant
            n == d@.len(),
            from <= i <= n,
            zero_from(d@, from as int) == zero_from(d@, i as int),
        decreases n - i,
    {
        if d[i] == 0 {
            return i;
        }
        i = i + 1;
    }
    i
}

/// Splits a byte slice at its zero bytes, as the specification
/// `split_chunks` describes.
pub fn split_zeros(d: &[u8]) -> (parts: Vec<Vec<u8>>)
    ensures
        parts@.map_values(|p: Vec<u8>| p@) == split_chunks(d@),
{
    let mut parts: Vec<Vec<u8>> = Vec::new();
    let mut start: usize = 0;
    loop
        invariant
            start <= d@.len(),
            split_chunks(d@) == parts@.map_values(|p: Vec<u8>| p@) + split_from(
                d@,
                start as int,
            ),
        decreases d@.len() - start + 1,
    {
        let z = find_zero(d, start);
        let chunk = slice_range_to_vec(d, start, z);
        parts.push(chunk);
        proof {
            assert(parts@.map_values(|p: Vec<u8>| p@) =~= parts@.drop_last().map_values(
                |p: Vec<u8>| p@,
            ).push(d@.subrange(start as int, z as int)));
        }
        if z == d.len() {
            proof {
                assert(split_from(d@, start as int) =~= seq![
                    d@.subrange(start as int, z as int),
                ]);
                assert(parts@.map_values(|p: Vec<u8>| p@) =~= split_chunks(d@));
            }
            return parts;
        }
        proof {
            assert(split_from(d@, start as int) =~= seq![d@.subrange(start as int, z as int)]
                + split_from(d@, z + 1));
            assert(parts@.map_values(|p: Vec<u8>| p@) + split_from(d@, z + 1) =~= split_chunks(
                d@,
            ));
        }
        start = z + 1;
    }
}

/// The position of the first tab at or after `i`, or the length when there
/// is none.
pub open spec fn tab_from(t: Seq<char>, i: int) -> int
    decreases t.len() - i,
{
    if i < 0 || i >= t.len() {
        t.len() as int
    } else if t[i] == '\t' {
        i
    } else {
        tab_from(t, i + 1)
    }
}

/// The kind a directory entry's first character stands for, if any.
pub open spec fn entry_type_of(c: char) -> Option<EntryType> {
    if c == 'F' {
        Some(EntryType::File)
    } else if c == 'D' {
        Some(EntryType::Directory)
    } else if c == 'S' {
        Some(EntryType::Skip)
    } else {
        None
    }
}

/// The name part of a directory entry: everything after the kind character
/// up to the first tab.
pub open spec fn entry_name(t: Seq<char>) -> Seq<char> {
    t.subrange(1, tab_from(t, 0))
}

/// The size field of a directory entry: the text between the first tab and
/// the second one (or the end), when a first tab exists.
pub open spec fn entry_size_field(t: Seq<char>) -> Option<Seq<char>> {
    let a = tab_from(t, 0);
    if a == t.len() {
        None
    } else {
        Some(t.subrange(a + 1, tab_from(t, a + 1)))
    }
}

/// Whether the size field of an entry is absent or a well-formed number.
pub open spec fn entry_size_ok(t: Seq<char>) -> bool {
    match entry_size_field(t) {
        None => true,
        Some(f) => f.len() > 0 && all_dec_digits(f) && dec_value(f) <= u32::MAX,
    }
}

/// The size a directory entry announces: zero when it has no size field.
pub open spec fn entry_size(t: Seq<char>) -> nat {
    match entry_size_field(t) {
        None => 0,
        Some(f) => dec_value(f),
    }
}

proof fn lemma_tab_from_prefix(t: Seq<char>, i: int)
    requires
        0 <= i <= t.len(),
        forall|j: int| 0 <= j < i ==> t[j] != '\t',
    ensures
        tab_from(t, 0) == tab_from(t, i),
    decreases i,
{
    if i > 0 {
        lemma_tab_from_prefix(t, i - 1);
    }
}

/// Finds the first tab at or after `from`, or the length when there is none.
fn find_tab(s: &str, from: usize) -> (r: usize)
    requires
        from <= s@.len(),
    ensures
        r == tab_from(s@, from as int),
        from <= r <= s@.len(),
        r < s@.len() ==> s@[r as int] == '\t',
    decreases s@.len() - from,
{
    let n = s.unicode_len();
    let mut i: usize = from;
    while i < n
        invariant
            n == s@.len(),
            from <= i <= n,
            tab_from(s@, from as int) == tab_from(s@, i as int),
        decreases n - i,
    {
        if s.get_char(i) == '\t' {
            return i;
        }
        i = i + 1;
    }
    i
}

/// Parses one directory-listing entry of the form `F<name>\t<size>`,
/// `D<name>` or `S<name>`.  Succeeds exactly when the kind character is one
/// of `F`, `D` and `S` and the size field, when present, is a decimal
/// number that fits in 32 bits.
pub fn parse_directory_entry(entry: &str) -> (r: Result<EntryInfo, &'static str>)
    ensures
        r is Ok <==> entry@.len() >= 1 && entry_type_of(entry@[0]) is Some && entry_size_ok(
            entry@,
        ),
        r is Ok ==> r->Ok_0.entry_type == entry_type_of(entry@[0])->0,
        r is Ok ==> r->Ok_0.name@ == entry_name(entry@),
        r is Ok ==> r->Ok_0.size as nat == entry_size(entry@),
        r is Err ==> (r->Err_0@ == "Invalid entry type"@ <==> (entry@.len() == 0 || entry_type_of(
            entry@[0],
        ) is None)),
{
    let n = entry.unicode_len();
    if n == 0 {
        return Err("Invalid entry type");
    }
    let c = entry.get_char(0);
    let entry_type: EntryType = if c == 'F' {
        EntryType::File
    } else if c == 'D' {
        EntryType::Directory
    } else if c == 'S' {
        EntryType::Skip
    } else {
        return Err("Invalid entry type");
    };
    let tab = find_tab(entry, 0);
    let mut name = String::new();
    let mut i: usize = 1;
    while i < tab
        invariant
            1 <= i <= tab || (tab == 0 && i == 1),
            tab <= entry@.len(),
            name@ == entry@.subrange(1, i as int) || (tab == 0 && i == 1 && name@
                == Seq::<char>::empty()),
        decreases tab - i,
    {
        name = name;
        push_char(&mut name, entry.get_char(i));
        proof {
            assert(name@ =~= entry@.subrange(1, i + 1));
        }
        i = i + 1;
    }
    proof {
        if tab >= 1 {
            assert(name@ =~= entry@.subrange(1, tab as int));
        } else {
            assert(tab == tab_from(entry@, 0));
            assert(entry@[0] != '\t');
            assert(false);
        }
        assert(name@ == entry_name(entry@));
    }
    let size: u32 = if tab < n {
        let tab2 = find_tab(entry, tab + 1);
        let field = entry.substring_char(tab + 1, tab2);
        match parse_u32(field) {
            Some(v) => v,
            None => {
                proof {
                    reveal_strlit("Invalid entry size");
                    reveal_strlit("Invalid entry type");
                    assert("Invalid entry size"@[14] != "Invalid entry type"@[14]);
                }
                return Err("Invalid entry size");
            },
        }
    } else {
        0
    };
    Ok(EntryInfo { entry_type, name, size })
}

/// Round trip of the payload codec: decoding an encoded valid payload gives
/// the payload back, and the encoding is exactly 12 bytes plus the data.
pub proof fn lemma_payload_round_trip(p: FtpPayloadModel)
    requires
        payload_valid(p),
    ensures
        payload_encoded(p).len() == 12 + p.data.len(),
        payload_decoded(payload_encoded(p)) == Ok::<FtpPayloadModel, PayloadDecodeError>(p),
{
    let b = payload_encoded(p);
    assert(b[3] == opcode_value(p.opcode));
    assert(opcode_of_value(opcode_value(p.opcode)) == Some(p.opcode));
    assert(opcode_of_value(opcode_value(p.req_opcode)) == Some(p.req_opcode));
    assert(b[4] == p.size);
    let q = payload_decoded(b)->Ok_0;
    assert(q.seq_number == p.seq_number) by {
        assert(b[0] == p.seq_number % 256);
        assert(b[1] == p.seq_number / 256);
    }
    assert(q.offset == p.offset) by {
        assert(b[8] == p.offset % 256);
        assert(b[9] == (p.offset / 256) % 256);
        assert(b[10] == (p.offset / 65536) % 256);
        assert(b[11] == (p.offset / 16777216) % 256);
    }
    assert(q.data =~= p.data);
    assert(q =~= p);
}

/// The subcommands of the FTP client.
#[derive(Debug)]
pub enum MavlinkFTPCommand {
    /// List files in a directory.
    ListDirectory { path: String },
    /// Read a file.
    ReadFile { path: String },
    /// Create a file.
    CreateFile { path: String },
    /// Write to a file.
    WriteFile { path: String },
    /// Remove a file.
    RemoveFile { path: String },
    /// Create a directory.
    CreateDirectory { path: String },
    /// Remove a directory.
    RemoveDirectory { path: String },
    /// Calculate the CRC32 of a remote file.
    CalcFileCRC32 { path: String },
    /// Reset sessions.
    Reset,
}

/// The FTP client's own settings: where to connect and what to do.
#[derive(Debug)]
pub struct Opt {
    pub connection: String,
    pub command: MavlinkFTPCommand,
}

/// The heartbeat the FTP client emits while it works.
pub fn heartbeat_message() -> (r: crate::mavlink_vehicle::HeartbeatData)
    ensures
        r == crate::mavlink_vehicle::heartbeat_fields(),
{
    crate::mavlink_vehicle::heartbeat_message()
}

} // verus!
