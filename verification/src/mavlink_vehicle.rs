//! The link handle's verified core: the header with its wrap-around
//! sequence counter, the heartbeat message, and the connection-string
//! format.  Opening the transport and moving bytes belong to the
//! surrounding program; the state that drives them is kept and stepped
//! here.

use vstd::prelude::*;

use crate::text::str_eq;
use vstd::string::StrSliceExecFns;

verus! {

/// The routing header of a MAVLink frame.
#[derive(Debug, Clone, Copy, PartialEq, Eq, Structural)]
pub struct MavHeader {
    pub system_id: u8,
    pub component_id: u8,
    pub sequence: u8,
}

/// The protocol version spoken on the link.
#[derive(Debug, Clone, Copy, PartialEq, Eq, Structural)]
pub enum MavlinkVersion {
    V1,
    V2,
}

/// The vehicle kind announced in a heartbeat.
#[derive(Debug, Clone, Copy, PartialEq, Eq, Structural)]
pub enum MavType {
    OnboardController,
}

/// The autopilot kind announced in a heartbeat.
#[derive(Debug, Clone, Copy, PartialEq, Eq, Structural)]
pub enum MavAutopilot {
    Invalid,
}

/// The system state announced in a heartbeat.
#[derive(Debug, Clone, Copy, PartialEq, Eq, Structural)]
pub enum MavState {
    Standby,
}

/// The fields of a HEARTBEAT message.
#[derive(Debug, Clone, Copy, PartialEq, Eq, Structural)]
pub struct HeartbeatData {
    pub custom_mode: u32,
    pub mavtype: MavType,
    pub autopilot: MavAutopilot,
    pub base_mode: u8,
    pub system_status: MavState,
    pub mavlink_version: u8,
}

/// The heartbeat this service emits: an onboard controller, standing by,
/// with no autopilot and MAVLink version 3.
pub fn heartbeat_message() -> (r: HeartbeatData)
    ensures
        r == heartbeat_fields(),
{
    HeartbeatData {
        custom_mode: 0,
        mavtype: MavType::OnboardController,
        autopilot: MavAutopilot::Invalid,
        base_mode: 0,
        system_status: MavState::Standby,
        mavlink_version: 3,
    }
}

/// The successor of a frame sequence number, wrapping at 8 bits.
pub open spec fn wrap_inc_u8(s: u8) -> u8 {
    if s == 255 {
        0
    } else {
        (s + 1) as u8
    }
}

/// The sequence number after `k` emissions starting from `s0`.
pub open spec fn sequence_after(s0: u8, k: nat) -> u8
    decreases k,
{
    if k == 0 {
        s0
    } else {
        wrap_inc_u8(sequence_after(s0, (k - 1) as nat))
    }
}

/// Heartbeat sequence: starting from `s0`, the number emitted by the
/// `k`-th heartbeat is `s0 + k` modulo 256 — consecutive heartbeats carry
/// consecutive sequence numbers with no gaps.
pub proof fn lemma_heartbeat_sequence(s0: u8, k: nat)
    ensures
        sequence_after(s0, k) == (s0 + k) % 256,
    decreases k,
{
    if k > 0 {
        lemma_heartbeat_sequence(s0, (k - 1) as nat);
    }
}

/// The verified state of a MAVLink link handle: how to reach the peer and
/// the header the next emitted frame will carry.
#[derive(Debug)]
pub struct MAVLinkVehicle {
    pub connection_string: String,
    pub version: MavlinkVersion,
    pub header: MavHeader,
}

impl MAVLinkVehicle {
    /// A handle for the given endpoint, starting its sequence at zero.
    pub fn new(
        connection_string: &str,
        version: MavlinkVersion,
        system_id: u8,
        component_id: u8,
    ) -> (r: Self)
        ensures
            r.connection_string@ == connection_string@,
            r.version == version,
            r.header == (MavHeader { system_id, component_id, sequence: 0 }),
    {
        MAVLinkVehicle {
            connection_string: connection_string.to_owned(),
            version,
            header: MavHeader { system_id, component_id, sequence: 0 },
        }
    }

    /// The header and message of the next heartbeat: the current header is
    /// emitted and the sequence then advances by one, wrapping at 255.
    pub fn next_heartbeat(&mut self) -> (r: (MavHeader, HeartbeatData))
        ensures
            r.0 == old(self).header,
            r.1 == heartbeat_fields(),
            final(self).header.system_id == old(self).header.system_id,
            final(self).header.component_id == old(self).header.component_id,
            final(self).header.sequence == wrap_inc_u8(old(self).header.sequence),
            final(self).connection_string == old(self).connection_string,
            final(self).version == old(self).version,
    {
        let header = self.header;
        let message = heartbeat_message();
        self.header.sequence = if self.header.sequence == 255 {
            0
        } else {
            self.header.sequence + 1
        };
        (header, message)
    }
}

/// The heartbeat fields, for use in contracts.
pub open spec fn heartbeat_fields() -> HeartbeatData {
    HeartbeatData {
        custom_mode: 0,
        mavtype: MavType::OnboardController,
        autopilot: MavAutopilot::Invalid,
        base_mode: 0,
        system_status: MavState::Standby,
        mavlink_version: 3,
    }
}

/// Whether `s` starts with the prefix `p`.
pub open spec fn has_prefix(s: Seq<char>, p: Seq<char>) -> bool {
    s.len() >= p.len() && s.subrange(0, p.len() as int) == p
}

fn starts_with(s: &str, p: &str) -> (r: bool)
    ensures
        r == has_prefix(s@, p@),
{
    let n = s.unicode_len();
    let m = p.unicode_len();
    if n < m {
        return false;
    }
    let head = s.substring_char(0, m);
    str_eq(head, p)
}

/// Whether a connection string names a supported transport: a UDP or TCP
/// endpoint, or a serial device.
pub fn connection_string_supported(s: &str) -> (r: bool)
    ensures
        r == (has_prefix(s@, "udpin:"@) || has_prefix(s@, "udpout:"@) || has_prefix(
            s@,
            "tcpin:"@,
        ) || has_prefix(s@, "tcpout:"@) || has_prefix(s@, "serial:"@)),
{
    starts_with(s, "udpin:") || starts_with(s, "udpout:") || starts_with(s, "tcpin:")
        || starts_with(s, "tcpout:") || starts_with(s, "serial:")
}

} // verus!
