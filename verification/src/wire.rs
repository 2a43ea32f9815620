//! The wire envelope: a message carries a protocol version and an ordered
//! list of packets; a packet is a tagged operation or response. A decoded
//! tag outside the known range is kept as an unsupported packet rather
//! than failing the whole message.

use vstd::prelude::*;
use crate::document::{DocV, Document, view_doc};

verus! {

broadcast use vstd::seq::group_seq_axioms, vstd::std_specs::vec::group_vec_axioms;

/// The protocol version the server stamps on every reply.
pub const CURRENT_VERSION: u32 = 1;

/// The version an envelope carries while it is not yet real: the
/// accumulator skips such a message.
pub const PLACEHOLDER_VERSION: u32 = 0;

/// An operation or response unit of the wire protocol.
#[derive(Debug, PartialEq, Eq)]
pub enum Packet {
    /// Store a payload under (a filtered form of) the pattern hint.
    TryPut { pattern: Option<String>, payload: Option<Vec<u8>> },
    /// Fetch the payload stored under the pattern.
    TryGet { pattern: Option<String> },
    /// Delete the record if both pattern and capability match.
    TryDelete { pattern: Option<String>, capability: Option<Vec<u8>> },
    /// Reply to a successful put: the capability, and the sanitized root
    /// document when the root itself was entity-shaped.
    PutSuccess { capability: Vec<u8>, sanitized_entity: Option<Document> },
    /// Reply to a successful get.
    GetSuccess { payload: Vec<u8> },
    /// Reply to a non-erroring delete, whether or not a record left.
    DeleteSuccess,
    /// Reply carrying an error code and text.
    ErrorResponse { code: u16, message: String },
    /// A packet whose tag the codec does not know. Tag zero stands for an
    /// absent operation; tags past the known range are kept as they came.
    Unsupported { tag: u8 },
}

/// The message envelope.
#[derive(Debug, PartialEq, Eq)]
pub struct Message {
    pub version: u32,
    pub packets: Vec<Packet>,
}

/// The mathematical model of a packet.
pub enum PacketV {
    TryPut { pattern: Option<Seq<char>>, payload: Option<Seq<u8>> },
    TryGet { pattern: Option<Seq<char>> },
    TryDelete { pattern: Option<Seq<char>>, capability: Option<Seq<u8>> },
    PutSuccess { capability: Seq<u8>, sanitized_entity: Option<DocV> },
    GetSuccess { payload: Seq<u8> },
    DeleteSuccess,
    ErrorResponse { code: u16, message: Seq<char> },
    Unsupported { tag: u8 },
}

/// The mathematical model of a message.
pub struct MessageV {
    pub version: u32,
    pub packets: Seq<PacketV>,
}

pub open spec fn view_opt_str(s: Option<String>) -> Option<Seq<char>> {
    match s {
        Some(s) => Some(s@),
        None => None,
    }
}

pub open spec fn view_opt_bytes(b: Option<Vec<u8>>) -> Option<Seq<u8>> {
    match b {
        Some(b) => Some(b@),
        None => None,
    }
}

pub open spec fn view_packet(p: Packet) -> PacketV {
    match p {
        Packet::TryPut { pattern, payload } => PacketV::TryPut {
            pattern: view_opt_str(pattern),
            payload: view_opt_bytes(payload),
        },
        Packet::TryGet { pattern } => PacketV::TryGet { pattern: view_opt_str(pattern) },
        Packet::TryDelete { pattern, capability } => PacketV::TryDelete {
            pattern: view_opt_str(pattern),
            capability: view_opt_bytes(capability),
        },
        Packet::PutSuccess { capability, sanitized_entity } => PacketV::PutSuccess {
            capability: capability@,
            sanitized_entity: match sanitized_entity {
                Some(d) => Some(view_doc(d)),
                None => None,
            },
        },
        Packet::GetSuccess { payload } => PacketV::GetSuccess { payload: payload@ },
        Packet::DeleteSuccess => PacketV::DeleteSuccess,
        Packet::ErrorResponse { code, message } => PacketV::ErrorResponse {
            code,
            message: message@,
        },
        Packet::Unsupported { tag } => PacketV::Unsupported { tag },
    }
}

pub open spec fn view_packets(s: Seq<Packet>) -> Seq<PacketV> {
    Seq::new(s.len(), |i: int| view_packet(s[i]))
}

pub open spec fn view_msg(m: Message) -> MessageV {
    MessageV { version: m.version, packets: view_packets(m.packets@) }
}

impl View for Packet {
    type V = PacketV;

    open spec fn view(&self) -> PacketV {
        view_packet(*self)
    }
}

impl View for Message {
    type V = MessageV;

    open spec fn view(&self) -> MessageV {
        view_msg(*self)
    }
}

} // verus!
