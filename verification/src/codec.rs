//! The wire codec, at the specification level: what a message, a packet
//! and a document look like as bytes, and what decoding a byte sequence
//! yields. Framing is length-prefixed throughout, so a decoder can tell a
//! complete prefix apart from one that needs more bytes only as a single
//! incomplete-or-invalid failure.
//!
//! Every count or length travels as eight little-endian bytes, a character
//! as its scalar value in four, an error code in two. A decoder returns
//! the decoded value and how many bytes it consumed; input past that
//! prefix is left for the caller.

use vstd::prelude::*;
use vstd::bytes::{spec_u16_to_le_bytes, spec_u16_from_le_bytes, spec_u32_to_le_bytes,
    spec_u32_from_le_bytes, spec_u64_to_le_bytes, spec_u64_from_le_bytes};
use vstd::utf8::is_scalar;
use crate::document::{DataV, DocV};
use crate::wire::{MessageV, PacketV};

verus! {

broadcast use vstd::seq::group_seq_axioms;

/// Data-field kind markers on the wire.
pub const DT_TEXT: u8 = 1;

pub const DT_NUM: u8 = 2;

pub const DT_BYTES: u8 = 3;

pub const DT_UNIT: u8 = 4;

pub const DT_LIST: u8 = 5;

pub const DT_DICT: u8 = 6;

/// Packet tag markers on the wire. Tag zero and every tag past the known
/// range decode as an unsupported packet.
pub const PT_TRY_PUT: u8 = 1;

pub const PT_TRY_GET: u8 = 2;

pub const PT_TRY_DELETE: u8 = 3;

pub const PT_PUT_SUCCESS: u8 = 4;

pub const PT_GET_SUCCESS: u8 = 5;

pub const PT_DELETE_SUCCESS: u8 = 6;

pub const PT_ERROR: u8 = 7;

// ---------------------------------------------------------------------
// Encoding
// ---------------------------------------------------------------------

pub open spec fn enc_u16(x: u16) -> Seq<u8> {
    spec_u16_to_le_bytes(x)
}

pub open spec fn enc_u32(x: u32) -> Seq<u8> {
    spec_u32_to_le_bytes(x)
}

pub open spec fn enc_u64(x: u64) -> Seq<u8> {
    spec_u64_to_le_bytes(x)
}

pub open spec fn enc_char(c: char) -> Seq<u8> {
    enc_u32(c as u32)
}

pub open spec fn enc_chars(s: Seq<char>) -> Seq<u8>
    decreases s.len(),
{
    if s.len() == 0 {
        Seq::empty()
    } else {
        enc_char(s[0]) + enc_chars(s.drop_first())
    }
}

pub open spec fn enc_str(s: Seq<char>) -> Seq<u8> {
    enc_u64(s.len() as u64) + enc_chars(s)
}

pub open spec fn enc_bytes(b: Seq<u8>) -> Seq<u8> {
    enc_u64(b.len() as u64) + b
}

pub open spec fn enc_opt_str(s: Option<Seq<char>>) -> Seq<u8> {
    match s {
        None => seq![0u8],
        Some(s) => seq![1u8] + enc_str(s),
    }
}

pub open spec fn enc_opt_bytes(b: Option<Seq<u8>>) -> Seq<u8> {
    match b {
        None => seq![0u8],
        Some(b) => seq![1u8] + enc_bytes(b),
    }
}

pub open spec fn enc_data(dd: DataV) -> Seq<u8>
    decreases dd,
{
    match dd {
        DataV::Text(s) => seq![DT_TEXT] + enc_str(s),
        DataV::Num(n) => seq![DT_NUM] + enc_u64(n as u64),
        DataV::Bytes(b) => seq![DT_BYTES] + enc_bytes(b),
        DataV::Unit => seq![DT_UNIT],
        DataV::List(l) => seq![DT_LIST] + enc_u64(l.len() as u64) + enc_docs(l),
        DataV::Dict(k, v) => seq![DT_DICT] + enc_u64(k.len() as u64) + enc_docs(k) + enc_u64(
            v.len() as u64,
        ) + enc_docs(v),
    }
}

pub open spec fn enc_doc(d: DocV) -> Seq<u8>
    decreases d,
{
    enc_str(d.tag) + enc_data(d.data)
}

pub open spec fn enc_docs(l: Seq<DocV>) -> Seq<u8>
    decreases l,
{
    if l.len() == 0 {
        Seq::empty()
    } else {
        enc_doc(l[0]) + enc_docs(l.drop_first())
    }
}

pub open spec fn enc_opt_doc(d: Option<DocV>) -> Seq<u8> {
    match d {
        None => seq![0u8],
        Some(d) => seq![1u8] + enc_doc(d),
    }
}

pub open spec fn enc_packet(p: PacketV) -> Seq<u8> {
    match p {
        PacketV::TryPut { pattern, payload } => seq![PT_TRY_PUT] + enc_opt_str(pattern)
            + enc_opt_bytes(payload),
        PacketV::TryGet { pattern } => seq![PT_TRY_GET] + enc_opt_str(pattern),
        PacketV::TryDelete { pattern, capability } => seq![PT_TRY_DELETE] + enc_opt_str(pattern)
            + enc_opt_bytes(capability),
        PacketV::PutSuccess { capability, sanitized_entity } => seq![PT_PUT_SUCCESS] + enc_bytes(
            capability,
        ) + enc_opt_doc(sanitized_entity),
        PacketV::GetSuccess { payload } => seq![PT_GET_SUCCESS] + enc_bytes(payload),
        PacketV::DeleteSuccess => seq![PT_DELETE_SUCCESS],
        PacketV::ErrorResponse { code, message } => seq![PT_ERROR] + enc_u16(code) + enc_str(
            message,
        ),
        PacketV::Unsupported { tag } => seq![tag],
    }
}

pub open spec fn enc_packets(ps: Seq<PacketV>) -> Seq<u8>
    decreases ps.len(),
{
    if ps.len() == 0 {
        Seq::empty()
    } else {
        enc_packet(ps[0]) + enc_packets(ps.drop_first())
    }
}

pub open spec fn enc_msg(m: MessageV) -> Seq<u8> {
    enc_u32(m.version) + enc_u64(m.packets.len() as u64) + enc_packets(m.packets)
}

// ---------------------------------------------------------------------
// Well-formedness: the lengths a length-prefixed frame can carry
// ---------------------------------------------------------------------

pub open spec fn wf_data(dd: DataV) -> bool
    decreases dd,
{
    match dd {
        DataV::Text(s) => s.len() <= u64::MAX,
        DataV::Num(_) => true,
        DataV::Bytes(b) => b.len() <= u64::MAX,
        DataV::Unit => true,
        DataV::List(l) => l.len() <= u64::MAX && wf_docs(l),
        DataV::Dict(k, v) => k.len() <= u64::MAX && v.len() <= u64::MAX && wf_docs(k) && wf_docs(
            v,
        ),
    }
}

pub open spec fn wf_doc(d: DocV) -> bool
    decreases d,
{
    d.tag.len() <= u64::MAX && wf_data(d.data)
}

pub open spec fn wf_docs(l: Seq<DocV>) -> bool
    decreases l,
{
    if l.len() == 0 {
        true
    } else {
        wf_doc(l[0]) && wf_docs(l.drop_first())
    }
}

pub open spec fn wf_opt_str(s: Option<Seq<char>>) -> bool {
    match s {
        None => true,
        Some(s) => s.len() <= u64::MAX,
    }
}

pub open spec fn wf_opt_bytes(b: Option<Seq<u8>>) -> bool {
    match b {
        None => true,
        Some(b) => b.len() <= u64::MAX,
    }
}

pub open spec fn wf_packet(p: PacketV) -> bool {
    match p {
        PacketV::TryPut { pattern, payload } => wf_opt_str(pattern) && wf_opt_bytes(payload),
        PacketV::TryGet { pattern } => wf_opt_str(pattern),
        PacketV::TryDelete { pattern, capability } => wf_opt_str(pattern) && wf_opt_bytes(
            capability,
        ),
        PacketV::PutSuccess { capability, sanitized_entity } => capability.len() <= u64::MAX
            && match sanitized_entity {
            None => true,
            Some(d) => wf_doc(d),
        },
        PacketV::GetSuccess { payload } => payload.len() <= u64::MAX,
        PacketV::DeleteSuccess => true,
        PacketV::ErrorResponse { code: _, message } => message.len() <= u64::MAX,
        PacketV::Unsupported { tag } => tag == 0 || tag >= 8,
    }
}

pub open spec fn wf_packets(ps: Seq<PacketV>) -> bool {
    forall|i: int| 0 <= i < ps.len() ==> wf_packet(#[trigger] ps[i])
}

pub open spec fn wf_msg(m: MessageV) -> bool {
    m.packets.len() <= u64::MAX && wf_packets(m.packets)
}

// ---------------------------------------------------------------------
// Decoding
// ---------------------------------------------------------------------

pub open spec fn dec_u16(b: Seq<u8>) -> Option<(u16, int)> {
    if b.len() >= 2 {
        Some((spec_u16_from_le_bytes(b.take(2)), 2int))
    } else {
        None
    }
}

pub open spec fn dec_u32(b: Seq<u8>) -> Option<(u32, int)> {
    if b.len() >= 4 {
        Some((spec_u32_from_le_bytes(b.take(4)), 4int))
    } else {
        None
    }
}

pub open spec fn dec_u64(b: Seq<u8>) -> Option<(u64, int)> {
    if b.len() >= 8 {
        Some((spec_u64_from_le_bytes(b.take(8)), 8int))
    } else {
        None
    }
}

pub open spec fn dec_char(b: Seq<u8>) -> Option<(char, int)> {
    match dec_u32(b) {
        None => None,
        Some((u, k)) => if is_scalar(u) {
            Some(((u as char), k))
        } else {
            None
        },
    }
}

pub open spec fn dec_chars(b: Seq<u8>, n: nat) -> Option<(Seq<char>, int)>
    decreases n,
{
    if n == 0 {
        Some((Seq::empty(), 0int))
    } else {
        match dec_char(b) {
            None => None,
            Some((c, _)) => if b.len() >= 4 {
                match dec_chars(b.skip(4), (n - 1) as nat) {
                    None => None,
                    Some((s, k)) => Some((seq![c] + s, 4 + k)),
                }
            } else {
                None
            },
        }
    }
}

pub open spec fn dec_str(b: Seq<u8>) -> Option<(Seq<char>, int)> {
    match dec_u64(b) {
        None => None,
        Some((n, _)) => match dec_chars(b.skip(8), n as nat) {
            None => None,
            Some((s, k)) => Some((s, 8 + k)),
        },
    }
}

pub open spec fn dec_bytes(b: Seq<u8>) -> Option<(Seq<u8>, int)> {
    match dec_u64(b) {
        None => None,
        Some((n, _)) => if b.len() - 8 >= n {
            Some((b.subrange(8, 8 + n as int), 8 + n as int))
        } else {
            None
        },
    }
}

pub open spec fn dec_opt_str(b: Seq<u8>) -> Option<(Option<Seq<char>>, int)> {
    if b.len() < 1 {
        None
    } else if b[0] == 0 {
        Some((None, 1int))
    } else if b[0] == 1 {
        match dec_str(b.skip(1)) {
            None => None,
            Some((s, k)) => Some((Some(s), 1 + k)),
        }
    } else {
        None
    }
}

pub open spec fn dec_opt_bytes(b: Seq<u8>) -> Option<(Option<Seq<u8>>, int)> {
    if b.len() < 1 {
        None
    } else if b[0] == 0 {
        Some((None, 1int))
    } else if b[0] == 1 {
        match dec_bytes(b.skip(1)) {
            None => None,
            Some((s, k)) => Some((Some(s), 1 + k)),
        }
    } else {
        None
    }
}

pub open spec fn dec_data(b: Seq<u8>) -> Option<(DataV, int)>
    decreases b.len(), 0int, 0int,
{
    if b.len() < 1 {
        None
    } else {
        let t = b[0];
        if t == DT_TEXT {
            match dec_str(b.skip(1)) {
                None => None,
                Some((s, k)) => Some((DataV::Text(s), 1 + k)),
            }
        } else if t == DT_NUM {
            match dec_u64(b.skip(1)) {
                None => None,
                Some((u, k)) => Some((DataV::Num(u as i64), 1 + k)),
            }
        } else if t == DT_BYTES {
            match dec_bytes(b.skip(1)) {
                None => None,
                Some((s, k)) => Some((DataV::Bytes(s), 1 + k)),
            }
        } else if t == DT_UNIT {
            Some((DataV::Unit, 1int))
        } else if t == DT_LIST {
            match dec_u64(b.skip(1)) {
                None => None,
                Some((n, _)) => match dec_docs(b.skip(9), n as nat) {
                    None => None,
                    Some((l, k)) => Some((DataV::List(l), 9 + k)),
                },
            }
        } else if t == DT_DICT {
            match dec_u64(b.skip(1)) {
                None => None,
                Some((nk, _)) => match dec_docs(b.skip(9), nk as nat) {
                    None => None,
                    Some((ks, k2)) => if 0 <= k2 && 9 + k2 + 8 <= b.len() {
                        match dec_u64(b.skip(9 + k2)) {
                            None => None,
                            Some((nv, _)) => match dec_docs(b.skip(17 + k2), nv as nat) {
                                None => None,
                                Some((vs, k3)) => Some((DataV::Dict(ks, vs), 17 + k2 + k3)),
                            },
                        }
                    } else {
                        None
                    },
                },
            }
        } else {
            None
        }
    }
}

pub open spec fn dec_doc(b: Seq<u8>) -> Option<(DocV, int)>
    decreases b.len(), 0int, 0int,
{
    match dec_str(b) {
        None => None,
        Some((tag, k1)) => if 1 <= k1 <= b.len() {
            match dec_data(b.skip(k1)) {
                None => None,
                Some((dd, k2)) => Some((DocV { tag, data: dd }, k1 + k2)),
            }
        } else {
            None
        },
    }
}

pub open spec fn dec_docs(b: Seq<u8>, n: nat) -> Option<(Seq<DocV>, int)>
    decreases b.len(), 1int, n,
{
    if n == 0 {
        Some((Seq::empty(), 0int))
    } else {
        match dec_doc(b) {
            None => None,
            Some((d, k)) => if 1 <= k <= b.len() {
                match dec_docs(b.skip(k), (n - 1) as nat) {
                    None => None,
                    Some((l, k2)) => Some((seq![d] + l, k + k2)),
                }
            } else {
                None
            },
        }
    }
}

pub open spec fn dec_opt_doc(b: Seq<u8>) -> Option<(Option<DocV>, int)> {
    if b.len() < 1 {
        None
    } else if b[0] == 0 {
        Some((None, 1int))
    } else if b[0] == 1 {
        match dec_doc(b.skip(1)) {
            None => None,
            Some((d, k)) => Some((Some(d), 1 + k)),
        }
    } else {
        None
    }
}

pub open spec fn dec_packet(b: Seq<u8>) -> Option<(PacketV, int)> {
    if b.len() < 1 {
        None
    } else {
        let t = b[0];
        if t == PT_TRY_PUT {
            match dec_opt_str(b.skip(1)) {
                None => None,
                Some((pattern, k1)) => if 0 <= k1 && 1 + k1 <= b.len() {
                    match dec_opt_bytes(b.skip(1 + k1)) {
                        None => None,
                        Some((payload, k2)) => Some(
                            (PacketV::TryPut { pattern, payload }, 1 + k1 + k2),
                        ),
                    }
                } else {
                    None
                },
            }
        } else if t == PT_TRY_GET {
            match dec_opt_str(b.skip(1)) {
                None => None,
                Some((pattern, k1)) => Some((PacketV::TryGet { pattern }, 1 + k1)),
            }
        } else if t == PT_TRY_DELETE {
            match dec_opt_str(b.skip(1)) {
                None => None,
                Some((pattern, k1)) => if 0 <= k1 && 1 + k1 <= b.len() {
                    match dec_opt_bytes(b.skip(1 + k1)) {
                        None => None,
                        Some((capability, k2)) => Some(
                            (PacketV::TryDelete { pattern, capability }, 1 + k1 + k2),
                        ),
                    }
                } else {
                    None
                },
            }
        } else if t == PT_PUT_SUCCESS {
            match dec_bytes(b.skip(1)) {
                None => None,
                Some((capability, k1)) => if 0 <= k1 && 1 + k1 <= b.len() {
                    match dec_opt_doc(b.skip(1 + k1)) {
                        None => None,
                        Some((sanitized_entity, k2)) => Some(
                            (PacketV::PutSuccess { capability, sanitized_entity }, 1 + k1 + k2),
                        ),
                    }
                } else {
                    None
                },
            }
        } else if t == PT_GET_SUCCESS {
            match dec_bytes(b.skip(1)) {
                None => None,
                Some((payload, k1)) => Some((PacketV::GetSuccess { payload }, 1 + k1)),
            }
        } else if t == PT_DELETE_SUCCESS {
            Some((PacketV::DeleteSuccess, 1int))
        } else if t == PT_ERROR {
            match dec_u16(b.skip(1)) {
                None => None,
                Some((code, _)) => match dec_str(b.skip(3)) {
                    None => None,
                    Some((message, k2)) => Some(
                        (PacketV::ErrorResponse { code, message }, 3 + k2),
                    ),
                },
            }
        } else {
            Some((PacketV::Unsupported { tag: t }, 1int))
        }
    }
}

pub open spec fn dec_packets(b: Seq<u8>, n: nat) -> Option<(Seq<PacketV>, int)>
    decreases n,
{
    if n == 0 {
        Some((Seq::empty(), 0int))
    } else {
        match dec_packet(b) {
            None => None,
            Some((p, k)) => if 1 <= k <= b.len() {
                match dec_packets(b.skip(k), (n - 1) as nat) {
                    None => None,
                    Some((l, k2)) => Some((seq![p] + l, k + k2)),
                }
            } else {
                None
            },
        }
    }
}

pub open spec fn dec_msg(b: Seq<u8>) -> Option<(MessageV, int)> {
    match dec_u32(b) {
        None => None,
        Some((version, _)) => match dec_u64(b.skip(4)) {
            None => None,
            Some((n, _)) => match dec_packets(b.skip(12), n as nat) {
                None => None,
                Some((packets, k)) => Some((MessageV { version, packets }, 12 + k)),
            },
        },
    }
}

} // verus!
