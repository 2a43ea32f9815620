//! The per-connection dispatcher: what each inbound packet does to the
//! store and which reply packet it earns, and the framing decision the
//! accumulation loop follows. Transport reads and writes stay outside the
//! library; the loop around these functions performs them.

use vstd::prelude::*;
use vstd::slice::slice_to_vec;
use crate::codec::{dec_doc, dec_msg, enc_doc};
use crate::document::str_eq;
use crate::decode::decode_document;
use crate::encode::encode_document;
use crate::pattern::{restrict_to_alphabet, restricted};
use crate::rng::random_bytes;
use crate::sanitize::{entity_tag, sanitize, sanitize_v};
use crate::store::{PATTERN_KEY_MAX, RecordV, Store, spec_delete_if, spec_get, spec_put};
use crate::wire::{CURRENT_VERSION, Message, Packet, PacketV, PLACEHOLDER_VERSION,
    view_packet, view_packets};

verus! {

broadcast use vstd::seq::group_seq_axioms, vstd::std_specs::vec::group_vec_axioms;

/// The length of every capability token.
pub const CAP_LEN: usize = 255;

/// How long a record lives after its insertion, in seconds.
pub const SHELF_LIFE_SECS: u64 = 3600;

/// The reply text when a response-tagged packet arrives inbound.
pub open spec fn msg_s2c() -> Seq<char> {
    "do not send response packets to the server"@
}

/// The reply text when a required field is missing or the operation tag
/// is absent.
pub open spec fn msg_fields() -> Seq<char> {
    "please fill all required fields"@
}

/// The reply text for a tag past the known range.
pub open spec fn msg_unsupported() -> Seq<char> {
    "unsupported request type"@
}

/// The reply text when a put payload does not decode as a document.
pub open spec fn msg_bad_document() -> Seq<char> {
    "payload is not a decodable document"@
}

/// The reply text when a lookup finds nothing; a backend failure would
/// earn the same code, the two are not distinguished.
pub open spec fn msg_miss() -> Seq<char> {
    "no record under that pattern"@
}

/// The reply text when the filtered pattern key exceeds what the
/// persisted record shape admits.
pub open spec fn msg_key_too_long() -> Seq<char> {
    "pattern key exceeds the backend limit"@
}

pub open spec fn err_v(code: u16, message: Seq<char>) -> PacketV {
    PacketV::ErrorResponse { code, message }
}

/// The expiry a record inserted at `now` gets: the fixed shelf life past
/// the insertion instant, saturating at the end of representable time.
pub open spec fn expiry_at(now: u64) -> u64 {
    if now + SHELF_LIFE_SECS > u64::MAX {
        u64::MAX
    } else {
        (now + SHELF_LIFE_SECS) as u64
    }
}

/// What one inbound packet does: the reply it earns and the store it
/// leaves behind. `cap` is the capability token drawn for a successful
/// put; every other outcome ignores it.
pub open spec fn packet_outcome(
    m: Map<Seq<char>, RecordV>,
    p: PacketV,
    now: u64,
    cap: Seq<u8>,
) -> (PacketV, Map<Seq<char>, RecordV>) {
    match p {
        PacketV::TryPut { pattern, payload } => match (pattern, payload) {
            (Some(pat), Some(pl)) => match dec_doc(pl) {
                None => (err_v(400, msg_bad_document()), m),
                Some((d, _)) => {
                    let key = restricted(pat);
                    if key.len() > PATTERN_KEY_MAX {
                        (err_v(500, msg_key_too_long()), m)
                    } else {
                        let sd = sanitize_v(d);
                        (
                            PacketV::PutSuccess {
                                capability: cap,
                                sanitized_entity: if d.tag == entity_tag() {
                                    Some(sd)
                                } else {
                                    None
                                },
                            },
                            spec_put(
                                m,
                                key,
                                RecordV { data: enc_doc(sd), capability: cap, expiry: expiry_at(now) },
                            ),
                        )
                    }
                },
            },
            _ => (err_v(400, msg_fields()), m),
        },
        PacketV::TryGet { pattern } => match pattern {
            Some(pat) => match spec_get(m, restricted(pat)) {
                Some(bts) => (PacketV::GetSuccess { payload: bts }, m),
                None => (err_v(500, msg_miss()), m),
            },
            None => (err_v(400, msg_fields()), m),
        },
        PacketV::TryDelete { pattern, capability } => match (pattern, capability) {
            (Some(pat), Some(c)) => (PacketV::DeleteSuccess, spec_delete_if(m, restricted(pat), c)),
            _ => (err_v(400, msg_fields()), m),
        },
        PacketV::Unsupported { tag } => if tag == 0 {
            (err_v(400, msg_fields()), m)
        } else {
            (err_v(400, msg_unsupported()), m)
        },
        _ => (err_v(400, msg_s2c()), m),
    }
}

/// What a whole inbound packet list does, threading the store through the
/// packets in order, one drawn capability per packet.
pub open spec fn message_outcome(
    m: Map<Seq<char>, RecordV>,
    ps: Seq<PacketV>,
    now: u64,
    caps: Seq<Seq<u8>>,
) -> (Seq<PacketV>, Map<Seq<char>, RecordV>)
    decreases ps.len(),
{
    if ps.len() == 0 {
        (Seq::empty(), m)
    } else {
        let (r, m1) = packet_outcome(m, ps[0], now, caps[0]);
        let (rs, m2) = message_outcome(m1, ps.drop_first(), now, caps.drop_first());
        (seq![r] + rs, m2)
    }
}

/// Whether `reply` and the store state `m1` are one possible outcome of
/// packet `p` against store `m0`: some capability of the fixed length
/// accounts for them.
pub open spec fn packet_outcome_with(
    m0: Map<Seq<char>, RecordV>,
    p: PacketV,
    now: u64,
    cap: Seq<u8>,
    reply: PacketV,
    m1: Map<Seq<char>, RecordV>,
) -> bool {
    cap.len() == CAP_LEN && (reply, m1) == packet_outcome(m0, p, now, cap)
}

pub open spec fn message_outcome_with(
    m0: Map<Seq<char>, RecordV>,
    ps: Seq<PacketV>,
    now: u64,
    caps: Seq<Seq<u8>>,
    replies: Seq<PacketV>,
    m1: Map<Seq<char>, RecordV>,
) -> bool {
    caps.len() == ps.len() && (forall|i: int|
        0 <= i < caps.len() ==> (#[trigger] caps[i]).len() == CAP_LEN) && (replies, m1)
        == message_outcome(m0, ps, now, caps)
}

fn err_packet(code: u16, message: &str) -> (p: Packet)
    ensures
        view_packet(p) == err_v(code, message@),
{
    Packet::ErrorResponse { code, message: message.to_owned() }
}

/// Handle one inbound packet: perform its operation on the store and
/// build the reply packet, drawing a fresh capability when a put
/// succeeds.
pub fn handle_packet(store: &mut Store, p: &Packet, now: u64) -> (reply: Packet)
    requires
        old(store).wf(),
    ensures
        final(store).wf(),
        exists|cap: Seq<u8>|
            #[trigger] packet_outcome_with(
                old(store)@,
                view_packet(*p),
                now,
                cap,
                view_packet(reply),
                final(store)@,
            ),
{
    let ghost m0 = store@;
    let ghost pv = view_packet(*p);
    let ghost any_cap = Seq::<u8>::new(CAP_LEN as nat, |i: int| 0u8);
    match p {
        Packet::TryPut { pattern, payload } => {
            match (pattern, payload) {
                (Some(pat), Some(pl)) => {
                    match decode_document(pl) {
                        None => {
                            let r = err_packet(400, "payload is not a decodable document");
                            proof {
                                assert(packet_outcome_with(
                                    m0, pv, now, any_cap, view_packet(r), store@));
                            }
                            r
                        },
                        Some((d, _)) => {
                            let key = restrict_to_alphabet(pat.as_str());
                            if key.unicode_len() > PATTERN_KEY_MAX {
                                let r = err_packet(500, "pattern key exceeds the backend limit");
                                proof {
                                    assert(packet_outcome_with(
                                        m0, pv, now, any_cap, view_packet(r), store@));
                                }
                                r
                            } else {
                                let sd = sanitize(&d);
                                let bytes = encode_document(&sd);
                                let cap = random_bytes(CAP_LEN);
                                let ghost capv = cap@;
                                let cap_stored = slice_to_vec(cap.as_slice());
                                let exp = if now > u64::MAX - SHELF_LIFE_SECS {
                                    u64::MAX
                                } else {
                                    now + SHELF_LIFE_SECS
                                };
                                store.put(key.as_str(), bytes, cap_stored, exp);
                                let is_entity = str_eq(d.tag.as_str(), "hexcasting:entity");
                                let sanitized_entity: Option<crate::document::Document> =
                                    if is_entity {
                                    Some(sd)
                                } else {
                                    None
                                };
                                let r = Packet::PutSuccess { capability: cap, sanitized_entity };
                                proof {
                                    assert(packet_outcome_with(
                                        m0, pv, now, capv, view_packet(r), store@));
                                }
                                r
                            }
                        },
                    }
                },
                _ => {
                    let r = err_packet(400, "please fill all required fields");
                    proof {
                        assert(packet_outcome_with(m0, pv, now, any_cap, view_packet(r), store@));
                    }
                    r
                },
            }
        },
        Packet::TryGet { pattern } => {
            match pattern {
                Some(pat) => {
                    let key = restrict_to_alphabet(pat.as_str());
                    match store.get(key.as_str()) {
                        Some(bytes) => {
                            let r = Packet::GetSuccess { payload: bytes };
                            proof {
                                assert(packet_outcome_with(
                                    m0, pv, now, any_cap, view_packet(r), store@));
                            }
                            r
                        },
                        None => {
                            let r = err_packet(500, "no record under that pattern");
                            proof {
                                assert(packet_outcome_with(
                                    m0, pv, now, any_cap, view_packet(r), store@));
                            }
                            r
                        },
                    }
                },
                None => {
                    let r = err_packet(400, "please fill all required fields");
                    proof {
                        assert(packet_outcome_with(m0, pv, now, any_cap, view_packet(r), store@));
                    }
                    r
                },
            }
        },
        Packet::TryDelete { pattern, capability } => {
            match (pattern, capability) {
                (Some(pat), Some(c)) => {
                    let key = restrict_to_alphabet(pat.as_str());
                    store.delete_if(key.as_str(), c);
                    let r = Packet::DeleteSuccess;
                    proof {
                        assert(packet_outcome_with(m0, pv, now, any_cap, view_packet(r), store@));
                    }
                    r
                },
                _ => {
                    let r = err_packet(400, "please fill all required fields");
                    proof {
                        assert(packet_outcome_with(m0, pv, now, any_cap, view_packet(r), store@));
                    }
                    r
                },
            }
        },
        Packet::Unsupported { tag } => {
            if *tag == 0 {
                let r = err_packet(400, "please fill all required fields");
                proof {
                    assert(packet_outcome_with(m0, pv, now, any_cap, view_packet(r), store@));
                }
                r
            } else {
                let r = err_packet(400, "unsupported request type");
                proof {
                    assert(packet_outcome_with(m0, pv, now, any_cap, view_packet(r), store@));
                }
                r
            }
        },
        _ => {
            let r = err_packet(400, "do not send response packets to the server");
            proof {
                assert(packet_outcome_with(m0, pv, now, any_cap, view_packet(r), store@));
            }
            r
        },
    }
}

proof fn lemma_message_outcome_snoc(
    m0: Map<Seq<char>, RecordV>,
    ps: Seq<PacketV>,
    now: u64,
    caps: Seq<Seq<u8>>,
    p: PacketV,
    cap: Seq<u8>,
)
    requires
        caps.len() == ps.len(),
    ensures
        ({
            let (rs, m1) = message_outcome(m0, ps, now, caps);
            let (r, m2) = packet_outcome(m1, p, now, cap);
            message_outcome(m0, ps.push(p), now, caps.push(cap)) == (rs.push(r), m2)
        }),
    decreases ps.len(),
{
    let psp = ps.push(p);
    let capsp = caps.push(cap);
    if ps.len() == 0 {
        assert(psp[0] == p);
        assert(capsp[0] == cap);
        assert(psp.drop_first() =~= Seq::<PacketV>::empty());
        assert(capsp.drop_first() =~= Seq::<Seq<u8>>::empty());
        let (r, m2) = packet_outcome(m0, p, now, cap);
        assert(seq![r] + Seq::<PacketV>::empty() =~= Seq::<PacketV>::empty().push(r));
        assert(message_outcome(m0, psp, now, capsp).0 == seq![r] + message_outcome(
            m2,
            psp.drop_first(),
            now,
            capsp.drop_first(),
        ).0);
        assert(message_outcome(m2, psp.drop_first(), now, capsp.drop_first()) == (
            Seq::<PacketV>::empty(),
            m2,
        ));
    } else {
        assert(psp[0] == ps[0]);
        assert(capsp[0] == caps[0]);
        assert(psp.drop_first() =~= ps.drop_first().push(p));
        assert(capsp.drop_first() =~= caps.drop_first().push(cap));
        let (r0, m1) = packet_outcome(m0, ps[0], now, caps[0]);
        lemma_message_outcome_snoc(m1, ps.drop_first(), now, caps.drop_first(), p, cap);
        let (rs1, mm) = message_outcome(m1, ps.drop_first(), now, caps.drop_first());
        let (r, m2) = packet_outcome(mm, p, now, cap);
        assert(message_outcome(m0, psp, now, capsp).0 == seq![r0] + message_outcome(
            m1,
            psp.drop_first(),
            now,
            capsp.drop_first(),
        ).0);
        assert(message_outcome(m1, psp.drop_first(), now, capsp.drop_first()) == (
            rs1.push(r),
            m2,
        ));
        assert(seq![r0] + rs1.push(r) =~= (seq![r0] + rs1).push(r));
        assert(message_outcome(m0, ps, now, caps) == (seq![r0] + rs1, mm));
    }
}

/// Handle one inbound message: dispatch every packet in order, each
/// against the store the one before left behind, and build the reply
/// envelope carrying one response per packet, in the same order, under
/// the current protocol version. An empty packet list earns an empty
/// reply.
pub fn handle_message(store: &mut Store, m: &Message, now: u64) -> (reply: Message)
    requires
        old(store).wf(),
    ensures
        final(store).wf(),
        reply@.version == CURRENT_VERSION,
        reply@.packets.len() == m@.packets.len(),
        exists|caps: Seq<Seq<u8>>|
            #[trigger] message_outcome_with(
                old(store)@,
                m@.packets,
                now,
                caps,
                reply@.packets,
                final(store)@,
            ),
{
    let ghost m0 = store@;
    let ghost pvs = view_packets(m.packets@);
    let mut responses: Vec<Packet> = Vec::new();
    let ghost mut caps: Seq<Seq<u8>> = Seq::empty();
    let mut i: usize = 0;
    while i < m.packets.len()
        invariant
            old(store).wf(),
            store.wf(),
            m0 == old(store)@,
            pvs == view_packets(m.packets@),
            i <= m.packets@.len(),
            responses@.len() == i,
            caps.len() == i,
            forall|j: int| 0 <= j < caps.len() ==> (#[trigger] caps[j]).len() == CAP_LEN,
            (view_packets(responses@), store@) == message_outcome(
                m0,
                pvs.take(i as int),
                now,
                caps,
            ),
        decreases m.packets@.len() - i,
    {
        let ghost m_before = store@;
        let r = handle_packet(store, &m.packets[i], now);
        proof {
            let cap = choose|cap: Seq<u8>|
                packet_outcome_with(
                    m_before,
                    view_packet(m.packets@[i as int]),
                    now,
                    cap,
                    view_packet(r),
                    store@,
                );
            lemma_message_outcome_snoc(m0, pvs.take(i as int), now, caps, pvs[i as int], cap);
            assert(pvs.take(i as int).push(pvs[i as int]) =~= pvs.take(i + 1));
            caps = caps.push(cap);
            assert(view_packets(responses@.push(r)) =~= view_packets(responses@).push(
                view_packet(r),
            ));
        }
        responses.push(r);
        i = i + 1;
    }
    proof {
        assert(pvs.take(m.packets@.len() as int) =~= pvs);
    }
    let reply = Message { version: CURRENT_VERSION, packets: responses };
    proof {
        assert(message_outcome_with(m0, pvs, now, caps, view_packets(reply.packets@), store@));
    }
    reply
}

/// What the accumulation loop decides from the bytes gathered so far: a
/// buffer whose front does not yet decode needs more bytes (which does
/// not tell incomplete from corrupt apart); a decoded envelope carrying
/// the placeholder version is skipped; any other decoded envelope is
/// dispatched.
#[derive(Debug)]
pub enum FrameStep {
    NeedMore,
    Skip { consumed: usize },
    Dispatch { message: Message, consumed: usize },
}

/// Decide what the bytes gathered so far call for.
pub fn frame_step(buf: &Vec<u8>) -> (r: FrameStep)
    ensures
        match r {
            FrameStep::NeedMore => dec_msg(buf@) is None,
            FrameStep::Skip { consumed } => (dec_msg(buf@) matches Some((mv, k)) && mv.version
                == PLACEHOLDER_VERSION && k == consumed) && 0 < consumed <= buf@.len(),
            FrameStep::Dispatch { message, consumed } => dec_msg(buf@) == Some(
                (message@, consumed as int),
            ) && message@.version != PLACEHOLDER_VERSION && 0 < consumed <= buf@.len(),
        },
{
    match crate::decode::decode_message(buf) {
        None => FrameStep::NeedMore,
        Some((message, consumed)) => {
            if message.version == PLACEHOLDER_VERSION {
                FrameStep::Skip { consumed }
            } else {
                FrameStep::Dispatch { message, consumed }
            }
        },
    }
}

} // verus!
