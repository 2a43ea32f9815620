//! The executable decoder: returns exactly what the specification decoder
//! describes, both when it succeeds and when it fails.

use vstd::prelude::*;
use vstd::bytes::{u16_from_le_bytes, u32_from_le_bytes, u64_from_le_bytes};
use vstd::slice::{slice_subrange, slice_to_vec};
use vstd::utf8::is_scalar;
use crate::codec::{dec_u16, dec_u32, dec_u64, dec_char, dec_chars, dec_str, dec_bytes,
    dec_opt_str, dec_opt_bytes, dec_data, dec_doc, dec_docs, dec_opt_doc, dec_packet, dec_packets,
    dec_msg, DT_TEXT, DT_NUM, DT_BYTES, DT_UNIT, DT_LIST, DT_DICT, PT_TRY_PUT, PT_TRY_GET,
    PT_TRY_DELETE, PT_PUT_SUCCESS, PT_GET_SUCCESS, PT_DELETE_SUCCESS, PT_ERROR};
use crate::document::{DocData, Document, view_data, view_doc, view_docs};
use crate::wire::{Message, Packet, view_opt_bytes, view_opt_str, view_packet, view_packets};

verus! {

broadcast use vstd::seq::group_seq_axioms, vstd::std_specs::vec::group_vec_axioms;

/// Relies on std's `char::from_u32`: it returns the character for every
/// Unicode scalar value and `None` for surrogates and out-of-range values.
#[verifier::external_body]
fn char_from_u32(u: u32) -> (r: Option<char>)
    ensures
        r == if is_scalar(u) {
            Some(u as char)
        } else {
            None::<char>
        },
{
    char::from_u32(u)
}

/// Relies on std's `String::push`: it appends the character.
#[verifier::external_body]
fn string_push(s: &mut String, c: char)
    ensures
        final(s)@ == old(s)@.push(c),
{
    s.push(c)
}

fn read_u16(buf: &Vec<u8>, pos: usize) -> (r: Option<(u16, usize)>)
    requires
        pos <= buf@.len(),
    ensures
        match r {
            None => dec_u16(buf@.skip(pos as int)) is None,
            Some((x, end)) => end == pos + 2 && end <= buf@.len() && dec_u16(
                buf@.skip(pos as int),
            ) == Some((x, 2int)),
        },
{
    if buf.len() - pos >= 2 {
        let s = slice_subrange(buf.as_slice(), pos, pos + 2);
        let x = u16_from_le_bytes(s);
        proof {
            assert(s@ =~= buf@.skip(pos as int).take(2));
        }
        Some((x, pos + 2))
    } else {
        None
    }
}

fn read_u32(buf: &Vec<u8>, pos: usize) -> (r: Option<(u32, usize)>)
    requires
        pos <= buf@.len(),
    ensures
        match r {
            None => dec_u32(buf@.skip(pos as int)) is None,
            Some((x, end)) => end == pos + 4 && end <= buf@.len() && dec_u32(
                buf@.skip(pos as int),
            ) == Some((x, 4int)),
        },
{
    if buf.len() - pos >= 4 {
        let s = slice_subrange(buf.as_slice(), pos, pos + 4);
        let x = u32_from_le_bytes(s);
        proof {
            assert(s@ =~= buf@.skip(pos as int).take(4));
        }
        Some((x, pos + 4))
    } else {
        None
    }
}

fn read_u64(buf: &Vec<u8>, pos: usize) -> (r: Option<(u64, usize)>)
    requires
        pos <= buf@.len(),
    ensures
        match r {
            None => dec_u64(buf@.skip(pos as int)) is None,
            Some((x, end)) => end == pos + 8 && end <= buf@.len() && dec_u64(
                buf@.skip(pos as int),
            ) == Some((x, 8int)),
        },
{
    if buf.len() - pos >= 8 {
        let s = slice_subrange(buf.as_slice(), pos, pos + 8);
        let x = u64_from_le_bytes(s);
        proof {
            assert(s@ =~= buf@.skip(pos as int).take(8));
        }
        Some((x, pos + 8))
    } else {
        None
    }
}

#[verifier::loop_isolation(false)]
fn decode_str(buf: &Vec<u8>, pos: usize) -> (r: Option<(String, usize)>)
    requires
        pos <= buf@.len(),
    ensures
        match r {
            None => dec_str(buf@.skip(pos as int)) is None,
            Some((s, end)) => pos < end <= buf@.len() && dec_str(buf@.skip(pos as int)) == Some(
                (s@, (end - pos) as int),
            ),
        },
{
    let ghost b = buf@.skip(pos as int);
    match read_u64(buf, pos) {
        None => None,
        Some((n, start)) => {
            proof {
                assert(b.skip(8) =~= buf@.skip(start as int));
            }
            let mut out = String::new();
            let mut p = start;
            let mut i: u64 = 0;
            while i < n
                invariant
                    pos + 8 == start <= p <= buf@.len(),
                    i <= n,
                    p == start + 4 * i,
                    dec_chars(buf@.skip(start as int), n as nat) == (match dec_chars(
                        buf@.skip(p as int),
                        (n - i) as nat,
                    ) {
                        None => None::<(Seq<char>, int)>,
                        Some((s2, k2)) => Some((out@ + s2, p - start + k2)),
                    }),
                decreases n - i,
            {
                if buf.len() - p < 4 {
                    proof {
                        assert(dec_chars(buf@.skip(p as int), (n - i) as nat) is None);
                    }
                    return None;
                }
                let x = match read_u32(buf, p) {
                    Some((x, _)) => x,
                    None => {
                        proof {
                            assert(false);
                        }
                        return None;
                    },
                };
                match char_from_u32(x) {
                    None => {
                        proof {
                            assert(dec_char(buf@.skip(p as int)) is None);
                            assert(dec_chars(buf@.skip(p as int), (n - i) as nat) is None);
                        }
                        return None;
                    },
                    Some(c) => {
                        proof {
                            assert(dec_char(buf@.skip(p as int)) == Some((c, 4int)));
                            assert(buf@.skip(p as int).skip(4) =~= buf@.skip(p + 4));
                        }
                        let ghost out0 = out@;
                        string_push(&mut out, c);
                        proof {
                            assert forall|s3: Seq<char>| true implies out0 + (seq![c] + s3) == (
                            out0.push(c)) + s3 by {
                                assert(out0 + (seq![c] + s3) =~= (out0.push(c)) + s3);
                            }
                        }
                        p = p + 4;
                        i = i + 1;
                    },
                }
            }
            proof {
                assert(dec_chars(buf@.skip(p as int), 0) == Some((Seq::<char>::empty(), 0int)));
                assert(out@ + Seq::<char>::empty() =~= out@);
                assert(dec_chars(buf@.skip(start as int), n as nat) == Some(
                    (out@, (p - start) as int),
                ));
                assert(dec_str(b) == Some((out@, (p - pos) as int)));
            }
            Some((out, p))
        },
    }
}

fn decode_bytes(buf: &Vec<u8>, pos: usize) -> (r: Option<(Vec<u8>, usize)>)
    requires
        pos <= buf@.len(),
    ensures
        match r {
            None => dec_bytes(buf@.skip(pos as int)) is None,
            Some((v, end)) => pos < end <= buf@.len() && dec_bytes(buf@.skip(pos as int)) == Some(
                (v@, (end - pos) as int),
            ),
        },
{
    let ghost b = buf@.skip(pos as int);
    match read_u64(buf, pos) {
        None => None,
        Some((n, start)) => {
            if n <= (buf.len() - start) as u64 {
                let nn = n as usize;
                let s = slice_subrange(buf.as_slice(), start, start + nn);
                let v = slice_to_vec(s);
                proof {
                    assert(v@ =~= b.subrange(8, 8 + n as int));
                }
                Some((v, start + nn))
            } else {
                proof {
                    assert(b.len() - 8 < n);
                }
                None
            }
        },
    }
}

fn decode_opt_str(buf: &Vec<u8>, pos: usize) -> (r: Option<(Option<String>, usize)>)
    requires
        pos <= buf@.len(),
    ensures
        match r {
            None => dec_opt_str(buf@.skip(pos as int)) is None,
            Some((s, end)) => pos < end <= buf@.len() && dec_opt_str(buf@.skip(pos as int))
                == Some((view_opt_str(s), (end - pos) as int)),
        },
{
    let ghost b = buf@.skip(pos as int);
    if pos >= buf.len() {
        return None;
    }
    let t = buf[pos];
    proof {
        assert(b[0] == buf@[pos as int]);
        assert(b.skip(1) =~= buf@.skip(pos + 1));
    }
    if t == 0 {
        Some((None, pos + 1))
    } else if t == 1 {
        match decode_str(buf, pos + 1) {
            None => None,
            Some((s, end)) => Some((Some(s), end)),
        }
    } else {
        None
    }
}

fn decode_opt_bytes(buf: &Vec<u8>, pos: usize) -> (r: Option<(Option<Vec<u8>>, usize)>)
    requires
        pos <= buf@.len(),
    ensures
        match r {
            None => dec_opt_bytes(buf@.skip(pos as int)) is None,
            Some((v, end)) => pos < end <= buf@.len() && dec_opt_bytes(buf@.skip(pos as int))
                == Some((view_opt_bytes(v), (end - pos) as int)),
        },
{
    let ghost b = buf@.skip(pos as int);
    if pos >= buf.len() {
        return None;
    }
    let t = buf[pos];
    proof {
        assert(b[0] == buf@[pos as int]);
        assert(b.skip(1) =~= buf@.skip(pos + 1));
    }
    if t == 0 {
        Some((None, pos + 1))
    } else if t == 1 {
        match decode_bytes(buf, pos + 1) {
            None => None,
            Some((v, end)) => Some((Some(v), end)),
        }
    } else {
        None
    }
}

fn decode_doc(buf: &Vec<u8>, pos: usize) -> (r: Option<(Document, usize)>)
    requires
        pos <= buf@.len(),
    ensures
        match r {
            None => dec_doc(buf@.skip(pos as int)) is None,
            Some((d, end)) => pos < end <= buf@.len() && dec_doc(buf@.skip(pos as int)) == Some(
                (view_doc(d), (end - pos) as int),
            ),
        },
    decreases buf@.len() - pos, 0int, 0int,
{
    let ghost b = buf@.skip(pos as int);
    match decode_str(buf, pos) {
        None => None,
        Some((tag, p1)) => {
            proof {
                assert(b.skip((p1 - pos) as int) =~= buf@.skip(p1 as int));
            }
            match decode_data(buf, p1) {
                None => None,
                Some((dd, p2)) => Some((Document { tag, data: dd }, p2)),
            }
        },
    }
}

fn decode_data(buf: &Vec<u8>, pos: usize) -> (r: Option<(DocData, usize)>)
    requires
        pos <= buf@.len(),
    ensures
        match r {
            None => dec_data(buf@.skip(pos as int)) is None,
            Some((dd, end)) => pos < end <= buf@.len() && dec_data(buf@.skip(pos as int)) == Some(
                (view_data(dd), (end - pos) as int),
            ),
        },
    decreases buf@.len() - pos, 2int, 0int,
{
    let ghost b = buf@.skip(pos as int);
    if pos >= buf.len() {
        return None;
    }
    let t = buf[pos];
    proof {
        assert(b[0] == buf@[pos as int]);
        assert(b.skip(1) =~= buf@.skip(pos + 1));
    }
    if t == DT_TEXT {
        match decode_str(buf, pos + 1) {
            None => None,
            Some((s, end)) => Some((DocData::Text(s), end)),
        }
    } else if t == DT_NUM {
        match read_u64(buf, pos + 1) {
            None => None,
            Some((u, end)) => Some((DocData::Num(u as i64), end)),
        }
    } else if t == DT_BYTES {
        match decode_bytes(buf, pos + 1) {
            None => None,
            Some((v, end)) => Some((DocData::Bytes(v), end)),
        }
    } else if t == DT_UNIT {
        Some((DocData::Unit, pos + 1))
    } else if t == DT_LIST {
        match read_u64(buf, pos + 1) {
            None => None,
            Some((n, p1)) => {
                proof {
                    assert(b.skip(9) =~= buf@.skip(p1 as int));
                }
                match decode_docs(buf, p1, n) {
                    None => None,
                    Some((v, end)) => Some((DocData::List(v), end)),
                }
            },
        }
    } else if t == DT_DICT {
        match read_u64(buf, pos + 1) {
            None => None,
            Some((nk, p1)) => {
                proof {
                    assert(b.skip(9) =~= buf@.skip(p1 as int));
                }
                match decode_docs(buf, p1, nk) {
                    None => None,
                    Some((ks, p2)) => {
                        proof {
                            assert(b.skip(9 + (p2 - p1) as int) =~= buf@.skip(p2 as int));
                        }
                        if buf.len() - p2 < 8 {
                            proof {
                                assert(dec_u64(buf@.skip(p2 as int)) is None);
                                assert(9 + (p2 - p1) + 8 > b.len());
                            }
                            return None;
                        }
                        match read_u64(buf, p2) {
                            None => None,
                            Some((nv, p3)) => {
                                proof {
                                    assert(b.skip(17 + (p2 - p1) as int) =~= buf@.skip(p3 as int));
                                }
                                match decode_docs(buf, p3, nv) {
                                    None => None,
                                    Some((vs, end)) => Some((DocData::Dict(ks, vs), end)),
                                }
                            },
                        }
                    },
                }
            },
        }
    } else {
        None
    }
}

#[verifier::loop_isolation(false)]
fn decode_docs(buf: &Vec<u8>, pos: usize, n: u64) -> (r: Option<(Vec<Document>, usize)>)
    requires
        pos <= buf@.len(),
    ensures
        match r {
            None => dec_docs(buf@.skip(pos as int), n as nat) is None,
            Some((v, end)) => pos <= end <= buf@.len() && v@.len() == n && dec_docs(
                buf@.skip(pos as int),
                n as nat,
            ) == Some((view_docs(v@), (end - pos) as int)),
        },
    decreases buf@.len() - pos, 3int, 0int,
{
    let ghost b = buf@.skip(pos as int);
    let mut out: Vec<Document> = Vec::new();
    let mut p = pos;
    let mut i: u64 = 0;
    while i < n
        invariant
            pos <= p <= buf@.len(),
            i <= n,
            out@.len() == i,
            dec_docs(buf@.skip(pos as int), n as nat) == (match dec_docs(
                buf@.skip(p as int),
                (n - i) as nat,
            ) {
                None => None::<(Seq<crate::document::DocV>, int)>,
                Some((l2, k2)) => Some((view_docs(out@) + l2, p - pos + k2)),
            }),
        decreases n - i,
    {
        match decode_doc(buf, p) {
            None => {
                proof {
                    assert(dec_docs(buf@.skip(p as int), (n - i) as nat) is None);
                }
                return None;
            },
            Some((d, p2)) => {
                proof {
                    assert(buf@.skip(p as int).skip((p2 - p) as int) =~= buf@.skip(p2 as int));
                    let ghost dv = view_doc(d);
                    assert forall|l3: Seq<crate::document::DocV>| true implies view_docs(out@) + (
                    seq![dv] + l3) == view_docs(out@.push(d)) + l3 by {
                        assert(view_docs(out@.push(d)) =~= view_docs(out@).push(dv));
                        assert(view_docs(out@) + (seq![dv] + l3) =~= (view_docs(out@).push(dv))
                            + l3);
                    }
                }
                out.push(d);
                p = p2;
                i = i + 1;
            },
        }
    }
    proof {
        assert(dec_docs(buf@.skip(p as int), 0) == Some(
            (Seq::<crate::document::DocV>::empty(), 0int),
        ));
        assert(view_docs(out@) + Seq::<crate::document::DocV>::empty() =~= view_docs(out@));
    }
    Some((out, p))
}

fn decode_opt_doc(buf: &Vec<u8>, pos: usize) -> (r: Option<(Option<Document>, usize)>)
    requires
        pos <= buf@.len(),
    ensures
        match r {
            None => dec_opt_doc(buf@.skip(pos as int)) is None,
            Some((d, end)) => pos < end <= buf@.len() && dec_opt_doc(buf@.skip(pos as int))
                == Some(
                (
                    match d {
                        None => None::<crate::document::DocV>,
                        Some(d0) => Some(view_doc(d0)),
                    },
                    (end - pos) as int,
                ),
            ),
        },
{
    let ghost b = buf@.skip(pos as int);
    if pos >= buf.len() {
        return None;
    }
    let t = buf[pos];
    proof {
        assert(b[0] == buf@[pos as int]);
        assert(b.skip(1) =~= buf@.skip(pos + 1));
    }
    if t == 0 {
        Some((None, pos + 1))
    } else if t == 1 {
        match decode_doc(buf, pos + 1) {
            None => None,
            Some((d, end)) => Some((Some(d), end)),
        }
    } else {
        None
    }
}

fn decode_packet(buf: &Vec<u8>, pos: usize) -> (r: Option<(Packet, usize)>)
    requires
        pos <= buf@.len(),
    ensures
        match r {
            None => dec_packet(buf@.skip(pos as int)) is None,
            Some((p, end)) => pos < end <= buf@.len() && dec_packet(buf@.skip(pos as int)) == Some(
                (view_packet(p), (end - pos) as int),
            ),
        },
{
    let ghost b = buf@.skip(pos as int);
    if pos >= buf.len() {
        return None;
    }
    let t = buf[pos];
    proof {
        assert(b[0] == buf@[pos as int]);
        assert(b.skip(1) =~= buf@.skip(pos + 1));
    }
    if t == PT_TRY_PUT {
        match decode_opt_str(buf, pos + 1) {
            None => None,
            Some((pattern, p1)) => {
                proof {
                    assert(b.skip(1 + (p1 - pos - 1) as int) =~= buf@.skip(p1 as int));
                }
                match decode_opt_bytes(buf, p1) {
                    None => None,
                    Some((payload, end)) => Some((Packet::TryPut { pattern, payload }, end)),
                }
            },
        }
    } else if t == PT_TRY_GET {
        match decode_opt_str(buf, pos + 1) {
            None => None,
            Some((pattern, end)) => Some((Packet::TryGet { pattern }, end)),
        }
    } else if t == PT_TRY_DELETE {
        match decode_opt_str(buf, pos + 1) {
            None => None,
            Some((pattern, p1)) => {
                proof {
                    assert(b.skip(1 + (p1 - pos - 1) as int) =~= buf@.skip(p1 as int));
                }
                match decode_opt_bytes(buf, p1) {
                    None => None,
                    Some((capability, end)) => Some(
                        (Packet::TryDelete { pattern, capability }, end),
                    ),
                }
            },
        }
    } else if t == PT_PUT_SUCCESS {
        match decode_bytes(buf, pos + 1) {
            None => None,
            Some((capability, p1)) => {
                proof {
                    assert(b.skip(1 + (p1 - pos - 1) as int) =~= buf@.skip(p1 as int));
                }
                match decode_opt_doc(buf, p1) {
                    None => None,
                    Some((sanitized_entity, end)) => Some(
                        (Packet::PutSuccess { capability, sanitized_entity }, end),
                    ),
                }
            },
        }
    } else if t == PT_GET_SUCCESS {
        match decode_bytes(buf, pos + 1) {
            None => None,
            Some((payload, end)) => Some((Packet::GetSuccess { payload }, end)),
        }
    } else if t == PT_DELETE_SUCCESS {
        Some((Packet::DeleteSuccess, pos + 1))
    } else if t == PT_ERROR {
        match read_u16(buf, pos + 1) {
            None => None,
            Some((code, p1)) => {
                proof {
                    assert(b.skip(3) =~= buf@.skip(p1 as int));
                }
                match decode_str(buf, p1) {
                    None => None,
                    Some((message, end)) => Some((Packet::ErrorResponse { code, message }, end)),
                }
            },
        }
    } else {
        Some((Packet::Unsupported { tag: t }, pos + 1))
    }
}

#[verifier::loop_isolation(false)]
fn decode_packets(buf: &Vec<u8>, pos: usize, n: u64) -> (r: Option<(Vec<Packet>, usize)>)
    requires
        pos <= buf@.len(),
    ensures
        match r {
            None => dec_packets(buf@.skip(pos as int), n as nat) is None,
            Some((v, end)) => pos <= end <= buf@.len() && v@.len() == n && dec_packets(
                buf@.skip(pos as int),
                n as nat,
            ) == Some((view_packets(v@), (end - pos) as int)),
        },
{
    let mut out: Vec<Packet> = Vec::new();
    let mut p = pos;
    let mut i: u64 = 0;
    while i < n
        invariant
            pos <= p <= buf@.len(),
            i <= n,
            out@.len() == i,
            dec_packets(buf@.skip(pos as int), n as nat) == (match dec_packets(
                buf@.skip(p as int),
                (n - i) as nat,
            ) {
                None => None::<(Seq<crate::wire::PacketV>, int)>,
                Some((l2, k2)) => Some((view_packets(out@) + l2, p - pos + k2)),
            }),
        decreases n - i,
    {
        match decode_packet(buf, p) {
            None => {
                proof {
                    assert(dec_packets(buf@.skip(p as int), (n - i) as nat) is None);
                }
                return None;
            },
            Some((pk, p2)) => {
                proof {
                    assert(buf@.skip(p as int).skip((p2 - p) as int) =~= buf@.skip(p2 as int));
                    let ghost pv = view_packet(pk);
                    assert forall|l3: Seq<crate::wire::PacketV>| true implies view_packets(out@) + (
                    seq![pv] + l3) == view_packets(out@.push(pk)) + l3 by {
                        assert(view_packets(out@.push(pk)) =~= view_packets(out@).push(pv));
                        assert(view_packets(out@) + (seq![pv] + l3) =~= (view_packets(out@).push(
                            pv,
                        )) + l3);
                    }
                }
                out.push(pk);
                p = p2;
                i = i + 1;
            },
        }
    }
    proof {
        assert(dec_packets(buf@.skip(p as int), 0) == Some(
            (Seq::<crate::wire::PacketV>::empty(), 0int),
        ));
        assert(view_packets(out@) + Seq::<crate::wire::PacketV>::empty() =~= view_packets(out@));
    }
    Some((out, p))
}

/// Decode one document from the front of the buffer; bytes past it are
/// left alone. Failure does not tell an incomplete buffer from a corrupt
/// one.
pub fn decode_document(buf: &Vec<u8>) -> (r: Option<(Document, usize)>)
    ensures
        match r {
            None => dec_doc(buf@) is None,
            Some((d, count)) => 0 < count <= buf@.len() && dec_doc(buf@) == Some(
                (d@, count as int),
            ),
        },
{
    proof {
        assert(buf@.skip(0) =~= buf@);
    }
    decode_doc(buf, 0)
}

/// Decode one message envelope from the front of the buffer; bytes past
/// it are left alone. Failure does not tell an incomplete buffer from a
/// corrupt one.
pub fn decode_message(buf: &Vec<u8>) -> (r: Option<(Message, usize)>)
    ensures
        match r {
            None => dec_msg(buf@) is None,
            Some((m, count)) => 0 < count <= buf@.len() && dec_msg(buf@) == Some(
                (m@, count as int),
            ),
        },
{
    match read_u32(buf, 0) {
        None => {
            proof {
                assert(buf@.skip(0) =~= buf@);
            }
            None
        },
        Some((version, p1)) => {
            proof {
                assert(buf@.skip(0) =~= buf@);
                assert(buf@.skip(4) =~= buf@.skip(p1 as int));
            }
            match read_u64(buf, p1) {
                None => None,
                Some((n, p2)) => {
                    proof {
                        assert(buf@.skip(12) =~= buf@.skip(p2 as int));
                    }
                    match decode_packets(buf, p2, n) {
                        None => None,
                        Some((packets, end)) => Some((Message { version, packets }, end)),
                    }
                },
            }
        },
    }
}

} // verus!
