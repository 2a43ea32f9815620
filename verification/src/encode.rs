//! The executable encoder: produces exactly the bytes the specification
//! encoder describes.

use vstd::prelude::*;
use vstd::bytes::{u16_to_le_bytes, u32_to_le_bytes, u64_to_le_bytes};
use crate::codec::{enc_u16, enc_u32, enc_u64, enc_char, enc_chars, enc_str, enc_bytes,
    enc_opt_str, enc_opt_bytes, enc_data, enc_doc, enc_docs, enc_opt_doc, enc_packet, enc_packets,
    enc_msg, DT_TEXT, DT_NUM, DT_BYTES, DT_UNIT, DT_LIST, DT_DICT, PT_TRY_PUT, PT_TRY_GET,
    PT_TRY_DELETE, PT_PUT_SUCCESS, PT_GET_SUCCESS, PT_DELETE_SUCCESS, PT_ERROR};
use crate::document::{DocData, Document, view_data, view_doc, view_docs};
use crate::wire::{Message, Packet, view_msg, view_opt_bytes, view_opt_str, view_packet,
    view_packets};

verus! {

broadcast use vstd::seq::group_seq_axioms, vstd::std_specs::vec::group_vec_axioms;

proof fn lemma_add_assoc(a: Seq<u8>, b: Seq<u8>, c: Seq<u8>)
    ensures
        (a + b) + c == a + (b + c),
{
    assert((a + b) + c =~= a + (b + c));
}

proof fn lemma_enc_chars_snoc(s: Seq<char>, c: char)
    ensures
        enc_chars(s.push(c)) == enc_chars(s) + enc_char(c),
    decreases s.len(),
{
    let sp = s.push(c);
    assert(sp.len() == s.len() + 1);
    if s.len() == 0 {
        assert(sp[0] == c);
        assert(sp.drop_first() =~= Seq::<char>::empty());
        assert(enc_chars(sp) == enc_char(c) + enc_chars(sp.drop_first()));
        assert(enc_chars(sp.drop_first()) == Seq::<u8>::empty());
        assert(enc_char(c) + Seq::<u8>::empty() =~= enc_char(c));
        assert(enc_chars(s) == Seq::<u8>::empty());
        assert(Seq::<u8>::empty() + enc_char(c) =~= enc_char(c));
    } else {
        assert(sp[0] == s[0]);
        assert(sp.drop_first() =~= s.drop_first().push(c));
        lemma_enc_chars_snoc(s.drop_first(), c);
        assert(enc_chars(sp) == enc_char(s[0]) + (enc_chars(s.drop_first()) + enc_char(c)));
        lemma_add_assoc(enc_char(s[0]), enc_chars(s.drop_first()), enc_char(c));
        assert(enc_chars(s) == enc_char(s[0]) + enc_chars(s.drop_first()));
    }
}

proof fn lemma_enc_docs_snoc(l: Seq<crate::document::DocV>, d: crate::document::DocV)
    ensures
        enc_docs(l.push(d)) == enc_docs(l) + enc_doc(d),
    decreases l.len(),
{
    let lp = l.push(d);
    assert(lp.len() == l.len() + 1);
    if l.len() == 0 {
        assert(lp[0] == d);
        assert(lp.drop_first() =~= Seq::<crate::document::DocV>::empty());
        assert(enc_docs(lp) == enc_doc(d) + enc_docs(lp.drop_first()));
        assert(enc_docs(lp.drop_first()) == Seq::<u8>::empty());
        assert(enc_doc(d) + Seq::<u8>::empty() =~= enc_doc(d));
        assert(enc_docs(l) == Seq::<u8>::empty());
        assert(Seq::<u8>::empty() + enc_doc(d) =~= enc_doc(d));
    } else {
        assert(lp[0] == l[0]);
        assert(lp.drop_first() =~= l.drop_first().push(d));
        lemma_enc_docs_snoc(l.drop_first(), d);
        assert(enc_docs(lp) == enc_doc(l[0]) + (enc_docs(l.drop_first()) + enc_doc(d)));
        lemma_add_assoc(enc_doc(l[0]), enc_docs(l.drop_first()), enc_doc(d));
        assert(enc_docs(l) == enc_doc(l[0]) + enc_docs(l.drop_first()));
    }
}

proof fn lemma_enc_packets_snoc(l: Seq<crate::wire::PacketV>, p: crate::wire::PacketV)
    ensures
        enc_packets(l.push(p)) == enc_packets(l) + enc_packet(p),
    decreases l.len(),
{
    let lp = l.push(p);
    assert(lp.len() == l.len() + 1);
    if l.len() == 0 {
        assert(lp[0] == p);
        assert(lp.drop_first() =~= Seq::<crate::wire::PacketV>::empty());
        assert(enc_packets(lp) == enc_packet(p) + enc_packets(lp.drop_first()));
        assert(enc_packets(lp.drop_first()) == Seq::<u8>::empty());
        assert(enc_packet(p) + Seq::<u8>::empty() =~= enc_packet(p));
        assert(enc_packets(l) == Seq::<u8>::empty());
        assert(Seq::<u8>::empty() + enc_packet(p) =~= enc_packet(p));
    } else {
        assert(lp[0] == l[0]);
        assert(lp.drop_first() =~= l.drop_first().push(p));
        lemma_enc_packets_snoc(l.drop_first(), p);
        assert(enc_packets(lp) == enc_packet(l[0]) + (enc_packets(l.drop_first()) + enc_packet(p)));
        lemma_add_assoc(enc_packet(l[0]), enc_packets(l.drop_first()), enc_packet(p));
        assert(enc_packets(l) == enc_packet(l[0]) + enc_packets(l.drop_first()));
    }
}

fn push_u16(out: &mut Vec<u8>, x: u16)
    ensures
        final(out)@ == old(out)@ + enc_u16(x),
{
    let mut tmp = u16_to_le_bytes(x);
    out.append(&mut tmp);
}

fn push_u32(out: &mut Vec<u8>, x: u32)
    ensures
        final(out)@ == old(out)@ + enc_u32(x),
{
    let mut tmp = u32_to_le_bytes(x);
    out.append(&mut tmp);
}

fn push_u64(out: &mut Vec<u8>, x: u64)
    ensures
        final(out)@ == old(out)@ + enc_u64(x),
{
    let mut tmp = u64_to_le_bytes(x);
    out.append(&mut tmp);
}

fn push_chars(out: &mut Vec<u8>, s: &str)
    ensures
        final(out)@ == old(out)@ + enc_chars(s@),
{
    let n = s.unicode_len();
    let mut i: usize = 0;
    while i < n
        invariant
            n == s@.len(),
            i <= n,
            out@ == old(out)@ + enc_chars(s@.take(i as int)),
        decreases n - i,
    {
        let c = s.get_char(i);
        push_u32(out, c as u32);
        proof {
            assert(s@.take(i + 1) =~= s@.take(i as int).push(s@[i as int]));
            lemma_enc_chars_snoc(s@.take(i as int), s@[i as int]);
            assert(out@ =~= old(out)@ + enc_chars(s@.take(i + 1)));
        }
        i = i + 1;
    }
    proof {
        assert(s@.take(n as int) =~= s@);
    }
}

fn push_str(out: &mut Vec<u8>, s: &str)
    ensures
        final(out)@ == old(out)@ + enc_str(s@),
{
    let n = s.unicode_len();
    push_u64(out, n as u64);
    push_chars(out, s);
    proof {
        assert(out@ =~= old(out)@ + enc_str(s@));
    }
}

fn push_bytes(out: &mut Vec<u8>, b: &Vec<u8>)
    ensures
        final(out)@ == old(out)@ + enc_bytes(b@),
{
    push_u64(out, b.len() as u64);
    let ghost mid = out@;
    let mut i: usize = 0;
    while i < b.len()
        invariant
            i <= b@.len(),
            out@ == mid + b@.take(i as int),
        decreases b@.len() - i,
    {
        out.push(b[i]);
        proof {
            assert(b@.take(i + 1) =~= b@.take(i as int).push(b@[i as int]));
            assert(out@ =~= mid + b@.take(i + 1));
        }
        i = i + 1;
    }
    proof {
        assert(b@.take(b@.len() as int) =~= b@);
        assert(out@ =~= old(out)@ + enc_bytes(b@));
    }
}

fn push_opt_str(out: &mut Vec<u8>, s: &Option<String>)
    ensures
        final(out)@ == old(out)@ + enc_opt_str(view_opt_str(*s)),
{
    match s {
        None => {
            out.push(0u8);
            proof {
                assert(out@ =~= old(out)@ + enc_opt_str(view_opt_str(*s)));
            }
        },
        Some(s0) => {
            out.push(1u8);
            push_str(out, s0.as_str());
            proof {
                assert(out@ =~= old(out)@ + enc_opt_str(view_opt_str(*s)));
            }
        },
    }
}

fn push_opt_bytes(out: &mut Vec<u8>, b: &Option<Vec<u8>>)
    ensures
        final(out)@ == old(out)@ + enc_opt_bytes(view_opt_bytes(*b)),
{
    match b {
        None => {
            out.push(0u8);
            proof {
                assert(out@ =~= old(out)@ + enc_opt_bytes(view_opt_bytes(*b)));
            }
        },
        Some(b0) => {
            out.push(1u8);
            push_bytes(out, b0);
            proof {
                assert(out@ =~= old(out)@ + enc_opt_bytes(view_opt_bytes(*b)));
            }
        },
    }
}

fn push_doc(out: &mut Vec<u8>, d: &Document)
    ensures
        final(out)@ == old(out)@ + enc_doc(view_doc(*d)),
    decreases *d, 0int, 0int,
{
    push_str(out, d.tag.as_str());
    push_data(out, &d.data);
    proof {
        assert(out@ =~= old(out)@ + enc_doc(view_doc(*d)));
    }
}

fn push_data(out: &mut Vec<u8>, dd: &DocData)
    ensures
        final(out)@ == old(out)@ + enc_data(view_data(*dd)),
    decreases *dd, 0int, 0int,
{
    match dd {
        DocData::Text(s) => {
            out.push(DT_TEXT);
            push_str(out, s.as_str());
            proof {
                assert(out@ =~= old(out)@ + enc_data(view_data(*dd)));
            }
        },
        DocData::Num(n) => {
            out.push(DT_NUM);
            push_u64(out, *n as u64);
            proof {
                assert(out@ =~= old(out)@ + enc_data(view_data(*dd)));
            }
        },
        DocData::Bytes(b) => {
            out.push(DT_BYTES);
            push_bytes(out, b);
            proof {
                assert(out@ =~= old(out)@ + enc_data(view_data(*dd)));
            }
        },
        DocData::Unit => {
            out.push(DT_UNIT);
            proof {
                assert(out@ =~= old(out)@ + enc_data(view_data(*dd)));
            }
        },
        DocData::List(v) => {
            out.push(DT_LIST);
            push_u64(out, v.len() as u64);
            push_docs(out, v);
            proof {
                assert(out@ =~= old(out)@ + enc_data(view_data(*dd)));
            }
        },
        DocData::Dict(k, w) => {
            out.push(DT_DICT);
            push_u64(out, k.len() as u64);
            push_docs(out, k);
            push_u64(out, w.len() as u64);
            push_docs(out, w);
            proof {
                assert(out@ =~= old(out)@ + enc_data(view_data(*dd)));
            }
        },
    }
}

fn push_docs(out: &mut Vec<u8>, v: &Vec<Document>)
    ensures
        final(out)@ == old(out)@ + enc_docs(view_docs(v@)),
    decreases *v, 1int, 0int,
{
    let mut i: usize = 0;
    while i < v.len()
        invariant
            i <= v@.len(),
            out@ == old(out)@ + enc_docs(view_docs(v@).take(i as int)),
        decreases v@.len() - i,
    {
        push_doc(out, &v[i]);
        proof {
            assert(view_docs(v@).take(i + 1) =~= view_docs(v@).take(i as int).push(
                view_doc(v@[i as int]),
            ));
            lemma_enc_docs_snoc(view_docs(v@).take(i as int), view_doc(v@[i as int]));
            assert(out@ =~= old(out)@ + enc_docs(view_docs(v@).take(i + 1)));
        }
        i = i + 1;
    }
    proof {
        assert(view_docs(v@).take(v@.len() as int) =~= view_docs(v@));
    }
}

fn push_packet(out: &mut Vec<u8>, p: &Packet)
    ensures
        final(out)@ == old(out)@ + enc_packet(view_packet(*p)),
{
    match p {
        Packet::TryPut { pattern, payload } => {
            out.push(PT_TRY_PUT);
            push_opt_str(out, pattern);
            push_opt_bytes(out, payload);
            proof {
                assert(out@ =~= old(out)@ + enc_packet(view_packet(*p)));
            }
        },
        Packet::TryGet { pattern } => {
            out.push(PT_TRY_GET);
            push_opt_str(out, pattern);
            proof {
                assert(out@ =~= old(out)@ + enc_packet(view_packet(*p)));
            }
        },
        Packet::TryDelete { pattern, capability } => {
            out.push(PT_TRY_DELETE);
            push_opt_str(out, pattern);
            push_opt_bytes(out, capability);
            proof {
                assert(out@ =~= old(out)@ + enc_packet(view_packet(*p)));
            }
        },
        Packet::PutSuccess { capability, sanitized_entity } => {
            out.push(PT_PUT_SUCCESS);
            push_bytes(out, capability);
            match sanitized_entity {
                None => {
                    out.push(0u8);
                },
                Some(d) => {
                    out.push(1u8);
                    push_doc(out, d);
                },
            }
            proof {
                assert(out@ =~= old(out)@ + enc_packet(view_packet(*p)));
            }
        },
        Packet::GetSuccess { payload } => {
            out.push(PT_GET_SUCCESS);
            push_bytes(out, payload);
            proof {
                assert(out@ =~= old(out)@ + enc_packet(view_packet(*p)));
            }
        },
        Packet::DeleteSuccess => {
            out.push(PT_DELETE_SUCCESS);
            proof {
                assert(out@ =~= old(out)@ + enc_packet(view_packet(*p)));
            }
        },
        Packet::ErrorResponse { code, message } => {
            out.push(PT_ERROR);
            push_u16(out, *code);
            push_str(out, message.as_str());
            proof {
                assert(out@ =~= old(out)@ + enc_packet(view_packet(*p)));
            }
        },
        Packet::Unsupported { tag } => {
            out.push(*tag);
            proof {
                assert(out@ =~= old(out)@ + enc_packet(view_packet(*p)));
            }
        },
    }
}

/// Encode a document to its wire bytes.
pub fn encode_document(d: &Document) -> (out: Vec<u8>)
    ensures
        out@ == enc_doc(d@),
{
    let mut out: Vec<u8> = Vec::new();
    push_doc(&mut out, d);
    proof {
        assert(out@ =~= enc_doc(view_doc(*d)));
    }
    out
}

/// Encode a message envelope to its wire bytes.
pub fn encode_message(m: &Message) -> (out: Vec<u8>)
    ensures
        out@ == enc_msg(m@),
{
    let mut out: Vec<u8> = Vec::new();
    push_u32(&mut out, m.version);
    push_u64(&mut out, m.packets.len() as u64);
    let mut i: usize = 0;
    while i < m.packets.len()
        invariant
            i <= m.packets@.len(),
            out@ == enc_u32(m.version) + enc_u64(m.packets@.len() as u64) + enc_packets(
                view_packets(m.packets@).take(i as int),
            ),
        decreases m.packets@.len() - i,
    {
        push_packet(&mut out, &m.packets[i]);
        proof {
            assert(view_packets(m.packets@).take(i + 1) =~= view_packets(m.packets@).take(
                i as int,
            ).push(view_packet(m.packets@[i as int])));
            lemma_enc_packets_snoc(
                view_packets(m.packets@).take(i as int),
                view_packet(m.packets@[i as int]),
            );
            assert(out@ =~= enc_u32(m.version) + enc_u64(m.packets@.len() as u64) + enc_packets(
                view_packets(m.packets@).take(i + 1),
            ));
        }
        i = i + 1;
    }
    proof {
        assert(view_packets(m.packets@).take(m.packets@.len() as int) =~= view_packets(
            m.packets@,
        ));
        assert(out@ =~= enc_msg(view_msg(*m)));
    }
    out
}

} // verus!
