//! The round-trip law of the wire codec: decoding what the encoder
//! produced yields the original value and consumes exactly its encoding,
//! whatever bytes follow.

use vstd::prelude::*;
use vstd::bytes::{lemma_auto_spec_u16_to_from_le_bytes, lemma_auto_spec_u32_to_from_le_bytes,
    lemma_auto_spec_u64_to_from_le_bytes};
use vstd::utf8::{char_is_scalar, char_u32_cast};
use crate::codec::{enc_u16, enc_u32, enc_u64, enc_char, enc_chars, enc_str, enc_bytes,
    enc_opt_str, enc_opt_bytes, enc_data, enc_doc, enc_docs, enc_opt_doc, enc_packet, enc_packets,
    enc_msg, dec_u16, dec_u32, dec_u64, dec_char, dec_chars, dec_str, dec_bytes, dec_opt_str,
    dec_opt_bytes, dec_data, dec_doc, dec_docs, dec_opt_doc, dec_packet, dec_packets, dec_msg,
    wf_opt_str, wf_opt_bytes, wf_data, wf_doc, wf_docs, wf_packet, wf_packets, wf_msg, DT_TEXT,
    DT_NUM, DT_BYTES, DT_UNIT, DT_LIST, DT_DICT, PT_TRY_PUT, PT_TRY_GET, PT_TRY_DELETE,
    PT_PUT_SUCCESS, PT_GET_SUCCESS, PT_DELETE_SUCCESS, PT_ERROR};
use crate::document::{DataV, DocV};
use crate::wire::{MessageV, PacketV};

verus! {

broadcast use vstd::seq::group_seq_axioms;

proof fn lemma_split(a: Seq<u8>, b: Seq<u8>)
    ensures
        (a + b).len() == a.len() + b.len(),
        (a + b).take(a.len() as int) == a,
        (a + b).skip(a.len() as int) == b,
{
    assert((a + b).take(a.len() as int) =~= a);
    assert((a + b).skip(a.len() as int) =~= b);
}

proof fn lemma_rt_u16(x: u16, rest: Seq<u8>)
    ensures
        dec_u16(enc_u16(x) + rest) == Some((x, enc_u16(x).len() as int)),
        enc_u16(x).len() == 2,
{
    lemma_auto_spec_u16_to_from_le_bytes();
    lemma_split(enc_u16(x), rest);
    assert((enc_u16(x) + rest).take(2) == enc_u16(x));
}

proof fn lemma_rt_u32(x: u32, rest: Seq<u8>)
    ensures
        dec_u32(enc_u32(x) + rest) == Some((x, enc_u32(x).len() as int)),
        enc_u32(x).len() == 4,
{
    lemma_auto_spec_u32_to_from_le_bytes();
    lemma_split(enc_u32(x), rest);
    assert((enc_u32(x) + rest).take(4) == enc_u32(x));
}

proof fn lemma_rt_u64(x: u64, rest: Seq<u8>)
    ensures
        dec_u64(enc_u64(x) + rest) == Some((x, enc_u64(x).len() as int)),
        enc_u64(x).len() == 8,
{
    lemma_auto_spec_u64_to_from_le_bytes();
    lemma_split(enc_u64(x), rest);
    assert((enc_u64(x) + rest).take(8) == enc_u64(x));
}

proof fn lemma_rt_char(c: char, rest: Seq<u8>)
    ensures
        dec_char(enc_char(c) + rest) == Some((c, 4int)),
        enc_char(c).len() == 4,
{
    char_is_scalar(c);
    lemma_rt_u32(c as u32, rest);
    char_u32_cast(c, c as u32);
}

proof fn lemma_enc_chars_len(s: Seq<char>)
    ensures
        enc_chars(s).len() == 4 * s.len(),
    decreases s.len(),
{
    lemma_auto_spec_u32_to_from_le_bytes();
    if s.len() > 0 {
        lemma_enc_chars_len(s.drop_first());
    }
}

proof fn lemma_rt_chars(s: Seq<char>, rest: Seq<u8>)
    ensures
        dec_chars(enc_chars(s) + rest, s.len()) == Some((s, enc_chars(s).len() as int)),
    decreases s.len(),
{
    lemma_enc_chars_len(s);
    if s.len() == 0 {
        assert(enc_chars(s) + rest =~= rest);
        assert(dec_chars(rest, 0) == Some((Seq::<char>::empty(), 0int)));
        assert(s =~= Seq::<char>::empty());
    } else {
        let c = s[0];
        let tail = s.drop_first();
        let b = enc_chars(s) + rest;
        assert(b =~= enc_char(c) + (enc_chars(tail) + rest));
        lemma_rt_char(c, enc_chars(tail) + rest);
        lemma_split(enc_char(c), enc_chars(tail) + rest);
        lemma_rt_chars(tail, rest);
        lemma_enc_chars_len(tail);
        assert(seq![c] + tail =~= s);
    }
}

proof fn lemma_rt_str(s: Seq<char>, rest: Seq<u8>)
    requires
        s.len() <= u64::MAX,
    ensures
        dec_str(enc_str(s) + rest) == Some((s, enc_str(s).len() as int)),
        enc_str(s).len() == 8 + 4 * s.len(),
        enc_str(s).len() >= 8,
{
    let b = enc_str(s) + rest;
    assert(b =~= enc_u64(s.len() as u64) + (enc_chars(s) + rest));
    lemma_rt_u64(s.len() as u64, enc_chars(s) + rest);
    lemma_split(enc_u64(s.len() as u64), enc_chars(s) + rest);
    assert((s.len() as u64) as nat == s.len());
    lemma_rt_chars(s, rest);
    lemma_enc_chars_len(s);
}

proof fn lemma_rt_bytes(bts: Seq<u8>, rest: Seq<u8>)
    requires
        bts.len() <= u64::MAX,
    ensures
        dec_bytes(enc_bytes(bts) + rest) == Some((bts, enc_bytes(bts).len() as int)),
        enc_bytes(bts).len() == 8 + bts.len(),
{
    let b = enc_bytes(bts) + rest;
    assert(b =~= enc_u64(bts.len() as u64) + (bts + rest));
    lemma_rt_u64(bts.len() as u64, bts + rest);
    lemma_split(enc_u64(bts.len() as u64), bts + rest);
    assert(b.subrange(8, 8 + bts.len() as int) =~= bts);
}

proof fn lemma_rt_opt_str(s: Option<Seq<char>>, rest: Seq<u8>)
    requires
        wf_opt_str(s),
    ensures
        dec_opt_str(enc_opt_str(s) + rest) == Some((s, enc_opt_str(s).len() as int)),
        enc_opt_str(s).len() >= 1,
{
    let b = enc_opt_str(s) + rest;
    match s {
        None => {
            assert(b[0] == 0);
        },
        Some(s0) => {
            assert(b[0] == 1);
            assert(b.skip(1) =~= enc_str(s0) + rest);
            lemma_rt_str(s0, rest);
        },
    }
}

proof fn lemma_rt_opt_bytes(ob: Option<Seq<u8>>, rest: Seq<u8>)
    requires
        wf_opt_bytes(ob),
    ensures
        dec_opt_bytes(enc_opt_bytes(ob) + rest) == Some((ob, enc_opt_bytes(ob).len() as int)),
        enc_opt_bytes(ob).len() >= 1,
{
    let b = enc_opt_bytes(ob) + rest;
    match ob {
        None => {
            assert(b[0] == 0);
        },
        Some(b0) => {
            assert(b[0] == 1);
            assert(b.skip(1) =~= enc_bytes(b0) + rest);
            lemma_rt_bytes(b0, rest);
        },
    }
}

proof fn lemma_rt_doc(d: DocV, rest: Seq<u8>)
    requires
        wf_doc(d),
    ensures
        dec_doc(enc_doc(d) + rest) == Some((d, enc_doc(d).len() as int)),
        enc_doc(d).len() >= 9,
    decreases d,
{
    let b = enc_doc(d) + rest;
    assert(b =~= enc_str(d.tag) + (enc_data(d.data) + rest));
    lemma_rt_str(d.tag, enc_data(d.data) + rest);
    lemma_split(enc_str(d.tag), enc_data(d.data) + rest);
    lemma_rt_data(d.data, rest);
}

proof fn lemma_rt_data(dd: DataV, rest: Seq<u8>)
    requires
        wf_data(dd),
    ensures
        dec_data(enc_data(dd) + rest) == Some((dd, enc_data(dd).len() as int)),
        enc_data(dd).len() >= 1,
    decreases dd,
{
    let b = enc_data(dd) + rest;
    match dd {
        DataV::Text(s) => {
            assert(b[0] == DT_TEXT);
            assert(b.skip(1) =~= enc_str(s) + rest);
            lemma_rt_str(s, rest);
        },
        DataV::Num(n) => {
            assert(b[0] == DT_NUM);
            assert(b.skip(1) =~= enc_u64(n as u64) + rest);
            lemma_rt_u64(n as u64, rest);
            assert((n as u64) as i64 == n) by (bit_vector);
        },
        DataV::Bytes(bts) => {
            assert(b[0] == DT_BYTES);
            assert(b.skip(1) =~= enc_bytes(bts) + rest);
            lemma_rt_bytes(bts, rest);
        },
        DataV::Unit => {
            assert(b[0] == DT_UNIT);
        },
        DataV::List(l) => {
            assert(b[0] == DT_LIST);
            assert(b.skip(1) =~= enc_u64(l.len() as u64) + (enc_docs(l) + rest));
            lemma_rt_u64(l.len() as u64, enc_docs(l) + rest);
            assert(b.skip(9) =~= enc_docs(l) + rest);
            assert((l.len() as u64) as nat == l.len());
            lemma_rt_docs(l, rest);
        },
        DataV::Dict(ks, vs) => {
            assert(b[0] == DT_DICT);
            let mid = enc_docs(ks) + (enc_u64(vs.len() as u64) + (enc_docs(vs) + rest));
            assert(b.skip(1) =~= enc_u64(ks.len() as u64) + mid);
            lemma_rt_u64(ks.len() as u64, mid);
            assert(b.skip(9) =~= mid);
            assert((ks.len() as u64) as nat == ks.len());
            lemma_rt_docs(ks, enc_u64(vs.len() as u64) + (enc_docs(vs) + rest));
            let k2 = enc_docs(ks).len() as int;
            assert(b.skip(9 + k2) =~= enc_u64(vs.len() as u64) + (enc_docs(vs) + rest));
            lemma_rt_u64(vs.len() as u64, enc_docs(vs) + rest);
            assert(b.skip(17 + k2) =~= enc_docs(vs) + rest);
            assert((vs.len() as u64) as nat == vs.len());
            lemma_rt_docs(vs, rest);
        },
    }
}

proof fn lemma_rt_docs(l: Seq<DocV>, rest: Seq<u8>)
    requires
        wf_docs(l),
    ensures
        dec_docs(enc_docs(l) + rest, l.len()) == Some((l, enc_docs(l).len() as int)),
        enc_docs(l).len() >= 0,
    decreases l,
{
    if l.len() == 0 {
        assert(enc_docs(l) + rest =~= rest);
        assert(l =~= Seq::<DocV>::empty());
    } else {
        let d = l[0];
        let tail = l.drop_first();
        let b = enc_docs(l) + rest;
        assert(b =~= enc_doc(d) + (enc_docs(tail) + rest));
        lemma_rt_doc(d, enc_docs(tail) + rest);
        lemma_split(enc_doc(d), enc_docs(tail) + rest);
        lemma_rt_docs(tail, rest);
        assert(seq![d] + tail =~= l);
    }
}

proof fn lemma_rt_opt_doc(od: Option<DocV>, rest: Seq<u8>)
    requires
        match od {
            None => true,
            Some(d) => wf_doc(d),
        },
    ensures
        dec_opt_doc(enc_opt_doc(od) + rest) == Some((od, enc_opt_doc(od).len() as int)),
        enc_opt_doc(od).len() >= 1,
{
    let b = enc_opt_doc(od) + rest;
    match od {
        None => {
            assert(b[0] == 0);
        },
        Some(d) => {
            assert(b[0] == 1);
            assert(b.skip(1) =~= enc_doc(d) + rest);
            lemma_rt_doc(d, rest);
        },
    }
}

#[verifier::rlimit(60)]
proof fn lemma_rt_packet(p: PacketV, rest: Seq<u8>)
    requires
        wf_packet(p),
    ensures
        dec_packet(enc_packet(p) + rest) == Some((p, enc_packet(p).len() as int)),
        enc_packet(p).len() >= 1,
{
    let b = enc_packet(p) + rest;
    match p {
        PacketV::TryPut { pattern, payload } => {
            assert(b[0] == PT_TRY_PUT);
            let a1 = enc_opt_str(pattern);
            let a2 = enc_opt_bytes(payload);
            assert(b.skip(1) =~= a1 + (a2 + rest));
            lemma_rt_opt_str(pattern, a2 + rest);
            assert(b.skip(1 + a1.len() as int) =~= a2 + rest);
            lemma_rt_opt_bytes(payload, rest);
        },
        PacketV::TryGet { pattern } => {
            assert(b[0] == PT_TRY_GET);
            assert(b.skip(1) =~= enc_opt_str(pattern) + rest);
            lemma_rt_opt_str(pattern, rest);
        },
        PacketV::TryDelete { pattern, capability } => {
            assert(b[0] == PT_TRY_DELETE);
            let a1 = enc_opt_str(pattern);
            let a2 = enc_opt_bytes(capability);
            assert(b.skip(1) =~= a1 + (a2 + rest));
            lemma_rt_opt_str(pattern, a2 + rest);
            assert(b.skip(1 + a1.len() as int) =~= a2 + rest);
            lemma_rt_opt_bytes(capability, rest);
        },
        PacketV::PutSuccess { capability, sanitized_entity } => {
            assert(b[0] == PT_PUT_SUCCESS);
            let a1 = enc_bytes(capability);
            let a2 = enc_opt_doc(sanitized_entity);
            assert(b.skip(1) =~= a1 + (a2 + rest));
            lemma_rt_bytes(capability, a2 + rest);
            assert(b.skip(1 + a1.len() as int) =~= a2 + rest);
            lemma_rt_opt_doc(sanitized_entity, rest);
        },
        PacketV::GetSuccess { payload } => {
            assert(b[0] == PT_GET_SUCCESS);
            assert(b.skip(1) =~= enc_bytes(payload) + rest);
            lemma_rt_bytes(payload, rest);
        },
        PacketV::DeleteSuccess => {
            assert(b[0] == PT_DELETE_SUCCESS);
        },
        PacketV::ErrorResponse { code, message } => {
            assert(b[0] == PT_ERROR);
            assert(b.skip(1) =~= enc_u16(code) + (enc_str(message) + rest));
            lemma_rt_u16(code, enc_str(message) + rest);
            assert(b.skip(3) =~= enc_str(message) + rest);
            lemma_rt_str(message, rest);
        },
        PacketV::Unsupported { tag } => {
            assert(b[0] == tag);
            assert(tag == 0 || tag >= 8);
        },
    }
}

proof fn lemma_rt_packets(ps: Seq<PacketV>, rest: Seq<u8>)
    requires
        wf_packets(ps),
    ensures
        dec_packets(enc_packets(ps) + rest, ps.len()) == Some((ps, enc_packets(ps).len() as int)),
    decreases ps.len(),
{
    if ps.len() == 0 {
        assert(enc_packets(ps) + rest =~= rest);
        assert(ps =~= Seq::<PacketV>::empty());
    } else {
        let p = ps[0];
        let tail = ps.drop_first();
        let b = enc_packets(ps) + rest;
        assert(b =~= enc_packet(p) + (enc_packets(tail) + rest));
        assert(wf_packet(p));
        lemma_rt_packet(p, enc_packets(tail) + rest);
        lemma_split(enc_packet(p), enc_packets(tail) + rest);
        assert(wf_packets(tail)) by {
            assert(forall|i: int| 0 <= i < tail.len() ==> tail[i] == ps[i + 1]);
        }
        lemma_rt_packets(tail, rest);
        assert(seq![p] + tail =~= ps);
    }
}

/// Law: decoding an encoded message yields the message back and consumes
/// exactly its encoding, whatever bytes follow it on the stream.
pub proof fn lemma_rt_msg(m: MessageV, rest: Seq<u8>)
    requires
        wf_msg(m),
    ensures
        dec_msg(enc_msg(m) + rest) == Some((m, enc_msg(m).len() as int)),
{
    let b = enc_msg(m) + rest;
    let ps = m.packets;
    assert(b =~= enc_u32(m.version) + (enc_u64(ps.len() as u64) + (enc_packets(ps) + rest)));
    lemma_rt_u32(m.version, enc_u64(ps.len() as u64) + (enc_packets(ps) + rest));
    assert(b.skip(4) =~= enc_u64(ps.len() as u64) + (enc_packets(ps) + rest));
    lemma_rt_u64(ps.len() as u64, enc_packets(ps) + rest);
    assert(b.skip(12) =~= enc_packets(ps) + rest);
    assert((ps.len() as u64) as nat == ps.len());
    lemma_rt_packets(ps, rest);
}

/// Law: the round trip itself: decoding exactly what the encoder produced
/// yields the original message.
pub proof fn lemma_message_round_trip(m: MessageV)
    requires
        wf_msg(m),
    ensures
        dec_msg(enc_msg(m)) == Some((m, enc_msg(m).len() as int)),
{
    lemma_rt_msg(m, Seq::empty());
    assert(enc_msg(m) + Seq::<u8>::empty() =~= enc_msg(m));
}

/// Law: the document codec round-trips the same way; a stored payload
/// decodes back to the document that was sanitized and encoded.
pub proof fn lemma_document_round_trip(d: DocV)
    requires
        wf_doc(d),
    ensures
        dec_doc(enc_doc(d)) == Some((d, enc_doc(d).len() as int)),
{
    lemma_rt_doc(d, Seq::empty());
    assert(enc_doc(d) + Seq::<u8>::empty() =~= enc_doc(d));
}

} // verus!
