use hexstore::decode::{decode_document, decode_message};
use hexstore::dispatch::FrameStep;
use hexstore::dispatch::frame_step;
use hexstore::document::{DocData, Document};
use hexstore::encode::{encode_document, encode_message};
use hexstore::wire::{Message, Packet};

fn sample_document() -> Document {
    Document {
        tag: "hexcasting:list".to_string(),
        data: DocData::List(vec![
            Document { tag: "hexcasting:string".to_string(), data: DocData::Text("höllo wörld".to_string()) },
            Document { tag: "hexcasting:double".to_string(), data: DocData::Num(-42) },
            Document {
                tag: "hextweaks:dict".to_string(),
                data: DocData::Dict(
                    vec![Document { tag: "hexcasting:string".to_string(), data: DocData::Text("k".to_string()) }],
                    vec![Document { tag: "hexcasting:garbage".to_string(), data: DocData::Unit }],
                ),
            },
            Document { tag: "blob".to_string(), data: DocData::Bytes(vec![0, 1, 255, 128]) },
        ]),
    }
}

fn sample_message() -> Message {
    Message {
        version: 1,
        packets: vec![
            Packet::TryPut {
                pattern: Some("qwe".to_string()),
                payload: Some(encode_document(&sample_document())),
            },
            Packet::TryGet { pattern: None },
            Packet::TryDelete {
                pattern: Some("as".to_string()),
                capability: Some(vec![9u8; 255]),
            },
            Packet::PutSuccess {
                capability: vec![7u8; 255],
                sanitized_entity: Some(sample_document()),
            },
            Packet::GetSuccess { payload: vec![1, 2, 3] },
            Packet::DeleteSuccess,
            Packet::ErrorResponse { code: 400, message: "nope".to_string() },
            Packet::Unsupported { tag: 200 },
        ],
    }
}

#[test]
fn message_round_trip() {
    let m = sample_message();
    let bytes = encode_message(&m);
    let (back, consumed) = decode_message(&bytes).expect("must decode");
    assert_eq!(consumed, bytes.len());
    assert_eq!(back, m);
}

#[test]
fn message_round_trip_with_trailing_bytes() {
    let m = sample_message();
    let mut bytes = encode_message(&m);
    let len = bytes.len();
    bytes.extend_from_slice(&[0u8; 37]);
    let (back, consumed) = decode_message(&bytes).expect("must decode");
    assert_eq!(consumed, len);
    assert_eq!(back, m);
}

#[test]
fn empty_message_round_trip() {
    let m = Message { version: 3, packets: vec![] };
    let bytes = encode_message(&m);
    let (back, consumed) = decode_message(&bytes).expect("must decode");
    assert_eq!(consumed, bytes.len());
    assert_eq!(back, m);
}

#[test]
fn document_round_trip() {
    let d = sample_document();
    let bytes = encode_document(&d);
    let (back, consumed) = decode_document(&bytes).expect("must decode");
    assert_eq!(consumed, bytes.len());
    assert_eq!(back, d);
}

#[test]
fn incomplete_buffer_does_not_decode() {
    let m = sample_message();
    let bytes = encode_message(&m);
    for cut in [0, 1, 4, 11, 12, 13, bytes.len() - 1] {
        let partial: Vec<u8> = bytes[..cut].to_vec();
        assert!(decode_message(&partial).is_none(), "prefix of {cut} bytes must not decode");
    }
}

#[test]
fn corrupt_tag_does_not_decode() {
    let d = Document { tag: "t".to_string(), data: DocData::Unit };
    let mut bytes = encode_document(&d);
    let last = bytes.len() - 1;
    bytes[last] = 99;
    assert!(decode_document(&bytes).is_none());
}

#[test]
fn frame_step_needs_more_on_partial_input() {
    let m = sample_message();
    let bytes = encode_message(&m);
    let partial: Vec<u8> = bytes[..bytes.len() / 2].to_vec();
    assert!(matches!(frame_step(&partial), FrameStep::NeedMore));
}

#[test]
fn frame_step_skips_placeholder_version() {
    let m = Message { version: 0, packets: vec![] };
    let bytes = encode_message(&m);
    match frame_step(&bytes) {
        FrameStep::Skip { consumed } => assert_eq!(consumed, bytes.len()),
        other => panic!("expected a skip, got {other:?}"),
    }
}

#[test]
fn frame_step_dispatches_real_message() {
    let m = sample_message();
    let bytes = encode_message(&m);
    match frame_step(&bytes) {
        FrameStep::Dispatch { message, consumed } => {
            assert_eq!(consumed, bytes.len());
            assert_eq!(message, m);
        },
        other => panic!("expected a dispatch, got {other:?}"),
    }
}
