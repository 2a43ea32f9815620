use hexstore::decode::{decode_document, decode_message};
use hexstore::encode::encode_message;
use hexstore::dispatch::{handle_message, handle_packet};
use hexstore::document::{DocData, Document};
use hexstore::encode::encode_document;
use hexstore::store::Store;
use hexstore::wire::{Message, Packet};

fn entity_doc() -> Document {
    Document {
        tag: "hexcasting:entity".to_string(),
        data: DocData::Dict(
            vec![Document { tag: "hexcasting:string".to_string(), data: DocData::Text("name".to_string()) }],
            vec![Document { tag: "hexcasting:string".to_string(), data: DocData::Text("walker".to_string()) }],
        ),
    }
}

#[test]
fn scenario_put_entity_then_get_returns_garbage() {
    let mut store = Store::new();
    let request = Message {
        version: 1,
        packets: vec![Packet::TryPut {
            pattern: Some("zzz".to_string()),
            payload: Some(encode_document(&entity_doc())),
        }],
    };
    let reply = handle_message(&mut store, &request, 100);
    assert_eq!(reply.version, 1);
    assert_eq!(reply.packets.len(), 1);
    match &reply.packets[0] {
        Packet::PutSuccess { capability, sanitized_entity } => {
            assert_eq!(capability.len(), 255);
            let ent = sanitized_entity.as_ref().expect("root was an entity");
            assert_eq!(ent.tag, "hexcasting:garbage");
            assert_eq!(ent.data, DocData::Unit);
        },
        other => panic!("expected a put success, got {other:?}"),
    }
    // "zzz" filters to the empty pattern: the record sits under that key.
    let follow_up = Message {
        version: 1,
        packets: vec![Packet::TryGet { pattern: Some("zzz".to_string()) }],
    };
    let reply2 = handle_message(&mut store, &follow_up, 200);
    assert_eq!(reply2.packets.len(), 1);
    match &reply2.packets[0] {
        Packet::GetSuccess { payload } => {
            let (doc, _) = decode_document(payload).expect("stored payload must decode");
            assert_eq!(doc.tag, "hexcasting:garbage");
            assert_eq!(doc.data, DocData::Unit);
        },
        other => panic!("expected a get success, got {other:?}"),
    }
}

#[test]
fn scenario_delete_with_wrong_capability_reports_success_but_keeps_record() {
    let mut store = Store::new();
    store.put("qwe", vec![1, 2, 3], vec![9; 255], 10_000);
    let request = Message {
        version: 1,
        packets: vec![Packet::TryDelete {
            pattern: Some("qwe".to_string()),
            capability: Some(vec![7; 255]),
        }],
    };
    let reply = handle_message(&mut store, &request, 100);
    assert_eq!(reply.packets.len(), 1);
    assert!(matches!(reply.packets[0], Packet::DeleteSuccess));
    // The record is still retrievable afterwards.
    let follow_up = Message {
        version: 1,
        packets: vec![Packet::TryGet { pattern: Some("qwe".to_string()) }],
    };
    let reply2 = handle_message(&mut store, &follow_up, 200);
    match &reply2.packets[0] {
        Packet::GetSuccess { payload } => assert_eq!(payload, &vec![1, 2, 3]),
        other => panic!("expected a get success, got {other:?}"),
    }
}

#[test]
fn scenario_empty_packet_list_earns_empty_reply() {
    let mut store = Store::new();
    let request = Message { version: 1, packets: vec![] };
    let reply = handle_message(&mut store, &request, 100);
    assert_eq!(reply.version, 1);
    assert!(reply.packets.is_empty());
}

#[test]
fn delete_then_get_misses() {
    let mut store = Store::new();
    store.put("qwe", vec![1], vec![9; 255], 10_000);
    let request = Message {
        version: 1,
        packets: vec![
            Packet::TryDelete { pattern: Some("qwe".to_string()), capability: Some(vec![9; 255]) },
            Packet::TryGet { pattern: Some("qwe".to_string()) },
        ],
    };
    let reply = handle_message(&mut store, &request, 100);
    assert_eq!(reply.packets.len(), 2);
    assert!(matches!(reply.packets[0], Packet::DeleteSuccess));
    match &reply.packets[1] {
        Packet::ErrorResponse { code, .. } => assert_eq!(*code, 500),
        other => panic!("expected a miss error, got {other:?}"),
    }
}

#[test]
fn get_miss_and_backend_failure_share_code_500() {
    let mut store = Store::new();
    let reply = handle_packet(
        &mut store,
        &Packet::TryGet { pattern: Some("qweasd".to_string()) },
        100,
    );
    match reply {
        Packet::ErrorResponse { code, message } => {
            assert_eq!(code, 500);
            assert_eq!(message, "no record under that pattern");
        },
        other => panic!("expected an error, got {other:?}"),
    }
}

#[test]
fn missing_fields_earn_400() {
    let mut store = Store::new();
    for p in [
        Packet::TryPut { pattern: None, payload: Some(vec![1]) },
        Packet::TryPut { pattern: Some("q".to_string()), payload: None },
        Packet::TryGet { pattern: None },
        Packet::TryDelete { pattern: None, capability: Some(vec![1; 255]) },
        Packet::TryDelete { pattern: Some("q".to_string()), capability: None },
        Packet::Unsupported { tag: 0 },
    ] {
        let reply = handle_packet(&mut store, &p, 100);
        match reply {
            Packet::ErrorResponse { code, message } => {
                assert_eq!(code, 400);
                assert_eq!(message, "please fill all required fields");
            },
            other => panic!("expected an error, got {other:?}"),
        }
    }
}

#[test]
fn response_packets_inbound_earn_400() {
    let mut store = Store::new();
    for p in [
        Packet::PutSuccess { capability: vec![1; 255], sanitized_entity: None },
        Packet::GetSuccess { payload: vec![] },
        Packet::DeleteSuccess,
        Packet::ErrorResponse { code: 1, message: "x".to_string() },
    ] {
        let reply = handle_packet(&mut store, &p, 100);
        match reply {
            Packet::ErrorResponse { code, message } => {
                assert_eq!(code, 400);
                assert_eq!(message, "do not send response packets to the server");
            },
            other => panic!("expected an error, got {other:?}"),
        }
    }
}

#[test]
fn unknown_tag_earns_unsupported_400() {
    let mut store = Store::new();
    let reply = handle_packet(&mut store, &Packet::Unsupported { tag: 200 }, 100);
    match reply {
        Packet::ErrorResponse { code, message } => {
            assert_eq!(code, 400);
            assert_eq!(message, "unsupported request type");
        },
        other => panic!("expected an error, got {other:?}"),
    }
}

#[test]
fn undecodable_payload_earns_400() {
    let mut store = Store::new();
    let reply = handle_packet(
        &mut store,
        &Packet::TryPut { pattern: Some("q".to_string()), payload: Some(vec![1, 2, 3]) },
        100,
    );
    match reply {
        Packet::ErrorResponse { code, message } => {
            assert_eq!(code, 400);
            assert_eq!(message, "payload is not a decodable document");
        },
        other => panic!("expected an error, got {other:?}"),
    }
}

#[test]
fn oversized_pattern_key_earns_500() {
    let mut store = Store::new();
    let long_hint: String = "q".repeat(300);
    let reply = handle_packet(
        &mut store,
        &Packet::TryPut {
            pattern: Some(long_hint),
            payload: Some(encode_document(&entity_doc())),
        },
        100,
    );
    match reply {
        Packet::ErrorResponse { code, message } => {
            assert_eq!(code, 500);
            assert_eq!(message, "pattern key exceeds the backend limit");
        },
        other => panic!("expected an error, got {other:?}"),
    }
}

#[test]
fn stored_record_expires_after_shelf_life() {
    let mut store = Store::new();
    let request = Message {
        version: 1,
        packets: vec![Packet::TryPut {
            pattern: Some("qweqwe".to_string()),
            payload: Some(encode_document(&entity_doc())),
        }],
    };
    let _ = handle_message(&mut store, &request, 1_000);
    // Just before expiry the record survives a prune.
    assert_eq!(store.prune(1_000 + 3_600), 0);
    assert!(store.get("qweqwe").is_some());
    // Past expiry the prune removes it.
    assert_eq!(store.prune(1_000 + 3_601), 1);
    assert!(store.get("qweqwe").is_none());
}

#[test]
fn put_reply_for_non_entity_root_has_no_sanitized_entity() {
    let mut store = Store::new();
    let doc = Document { tag: "hexcasting:string".to_string(), data: DocData::Text("x".to_string()) };
    let reply = handle_packet(
        &mut store,
        &Packet::TryPut { pattern: Some("qq".to_string()), payload: Some(encode_document(&doc)) },
        100,
    );
    match reply {
        Packet::PutSuccess { capability, sanitized_entity } => {
            assert_eq!(capability.len(), 255);
            assert!(sanitized_entity.is_none());
        },
        other => panic!("expected a put success, got {other:?}"),
    }
}

#[test]
fn put_collision_after_filtering_overwrites() {
    let mut store = Store::new();
    let doc1 = Document { tag: "one".to_string(), data: DocData::Num(1) };
    let doc2 = Document { tag: "two".to_string(), data: DocData::Num(2) };
    // Both hints filter to "qw".
    for (hint, doc) in [("qXw", &doc1), ("q!w?", &doc2)] {
        let _ = handle_packet(
            &mut store,
            &Packet::TryPut { pattern: Some(hint.to_string()), payload: Some(encode_document(doc)) },
            100,
        );
    }
    let stored = store.get("qw").expect("record must exist");
    let (back, _) = decode_document(&stored).expect("must decode");
    assert_eq!(back.tag, "two");
}

#[test]
fn server_reply_survives_the_codec() {
    let mut store = Store::new();
    let request = Message {
        version: 1,
        packets: vec![
            Packet::TryPut {
                pattern: Some("qweasd".to_string()),
                payload: Some(encode_document(&entity_doc())),
            },
            Packet::TryGet { pattern: Some("qweasd".to_string()) },
            Packet::TryGet { pattern: Some("wwww".to_string()) },
        ],
    };
    let reply = handle_message(&mut store, &request, 100);
    let bytes = encode_message(&reply);
    let (back, consumed) = decode_message(&bytes).expect("reply must decode");
    assert_eq!(consumed, bytes.len());
    assert_eq!(back, reply);
}
