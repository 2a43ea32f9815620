use hexstore::document::{DocData, Document};
use hexstore::sanitize::sanitize;

fn entity_doc() -> Document {
    Document {
        tag: "hexcasting:entity".to_string(),
        data: DocData::Dict(
            vec![Document { tag: "hexcasting:string".to_string(), data: DocData::Text("name".to_string()) }],
            vec![Document { tag: "hexcasting:string".to_string(), data: DocData::Text("walker".to_string()) }],
        ),
    }
}

#[test]
fn entity_becomes_garbage_with_empty_data() {
    let d = entity_doc();
    let s = sanitize(&d);
    assert_eq!(s.tag, "hexcasting:garbage");
    assert_eq!(s.data, DocData::Unit);
}

#[test]
fn entity_with_leaf_data_is_erased_too() {
    let d = Document { tag: "hexcasting:entity".to_string(), data: DocData::Num(7) };
    let s = sanitize(&d);
    assert_eq!(s.tag, "hexcasting:garbage");
    assert_eq!(s.data, DocData::Unit);
}

#[test]
fn list_keeps_tag_and_length_and_sanitizes_elements() {
    let d = Document {
        tag: "hexcasting:list".to_string(),
        data: DocData::List(vec![
            entity_doc(),
            Document { tag: "hexcasting:double".to_string(), data: DocData::Num(3) },
            entity_doc(),
        ]),
    };
    let s = sanitize(&d);
    assert_eq!(s.tag, "hexcasting:list");
    match s.data {
        DocData::List(items) => {
            assert_eq!(items.len(), 3);
            assert_eq!(items[0].tag, "hexcasting:garbage");
            assert_eq!(items[1].tag, "hexcasting:double");
            assert_eq!(items[1].data, DocData::Num(3));
            assert_eq!(items[2].tag, "hexcasting:garbage");
        },
        other => panic!("expected list data, got {other:?}"),
    }
}

#[test]
fn dict_keeps_tag_and_both_lengths() {
    let d = Document {
        tag: "hextweaks:dict".to_string(),
        data: DocData::Dict(
            vec![entity_doc(), entity_doc()],
            vec![
                Document { tag: "hexcasting:string".to_string(), data: DocData::Text("v".to_string()) },
                entity_doc(),
            ],
        ),
    };
    let s = sanitize(&d);
    assert_eq!(s.tag, "hextweaks:dict");
    match s.data {
        DocData::Dict(ks, vs) => {
            assert_eq!(ks.len(), 2);
            assert_eq!(vs.len(), 2);
            assert_eq!(ks[0].tag, "hexcasting:garbage");
            assert_eq!(ks[1].tag, "hexcasting:garbage");
            assert_eq!(vs[0].tag, "hexcasting:string");
            assert_eq!(vs[1].tag, "hexcasting:garbage");
        },
        other => panic!("expected dict data, got {other:?}"),
    }
}

#[test]
fn unknown_tags_pass_through_verbatim() {
    let d = Document { tag: "somemod:custom".to_string(), data: DocData::Bytes(vec![1, 2, 3]) };
    let s = sanitize(&d);
    assert_eq!(s, d);
}

#[test]
fn unknown_tag_with_list_data_recurses() {
    let d = Document {
        tag: "somemod:bag".to_string(),
        data: DocData::List(vec![entity_doc()]),
    };
    let s = sanitize(&d);
    assert_eq!(s.tag, "somemod:bag");
    match s.data {
        DocData::List(items) => assert_eq!(items[0].tag, "hexcasting:garbage"),
        other => panic!("expected list data, got {other:?}"),
    }
}

#[test]
fn sanitize_is_idempotent_on_a_nested_tree() {
    let d = Document {
        tag: "hexcasting:list".to_string(),
        data: DocData::List(vec![
            entity_doc(),
            Document {
                tag: "hextweaks:dict".to_string(),
                data: DocData::Dict(vec![entity_doc()], vec![entity_doc()]),
            },
        ]),
    };
    let once = sanitize(&d);
    let twice = sanitize(&once);
    assert_eq!(once, twice);
}
