//! The sanitizer: walks a payload tree before persistence and redacts
//! entity-shaped substructures, leaving everything else byte-identical.

use vstd::prelude::*;
use vstd::slice::slice_to_vec;
use crate::document::{DataV, DocData, DocV, Document, str_eq, view_data, view_doc, view_docs};

verus! {

broadcast use vstd::seq::group_seq_axioms, vstd::std_specs::vec::group_vec_axioms;

/// The tag of an entity-shaped node, which must never survive storage.
pub open spec fn entity_tag() -> Seq<char> {
    "hexcasting:entity"@
}

/// The tag an erased entity is replaced with.
pub open spec fn garbage_tag() -> Seq<char> {
    "hexcasting:garbage"@
}

/// What sanitizing a node yields: an entity-tagged node becomes a garbage
/// node with empty data; any other node keeps its tag, and its data is
/// sanitized element by element where it is list- or dict-shaped.
pub open spec fn sanitize_v(d: DocV) -> DocV
    decreases d,
{
    if d.tag == entity_tag() {
        DocV { tag: garbage_tag(), data: DataV::Unit }
    } else {
        DocV { tag: d.tag, data: sanitize_data_v(d.data) }
    }
}

pub open spec fn sanitize_data_v(dd: DataV) -> DataV
    decreases dd,
{
    match dd {
        DataV::List(l) => DataV::List(sanitize_docs_v(l)),
        DataV::Dict(k, v) => DataV::Dict(sanitize_docs_v(k), sanitize_docs_v(v)),
        leaf => leaf,
    }
}

pub open spec fn sanitize_docs_v(l: Seq<DocV>) -> Seq<DocV>
    decreases l,
{
    Seq::new(
        l.len(),
        |i: int|
            if 0 <= i < l.len() {
                sanitize_v(l[i])
            } else {
                DocV { tag: Seq::empty(), data: DataV::Unit }
            },
    )
}

/// Sanitize a document. Pure and total: it never fails.
pub fn sanitize(d: &Document) -> (r: Document)
    ensures
        r@ == sanitize_v(d@),
    decreases *d,
{
    if str_eq(d.tag.as_str(), "hexcasting:entity") {
        Document { tag: "hexcasting:garbage".to_owned(), data: DocData::Unit }
    } else {
        Document { tag: d.tag.clone(), data: sanitize_data(&d.data) }
    }
}

fn sanitize_data(dd: &DocData) -> (r: DocData)
    ensures
        view_data(r) == sanitize_data_v(view_data(*dd)),
    decreases *dd,
{
    match dd {
        DocData::Text(s) => DocData::Text(s.clone()),
        DocData::Num(n) => DocData::Num(*n),
        DocData::Bytes(b) => DocData::Bytes(slice_to_vec(b.as_slice())),
        DocData::Unit => DocData::Unit,
        DocData::List(v) => DocData::List(sanitize_vec(v)),
        DocData::Dict(k, w) => DocData::Dict(sanitize_vec(k), sanitize_vec(w)),
    }
}

fn sanitize_vec(v: &Vec<Document>) -> (r: Vec<Document>)
    ensures
        view_docs(r@) == sanitize_docs_v(view_docs(v@)),
    decreases *v,
{
    let mut out: Vec<Document> = Vec::new();
    let mut i: usize = 0;
    while i < v.len()
        invariant
            i <= v@.len(),
            out@.len() == i,
            forall|j: int| 0 <= j < i ==> view_doc(#[trigger] out@[j]) == sanitize_v(
                view_doc(v@[j]),
            ),
        decreases v@.len() - i,
    {
        let s = sanitize(&v[i]);
        out.push(s);
        i = i + 1;
    }
    proof {
        assert(view_docs(out@) =~= sanitize_docs_v(view_docs(v@)));
    }
    out
}

/// Law: sanitizing is idempotent.
pub proof fn lemma_sanitize_idempotent(d: DocV)
    ensures
        sanitize_v(sanitize_v(d)) == sanitize_v(d),
    decreases d,
{
    reveal_strlit("hexcasting:entity");
    reveal_strlit("hexcasting:garbage");
    if d.tag == entity_tag() {
        assert(entity_tag().len() == 17) by {
            broadcast use vstd::string::group_string_axioms;
        }
        assert(garbage_tag().len() == 18) by {
            broadcast use vstd::string::group_string_axioms;
        }
        assert(garbage_tag() != entity_tag());
    } else {
        lemma_sanitize_data_idempotent(d.data);
    }
}

proof fn lemma_sanitize_data_idempotent(dd: DataV)
    ensures
        sanitize_data_v(sanitize_data_v(dd)) == sanitize_data_v(dd),
    decreases dd,
{
    match dd {
        DataV::List(l) => {
            lemma_sanitize_docs_idempotent(l);
        },
        DataV::Dict(k, v) => {
            lemma_sanitize_docs_idempotent(k);
            lemma_sanitize_docs_idempotent(v);
        },
        _ => {},
    }
}

proof fn lemma_sanitize_docs_idempotent(l: Seq<DocV>)
    ensures
        sanitize_docs_v(sanitize_docs_v(l)) == sanitize_docs_v(l),
    decreases l,
{
    assert forall|i: int| 0 <= i < l.len() implies sanitize_v(
        #[trigger] sanitize_docs_v(l)[i],
    ) == sanitize_docs_v(l)[i] by {
        lemma_sanitize_idempotent(l[i]);
    }
    assert(sanitize_docs_v(sanitize_docs_v(l)) =~= sanitize_docs_v(l));
}

/// Law: an entity-tagged document is erased outright, regardless of its
/// data: the result carries the garbage tag and empty data.
pub proof fn lemma_entity_erasure(d: DocV)
    requires
        d.tag == entity_tag(),
    ensures
        sanitize_v(d).tag == garbage_tag(),
        sanitize_v(d).data == DataV::Unit,
{
}

/// Law: sanitizing a non-entity node preserves its tag; list- and
/// dict-shaped data keeps its length, only the elements are transformed,
/// each by sanitizing.
pub proof fn lemma_sanitize_preserves_structure(d: DocV)
    requires
        d.tag != entity_tag(),
    ensures
        sanitize_v(d).tag == d.tag,
        d.data matches DataV::List(l) ==> sanitize_v(d).data matches DataV::List(sl)
            && sl.len() == l.len() && (forall|i: int|
            0 <= i < l.len() ==> #[trigger] sl[i] == sanitize_v(l[i])),
        d.data matches DataV::Dict(k, v) ==> sanitize_v(d).data matches DataV::Dict(sk, sv)
            && sk.len() == k.len() && sv.len() == v.len() && (forall|i: int|
            0 <= i < k.len() ==> #[trigger] sk[i] == sanitize_v(k[i])) && (forall|i: int|
            0 <= i < v.len() ==> #[trigger] sv[i] == sanitize_v(v[i])),
{
}

} // verus!
