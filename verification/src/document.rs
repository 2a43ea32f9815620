//! The tree-shaped payload ("iota"): every node carries a type tag and a
//! data field. The tag vocabulary is open: unrecognized tags pass through
//! the rest of the library unchanged.

use vstd::prelude::*;

verus! {

broadcast use vstd::seq::group_seq_axioms, vstd::std_specs::vec::group_vec_axioms;

/// A node of a payload tree: a type tag plus its data.
#[derive(Debug, PartialEq, Eq)]
pub struct Document {
    pub tag: String,
    pub data: DocData,
}

/// The data field of a node: a leaf, or a container of further nodes.
#[derive(Debug, PartialEq, Eq)]
pub enum DocData {
    /// A textual leaf.
    Text(String),
    /// A numeric leaf.
    Num(i64),
    /// An opaque binary leaf.
    Bytes(Vec<u8>),
    /// An empty container.
    Unit,
    /// An ordered sequence of nodes.
    List(Vec<Document>),
    /// An ordered key list and an ordered value list of the same length.
    Dict(Vec<Document>, Vec<Document>),
}

/// The mathematical model of a document node.
pub struct DocV {
    pub tag: Seq<char>,
    pub data: DataV,
}

/// The mathematical model of a node's data field.
pub enum DataV {
    Text(Seq<char>),
    Num(i64),
    Bytes(Seq<u8>),
    Unit,
    List(Seq<DocV>),
    Dict(Seq<DocV>, Seq<DocV>),
}

pub open spec fn view_doc(d: Document) -> DocV
    decreases d,
{
    DocV { tag: d.tag@, data: view_data(d.data) }
}

pub open spec fn view_data(dd: DocData) -> DataV
    decreases dd,
{
    match dd {
        DocData::Text(s) => DataV::Text(s@),
        DocData::Num(n) => DataV::Num(n),
        DocData::Bytes(b) => DataV::Bytes(b@),
        DocData::Unit => DataV::Unit,
        DocData::List(v) => DataV::List(view_docs(v@)),
        DocData::Dict(k, w) => DataV::Dict(view_docs(k@), view_docs(w@)),
    }
}

pub open spec fn view_docs(s: Seq<Document>) -> Seq<DocV>
    decreases s,
{
    Seq::new(
        s.len(),
        |i: int|
            if 0 <= i < s.len() {
                view_doc(s[i])
            } else {
                DocV { tag: Seq::empty(), data: DataV::Unit }
            },
    )
}

impl View for Document {
    type V = DocV;

    open spec fn view(&self) -> DocV {
        view_doc(*self)
    }
}

impl View for DocData {
    type V = DataV;

    open spec fn view(&self) -> DataV {
        view_data(*self)
    }
}

/// Character-for-character string equality, settled against the views.
pub(crate) fn str_eq(a: &str, b: &str) -> (r: bool)
    ensures
        r == (a@ == b@),
{
    let na = a.unicode_len();
    let nb = b.unicode_len();
    if na != nb {
        return false;
    }
    let mut i: usize = 0;
    while i < na
        invariant
            na == a@.len(),
            na == b@.len(),
            i <= na,
            forall|j: int| 0 <= j < i ==> a@[j] == b@[j],
        decreases na - i,
    {
        if a.get_char(i) != b.get_char(i) {
            return false;
        }
        i = i + 1;
    }
    proof {
        assert(a@ =~= b@);
    }
    true
}

} // verus!
