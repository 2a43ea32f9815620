//! The keyed store: records addressed by pattern, guarded by a capability
//! token, and carrying an absolute expiry instant. Its model is a map from
//! pattern to record.

use vstd::prelude::*;
use crate::document::str_eq;

verus! {

broadcast use vstd::seq::group_seq_axioms, vstd::std_specs::vec::group_vec_axioms, vstd::map::group_map_axioms, vstd::set::group_set_axioms;

/// The longest pattern the persisted record shape admits.
pub const PATTERN_KEY_MAX: usize = 256;

/// A stored record: the payload bytes, the bearer secret that may delete
/// them early, and the instant they expire on their own.
struct Record {
    pattern: String,
    data: Vec<u8>,
    capability: Vec<u8>,
    expiry: u64,
}

/// The mathematical model of a record, keyed by its pattern elsewhere.
pub struct RecordV {
    pub data: Seq<u8>,
    pub capability: Seq<u8>,
    pub expiry: u64,
}

spec fn record_v(r: Record) -> RecordV {
    RecordV { data: r.data@, capability: r.capability@, expiry: r.expiry }
}

/// Whether some record in the sequence carries the given pattern.
spec fn keys_has(rs: Seq<Record>, k: Seq<char>) -> bool {
    exists|i: int| 0 <= i < rs.len() && rs[i].pattern@ == k
}

/// The index of the record carrying the given pattern.
spec fn idx_of(rs: Seq<Record>, k: Seq<char>) -> int {
    choose|i: int| 0 <= i < rs.len() && rs[i].pattern@ == k
}

/// No two records share a pattern.
spec fn seq_wf(rs: Seq<Record>) -> bool {
    forall|i: int, j: int|
        0 <= i < j < rs.len() ==> (#[trigger] rs[i].pattern@) != (#[trigger] rs[j].pattern@)
}

/// The map a record sequence denotes.
spec fn map_of(rs: Seq<Record>) -> Map<Seq<char>, RecordV> {
    Map::new(|k: Seq<char>| keys_has(rs, k), |k: Seq<char>| record_v(rs[idx_of(rs, k)]))
}

/// What an upsert does to the model.
pub open spec fn spec_put(m: Map<Seq<char>, RecordV>, k: Seq<char>, r: RecordV) -> Map<
    Seq<char>,
    RecordV,
> {
    m.insert(k, r)
}

/// What a lookup returns from the model.
pub open spec fn spec_get(m: Map<Seq<char>, RecordV>, k: Seq<char>) -> Option<Seq<u8>> {
    if m.contains_key(k) {
        Some(m[k].data)
    } else {
        None
    }
}

/// What a conditional delete does to the model: the record leaves only
/// when both the pattern and the capability match.
pub open spec fn spec_delete_if(
    m: Map<Seq<char>, RecordV>,
    k: Seq<char>,
    c: Seq<u8>,
) -> Map<Seq<char>, RecordV> {
    if m.contains_key(k) && m[k].capability == c {
        m.remove(k)
    } else {
        m
    }
}

/// What pruning at an instant leaves: exactly the records whose expiry has
/// not yet passed.
pub open spec fn spec_prune(m: Map<Seq<char>, RecordV>, now: u64) -> Map<Seq<char>, RecordV> {
    Map::new(|k: Seq<char>| m.contains_key(k) && m[k].expiry >= now, |k: Seq<char>| m[k])
}

proof fn lemma_map_of_at(rs: Seq<Record>, i: int)
    requires
        seq_wf(rs),
        0 <= i < rs.len(),
    ensures
        map_of(rs).contains_key(rs[i].pattern@),
        map_of(rs)[rs[i].pattern@] == record_v(rs[i]),
{
    let k = rs[i].pattern@;
    assert(keys_has(rs, k));
    let j = idx_of(rs, k);
    assert(0 <= j < rs.len() && rs[j].pattern@ == k);
    if i < j {
        assert(rs[i].pattern@ != rs[j].pattern@);
    } else if j < i {
        assert(rs[j].pattern@ != rs[i].pattern@);
    }
}

proof fn lemma_map_of_push(rs: Seq<Record>, rec: Record)
    requires
        seq_wf(rs),
        !keys_has(rs, rec.pattern@),
    ensures
        seq_wf(rs.push(rec)),
        map_of(rs.push(rec)) == map_of(rs).insert(rec.pattern@, record_v(rec)),
{
    let k = rec.pattern@;
    let rs2 = rs.push(rec);
    assert forall|i: int, j: int| 0 <= i < j < rs2.len() implies (#[trigger] rs2[i].pattern@)
        != (#[trigger] rs2[j].pattern@) by {
        if j < rs.len() {
            assert(rs2[i] == rs[i] && rs2[j] == rs[j]);
        } else {
            assert(rs2[j] == rec && rs2[i] == rs[i]);
            assert(keys_has(rs, rs[i].pattern@));
        }
    }
    assert forall|k2: Seq<char>| #[trigger] keys_has(rs2, k2) <==> (keys_has(rs, k2) || k2
        == k) by {
        if keys_has(rs2, k2) {
            let i = choose|i: int| 0 <= i < rs2.len() && rs2[i].pattern@ == k2;
            if i < rs.len() {
                assert(rs[i].pattern@ == k2);
            }
        }
        if keys_has(rs, k2) {
            let i = choose|i: int| 0 <= i < rs.len() && rs[i].pattern@ == k2;
            assert(rs2[i].pattern@ == k2);
        }
        if k2 == k {
            assert(rs2[rs.len() as int].pattern@ == k2);
        }
    }
    assert forall|k2: Seq<char>| map_of(rs2).contains_key(k2) implies map_of(rs2)[k2] == map_of(
        rs,
    ).insert(k, record_v(rec))[k2] by {
        if k2 == k {
            lemma_map_of_at(rs2, rs.len() as int);
        } else {
            let i = choose|i: int| 0 <= i < rs.len() && rs[i].pattern@ == k2;
            lemma_map_of_at(rs, i);
            assert(rs2[i].pattern@ == k2);
            lemma_map_of_at(rs2, i);
        }
    }
    assert(map_of(rs2) =~= map_of(rs).insert(k, record_v(rec)));
}

proof fn lemma_map_of_remove(rs: Seq<Record>, i: int)
    requires
        seq_wf(rs),
        0 <= i < rs.len(),
    ensures
        seq_wf(rs.remove(i)),
        map_of(rs.remove(i)) == map_of(rs).remove(rs[i].pattern@),
{
    let k = rs[i].pattern@;
    let rs2 = rs.remove(i);
    assert(rs2.len() == rs.len() - 1);
    assert forall|j: int| 0 <= j < rs2.len() implies rs2[j] == (if j < i {
        rs[j]
    } else {
        rs[j + 1]
    }) by {}
    assert forall|a: int, b: int| 0 <= a < b < rs2.len() implies (#[trigger] rs2[a].pattern@)
        != (#[trigger] rs2[b].pattern@) by {}
    assert forall|k2: Seq<char>| #[trigger] keys_has(rs2, k2) <==> (keys_has(rs, k2) && k2
        != k) by {
        if keys_has(rs2, k2) {
            let a = choose|a: int| 0 <= a < rs2.len() && rs2[a].pattern@ == k2;
            let b: int = if a < i {
                a
            } else {
                a + 1
            };
            assert(rs[b].pattern@ == k2);
            if b < i {
                assert(rs[b].pattern@ != rs[i].pattern@);
            } else {
                assert(rs[i].pattern@ != rs[b].pattern@);
            }
        }
        if keys_has(rs, k2) && k2 != k {
            let b = choose|b: int| 0 <= b < rs.len() && rs[b].pattern@ == k2;
            if b < i {
                assert(rs2[b].pattern@ == k2);
            } else {
                assert(b > i);
                assert(rs2[b - 1].pattern@ == k2);
            }
        }
    }
    assert forall|k2: Seq<char>| map_of(rs2).contains_key(k2) implies map_of(rs2)[k2] == map_of(
        rs,
    )[k2] by {
        let a = choose|a: int| 0 <= a < rs2.len() && rs2[a].pattern@ == k2;
        lemma_map_of_at(rs2, a);
        let b: int = if a < i {
            a
        } else {
            a + 1
        };
        assert(rs[b].pattern@ == k2);
        lemma_map_of_at(rs, b);
        assert(rs2[a] == rs[b]);
    }
    assert(map_of(rs2) =~= map_of(rs).remove(k));
}

/// Byte-for-byte equality of two byte strings, settled against the views.
fn bytes_eq(a: &Vec<u8>, b: &Vec<u8>) -> (r: bool)
    ensures
        r == (a@ == b@),
{
    if a.len() != b.len() {
        return false;
    }
    let mut i: usize = 0;
    while i < a.len()
        invariant
            a@.len() == b@.len(),
            i <= a@.len(),
            forall|j: int| 0 <= j < i ==> a@[j] == b@[j],
        decreases a@.len() - i,
    {
        if a[i] != b[i] {
            return false;
        }
        i = i + 1;
    }
    proof {
        assert(a@ =~= b@);
    }
    true
}

/// The keyed store itself. Its well-formedness invariant: no two records
/// share a pattern, so the record sequence denotes a map.
pub struct Store {
    records: Vec<Record>,
}

impl Store {
    /// The store's internal invariant, established by `new` and preserved
    /// by every operation.
    pub closed spec fn wf(self) -> bool {
        seq_wf(self.records@)
    }

    /// The map this store denotes.
    pub closed spec fn view(self) -> Map<Seq<char>, RecordV> {
        map_of(self.records@)
    }

    /// How many records the store holds.
    pub closed spec fn spec_len(self) -> nat {
        self.records@.len()
    }

    /// An empty store.
    pub fn new() -> (s: Store)
        ensures
            s.wf(),
            s@ == Map::<Seq<char>, RecordV>::empty(),
            s.spec_len() == 0,
    {
        let s = Store { records: Vec::new() };
        proof {
            assert forall|k: Seq<char>| !map_of(s.records@).contains_key(k) by {}
            assert(map_of(s.records@) =~= Map::<Seq<char>, RecordV>::empty());
        }
        s
    }

    fn find_index(&self, pattern: &str) -> (r: Option<usize>)
        ensures
            match r {
                Some(i) => i < self.records@.len() && self.records@[i as int].pattern@ == pattern@,
                None => !keys_has(self.records@, pattern@),
            },
    {
        let mut i: usize = 0;
        while i < self.records.len()
            invariant
                i <= self.records@.len(),
                forall|j: int| 0 <= j < i ==> (#[trigger] self.records@[j].pattern@) != pattern@,
            decreases self.records@.len() - i,
        {
            if str_eq(self.records[i].pattern.as_str(), pattern) {
                return Some(i);
            }
            i = i + 1;
        }
        None
    }

    /// Upsert: store the record under the pattern, overwriting whatever
    /// the pattern held before (last writer wins).
    pub fn put(&mut self, pattern: &str, data: Vec<u8>, capability: Vec<u8>, expiry: u64)
        requires
            old(self).wf(),
            pattern@.len() <= PATTERN_KEY_MAX,
        ensures
            final(self).wf(),
            final(self)@ == spec_put(
                old(self)@,
                pattern@,
                RecordV { data: data@, capability: capability@, expiry },
            ),
    {
        let ghost m0 = self@;
        let ghost rv = RecordV { data: data@, capability: capability@, expiry };
        match self.find_index(pattern) {
            Some(i) => {
                proof {
                    lemma_map_of_remove(self.records@, i as int);
                }
                self.records.remove(i);
            },
            None => {
                proof {
                    assert(!map_of(self.records@).contains_key(pattern@));
                }
            },
        }
        let rec = Record { pattern: pattern.to_owned(), data, capability, expiry };
        proof {
            assert(record_v(rec) == rv);
            assert(!keys_has(self.records@, pattern@));
            lemma_map_of_push(self.records@, rec);
        }
        self.records.push(rec);
        proof {
            assert(final(self)@ =~= spec_put(m0, pattern@, rv));
        }
    }

    /// Look the pattern up and hand back a copy of its payload bytes.
    pub fn get(&self, pattern: &str) -> (r: Option<Vec<u8>>)
        requires
            self.wf(),
        ensures
            match r {
                Some(b) => spec_get(self@, pattern@) == Some(b@),
                None => spec_get(self@, pattern@) is None,
            },
    {
        match self.find_index(pattern) {
            Some(i) => {
                proof {
                    lemma_map_of_at(self.records@, i as int);
                }
                Some(vstd::slice::slice_to_vec(self.records[i].data.as_slice()))
            },
            None => None,
        }
    }

    /// Delete the record iff both the pattern and the capability match;
    /// report whether a record left the store.
    pub fn delete_if(&mut self, pattern: &str, capability: &Vec<u8>) -> (removed: bool)
        requires
            old(self).wf(),
        ensures
            final(self).wf(),
            final(self)@ == spec_delete_if(old(self)@, pattern@, capability@),
            removed == (old(self)@.contains_key(pattern@) && old(self)@[pattern@].capability
                == capability@),
    {
        match self.find_index(pattern) {
            Some(i) => {
                proof {
                    lemma_map_of_at(self.records@, i as int);
                }
                if bytes_eq(&self.records[i].capability, capability) {
                    proof {
                        lemma_map_of_remove(self.records@, i as int);
                    }
                    self.records.remove(i);
                    true
                } else {
                    false
                }
            },
            None => {
                proof {
                    assert(!map_of(self.records@).contains_key(pattern@));
                }
                false
            },
        }
    }

    /// Remove every record whose expiry lies before `now`; report how many
    /// records left the store.
    pub fn prune(&mut self, now: u64) -> (count: u64)
        requires
            old(self).wf(),
        ensures
            final(self).wf(),
            final(self)@ == spec_prune(old(self)@, now),
            count == old(self).spec_len() - final(self).spec_len(),
            final(self).spec_len() <= old(self).spec_len(),
    {
        let ghost rs0 = self.records@;
        let n0 = self.records.len();
        let mut kept: Vec<Record> = Vec::new();
        let mut i: usize = 0;
        while self.records.len() > 0
            invariant
                seq_wf(rs0),
                rs0.len() == n0,
                i <= rs0.len(),
                i + self.records@.len() == rs0.len(),
                self.records@ == rs0.skip(i as int),
                kept@ == rs0.take(i as int).filter(|r: Record| r.expiry >= now),
            decreases self.records@.len(),
        {
            proof {
                reveal(Seq::filter);
                assert(rs0.take(i + 1).drop_last() =~= rs0.take(i as int));
                assert(rs0.take(i + 1).last() == rs0[i as int]);
                assert(rs0.skip(i as int)[0] == rs0[i as int]);
                assert(rs0.skip(i as int).remove(0) =~= rs0.skip(i + 1));
            }
            let r = self.records.remove(0);
            if r.expiry >= now {
                kept.push(r);
            }
            proof {
                assert(kept@ =~= rs0.take(i + 1).filter(|r: Record| r.expiry >= now));
            }
            i = i + 1;
        }
        proof {
            assert(rs0.take(rs0.len() as int) =~= rs0);
            lemma_filter_expiry(rs0, now);
        }
        let count = (n0 - kept.len()) as u64;
        self.records = kept;
        count
    }
}

proof fn lemma_filter_expiry(rs: Seq<Record>, now: u64)
    requires
        seq_wf(rs),
    ensures
        seq_wf(rs.filter(|r: Record| r.expiry >= now)),
        rs.filter(|r: Record| r.expiry >= now).len() <= rs.len(),
        map_of(rs.filter(|r: Record| r.expiry >= now)) == spec_prune(map_of(rs), now),
    decreases rs.len(),
{
    reveal(Seq::filter);
    let pred = |r: Record| r.expiry >= now;
    let fs = rs.filter(pred);
    if rs.len() == 0 {
        assert(fs =~= rs);
        assert forall|k: Seq<char>| !map_of(fs).contains_key(k) by {}
        assert(map_of(fs) =~= spec_prune(map_of(rs), now));
    } else {
        let head = rs.drop_last();
        let last = rs.last();
        lemma_filter_expiry_wf_step(rs, now);
        lemma_filter_expiry(head, now);
        assert(head.filter(pred).len() <= head.len());
        assert(map_of(head) =~= map_of(rs).remove(last.pattern@)) by {
            assert(head =~= rs.remove(rs.len() - 1));
            lemma_map_of_remove(rs, rs.len() - 1);
        }
        lemma_map_of_at(rs, rs.len() - 1);
        if pred(last) {
            assert(fs == head.filter(pred).push(last));
            assert(!keys_has(head.filter(pred), last.pattern@)) by {
                if keys_has(head.filter(pred), last.pattern@) {
                    assert(map_of(head.filter(pred)).contains_key(last.pattern@));
                }
            }
            lemma_map_of_push(head.filter(pred), last);
            assert(map_of(fs) =~= spec_prune(map_of(rs), now));
        } else {
            assert(fs == head.filter(pred));
            assert(map_of(fs) =~= spec_prune(map_of(rs), now));
        }
    }
}

proof fn lemma_filter_expiry_wf_step(rs: Seq<Record>, now: u64)
    requires
        seq_wf(rs),
        rs.len() > 0,
    ensures
        seq_wf(rs.drop_last()),
        !keys_has(rs.drop_last(), rs.last().pattern@),
{
    let head = rs.drop_last();
    assert forall|i: int, j: int| 0 <= i < j < head.len() implies (#[trigger] head[i].pattern@)
        != (#[trigger] head[j].pattern@) by {
        assert(rs[i].pattern@ != rs[j].pattern@);
    }
    if keys_has(head, rs.last().pattern@) {
        let i = choose|i: int| 0 <= i < head.len() && head[i].pattern@ == rs.last().pattern@;
        assert(rs[i].pattern@ != rs[rs.len() - 1].pattern@);
    }
}

/// Law: a put followed by a get of the same pattern returns the bytes the
/// put stored.
pub proof fn lemma_put_then_get(m: Map<Seq<char>, RecordV>, k: Seq<char>, r: RecordV)
    ensures
        spec_get(spec_put(m, k, r), k) == Some(r.data),
{
}

/// Law: a conditional delete with the wrong capability leaves the store
/// unchanged, and the record stays retrievable.
pub proof fn lemma_delete_wrong_cap(m: Map<Seq<char>, RecordV>, k: Seq<char>, c: Seq<u8>)
    requires
        m.contains_key(k),
        m[k].capability != c,
    ensures
        spec_delete_if(m, k, c) == m,
        spec_get(spec_delete_if(m, k, c), k) == Some(m[k].data),
{
}

/// Law: a conditional delete with the matching capability removes the
/// record; a following get finds nothing.
pub proof fn lemma_delete_then_get(m: Map<Seq<char>, RecordV>, k: Seq<char>)
    requires
        m.contains_key(k),
    ensures
        spec_get(spec_delete_if(m, k, m[k].capability), k) is None,
{
}

/// Law: pruning removes exactly the expired records: one whose expiry lies
/// before `now` is gone, one whose expiry has not passed survives intact.
pub proof fn lemma_prune_boundary(m: Map<Seq<char>, RecordV>, now: u64, k: Seq<char>)
    requires
        m.contains_key(k),
    ensures
        m[k].expiry < now ==> !spec_prune(m, now).contains_key(k),
        m[k].expiry >= now ==> spec_prune(m, now).contains_key(k) && spec_prune(m, now)[k] == m[k],
{
}

} // verus!
