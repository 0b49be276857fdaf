//! The objects of a candidate, once each, in ascending order of their ids.

use crate::bytes::{bytes_equal, bytes_less, lex_less_irreflexive, lex_less_trichotomy};
use crate::errors::CandidateSealError;
use crate::git_control::{all_listed, ascending_members_are_all, places_grow};
use crate::git_object::{
    object_record_error, root_commit_error, validate_object_record, validate_root_commit_evidence, FreshRootCommitEvidence,
    MAX_RAW_OBJECT_BYTES,
};
use crate::seal::{ascends_at, objects_ascend, objects_ascend_apart};
use crate::seal_records::{ObjectKind, ObjectRecord, MAX_OBJECT_RECORDS};
use crate::sorting::{keys_in_order, sort_keyed, Keyed};
use vstd::prelude::*;
use vstd::seq_lib::*;

verus! {

impl Keyed for ObjectRecord {
    open spec fn key(&self) -> Seq<u8> {
        self.oid@
    }

    fn below(&self, other: &Self) -> (r: bool) {
        bytes_less(self.oid.as_slice(), other.oid.as_slice())
    }
}

/// Why the records from `i` on are no objects of a kind, if they are not.
pub open spec fn kind_error(records: Seq<ObjectRecord>, kind: ObjectKind, i: int) -> Option<CandidateSealError>
    decreases records.len() - i,
{
    if i >= records.len() {
        None
    } else if records[i].kind != kind {
        Some(CandidateSealError::InvalidRecord)
    } else if object_record_error(records[i], MAX_RAW_OBJECT_BYTES) is Some {
        object_record_error(records[i], MAX_RAW_OBJECT_BYTES)
    } else {
        kind_error(records, kind, i + 1)
    }
}

/// Two records with one id say different things.
pub open spec fn conflict(records: Seq<ObjectRecord>, i: int, j: int) -> bool {
    0 <= i < records.len() && 0 <= j < records.len() && records[i].oid@ == records[j].oid@ && records[i] != records[j]
}

/// All the records of a candidate: blobs, trees and the commit.
pub open spec fn all_objects(blobs: Seq<ObjectRecord>, trees: Seq<ObjectRecord>, root: FreshRootCommitEvidence) -> Seq<
    ObjectRecord,
> {
    (blobs + trees).push(root.as_object())
}

/// The root tree is among the trees.
pub open spec fn root_tree_listed(trees: Seq<ObjectRecord>, root: FreshRootCommitEvidence) -> bool {
    exists|i: int| 0 <= i < trees.len() && (#[trigger] trees[i]).oid@ == root.tree_oid@
}

/// Why the objects of a candidate have no union, if they have none.
pub open spec fn union_error(blobs: Seq<ObjectRecord>, trees: Seq<ObjectRecord>, root: FreshRootCommitEvidence) -> Option<
    CandidateSealError,
> {
    if blobs.len() + trees.len() + 1 > MAX_OBJECT_RECORDS {
        Some(CandidateSealError::ResourceLimit)
    } else if root_commit_error(root) is Some {
        root_commit_error(root)
    } else if kind_error(blobs, ObjectKind::Blob, 0) is Some {
        kind_error(blobs, ObjectKind::Blob, 0)
    } else if kind_error(trees, ObjectKind::Tree, 0) is Some {
        kind_error(trees, ObjectKind::Tree, 0)
    } else if !root_tree_listed(trees, root) {
        Some(CandidateSealError::InvalidRecord)
    } else if exists|i: int, j: int| conflict(all_objects(blobs, trees, root), i, j) {
        Some(CandidateSealError::InvalidRecord)
    } else {
        None
    }
}

/// `union` holds what `records` holds, once each, in ascending order of the ids.
pub open spec fn is_union(union: Seq<ObjectRecord>, records: Seq<ObjectRecord>) -> bool {
    objects_ascend(union) && forall|record: ObjectRecord| #[trigger] union.contains(record) == records.contains(record)
}

/// Records that say the same are the same.
pub proof fn same_records_are_equal(a: ObjectRecord, b: ObjectRecord)
    ensures
        a.same(b) == (a == b),
{
    if a.same(b) {
        assert(a.oid =~= b.oid);
        assert(a.raw_sha256 =~= b.raw_sha256);
    }
}

/// Whether two records say the same.
pub fn same_object(a: &ObjectRecord, b: &ObjectRecord) -> (r: bool)
    ensures
        r == (a == b),
{
    proof {
        same_records_are_equal(*a, *b);
    }
    bytes_equal(a.oid.as_slice(), b.oid.as_slice()) && a.kind == b.kind && a.raw_size == b.raw_size && bytes_equal(
        a.raw_sha256.as_slice(),
        b.raw_sha256.as_slice(),
    )
}

/// Append records of one kind.
fn append_kind(records: &mut Vec<ObjectRecord>, more: &[ObjectRecord], kind: ObjectKind) -> (r: Result<
    (),
    CandidateSealError,
>)
    ensures
        match kind_error(more@, kind, 0) {
            Some(error) => r matches Err(e) && e == error,
            None => r is Ok && final(records)@ == old(records)@ + more@,
        },
{
    let ghost before = records@;
    let mut i: usize = 0;
    while i < more.len()
        invariant
            i <= more@.len(),
            kind_error(more@, kind, 0) == kind_error(more@, kind, i as int),
            records@ == before + more@.subrange(0, i as int),
        decreases more@.len() - i,
    {
        let record = more[i];
        if record.kind != kind {
            return Err(CandidateSealError::InvalidRecord);
        }
        match validate_object_record(record) {
            Ok(()) => {},
            Err(error) => {
                return Err(error);
            },
        }
        records.push(record);
        assert(records@ =~= before + more@.subrange(0, i + 1));
        i = i + 1;
    }
    assert(more@.subrange(0, more@.len() as int) =~= more@);
    Ok(())
}

/// Whether the root tree is among the trees.
fn lists_root_tree(trees: &[ObjectRecord], root_commit: FreshRootCommitEvidence) -> (r: bool)
    ensures
        r == root_tree_listed(trees@, root_commit),
{
    let mut i: usize = 0;
    while i < trees.len()
        invariant
            i <= trees@.len(),
            forall|k: int| 0 <= k < i ==> (#[trigger] trees@[k]).oid@ != root_commit.tree_oid@,
        decreases trees@.len() - i,
    {
        if bytes_equal(trees[i].oid.as_slice(), root_commit.tree_oid.as_slice()) {
            assert(trees@[i as int].oid@ == root_commit.tree_oid@);
            return true;
        }
        i = i + 1;
    }
    false
}

/// Keep each of the ordered records once.
fn collapse(records: &Vec<ObjectRecord>) -> (r: Result<Vec<ObjectRecord>, CandidateSealError>)
    requires
        keys_in_order(records@),
    ensures
        r is Err <==> exists|i: int, j: int| conflict(records@, i, j),
        r matches Ok(union) ==> is_union(union@, records@),
        r matches Err(error) ==> error == CandidateSealError::InvalidRecord,
{
    let ghost all = records@;
    let mut union: Vec<ObjectRecord> = Vec::new();
    let mut i: usize = 0;
    while i < records.len()
        invariant
            all == records@,
            keys_in_order(all),
            i <= all.len(),
            objects_ascend(union@),
            i > 0 ==> union@.len() > 0 && union@.last() == all[i - 1],
            i == 0 ==> union@.len() == 0,
            forall|k: int| 0 <= k < i ==> union@.contains(#[trigger] all[k]),
            forall|k: int| 0 <= k < union@.len() ==> all.contains(#[trigger] union@[k]),
        decreases all.len() - i,
    {
        let record = records[i];
        let ghost before = union@;
        if i > 0 && bytes_equal(records[i - 1].oid.as_slice(), record.oid.as_slice()) {
            if !same_object(&records[i - 1], &record) {
                assert(conflict(all, i - 1, i as int));
                return Err(CandidateSealError::InvalidRecord);
            }
            assert(union@[union@.len() - 1] == all[i as int]);
        } else {
            proof {
                if i > 0 {
                    lex_less_trichotomy(all[i - 1].oid@, all[i as int].oid@);
                }
            }
            union.push(record);
            assert forall|k: int| 0 < k < union@.len() implies #[trigger] ascends_at(union@, k) by {
                if k < before.len() {
                    assert(ascends_at(before, k));
                }
            }
            assert(union@[union@.len() - 1] == all[i as int]);
        }
        assert forall|k: int| 0 <= k < i + 1 implies union@.contains(#[trigger] all[k]) by {
            if k < i {
                assert(before.contains(all[k]));
                let m = choose|m: int| 0 <= m < before.len() && before[m] == all[k];
                assert(union@[m] == all[k]);
            }
        }
        i = i + 1;
    }
    proof {
        assert forall|a: int, b: int| !conflict(all, a, b) by {
            if conflict(all, a, b) {
                assert(union@.contains(all[a]) && union@.contains(all[b]));
                let m = choose|m: int| 0 <= m < union@.len() && union@[m] == all[a];
                let n = choose|n: int| 0 <= n < union@.len() && union@[n] == all[b];
                lex_less_irreflexive(all[a].oid@);
                if m < n {
                    objects_ascend_apart(union@, m, n);
                } else if n < m {
                    objects_ascend_apart(union@, n, m);
                }
            }
        }
        assert forall|record: ObjectRecord| #[trigger] union@.contains(record) == all.contains(record) by {
            if union@.contains(record) {
                let m = choose|m: int| 0 <= m < union@.len() && union@[m] == record;
                assert(all.contains(union@[m]));
            }
            if all.contains(record) {
                let k = choose|k: int| 0 <= k < all.len() && all[k] == record;
                assert(union@.contains(all[k]));
            }
        }
    }
    Ok(union)
}

/// The same records in another order conflict or not alike, and have the same union.
proof fn reordered_records(a: Seq<ObjectRecord>, b: Seq<ObjectRecord>)
    requires
        a.to_multiset() == b.to_multiset(),
    ensures
        forall|record: ObjectRecord| #[trigger] a.contains(record) == b.contains(record),
        (exists|i: int, j: int| conflict(a, i, j)) ==> (exists|i: int, j: int| conflict(b, i, j)),
{
    broadcast use group_to_multiset_ensures;

    assert forall|record: ObjectRecord| #[trigger] a.contains(record) == b.contains(record) by {
        assert(a.contains(record) == (a.to_multiset().count(record) > 0));
        assert(b.contains(record) == (b.to_multiset().count(record) > 0));
    }
    if exists|i: int, j: int| conflict(a, i, j) {
        let (i, j) = choose|i: int, j: int| conflict(a, i, j);
        assert(a.contains(a[i]) && a.contains(a[j]));
        let m = choose|m: int| 0 <= m < b.len() && b[m] == a[i];
        let n = choose|n: int| 0 <= n < b.len() && b[n] == a[j];
        assert(conflict(b, m, n));
    }
}

/// The objects of a candidate, once each, in ascending order of their ids.
pub fn canonical_object_union(blobs: &[ObjectRecord], trees: &[ObjectRecord], root_commit: FreshRootCommitEvidence) -> (r:
    Result<Vec<ObjectRecord>, CandidateSealError>)
    ensures
        match union_error(blobs@, trees@, root_commit) {
            Some(error) => r matches Err(e) && e == error,
            None => r matches Ok(union) && is_union(union@, all_objects(blobs@, trees@, root_commit)),
        },
{
    if blobs.len() > MAX_OBJECT_RECORDS || trees.len() > MAX_OBJECT_RECORDS || blobs.len() + trees.len() + 1
        > MAX_OBJECT_RECORDS {
        return Err(CandidateSealError::ResourceLimit);
    }
    validate_root_commit_evidence(root_commit)?;
    let mut records: Vec<ObjectRecord> = Vec::new();
    append_kind(&mut records, blobs, ObjectKind::Blob)?;
    assert(records@ =~= blobs@);
    append_kind(&mut records, trees, ObjectKind::Tree)?;
    if !lists_root_tree(trees, root_commit) {
        return Err(CandidateSealError::InvalidRecord);
    }
    records.push(root_commit.object_record());
    let ghost all = records@;
    assert(all =~= all_objects(blobs@, trees@, root_commit));
    sort_keyed(&mut records);
    proof {
        reordered_records(all, records@);
        reordered_records(records@, all);
    }
    collapse(&records)
}

/// A union is determined by what it holds: two unions of the same records are the same list.
pub proof fn union_is_unique(a: Seq<ObjectRecord>, b: Seq<ObjectRecord>, records: Seq<ObjectRecord>)
    requires
        is_union(a, records),
        is_union(b, records),
    ensures
        a == b,
{
    union_is_listed(a, b, records);
    union_is_listed(b, a, records);
    ascending_members_are_all(a, b);
}

proof fn union_is_listed(a: Seq<ObjectRecord>, b: Seq<ObjectRecord>, records: Seq<ObjectRecord>)
    requires
        is_union(a, records),
        is_union(b, records),
    ensures
        all_listed(a, b),
        a.len() <= b.len(),
{
    assert forall|i: int| 0 <= i < a.len() implies b.contains(#[trigger] a[i]) by {
        assert(a.contains(a[i]));
        assert(records.contains(a[i]));
    }
    if a.len() > 0 {
        let last = a.len() - 1;
        places_grow(a, b, last);
        assert(b.contains(a[last]));
        let j = choose|j: int| 0 <= j < b.len() && #[trigger] b[j] == a[last];
        assert(j >= last);
    }
}

} // verus!
