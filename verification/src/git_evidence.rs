//! Fixed-size Git evidence of a candidate, bound to one physical manifest.
//!
//! Evidence in this module owns no path, no object body and no borrowed view of one. Paths are
//! resolved through the stable ids of physical records, and only while evidence is validated
//! or projected.

use crate::bytes::bytes_equal;
use crate::control_scan::{
    controls_before, entries_before, entries_error, entry_at, is_control, loose_before, loose_files_are_the_objects,
    object_set_error, record_slot, scan_error, scan_exact_git_control, AdmitAll, ControlEntry, ControlVisitor,
};
use crate::errors::CandidateSealError;
use crate::git_control::{
    below_git, find_object, find_object_place, git_relative, git_relative_path, listed_object, loose_object_oid,
    loose_path, object_at_is, require_control_role, SortedObjectSet,
};
use crate::git_object::{
    object_record_error, root_commit_error, validate_object_record, validate_root_commit_evidence, FreshRootCommitEvidence,
    MAX_RAW_OBJECT_BYTES,
};
use crate::identity::{CandidateDirectoryIdentity, CandidateFileIdentity, PublicationIdentityScheme};
use crate::manifest::{
    is_one_manifest, AuditedPhysicalKind, AuditedPhysicalRecord, MarkerFreePhysicalManifest, PhysicalRecordId,
};
use crate::object_union::{all_objects, canonical_object_union, is_union, same_object, union_error, union_is_unique};
use crate::seal::{ascends_at, control_role_fits, first_error, objects_ascend};
use crate::seal_records::{
    GitControlRecord, GitControlRecordKind, GitControlRole, HeadRefsRecord, ObjectKind, ObjectRecord, RootCommitRecord,
    MAX_GIT_CONTROL_RECORDS, MAX_OBJECT_RECORDS,
};
use crate::worktree_evidence::{tracked_blobs, tracked_file, tree_objects_of, FreshTrackedManifest, FreshTreeManifest};
use vstd::prelude::*;
use vstd::string::*;
use vstd::utf8::encode_utf8;

verus! {

/// One loose file bound to its object.
#[derive(Clone, Copy)]
pub struct FreshObjectEvidence {
    pub loose_file: PhysicalRecordId,
    pub record: ObjectRecord,
}

/// One control role bound to its physical record.
#[derive(Clone, Copy)]
pub struct FreshGitControlEvidence {
    pub physical: PhysicalRecordId,
    pub role: GitControlRole,
}

/// Git evidence permanently bound to one physical manifest.
pub struct FreshGitManifest<'physical> {
    pub physical: &'physical MarkerFreePhysicalManifest,
    pub root_commit: FreshRootCommitEvidence,
    pub objects: Vec<FreshObjectEvidence>,
    pub git_control: Vec<FreshGitControlEvidence>,
}

/// Seal records of the branch, the root commit, the objects and the control files.
pub struct CandidateGitProjection<'a> {
    pub head_refs: HeadRefsRecord,
    pub root_commit: RootCommitRecord,
    pub objects: Vec<ObjectRecord>,
    pub git_control: Vec<GitControlRecord<'a>>,
}

/// The objects in a list of evidence.
pub open spec fn evidence_records(objects: Seq<FreshObjectEvidence>) -> Seq<ObjectRecord> {
    objects.map_values(|evidence: FreshObjectEvidence| evidence.record)
}

impl SortedObjectSet for Vec<FreshObjectEvidence> {
    open spec fn object_seq(&self) -> Seq<ObjectRecord> {
        evidence_records(self@)
    }

    fn object_count(&self) -> (count: usize) {
        self.len()
    }

    fn object_at(&self, index: usize) -> (object: ObjectRecord) {
        self[index].record
    }
}

/// Find the evidence of an object by its id.
pub fn find_object_evidence<'a>(objects: &'a Vec<FreshObjectEvidence>, oid: &[u8; 20]) -> (found: Option<
    &'a FreshObjectEvidence,
>)
    requires
        objects_ascend(objects.object_seq()),
    ensures
        found matches Some(evidence) ==> objects@.contains(*evidence) && evidence.record.oid@ == oid@,
        found is None ==> forall|i: int| 0 <= i < objects@.len() ==> (#[trigger] objects@[i]).record.oid@ != oid@,
{
    match find_object_place(objects, oid) {
        Some(place) => {
            assert(objects@[place as int].record == objects.object_seq()[place as int]);
            Some(&objects[place])
        },
        None => {
            assert forall|i: int| 0 <= i < objects@.len() implies (#[trigger] objects@[i]).record.oid@ != oid@ by {
                assert(!object_at_is(objects.object_seq(), oid@, i));
            }
            None
        },
    }
}

/// The evidence that a loose file must have.
pub open spec fn evidence_bound(objects: Seq<FreshObjectEvidence>, file: PhysicalRecordId, object: ObjectRecord) -> bool {
    exists|i: int|
        0 <= i < objects.len() && (#[trigger] objects[i]).record == object && objects[i].loose_file == file
}

/// The visitor that holds every entry to listed evidence.
pub struct ListedControl<'a> {
    pub git_control: &'a Vec<FreshGitControlEvidence>,
    pub objects: &'a Vec<FreshObjectEvidence>,
}

impl<'a> ControlVisitor for ListedControl<'a> {
    open spec fn ready(&self) -> bool {
        objects_ascend(self.objects.object_seq())
    }

    open spec fn admits(&self, count: nat, entry: ControlEntry) -> bool {
        &&& count < self.git_control@.len()
        &&& self.git_control@[count as int].physical == entry.physical
        &&& self.git_control@[count as int].role == entry.role
        &&& entry.object matches Some(object) ==> evidence_bound(self.objects@, entry.physical, object)
    }

    fn visit(&self, count: usize, entry: ControlEntry) -> (admitted: bool) {
        if count >= self.git_control.len() {
            return false;
        }
        let control = self.git_control[count];
        if control.physical != entry.physical || control.role != entry.role {
            return false;
        }
        match entry.object {
            None => true,
            Some(expected) => {
                match find_object_evidence(self.objects, &expected.oid) {
                    None => {
                        false
                    },
                    Some(observed) => {
                        let admitted = observed.loose_file == entry.physical && same_object(&observed.record, &expected);
                        proof {
                            let objects = self.objects@;
                            let k = choose|k: int| 0 <= k < objects.len() && objects[k] == *observed;
                            if evidence_bound(objects, entry.physical, expected) {
                                let i = choose|i: int|
                                    0 <= i < objects.len() && (#[trigger] objects[i]).record == expected
                                        && objects[i].loose_file == entry.physical;
                                assert(evidence_records(objects)[i].oid@ == evidence_records(objects)[k].oid@);
                                crate::git_control::ascending_ids_differ(evidence_records(objects), i, k);
                            }
                            if admitted {
                                assert(objects[k].record == expected);
                            }
                        }
                        admitted
                    },
                }
            },
        }
    }
}

/// The objects hold the root commit as it is, and its tree as a tree.
pub open spec fn commit_and_tree_listed(objects: Seq<ObjectRecord>, root: FreshRootCommitEvidence) -> bool {
    &&& listed_object(objects, root.commit_oid@) == Some(root.as_object())
    &&& listed_object(objects, root.tree_oid@) matches Some(tree) && tree.kind == ObjectKind::Tree
}

/// Why the objects from `i` on are refused by themselves, if they are.
pub open spec fn bodies_error(objects: Seq<ObjectRecord>, i: int) -> Option<CandidateSealError>
    decreases objects.len() - i,
{
    if i >= objects.len() {
        None
    } else if object_record_error(objects[i], MAX_RAW_OBJECT_BYTES) is Some {
        object_record_error(objects[i], MAX_RAW_OBJECT_BYTES)
    } else {
        bodies_error(objects, i + 1)
    }
}

/// Why Git evidence is refused, if it is.
pub open spec fn git_manifest_error(evidence: FreshGitManifest) -> Option<CandidateSealError> {
    let records = evidence.physical.records@;
    let objects = evidence.objects.object_seq();
    let listed = ListedControl { git_control: &evidence.git_control, objects: &evidence.objects };
    if objects.len() > MAX_OBJECT_RECORDS || evidence.git_control@.len() > MAX_GIT_CONTROL_RECORDS || objects.len() == 0 {
        Some(CandidateSealError::ResourceLimit)
    } else if root_commit_error(evidence.root_commit) is Some {
        root_commit_error(evidence.root_commit)
    } else if !objects_ascend(objects) {
        Some(CandidateSealError::NonCanonicalOrder)
    } else if !commit_and_tree_listed(objects, evidence.root_commit) {
        Some(CandidateSealError::InvalidRecord)
    } else if bodies_error(objects, 0) is Some {
        bodies_error(objects, 0)
    } else if scan_error(records, objects, evidence.root_commit.commit_oid@, listed) is Some {
        scan_error(records, objects, evidence.root_commit.commit_oid@, listed)
    } else if controls_before(records, records.len() as int) != evidence.git_control@.len() {
        Some(CandidateSealError::InvalidRecord)
    } else {
        None
    }
}

/// Whether the ids of evidence ascend.
fn evidence_ascends(objects: &Vec<FreshObjectEvidence>) -> (r: bool)
    ensures
        r == objects_ascend(objects.object_seq()),
{
    let ghost all = objects.object_seq();
    let mut i: usize = 1;
    while i < objects.len()
        invariant
            1 <= i,
            all == objects.object_seq(),
            forall|k: int| 0 < k < i && k < all.len() ==> #[trigger] ascends_at(all, k),
        decreases objects@.len() - i,
    {
        if !crate::bytes::bytes_less(objects[i - 1].record.oid.as_slice(), objects[i].record.oid.as_slice()) {
            assert(!ascends_at(all, i as int));
            return false;
        }
        i = i + 1;
    }
    true
}

/// Require every object to be valid by itself.
fn check_bodies(objects: &Vec<FreshObjectEvidence>) -> (r: Result<(), CandidateSealError>)
    ensures
        match bodies_error(objects.object_seq(), 0) {
            Some(error) => r matches Err(e) && e == error,
            None => r is Ok,
        },
{
    let ghost all = objects.object_seq();
    let mut i: usize = 0;
    while i < objects.len()
        invariant
            all == objects.object_seq(),
            i <= all.len(),
            all.len() == objects@.len(),
            bodies_error(all, 0) == bodies_error(all, i as int),
        decreases objects@.len() - i,
    {
        match validate_object_record(objects[i].record) {
            Ok(()) => {},
            Err(error) => {
                return Err(error);
            },
        }
        i = i + 1;
    }
    Ok(())
}

/// Whether the root commit and its tree are among the objects.
fn lists_commit_and_tree(objects: &Vec<FreshObjectEvidence>, root_commit: FreshRootCommitEvidence) -> (r: bool)
    requires
        objects_ascend(objects.object_seq()),
    ensures
        r == commit_and_tree_listed(objects.object_seq(), root_commit),
{
    let commit = root_commit.object_record();
    let commit_listed = match find_object(objects, &commit.oid) {
        Some(record) => same_object(&record, &commit),
        None => false,
    };
    let tree_listed = match find_object(objects, &root_commit.tree_oid) {
        Some(record) => record.kind == ObjectKind::Tree,
        None => false,
    };
    commit_listed && tree_listed
}

/// Revalidate evidence without reading the filesystem.
pub fn validate_fresh_git_manifest(evidence: &FreshGitManifest<'_>) -> (r: Result<(), CandidateSealError>)
    requires
        evidence.physical.wf(),
    ensures
        match git_manifest_error(*evidence) {
            Some(error) => r matches Err(e) && e == error,
            None => r is Ok,
        },
{
    if evidence.objects.len() > MAX_OBJECT_RECORDS || evidence.git_control.len() > MAX_GIT_CONTROL_RECORDS
        || evidence.objects.len() == 0 {
        return Err(CandidateSealError::ResourceLimit);
    }
    validate_root_commit_evidence(evidence.root_commit)?;
    if !evidence_ascends(&evidence.objects) {
        return Err(CandidateSealError::NonCanonicalOrder);
    }
    if !lists_commit_and_tree(&evidence.objects, evidence.root_commit) {
        return Err(CandidateSealError::InvalidRecord);
    }
    check_bodies(&evidence.objects)?;
    let listed = ListedControl { git_control: &evidence.git_control, objects: &evidence.objects };
    let entries = scan_exact_git_control(
        evidence.physical,
        &evidence.objects,
        evidence.root_commit.commit_oid,
        &listed,
    )?;
    if entries.len() != evidence.git_control.len() {
        return Err(CandidateSealError::InvalidRecord);
    }
    Ok(())
}

/// The control evidence in a list of entries.
pub open spec fn controls_of(entries: Seq<ControlEntry>) -> Seq<FreshGitControlEvidence> {
    entries.map_values(|entry: ControlEntry| FreshGitControlEvidence { physical: entry.physical, role: entry.role })
}

/// The object evidence in a list of entries.
pub open spec fn objects_of(entries: Seq<ControlEntry>) -> Seq<FreshObjectEvidence>
    decreases entries.len(),
{
    if entries.len() == 0 {
        Seq::empty()
    } else {
        match entries.last().object {
            Some(object) => objects_of(entries.drop_last()).push(
                FreshObjectEvidence { loose_file: entries.last().physical, record: object },
            ),
            None => objects_of(entries.drop_last()),
        }
    }
}

proof fn objects_of_contain(entries: Seq<ControlEntry>, k: int)
    requires
        0 <= k < entries.len(),
        entries[k].object is Some,
    ensures
        evidence_bound(objects_of(entries), entries[k].physical, entries[k].object->0),
    decreases entries.len(),
{
    let before = objects_of(entries.drop_last());
    let now = objects_of(entries);
    let object = entries[k].object->0;
    if k < entries.len() - 1 {
        objects_of_contain(entries.drop_last(), k);
        let i = choose|i: int|
            0 <= i < before.len() && (#[trigger] before[i]).record == object && before[i].loose_file == entries[k].physical;
        assert(now[i] == before[i]);
    } else {
        assert(now[now.len() - 1].record == object);
    }
}

proof fn entry_stands_at_its_place(
    records: Seq<AuditedPhysicalRecord>,
    objects: Seq<ObjectRecord>,
    commit: Seq<u8>,
    n: int,
    i: int,
)
    requires
        0 <= i < n <= records.len(),
        is_control(records[i]),
    ensures
        controls_before(records, i) < entries_before(records, objects, commit, n).len(),
        entries_before(records, objects, commit, n)[controls_before(records, i) as int] == entry_at(
            i,
            record_slot(records[i], objects, commit)->0,
        ),
    decreases n,
{
    entries_count(records, objects, commit, i);
    if i < n - 1 {
        entry_stands_at_its_place(records, objects, commit, n - 1, i);
    }
}

proof fn entries_count(records: Seq<AuditedPhysicalRecord>, objects: Seq<ObjectRecord>, commit: Seq<u8>, n: int)
    requires
        0 <= n <= records.len(),
    ensures
        entries_before(records, objects, commit, n).len() == controls_before(records, n),
    decreases n,
{
    if n > 0 {
        entries_count(records, objects, commit, n - 1);
    }
}

proof fn objects_of_are_loose(
    records: Seq<AuditedPhysicalRecord>,
    objects: Seq<ObjectRecord>,
    commit: Seq<u8>,
    n: int,
)
    requires
        0 <= n <= records.len(),
        entries_error(records, objects, commit, AdmitAll, 0) is None,
    ensures
        evidence_records(objects_of(entries_before(records, objects, commit, n))) == loose_before(
            records,
            objects,
            commit,
            n,
        ),
    decreases n,
{
    let now = entries_before(records, objects, commit, n);
    if n > 0 {
        objects_of_are_loose(records, objects, commit, n - 1);
        let before = entries_before(records, objects, commit, n - 1);
        if is_control(records[n - 1]) {
            crate::control_scan::accepted_records_have_slots(records, objects, commit, AdmitAll, 0, n - 1);
            assert(now.drop_last() =~= before);
        }
    }
    assert(evidence_records(objects_of(now)) =~= loose_before(records, objects, commit, n));
}

/// Evidence built from the entries of an accepted scan is admitted by a scan of the evidence.
proof fn own_entries_are_admitted<'a>(
    records: Seq<AuditedPhysicalRecord>,
    objects: Seq<ObjectRecord>,
    commit: Seq<u8>,
    listed: ListedControl<'a>,
    from: int,
)
    requires
        0 <= from <= records.len(),
        entries_error(records, objects, commit, AdmitAll, 0) is None,
        listed.git_control@ == controls_of(entries_before(records, objects, commit, records.len() as int)),
        listed.objects@ == objects_of(entries_before(records, objects, commit, records.len() as int)),
        controls_before(records, records.len() as int) <= MAX_GIT_CONTROL_RECORDS,
    ensures
        entries_error(records, objects, commit, listed, from) is None,
    decreases records.len() - from,
{
    let n = records.len() as int;
    if from < n {
        own_entries_are_admitted(records, objects, commit, listed, from + 1);
        if is_control(records[from]) {
            let entries = entries_before(records, objects, commit, n);
            let place = controls_before(records, from) as int;
            crate::control_scan::accepted_records_have_slots(records, objects, commit, AdmitAll, 0, from);
            entry_stands_at_its_place(records, objects, commit, n, from);
            entries_count(records, objects, commit, n);
            let entry = entry_at(from, record_slot(records[from], objects, commit)->0);
            if entry.object is Some {
                objects_of_contain(entries, place);
            }
            assert(listed.admits(place as nat, entry));
        }
    }
}

/// Why a candidate with given objects has no Git evidence, if it has none.
pub open spec fn collect_error(
    records: Seq<AuditedPhysicalRecord>,
    expected: Seq<ObjectRecord>,
    root: FreshRootCommitEvidence,
) -> Option<CandidateSealError> {
    if scan_error(records, expected, root.commit_oid@, AdmitAll) is Some {
        scan_error(records, expected, root.commit_oid@, AdmitAll)
    } else if expected.len() == 0 {
        Some(CandidateSealError::ResourceLimit)
    } else if root_commit_error(root) is Some {
        root_commit_error(root)
    } else if !commit_and_tree_listed(expected, root) {
        Some(CandidateSealError::InvalidRecord)
    } else {
        None
    }
}

proof fn accepted_bodies(objects: Seq<ObjectRecord>, from: int)
    requires
        0 <= from <= objects.len(),
        object_set_error(objects, from) is None,
    ensures
        bodies_error(objects, from) is None,
    decreases objects.len() - from,
{
    if from < objects.len() {
        accepted_bodies(objects, from + 1);
    }
}

/// Evidence built from an accepted scan is refused only for what a scan does not look at.
proof fn collected_evidence_stands<'a>(evidence: FreshGitManifest<'a>, expected: Seq<ObjectRecord>)
    requires
        evidence.physical.wf(),
        scan_error(evidence.physical.records@, expected, evidence.root_commit.commit_oid@, AdmitAll) is None,
        ({
            let records = evidence.physical.records@;
            let entries = entries_before(records, expected, evidence.root_commit.commit_oid@, records.len() as int);
            &&& evidence.git_control@ == controls_of(entries)
            &&& evidence.objects@ == objects_of(entries)
            &&& entries.len() <= MAX_GIT_CONTROL_RECORDS
        }),
    ensures
        evidence.objects.object_seq() == expected,
        git_manifest_error(evidence) == collect_error(evidence.physical.records@, expected, evidence.root_commit),
{
    let records = evidence.physical.records@;
    let commit = evidence.root_commit.commit_oid@;
    let n = records.len() as int;
    let listed = ListedControl { git_control: &evidence.git_control, objects: &evidence.objects };
    crate::control_scan::objects_set_ascends(expected, 0);
    loose_files_are_the_objects(records, expected, commit);
    objects_of_are_loose(records, expected, commit, n);
    assert(evidence.objects.object_seq() == expected);
    accepted_bodies(expected, 0);
    entries_count(records, expected, commit, n);
    own_entries_are_admitted(records, expected, commit, listed, 0);
}

/// Build evidence for exactly the given objects.
#[verifier::rlimit(60)]
#[verifier::spinoff_prover]
pub fn collect_fresh_git_evidence_from_union<'physical>(
    physical: &'physical MarkerFreePhysicalManifest,
    expected: &Vec<ObjectRecord>,
    root_commit: FreshRootCommitEvidence,
) -> (r: Result<FreshGitManifest<'physical>, CandidateSealError>)
    requires
        physical.wf(),
    ensures
        match collect_error(physical.records@, expected@, root_commit) {
            Some(error) => r matches Err(e) && e == error,
            None => r is Ok,
        },
        r matches Ok(evidence) ==> {
            let entries = entries_before(
                physical.records@,
                expected@,
                root_commit.commit_oid@,
                physical.records@.len() as int,
            );
            &&& *evidence.physical == *physical
            &&& evidence.root_commit == root_commit
            &&& evidence.objects.object_seq() == expected@
            &&& evidence.objects@ == objects_of(entries)
            &&& evidence.git_control@ == controls_of(entries)
            &&& git_manifest_error(evidence) is None
        },
{
    let entries = scan_exact_git_control(physical, expected, root_commit.commit_oid, &AdmitAll)?;
    let mut objects: Vec<FreshObjectEvidence> = Vec::new();
    let mut git_control: Vec<FreshGitControlEvidence> = Vec::new();
    let mut i: usize = 0;
    // The entries come in the order of their paths, which is the order of the objects' ids.
    while i < entries.len()
        invariant
            i <= entries@.len(),
            git_control@ == controls_of(entries@.subrange(0, i as int)),
            objects@ == objects_of(entries@.subrange(0, i as int)),
        decreases entries@.len() - i,
    {
        let entry = entries[i];
        git_control.push(FreshGitControlEvidence { physical: entry.physical, role: entry.role });
        if let Some(object) = entry.object {
            objects.push(FreshObjectEvidence { loose_file: entry.physical, record: object });
        }
        proof {
            let longer = entries@.subrange(0, i + 1);
            assert(longer.drop_last() =~= entries@.subrange(0, i as int));
            assert(git_control@ =~= controls_of(longer));
        }
        i = i + 1;
    }
    assert(entries@.subrange(0, entries@.len() as int) =~= entries@);
    let evidence = FreshGitManifest { physical, root_commit, objects, git_control };
    proof {
        collected_evidence_stands(evidence, expected@);
    }
    validate_fresh_git_manifest(&evidence)?;
    Ok(evidence)
}

/// Where views are found to stand on one manifest, they stand on the same.
pub open spec fn views_bound(
    bound: bool,
    physical: MarkerFreePhysicalManifest,
    files: FreshTrackedManifest,
    trees: FreshTreeManifest,
) -> bool {
    bound ==> *files.physical == physical && *trees.physical == physical
}

/// Whether views stand on a given manifest, and on no other that says the same.
pub fn are_views_bound(
    physical: &MarkerFreePhysicalManifest,
    files: &FreshTrackedManifest<'_>,
    trees: &FreshTreeManifest<'_>,
) -> (bound: bool)
    ensures
        views_bound(bound, *physical, *files, *trees),
{
    files.is_bound_to(physical) && trees.is_bound_to(physical)
}

/// Why the views of a candidate have no union of objects, if they have none. They stand on its manifest, or
/// not.
pub open spec fn views_error(
    bound: bool,
    files: FreshTrackedManifest,
    trees: FreshTreeManifest,
    root: FreshRootCommitEvidence,
) -> Option<CandidateSealError> {
    if !bound {
        Some(CandidateSealError::InvalidRecord)
    } else if exists|i: int|
        0 <= i < files.entries@.len() && !tracked_file(files.physical.records@, #[trigger] files.entries@[i]) {
        Some(CandidateSealError::InvalidRecord)
    } else {
        union_error(tracked_blobs(files.physical.records@, files.entries@), tree_objects_of(trees.entries@), root)
    }
}

/// All the objects that the views of a candidate name.
pub open spec fn view_objects(
    files: FreshTrackedManifest,
    trees: FreshTreeManifest,
    root: FreshRootCommitEvidence,
) -> Seq<ObjectRecord> {
    all_objects(tracked_blobs(files.physical.records@, files.entries@), tree_objects_of(trees.entries@), root)
}

/// A result is the union of the objects that the views of a candidate name.
pub open spec fn union_found(
    r: Result<Vec<ObjectRecord>, CandidateSealError>,
    bound: bool,
    files: FreshTrackedManifest,
    trees: FreshTreeManifest,
    root: FreshRootCommitEvidence,
) -> bool {
    match views_error(bound, files, trees, root) {
        Some(error) => r matches Err(e) && e == error,
        None => r matches Ok(union) && is_union(union@, view_objects(files, trees, root)),
    }
}

/// The union of the objects that the views of a candidate name.
pub fn canonical_object_union_from_views(
    physical: &MarkerFreePhysicalManifest,
    files: &FreshTrackedManifest<'_>,
    trees: &FreshTreeManifest<'_>,
    root_commit: FreshRootCommitEvidence,
) -> (r: Result<Vec<ObjectRecord>, CandidateSealError>)
    ensures
        exists|bound: bool| #[trigger]
            views_bound(bound, *physical, *files, *trees) && union_found(r, bound, *files, *trees, root_commit),
{
    let bound = are_views_bound(physical, files, trees);
    union_of_views(bound, files, trees, root_commit)
}

/// The union of the objects that views name, which stand on the manifest of the candidate or not.
pub fn union_of_views(
    bound: bool,
    files: &FreshTrackedManifest<'_>,
    trees: &FreshTreeManifest<'_>,
    root_commit: FreshRootCommitEvidence,
) -> (r: Result<Vec<ObjectRecord>, CandidateSealError>)
    ensures
        union_found(r, bound, *files, *trees, root_commit),
{
    if !bound {
        return Err(CandidateSealError::InvalidRecord);
    }
    let blobs = files.blob_objects()?;
    let tree_objects = trees.tree_objects();
    canonical_object_union(blobs.as_slice(), tree_objects.as_slice(), root_commit)
}

/// Git evidence is what the objects that files, trees and a commit name give on a manifest.
pub open spec fn collected(
    git: Result<FreshGitManifest, CandidateSealError>,
    bound: bool,
    physical: MarkerFreePhysicalManifest,
    files: FreshTrackedManifest,
    trees: FreshTreeManifest,
    root_commit: FreshRootCommitEvidence,
) -> bool {
    match views_error(bound, files, trees, root_commit) {
        Some(error) => git == Err::<FreshGitManifest, CandidateSealError>(error),
        None => exists|union: Seq<ObjectRecord>|
            {
                &&& #[trigger] is_union(union, view_objects(files, trees, root_commit))
                &&& match collect_error(physical.records@, union, root_commit) {
                    Some(error) => git == Err::<FreshGitManifest, CandidateSealError>(error),
                    None => git matches Ok(evidence) && *evidence.physical == physical && evidence.root_commit == root_commit
                        && evidence.objects.object_seq() == union && git_manifest_error(evidence) is None,
                }
            },
    }
}

/// Build evidence for the objects that the files, the trees and the commit name.
pub fn collect_fresh_git_evidence<'physical>(
    physical: &'physical MarkerFreePhysicalManifest,
    files: &FreshTrackedManifest<'physical>,
    trees: &FreshTreeManifest<'physical>,
    root_commit: FreshRootCommitEvidence,
) -> (r: Result<FreshGitManifest<'physical>, CandidateSealError>)
    requires
        physical.wf(),
    ensures
        exists|bound: bool| #[trigger]
            views_bound(bound, *physical, *files, *trees) && collected(r, bound, *physical, *files, *trees, root_commit),
{
    let bound = are_views_bound(physical, files, trees);
    collect_git_evidence_when(bound, physical, files, trees, root_commit)
}

/// Build evidence for the objects that views and a commit name. The views stand on the manifest, or not.
pub fn collect_git_evidence_when<'physical>(
    bound: bool,
    physical: &'physical MarkerFreePhysicalManifest,
    files: &FreshTrackedManifest<'physical>,
    trees: &FreshTreeManifest<'physical>,
    root_commit: FreshRootCommitEvidence,
) -> (r: Result<FreshGitManifest<'physical>, CandidateSealError>)
    requires
        physical.wf(),
    ensures
        collected(r, bound, *physical, *files, *trees, root_commit),
{
    let expected = union_of_views(bound, files, trees, root_commit)?;
    assert(is_union(expected@, view_objects(*files, *trees, root_commit)));
    collect_fresh_git_evidence_from_union(physical, &expected, root_commit)
}

/// Why the evidence of an object cannot be sealed, if it cannot: its loose file is not listed,
/// or has another id, or the object is refused by itself.
pub open spec fn object_projection_error(
    records: Seq<AuditedPhysicalRecord>,
    evidence: FreshObjectEvidence,
) -> Option<CandidateSealError> {
    let file = evidence.loose_file.0 as int;
    if file >= records.len() || !(records[file].kind is File) || !below_git(encode_utf8(records[file].path@))
        || git_relative(encode_utf8(records[file].path@)) != loose_path(evidence.record.oid@) || crate::hex::zero_oid(
        evidence.record.oid@,
    ) {
        Some(CandidateSealError::InvalidRecord)
    } else {
        object_record_error(evidence.record, MAX_RAW_OBJECT_BYTES)
    }
}

impl FreshObjectEvidence {
    /// The seal record of the object.
    pub fn project(self, physical: &MarkerFreePhysicalManifest) -> (r: Result<ObjectRecord, CandidateSealError>)
        ensures
            match object_projection_error(physical.records@, self) {
                Some(error) => r matches Err(e) && e == error,
                None => r == Ok::<ObjectRecord, CandidateSealError>(self.record),
            },
    {
        let record = match physical.record(self.loose_file) {
            Some(record) => record,
            None => {
                return Err(CandidateSealError::InvalidRecord);
            },
        };
        proof {
            crate::git_control::loose_path_round_trip(self.record.oid@);
        }
        let oid = loose_object_oid(record)?;
        proof {
            crate::git_control::loose_path_round_trip(oid@);
        }
        if !bytes_equal(oid.as_slice(), self.record.oid.as_slice()) {
            return Err(CandidateSealError::InvalidRecord);
        }
        validate_object_record(self.record)?;
        Ok(self.record)
    }
}

/// Why the evidence of a control record cannot be sealed under a scheme, if it cannot.
pub open spec fn control_projection_error(
    records: Seq<AuditedPhysicalRecord>,
    evidence: FreshGitControlEvidence,
    scheme: PublicationIdentityScheme,
) -> Option<CandidateSealError> {
    let at = evidence.physical.0 as int;
    if at >= records.len() || !below_git(encode_utf8(records[at].path@)) || encode_utf8(records[at].path@).len() <= 5
        || !control_path_fits(records[at], evidence.role) {
        Some(CandidateSealError::InvalidRecord)
    } else if crate::revalidation::record_scheme(records[at].kind) != scheme {
        Some(CandidateSealError::InvalidContext)
    } else {
        None
    }
}

/// The path behind `.git/` and the kind of a record fit a role.
pub open spec fn control_path_fits(record: AuditedPhysicalRecord, role: GitControlRole) -> bool {
    exists|relative: Seq<char>| #[trigger]
        encode_utf8(relative) == git_relative(encode_utf8(record.path@)) && control_role_fits(
            role,
            relative,
            record.kind is Directory,
        )
}

/// A seal record says what the evidence of a control record and its physical record say.
pub open spec fn control_projects(
    sealed: GitControlRecord,
    record: AuditedPhysicalRecord,
    evidence: FreshGitControlEvidence,
) -> bool {
    &&& sealed.path.spec_bytes() == git_relative(encode_utf8(record.path@))
    &&& sealed.role == evidence.role
    &&& match record.kind {
        AuditedPhysicalKind::Directory(identity) => {
            sealed.kind matches GitControlRecordKind::Directory(bound) && bound.0.scheme == identity.scheme && bound.0.bytes
                == identity.wire
        },
        AuditedPhysicalKind::File { identity, size, sha256 } => {
            sealed.kind matches GitControlRecordKind::File { identity: bound, size: s, sha256: d } && bound.0.scheme
                == identity.scheme && bound.0.bytes == identity.wire && s == size && d == sha256
        },
    }
}

impl FreshGitControlEvidence {
    /// The seal record of a control record.
    pub fn project<'a>(self, physical: &'a MarkerFreePhysicalManifest, scheme: PublicationIdentityScheme) -> (r: Result<
        GitControlRecord<'a>,
        CandidateSealError,
    >)
        ensures
            match control_projection_error(physical.records@, self, scheme) {
                Some(error) => r matches Err(e) && e == error,
                None => r matches Ok(sealed) && control_projects(
                    sealed,
                    physical.records@[self.physical.0 as int],
                    self,
                ),
            },
    {
        let record = match physical.record(self.physical) {
            Some(record) => record,
            None => {
                return Err(CandidateSealError::InvalidRecord);
            },
        };
        let ghost listed = physical.records@[self.physical.0 as int];
        let relative = git_relative_path(record.path)?;
        proof {
            assert(encode_utf8(relative@) == git_relative(encode_utf8(listed.path@)));
            if control_path_fits(listed, self.role) {
                let other = choose|other: Seq<char>| #[trigger]
                    encode_utf8(other) == git_relative(encode_utf8(listed.path@)) && control_role_fits(
                        self.role,
                        other,
                        listed.kind is Directory,
                    );
                crate::text::encoding_is_injective(relative@, other);
            }
        }
        require_control_role(relative, record.kind, self.role)?;
        let kind = match record.kind {
            AuditedPhysicalKind::Directory(identity) => GitControlRecordKind::Directory(
                CandidateDirectoryIdentity::from_observed(&identity, scheme)?,
            ),
            AuditedPhysicalKind::File { identity, size, sha256 } => GitControlRecordKind::File {
                identity: CandidateFileIdentity::from_observed(&identity, scheme)?,
                size,
                sha256,
            },
        };
        Ok(GitControlRecord { path: relative, role: self.role, kind })
    }
}

/// Why the object evidence from `i` on cannot be sealed, if it cannot.
pub open spec fn objects_projection_error(
    records: Seq<AuditedPhysicalRecord>,
    objects: Seq<FreshObjectEvidence>,
    i: int,
) -> Option<CandidateSealError>
    decreases objects.len() - i,
{
    if i >= objects.len() {
        None
    } else if object_projection_error(records, objects[i]) is Some {
        object_projection_error(records, objects[i])
    } else {
        objects_projection_error(records, objects, i + 1)
    }
}

/// Why the control evidence from `i` on cannot be sealed under a scheme, if it cannot.
pub open spec fn controls_projection_error(
    records: Seq<AuditedPhysicalRecord>,
    controls: Seq<FreshGitControlEvidence>,
    scheme: PublicationIdentityScheme,
    i: int,
) -> Option<CandidateSealError>
    decreases controls.len() - i,
{
    if i >= controls.len() {
        None
    } else if control_projection_error(records, controls[i], scheme) is Some {
        control_projection_error(records, controls[i], scheme)
    } else {
        controls_projection_error(records, controls, scheme, i + 1)
    }
}

/// Why Git evidence cannot be sealed under a scheme, if it cannot.
pub open spec fn projection_error(evidence: FreshGitManifest, scheme: PublicationIdentityScheme) -> Option<CandidateSealError> {
    let records = evidence.physical.records@;
    if git_manifest_error(evidence) is Some {
        git_manifest_error(evidence)
    } else if objects_projection_error(records, evidence.objects@, 0) is Some {
        objects_projection_error(records, evidence.objects@, 0)
    } else {
        controls_projection_error(records, evidence.git_control@, scheme, 0)
    }
}

/// A projection says what Git evidence says.
pub open spec fn git_projects(projection: CandidateGitProjection, evidence: FreshGitManifest) -> bool {
    let root = evidence.root_commit;
    &&& projection.head_refs.commit_oid == root.commit_oid
    &&& projection.root_commit.commit_oid == root.commit_oid
    &&& projection.root_commit.tree_oid == root.tree_oid
    &&& projection.root_commit.raw_size == root.raw_size
    &&& projection.root_commit.raw_sha256 == root.raw_sha256
    &&& projection.objects@ == evidence.objects.object_seq()
    &&& projection.git_control@.len() == evidence.git_control@.len()
    &&& forall|i: int|
        0 <= i < evidence.git_control@.len() ==> control_projects(
            #[trigger] projection.git_control@[i],
            evidence.physical.records@[evidence.git_control@[i].physical.0 as int],
            evidence.git_control@[i],
        )
}

/// Why evidence does not hold exactly the objects that the views name, if it does not. The views stand on the
/// manifest of the evidence, or not.
pub open spec fn content_error(
    bound: bool,
    evidence: FreshGitManifest,
    files: FreshTrackedManifest,
    trees: FreshTreeManifest,
) -> Option<CandidateSealError> {
    if views_error(bound, files, trees, evidence.root_commit) is Some {
        views_error(bound, files, trees, evidence.root_commit)
    } else if !is_union(evidence.objects.object_seq(), view_objects(files, trees, evidence.root_commit)) {
        Some(CandidateSealError::InvalidRecord)
    } else {
        None
    }
}

/// A result is what evidence gives for a seal, once its objects are found to be those that the views name.
pub open spec fn content_projected(
    r: Result<CandidateGitProjection, CandidateSealError>,
    bound: bool,
    evidence: FreshGitManifest,
    scheme: PublicationIdentityScheme,
    files: FreshTrackedManifest,
    trees: FreshTreeManifest,
) -> bool {
    match first_error(content_error(bound, evidence, files, trees), projection_error(evidence, scheme)) {
        Some(error) => r matches Err(e) && e == error,
        None => r matches Ok(projection) && git_projects(projection, evidence),
    }
}

impl<'physical> FreshGitManifest<'physical> {
    /// Whether the evidence was collected on a given manifest.
    pub fn is_bound_to(&self, physical: &MarkerFreePhysicalManifest) -> (r: bool)
        ensures
            r ==> *self.physical == *physical,
    {
        is_one_manifest(self.physical, physical)
    }

    /// Seal records of the branch, the root commit, the objects and the control files.
    pub fn project(&self, scheme: PublicationIdentityScheme) -> (r: Result<
        CandidateGitProjection<'physical>,
        CandidateSealError,
    >)
        requires
            self.physical.wf(),
        ensures
            match projection_error(*self, scheme) {
                Some(error) => r matches Err(e) && e == error,
                None => r matches Ok(projection) && git_projects(projection, *self),
            },
    {
        validate_fresh_git_manifest(self)?;
        let (head_refs, root_commit) = self.root_commit.project();
        let objects = self.project_objects()?;
        let git_control = self.project_control(scheme)?;
        Ok(CandidateGitProjection { head_refs, root_commit, objects, git_control })
    }

    fn project_objects(&self) -> (r: Result<Vec<ObjectRecord>, CandidateSealError>)
        ensures
            match objects_projection_error(self.physical.records@, self.objects@, 0) {
                Some(error) => r matches Err(e) && e == error,
                None => r matches Ok(objects) && objects@ == self.objects.object_seq(),
            },
    {
        let ghost records = self.physical.records@;
        let mut objects: Vec<ObjectRecord> = Vec::new();
        let mut i: usize = 0;
        while i < self.objects.len()
            invariant
                records == self.physical.records@,
                i <= self.objects@.len(),
                objects@.len() == i,
                forall|k: int| 0 <= k < i ==> #[trigger] objects@[k] == self.objects@[k].record,
                objects_projection_error(records, self.objects@, 0) == objects_projection_error(
                    records,
                    self.objects@,
                    i as int,
                ),
            decreases self.objects@.len() - i,
        {
            let object = match self.objects[i].project(self.physical) {
                Ok(object) => object,
                Err(error) => {
                    return Err(error);
                },
            };
            objects.push(object);
            i = i + 1;
        }
        assert(objects@ =~= self.objects.object_seq());
        Ok(objects)
    }

    fn project_control(&self, scheme: PublicationIdentityScheme) -> (r: Result<
        Vec<GitControlRecord<'physical>>,
        CandidateSealError,
    >)
        ensures
            match controls_projection_error(self.physical.records@, self.git_control@, scheme, 0) {
                Some(error) => r matches Err(e) && e == error,
                None => r is Ok,
            },
            r matches Ok(git_control) ==> {
                &&& git_control@.len() == self.git_control@.len()
                &&& forall|i: int|
                    0 <= i < self.git_control@.len() ==> control_projects(
                        #[trigger] git_control@[i],
                        self.physical.records@[self.git_control@[i].physical.0 as int],
                        self.git_control@[i],
                    )
            },
    {
        let physical = self.physical;
        let ghost records = physical.records@;
        let mut git_control: Vec<GitControlRecord<'physical>> = Vec::new();
        let mut i: usize = 0;
        while i < self.git_control.len()
            invariant
                physical == self.physical,
                records == physical.records@,
                i <= self.git_control@.len(),
                git_control@.len() == i,
                forall|k: int|
                    0 <= k < i ==> control_projects(
                        #[trigger] git_control@[k],
                        records[self.git_control@[k].physical.0 as int],
                        self.git_control@[k],
                    ),
                controls_projection_error(records, self.git_control@, scheme, 0) == controls_projection_error(
                    records,
                    self.git_control@,
                    scheme,
                    i as int,
                ),
            decreases self.git_control@.len() - i,
        {
            let control = match self.git_control[i].project(physical, scheme) {
                Ok(control) => control,
                Err(error) => {
                    return Err(error);
                },
            };
            git_control.push(control);
            i = i + 1;
        }
        Ok(git_control)
    }

    /// Require the evidence to hold exactly the objects that the views name.
    pub fn require_exact_content_objects(&self, files: &FreshTrackedManifest<'_>, trees: &FreshTreeManifest<'_>) -> (r:
        Result<(), CandidateSealError>)
        ensures
            exists|bound: bool| #[trigger]
                views_bound(bound, *self.physical, *files, *trees) && match content_error(bound, *self, *files, *trees) {
                    Some(error) => r matches Err(e) && e == error,
                    None => r is Ok,
                },
    {
        let bound = are_views_bound(self.physical, files, trees);
        self.require_content_when(bound, files, trees)
    }

    /// Require the evidence to hold exactly the objects that views name, which stand on its manifest or not.
    pub fn require_content_when(&self, bound: bool, files: &FreshTrackedManifest<'_>, trees: &FreshTreeManifest<'_>) -> (r:
        Result<(), CandidateSealError>)
        ensures
            match content_error(bound, *self, *files, *trees) {
                Some(error) => r matches Err(e) && e == error,
                None => r is Ok,
            },
    {
        let expected = union_of_views(bound, files, trees, self.root_commit)?;
        let ghost all = view_objects(*files, *trees, self.root_commit);
        let ghost own = self.objects.object_seq();
        proof {
            if is_union(own, all) {
                union_is_unique(own, expected@, all);
            }
        }
        if expected.len() != self.objects.len() {
            return Err(CandidateSealError::InvalidRecord);
        }
        let mut i: usize = 0;
        while i < expected.len()
            invariant
                own == self.objects.object_seq(),
                all == view_objects(*files, *trees, self.root_commit),
                views_error(bound, *files, *trees, self.root_commit) is None,
                i <= expected@.len(),
                expected@.len() == self.objects@.len(),
                is_union(own, all) ==> own == expected@,
                forall|k: int| 0 <= k < i ==> own[k] == #[trigger] expected@[k],
            decreases expected@.len() - i,
        {
            if !same_object(&expected[i], &self.objects[i].record) {
                assert(own[i as int] != expected@[i as int]);
                return Err(CandidateSealError::InvalidRecord);
            }
            i = i + 1;
        }
        assert(own =~= expected@);
        Ok(())
    }

    /// Project only after the union of objects has been derived again from the views.
    pub fn project_for_seal(
        &self,
        scheme: PublicationIdentityScheme,
        files: &FreshTrackedManifest<'_>,
        trees: &FreshTreeManifest<'_>,
    ) -> (r: Result<CandidateGitProjection<'physical>, CandidateSealError>)
        requires
            self.physical.wf(),
        ensures
            exists|bound: bool| #[trigger]
                views_bound(bound, *self.physical, *files, *trees) && content_projected(r, bound, *self, scheme, *files, *trees),
    {
        let bound = are_views_bound(self.physical, files, trees);
        self.project_when(bound, scheme, files, trees)
    }

    /// Project only after the union of objects has been derived again from views, which stand on the manifest
    /// of the evidence or not.
    pub fn project_when(
        &self,
        bound: bool,
        scheme: PublicationIdentityScheme,
        files: &FreshTrackedManifest<'_>,
        trees: &FreshTreeManifest<'_>,
    ) -> (r: Result<CandidateGitProjection<'physical>, CandidateSealError>)
        requires
            self.physical.wf(),
        ensures
            content_projected(r, bound, *self, scheme, *files, *trees),
    {
        self.require_content_when(bound, files, trees)?;
        self.project(scheme)
    }
}

} // verus!
