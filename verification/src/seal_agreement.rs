//! Manifests that say the same are judged alike.

use crate::identity::PublicationIdentityScheme;
use crate::object_union::same_records_are_equal;
use crate::portable_path::MAX_PHYSICAL_PATH_BYTES;
use crate::seal::{
    directory_records, file_sections_error, identities_match, manifest_error, manifest_shape, metadata_present,
    object_listed, object_references_error, object_sections_error, path_records_error, path_total, records_error, seal_error,
    section_error, worktree_matches_index, PathRecord, SealRecord,
};
use crate::seal_framing::{same_manifest, same_records, ReadableRecord};
use crate::seal_records::{
    CandidateSealContext, CandidateSealManifest, ObjectKind, ObjectRecord, PhysicalRecord, WorktreeClass, WorktreeRecord,
    MAX_GIT_CONTROL_RECORDS, MAX_PATH_BYTES, MAX_PHYSICAL_RECORDS, MAX_TRACKED_RECORDS,
};
use vstd::prelude::*;

verus! {

proof fn path_totals_agree<T: PathRecord>(a: Seq<T>, b: Seq<T>, n: int)
    requires
        n <= a.len(),
        n <= b.len(),
        forall|i: int| 0 <= i < n ==> (#[trigger] a[i]).path_text() == b[i].path_text(),
    ensures
        path_total(a, n) == path_total(b, n),
    decreases n,
{
    if n > 0 {
        path_totals_agree(a, b, n - 1);
        assert(a[n - 1].path_text() == b[n - 1].path_text());
    }
}

proof fn paths_are_judged_alike<T: PathRecord>(a: Seq<T>, b: Seq<T>, i: int, allow_root: bool, maximum: nat)
    requires
        a.len() == b.len(),
        0 <= i,
        forall|k: int| 0 <= k < a.len() ==> (#[trigger] a[k]).path_text() == b[k].path_text(),
    ensures
        path_records_error(a, i, allow_root, maximum) == path_records_error(b, i, allow_root, maximum),
    decreases a.len() - i,
{
    if i < a.len() {
        path_totals_agree(a, b, i + 1);
        assert(a[i].path_text() == b[i].path_text());
        if i > 0 {
            assert(a[i - 1].path_text() == b[i - 1].path_text());
        }
        paths_are_judged_alike(a, b, i + 1, allow_root, maximum);
    }
}

proof fn records_are_judged_alike<T: SealRecord>(a: Seq<T>, b: Seq<T>, i: int)
    requires
        a.len() == b.len(),
        0 <= i,
        forall|k: int| 0 <= k < a.len() ==> (#[trigger] a[k]).refusal() == b[k].refusal(),
    ensures
        records_error(a, i) == records_error(b, i),
    decreases a.len() - i,
{
    if i < a.len() {
        assert(a[i].refusal() == b[i].refusal());
        records_are_judged_alike(a, b, i + 1);
    }
}

proof fn sections_are_judged_alike<T: PathRecord + SealRecord>(
    a: Seq<T>,
    b: Seq<T>,
    maximum_records: nat,
    allow_root: bool,
    maximum_path: nat,
)
    requires
        a.len() == b.len(),
        forall|k: int| 0 <= k < a.len() ==> (#[trigger] a[k]).path_text() == b[k].path_text(),
        forall|k: int| 0 <= k < a.len() ==> (#[trigger] a[k]).refusal() == b[k].refusal(),
    ensures
        section_error(a, maximum_records, allow_root, maximum_path) == section_error(
            b,
            maximum_records,
            allow_root,
            maximum_path,
        ),
{
    paths_are_judged_alike(a, b, 0, allow_root, maximum_path);
    records_are_judged_alike(a, b, 0);
}

proof fn directories_are_counted_alike(a: Seq<PhysicalRecord>, b: Seq<PhysicalRecord>, n: int)
    requires
        n <= a.len(),
        same_records(a, b),
    ensures
        directory_records(a, n) == directory_records(b, n),
    decreases n,
{
    if n > 0 {
        directories_are_counted_alike(a, b, n - 1);
        assert(a[n - 1].same_record(&b[n - 1]));
    }
}

/// The identities in two manifests are of the same schemes, record by record.
pub open spec fn same_schemes(a: CandidateSealManifest, b: CandidateSealManifest) -> bool {
    &&& forall|i: int|
        0 <= i < a.physical@.len() ==> (#[trigger] a.physical@[i]).seal_identity().scheme
            == b.physical@[i].seal_identity().scheme
    &&& forall|i: int|
        0 <= i < a.worktree@.len() ==> (#[trigger] a.worktree@[i]).identity.0.scheme == b.worktree@[i].identity.0.scheme
    &&& forall|i: int|
        0 <= i < a.git_control@.len() ==> (#[trigger] a.git_control@[i]).seal_identity().scheme
            == b.git_control@[i].seal_identity().scheme
    &&& a.private_baseline.identity.0.scheme == b.private_baseline.identity.0.scheme
}

proof fn files_are_judged_alike(a: CandidateSealManifest, b: CandidateSealManifest)
    requires
        same_manifest(a, b),
    ensures
        file_sections_error(a) == file_sections_error(b),
{
    assert forall|k: int| 0 <= k < a.physical@.len() implies (#[trigger] a.physical@[k]).path_text()
        == b.physical@[k].path_text() by {
        assert(a.physical@[k].same_record(&b.physical@[k]));
    }
    assert forall|k: int| 0 <= k < a.physical@.len() implies (#[trigger] a.physical@[k]).refusal()
        == b.physical@[k].refusal() by {
        assert(a.physical@[k].same_record(&b.physical@[k]));
    }
    sections_are_judged_alike(a.physical@, b.physical@, MAX_PHYSICAL_RECORDS as nat, true, MAX_PHYSICAL_PATH_BYTES as nat);
    assert forall|k: int| 0 <= k < a.worktree@.len() implies (#[trigger] a.worktree@[k]).path_text()
        == b.worktree@[k].path_text() by {
        assert(a.worktree@[k].same_record(&b.worktree@[k]));
    }
    assert forall|k: int| 0 <= k < a.worktree@.len() implies (#[trigger] a.worktree@[k]).refusal()
        == b.worktree@[k].refusal() by {
        assert(a.worktree@[k].same_record(&b.worktree@[k]));
    }
    sections_are_judged_alike(a.worktree@, b.worktree@, MAX_TRACKED_RECORDS as nat, false, MAX_PATH_BYTES as nat);
    assert forall|name: Seq<char>| #[trigger] metadata_present(a.worktree@, a.worktree@.len() as int, name)
        == metadata_present(b.worktree@, b.worktree@.len() as int, name) by {
        metadata_is_found_alike(a.worktree@, b.worktree@, name);
    }
    assert forall|k: int| 0 <= k < a.index@.len() implies (#[trigger] a.index@[k]).path_text() == b.index@[k].path_text() by {
        assert(a.index@[k].same_record(&b.index@[k]));
    }
    assert forall|k: int| 0 <= k < a.index@.len() implies (#[trigger] a.index@[k]).refusal() == b.index@[k].refusal() by {
        assert(a.index@[k].same_record(&b.index@[k]));
    }
    sections_are_judged_alike(a.index@, b.index@, MAX_TRACKED_RECORDS as nat, false, MAX_PATH_BYTES as nat);
}

proof fn metadata_is_found_alike(a: Seq<WorktreeRecord>, b: Seq<WorktreeRecord>, name: Seq<char>)
    requires
        same_records(a, b),
    ensures
        metadata_present(a, a.len() as int, name) == metadata_present(b, b.len() as int, name),
{
    if metadata_present(a, a.len() as int, name) {
        let i = choose|i: int|
            0 <= i < a.len() && (#[trigger] a[i]).class == WorktreeClass::ManagedMetadata && a[i].path@ == name;
        assert(a[i].same_record(&b[i]));
        assert(b[i].path@ == name);
    }
    if metadata_present(b, b.len() as int, name) {
        let i = choose|i: int|
            0 <= i < b.len() && (#[trigger] b[i]).class == WorktreeClass::ManagedMetadata && b[i].path@ == name;
        assert(a[i].same_record(&b[i]));
        assert(a[i].path@ == name);
    }
}

proof fn objects_are_judged_alike(a: CandidateSealManifest, b: CandidateSealManifest)
    requires
        same_manifest(a, b),
    ensures
        object_sections_error(a) == object_sections_error(b),
{
    assert forall|k: int| 0 <= k < a.trees@.len() implies (#[trigger] a.trees@[k]).path_text() == b.trees@[k].path_text() by {
        assert(a.trees@[k].same_record(&b.trees@[k]));
    }
    assert forall|k: int| 0 <= k < a.trees@.len() implies (#[trigger] a.trees@[k]).refusal() == b.trees@[k].refusal() by {
        assert(a.trees@[k].same_record(&b.trees@[k]));
    }
    sections_are_judged_alike(a.trees@, b.trees@, MAX_PHYSICAL_RECORDS as nat, true, MAX_PATH_BYTES as nat);
    assert forall|k: int| 0 <= k < a.objects@.len() implies (#[trigger] a.objects@[k]).refusal() == b.objects@[k].refusal() by {
        assert(a.objects@[k].same_record(&b.objects@[k]));
    }
    records_are_judged_alike(a.objects@, b.objects@, 0);
    assert forall|k: int| 0 <= k < a.git_control@.len() implies (#[trigger] a.git_control@[k]).path_text()
        == b.git_control@[k].path_text() by {
        assert(a.git_control@[k].same_record(&b.git_control@[k]));
    }
    assert forall|k: int| 0 <= k < a.git_control@.len() implies (#[trigger] a.git_control@[k]).refusal()
        == b.git_control@[k].refusal() by {
        assert(a.git_control@[k].same_record(&b.git_control@[k]));
    }
    sections_are_judged_alike(a.git_control@, b.git_control@, MAX_GIT_CONTROL_RECORDS as nat, false, MAX_PATH_BYTES as nat);
}

proof fn equal_objects(a: Seq<ObjectRecord>, b: Seq<ObjectRecord>)
    requires
        same_records(a, b),
    ensures
        a == b,
{
    assert forall|i: int| 0 <= i < a.len() implies a[i] == b[i] by {
        assert(a[i].same_record(&b[i]));
        same_records_are_equal(a[i], b[i]);
    }
    assert(a =~= b);
}

proof fn matching_is_judged_alike(a: CandidateSealManifest, b: CandidateSealManifest)
    requires
        same_manifest(a, b),
        a.worktree@.len() == a.index@.len(),
    ensures
        worktree_matches_index(a) == worktree_matches_index(b),
{
    if worktree_matches_index(a) {
        assert forall|i: int| 0 <= i < b.worktree@.len() implies (#[trigger] b.worktree@[i]).path@ == b.index@[i].path@
            && b.worktree@[i].blob_oid@ == b.index@[i].blob_oid@ by {
            assert(a.worktree@[i].same_record(&b.worktree@[i]));
            assert(a.index@[i].same_record(&b.index@[i]));
        }
    }
    if worktree_matches_index(b) {
        assert forall|i: int| 0 <= i < a.worktree@.len() implies (#[trigger] a.worktree@[i]).path@ == a.index@[i].path@
            && a.worktree@[i].blob_oid@ == a.index@[i].blob_oid@ by {
            assert(a.worktree@[i].same_record(&b.worktree@[i]));
            assert(a.index@[i].same_record(&b.index@[i]));
            assert(b.worktree@[i].path@ == b.index@[i].path@);
        }
    }
}

proof fn manifests_are_judged_alike(scheme: PublicationIdentityScheme, a: CandidateSealManifest, b: CandidateSealManifest)
    requires
        same_manifest(a, b),
        same_schemes(a, b),
    ensures
        manifest_error(scheme, a) == manifest_error(scheme, b),
{
    equal_objects(a.objects@, b.objects@);
    directories_are_counted_alike(a.physical@, b.physical@, a.physical@.len() as int);
    assert forall|i: int| 0 <= i < a.physical@.len() implies (#[trigger] a.physical@[i]).path@ == b.physical@[i].path@ && (
    a.physical@[i].kind is Directory) == (b.physical@[i].kind is Directory) && a.physical@[i].seal_identity().scheme
        == b.physical@[i].seal_identity().scheme by {
        assert(a.physical@[i].same_record(&b.physical@[i]));
    }
    assert forall|i: int| 0 <= i < a.trees@.len() implies (#[trigger] a.trees@[i]).same_record(&b.trees@[i]) by {}
    assert(manifest_shape(a) == manifest_shape(b));
    if manifest_shape(a) {
        matching_is_judged_alike(a, b);
    }
    assert(identities_match(scheme, a) == identities_match(scheme, b)) by {
        if identities_match(scheme, a) {
            assert forall|i: int| 0 <= i < b.physical@.len() implies (#[trigger] b.physical@[i]).seal_identity().scheme
                == scheme by {
                assert(a.physical@[i].seal_identity().scheme == scheme);
            }
            assert forall|i: int| 0 <= i < b.worktree@.len() implies (#[trigger] b.worktree@[i]).identity.0.scheme
                == scheme by {
                assert(a.worktree@[i].identity.0.scheme == scheme);
            }
            assert forall|i: int| 0 <= i < b.git_control@.len() implies (#[trigger] b.git_control@[i]).seal_identity().scheme
                == scheme by {
                assert(a.git_control@[i].seal_identity().scheme == scheme);
            }
        }
    }
    assert(object_references_error(a) == object_references_error(b)) by {
        assert forall|i: int| 0 <= i < a.worktree@.len() implies (#[trigger] a.worktree@[i]).same_record(&b.worktree@[i]) by {}
        references_are_judged_alike(a, b);
    }
}

/// The files and trees of a manifest are among its objects.
spec fn references_listed(m: CandidateSealManifest) -> bool {
    &&& forall|i: int|
        0 <= i < m.worktree@.len() ==> {
            let record = #[trigger] m.worktree@[i];
            object_listed(m.objects@, record.blob_oid@, ObjectKind::Blob, record.size, record.sha256@)
        }
    &&& forall|i: int|
        0 <= i < m.trees@.len() ==> {
            let record = #[trigger] m.trees@[i];
            object_listed(m.objects@, record.tree_oid@, ObjectKind::Tree, record.raw_size, record.raw_sha256@)
        }
}

proof fn references_go_over(a: CandidateSealManifest, b: CandidateSealManifest)
    requires
        same_manifest(a, b),
        a.objects@ == b.objects@,
        references_listed(a),
    ensures
        references_listed(b),
{
    assert forall|i: int| 0 <= i < b.worktree@.len() implies {
        let record = #[trigger] b.worktree@[i];
        object_listed(b.objects@, record.blob_oid@, ObjectKind::Blob, record.size, record.sha256@)
    } by {
        assert(a.worktree@[i].same_record(&b.worktree@[i]));
    }
    assert forall|i: int| 0 <= i < b.trees@.len() implies {
        let record = #[trigger] b.trees@[i];
        object_listed(b.objects@, record.tree_oid@, ObjectKind::Tree, record.raw_size, record.raw_sha256@)
    } by {
        assert(a.trees@[i].same_record(&b.trees@[i]));
    }
}

proof fn references_come_back(a: CandidateSealManifest, b: CandidateSealManifest)
    requires
        same_manifest(a, b),
        a.objects@ == b.objects@,
        references_listed(b),
    ensures
        references_listed(a),
{
    assert forall|i: int| 0 <= i < a.worktree@.len() implies {
        let record = #[trigger] a.worktree@[i];
        object_listed(a.objects@, record.blob_oid@, ObjectKind::Blob, record.size, record.sha256@)
    } by {
        assert(a.worktree@[i].same_record(&b.worktree@[i]));
        assert(object_listed(
            b.objects@,
            b.worktree@[i].blob_oid@,
            ObjectKind::Blob,
            b.worktree@[i].size,
            b.worktree@[i].sha256@,
        ));
    }
    assert forall|i: int| 0 <= i < a.trees@.len() implies {
        let record = #[trigger] a.trees@[i];
        object_listed(a.objects@, record.tree_oid@, ObjectKind::Tree, record.raw_size, record.raw_sha256@)
    } by {
        assert(a.trees@[i].same_record(&b.trees@[i]));
        assert(object_listed(
            b.objects@,
            b.trees@[i].tree_oid@,
            ObjectKind::Tree,
            b.trees@[i].raw_size,
            b.trees@[i].raw_sha256@,
        ));
    }
}

proof fn references_are_judged_alike(a: CandidateSealManifest, b: CandidateSealManifest)
    requires
        same_manifest(a, b),
        a.objects@ == b.objects@,
    ensures
        object_references_error(a) == object_references_error(b),
{
    if references_listed(a) {
        references_go_over(a, b);
    }
    if references_listed(b) {
        references_come_back(a, b);
    }
    assert(references_listed(a) == references_listed(b));
}

/// Manifests that say the same are judged alike.
pub proof fn same_manifests_are_judged_alike(
    context: CandidateSealContext,
    a: CandidateSealManifest,
    b: CandidateSealManifest,
)
    requires
        same_manifest(a, b),
        same_schemes(a, b),
    ensures
        seal_error(context, a) == seal_error(context, b),
{
    manifests_are_judged_alike(context.scheme, a, b);
    files_are_judged_alike(a, b);
    objects_are_judged_alike(a, b);
}

} // verus!
