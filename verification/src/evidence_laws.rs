//! What the evidence of a candidate shows: which files and directories it may have, what is tracked, and how
//! the objects belong to them.

use crate::bytes::{lex_less, next_index, next_index_facts};
use crate::content_seal::{aggregate_error, manifest_projects, manifest_scheme_is};
use crate::errors::{CandidateSealError, RepositoryImportError};
use crate::git_control::{below_git, git_relative, loose_path, SortedObjectSet};
use crate::git_evidence::{
    bodies_error, collect_error, commit_and_tree_listed, content_error, control_path_fits, control_projection_error,
    controls_projection_error, git_manifest_error, git_projects, object_projection_error, objects_projection_error,
    projection_error, view_objects, views_error, CandidateGitProjection, FreshGitControlEvidence, FreshGitManifest,
    FreshObjectEvidence,
};
use crate::git_object::{object_record_error, root_commit_error, FreshRootCommitEvidence, MAX_RAW_OBJECT_BYTES};
use crate::identity::{FilesystemDirectoryIdentity, FilesystemFileIdentity, PublicationIdentityScheme};
use crate::manifest::{
    audited_kind, audited_kind_error, audited_path_verdict, frozen_limits, keys_before, lock_alone, observed_directory,
    paths_ascend, physical_audit_error, seal_path_total, seal_path_verdict, seals_error, top_level_of, AuditedNamespace,
    AuditedPhysicalKind, AuditedPhysicalRecord, FoldedPath, MarkerFreePhysicalManifest, NamespaceKind, NamespaceSeal,
    PhysicalManifestLimits, PhysicalObservation,
};
use crate::object_union::{is_union, union_error};
use crate::portable_path::path_error;
use crate::revalidation::record_scheme;
use crate::seal::objects_ascend;
use crate::seal_records::{empty_sha256, CandidateSealContext, CandidateSealManifest, ObjectKind, ObjectRecord};
use crate::source_laws::prefixes_come_first;
use crate::worktree_evidence::{
    tracked_blobs, tracked_error, tree_objects_of, trees_stand, FreshTrackedEntry, FreshTrackedManifest, FreshTreeEntry,
    FreshTreeManifest,
};
use vstd::prelude::*;
use vstd::string::*;
use vstd::utf8::encode_utf8;

verus! {

/// How large a candidate may be: a million records, paths of 1034 bytes and 128 names, 256 MiB of paths, and
/// files of 68 MiB.
pub proof fn candidates_are_bounded()
    ensures
        frozen_limits().records == 1_000_000,
        frozen_limits().path_bytes == 1034,
        frozen_limits().depth == 128,
        frozen_limits().path_budget == 256 * 1024 * 1024,
        frozen_limits().file_bytes == 68 * 1024 * 1024,
{
}

/// The first name of a path is what stands before its first slash.
pub proof fn first_names(first: Seq<u8>, rest: Seq<u8>)
    requires
        !first.contains(0x2f),
    ensures
        top_level_of(first) == first,
        top_level_of(first + seq![0x2fu8] + rest) == first,
{
    next_index_facts(first, 0x2f, 0);
    let n = next_index(first, 0x2f, 0);
    if n < first.len() {
        assert(first.contains(first[n]));
    }
    assert(first.subrange(0, first.len() as int) =~= first);
    let path = first + seq![0x2fu8] + rest;
    next_index_facts(path, 0x2f, 0);
    let at = next_index(path, 0x2f, 0);
    if at < first.len() {
        assert(path[at] == first[at]);
        assert(first.contains(first[at]));
    }
    assert(path[first.len() as int] == 0x2f);
    assert(path.subrange(0, first.len() as int) =~= first);
}

/// A path of an inventory is accepted exactly where it is portable and within the bounds, comes after the one
/// before it, has a key that no path before it had, and has the key of the private directory in its first
/// name only if that name is `.vault-local` itself.
pub proof fn audited_paths(
    path: Seq<char>,
    fold: FoldedPath,
    previous: Seq<char>,
    budget: nat,
    folded: Set<Seq<char>>,
    private_key: Seq<char>,
    limits: PhysicalManifestLimits,
)
    ensures
        audited_path_verdict(path, fold, previous, budget, folded, private_key, limits) is Ok <==> {
            &&& encode_utf8(path).len() <= limits.path_bytes
            &&& path_error(path, false, 1034) is None
            &&& crate::bytes::split_pieces(encode_utf8(path), 0x2f).len() <= limits.depth
            &&& lex_less(encode_utf8(previous), encode_utf8(path))
            &&& budget + encode_utf8(path).len() <= limits.path_budget
            &&& !folded.contains(fold.key@)
            &&& fold.top_level_key@ == private_key ==> top_level_of(encode_utf8(path)) == encode_utf8(".vault-local"@)
        },
        encode_utf8(path).len() > limits.path_bytes ==> audited_path_verdict(
            path,
            fold,
            previous,
            budget,
            folded,
            private_key,
            limits,
        ) == Err::<(), RepositoryImportError>(RepositoryImportError::ResourceLimit),
{
}

/// A record of an inventory is of the right kind exactly where it is a directory without a body, not below
/// the private directory; or a file with a digest, not too large, that is not in place of the private
/// directory and is not below it, but for the lock, which is empty.
pub proof fn audited_kinds(seal: NamespaceSeal, limits: PhysicalManifestLimits)
    ensures
        audited_kind_error(seal, limits) is None <==> {
            let path = seal.relative_path@;
            let private = exists|rest: Seq<u8>| encode_utf8(path) == #[trigger] (encode_utf8(".vault-local/"@) + rest);
            if seal.kind is Directory {
                seal.size == 0 && seal.sha256 is None && !private
            } else {
                &&& seal.sha256 is Some
                &&& seal.size <= limits.file_bytes
                &&& path != ".vault-local"@
                &&& if path == ".vault-local/mutation.lock"@ {
                    seal.size == 0 && seal.sha256->Some_0@ == empty_sha256()
                } else {
                    !private
                }
            }
        },
        seal.kind is File && seal.sha256 is Some && seal.size > limits.file_bytes ==> audited_kind_error(seal, limits) == Some(
            RepositoryImportError::ResourceLimit,
        ),
{
    prefixes_come_first(encode_utf8(seal.relative_path@), encode_utf8(".vault-local/"@));
}

proof fn audited_seals(
    seals: Seq<NamespaceSeal>,
    folds: Seq<FoldedPath>,
    private_key: Seq<char>,
    limits: PhysicalManifestLimits,
    from: int,
)
    requires
        0 <= from,
    ensures
        seals_error(seals, folds, private_key, limits, from) is None <==> forall|i: int|
            from <= i < seals.len() ==> #[trigger] seal_path_verdict(seals, folds, private_key, limits, i) is Ok
                && audited_kind_error(seals[i], limits) is None,
    decreases seals.len() - from,
{
    if from < seals.len() {
        audited_seals(seals, folds, private_key, limits, from + 1);
        if seals_error(seals, folds, private_key, limits, from) is None {
            assert forall|i: int| from <= i < seals.len() implies #[trigger] seal_path_verdict(
                seals,
                folds,
                private_key,
                limits,
                i,
            ) is Ok && audited_kind_error(seals[i], limits) is None by {
                if i > from {
                    assert(seals_error(seals, folds, private_key, limits, from + 1) is None);
                }
            }
        } else if forall|i: int|
            from <= i < seals.len() ==> #[trigger] seal_path_verdict(seals, folds, private_key, limits, i) is Ok
                && audited_kind_error(seals[i], limits) is None {
            assert(seal_path_verdict(seals, folds, private_key, limits, from) is Ok);
            assert(seals_error(seals, folds, private_key, limits, from + 1) is None);
        }
    }
}

/// An inventory is accepted exactly where it is not too long, each of its paths is accepted after those
/// before it, each record is of the right kind, and the private directory and its lock are there.
pub proof fn audited_inventories(
    seals: Seq<NamespaceSeal>,
    folds: Seq<FoldedPath>,
    private_key: Seq<char>,
    limits: PhysicalManifestLimits,
)
    ensures
        physical_audit_error(seals, folds, private_key, limits) is None <==> {
            &&& seals.len() < limits.records
            &&& forall|i: int|
                0 <= i < seals.len() ==> #[trigger] seal_path_verdict(seals, folds, private_key, limits, i) is Ok
                    && audited_kind_error(seals[i], limits) is None
            &&& exists|i: int|
                0 <= i < seals.len() && (#[trigger] seals[i]).relative_path@ == ".vault-local"@ && seals[i].kind is Directory
            &&& exists|i: int|
                0 <= i < seals.len() && (#[trigger] seals[i]).relative_path@ == ".vault-local/mutation.lock"@ && seals[i].kind is File
        },
        seals.len() >= limits.records ==> physical_audit_error(seals, folds, private_key, limits) == Some(
            RepositoryImportError::ResourceLimit,
        ),
{
    audited_seals(seals, folds, private_key, limits, 0);
    if exists|i: int| 0 <= i < seals.len() && crate::manifest::local_directory_at(seals, i) {
        let i = choose|i: int| 0 <= i < seals.len() && crate::manifest::local_directory_at(seals, i);
        assert(seals[i].relative_path@ == ".vault-local"@);
    }
    if exists|i: int| 0 <= i < seals.len() && crate::manifest::mutation_lock_at(seals, i) {
        let i = choose|i: int| 0 <= i < seals.len() && crate::manifest::mutation_lock_at(seals, i);
        assert(seals[i].relative_path@ == ".vault-local/mutation.lock"@);
    }
    if exists|i: int| 0 <= i < seals.len() && (#[trigger] seals[i]).relative_path@ == ".vault-local"@ && seals[i].kind is Directory {
        let i = choose|i: int|
            0 <= i < seals.len() && (#[trigger] seals[i]).relative_path@ == ".vault-local"@ && seals[i].kind is Directory;
        assert(crate::manifest::local_directory_at(seals, i));
    }
    if exists|i: int|
        0 <= i < seals.len() && (#[trigger] seals[i]).relative_path@ == ".vault-local/mutation.lock"@ && seals[i].kind is File {
        let i = choose|i: int|
            0 <= i < seals.len() && (#[trigger] seals[i]).relative_path@ == ".vault-local/mutation.lock"@ && seals[i].kind is File;
        assert(crate::manifest::mutation_lock_at(seals, i));
    }
}

/// A path of an inventory is judged after the one before it, with the length of all before it and their keys.
pub proof fn paths_are_judged_in_turn(
    seals: Seq<NamespaceSeal>,
    folds: Seq<FoldedPath>,
    private_key: Seq<char>,
    limits: PhysicalManifestLimits,
    i: int,
)
    requires
        0 < i < seals.len(),
    ensures
        seal_path_verdict(seals, folds, private_key, limits, i) == audited_path_verdict(
            seals[i].relative_path@,
            folds[i],
            seals[i - 1].relative_path@,
            seal_path_total(seals, i),
            keys_before(folds, i),
            private_key,
            limits,
        ),
        seal_path_total(seals, i) == seal_path_total(seals, i - 1) + encode_utf8(seals[i - 1].relative_path@).len(),
        seal_path_total(seals, 0) == 0,
        keys_before(folds, i).contains(folds[i - 1].key@),
        forall|key: Seq<char>| #[trigger]
            keys_before(folds, i).contains(key) ==> exists|j: int| 0 <= j < i && (#[trigger] folds[j]).key@ == key,
{
    assert(folds[i - 1].key@ == folds[i - 1].key@);
}

/// The private directory holds its lock alone, which is empty and the one that was recorded.
pub proof fn the_lock_is_alone(entries: Seq<NamespaceSeal>, lock: FilesystemFileIdentity)
    ensures
        lock_alone(entries, lock) <==> {
            &&& entries.len() == 1
            &&& entries[0].relative_path@ == "mutation.lock"@
            &&& entries[0].size == 0
            &&& entries[0].sha256 is Some && entries[0].sha256->Some_0@ == empty_sha256()
            &&& entries[0].kind is File && entries[0].kind->File_0.scheme == lock.scheme && entries[0].kind->File_0.wire@ == lock.wire@
        },
{
}

/// An observed target gets a manifest exactly where its root is the same after the inventory, the inventory
/// is accepted, no directory has another stream, and the private directory and the lock that the inventory
/// lists are found again, before and after, with the lock alone.
pub proof fn observed_targets(seen: PhysicalObservation, limits: PhysicalManifestLimits)
    ensures
        seen.refusal(limits) is None ==> {
            &&& observed_directory(seen.root_after_inventory, seen.root_identity)
            &&& physical_audit_error(seen.seals@, seen.folds@, seen.private_key@, limits) is None
            &&& seen.directories_plain
            &&& observed_directory(seen.private_state.root_before, seen.root_identity)
            &&& observed_directory(seen.private_state.root_after, seen.root_identity)
            &&& exists|i: int, j: int|
                {
                    &&& 0 <= i < seen.seals@.len() && 0 <= j < seen.seals@.len()
                    &&& (#[trigger] seen.seals@[i]).relative_path@ == ".vault-local"@ && seen.seals@[i].kind is Directory
                    &&& (#[trigger] seen.seals@[j]).relative_path@ == ".vault-local/mutation.lock"@ && seen.seals@[j].kind is File
                    &&& observed_directory(seen.private_state.local_before, seen.seals@[i].kind->Directory_0)
                    &&& observed_directory(seen.private_state.local_after, seen.seals@[i].kind->Directory_0)
                    &&& lock_alone(seen.private_state.private_entries@, seen.seals@[j].kind->File_0)
                }
        },
        !observed_directory(seen.root_after_inventory, seen.root_identity) || !seen.directories_plain || !observed_directory(
            seen.private_state.root_before,
            seen.root_identity,
        ) || !observed_directory(seen.private_state.root_after, seen.root_identity) ==> seen.refusal(limits) is Some,
{
    if seen.refusal(limits) is None {
        let (local, lock) = choose|local: FilesystemDirectoryIdentity, lock: FilesystemFileIdentity|
            {
                &&& seen.names_private(local, lock)
                &&& seen.private_state.confirms(seen.root_identity, local, lock)
            };
        let i = choose|i: int|
            0 <= i < seen.seals@.len() && #[trigger] crate::manifest::local_directory_at(seen.seals@, i) && seen.seals@[i].kind
                == NamespaceKind::Directory(local);
        let j = choose|j: int|
            0 <= j < seen.seals@.len() && #[trigger] crate::manifest::mutation_lock_at(seen.seals@, j) && seen.seals@[j].kind
                == NamespaceKind::File(lock);
        assert(seen.seals@[i].relative_path@ == ".vault-local"@ && seen.seals@[j].relative_path@ == ".vault-local/mutation.lock"@);
    }
}

/// A directory is the one that was recorded where it has the same scheme and the same identity; one that
/// could not be opened is not.
pub proof fn directories_are_known_again(observed: Option<FilesystemDirectoryIdentity>, expected: FilesystemDirectoryIdentity)
    ensures
        observed_directory(observed, expected) <==> observed is Some && observed->Some_0.scheme == expected.scheme
            && observed->Some_0.wire@ == expected.wire@,
{
}

/// A tracked file gives a blob with its own id, and the size and the digest of the file that it names.
pub proof fn blobs_of_tracked_files(records: Seq<AuditedPhysicalRecord>, entries: Seq<FreshTrackedEntry>, i: int)
    requires
        0 <= i < entries.len(),
        entries[i].file.0 < records.len(),
        records[entries[i].file.0 as int].kind is File,
    ensures
        tracked_blobs(records, entries).len() == entries.len(),
        tracked_blobs(records, entries)[i].oid == entries[i].blob_oid,
        tracked_blobs(records, entries)[i].kind == ObjectKind::Blob,
        (records[entries[i].file.0 as int].kind matches AuditedPhysicalKind::File { size, sha256, .. } ==> tracked_blobs(
            records,
            entries,
        )[i].raw_size == size && tracked_blobs(records, entries)[i].raw_sha256 == sha256),
{
}

/// A tree gives an object with its id, its size and its digest.
pub proof fn objects_of_trees(entries: Seq<FreshTreeEntry>, i: int)
    requires
        0 <= i < entries.len(),
    ensures
        tree_objects_of(entries).len() == entries.len(),
        tree_objects_of(entries)[i].oid == entries[i].tree_oid,
        tree_objects_of(entries)[i].kind == ObjectKind::Tree,
        tree_objects_of(entries)[i].raw_size == entries[i].raw_size,
        tree_objects_of(entries)[i].raw_sha256 == entries[i].raw_sha256,
{
}

/// The tracked files are accepted exactly where each names a file of the manifest whose identity is of the
/// scheme; the trees stand exactly where each names a directory.
pub proof fn tracked_files_are_files(
    records: Seq<AuditedPhysicalRecord>,
    entries: Seq<FreshTrackedEntry>,
    scheme: PublicationIdentityScheme,
    from: int,
)
    requires
        0 <= from,
    ensures
        tracked_error(records, entries, scheme, from) is None <==> forall|i: int|
            from <= i < entries.len() ==> (#[trigger] entries[i]).file.0 < records.len()
                && records[entries[i].file.0 as int].kind is File && records[entries[i].file.0 as int].kind->File_identity.scheme == scheme,
    decreases entries.len() - from,
{
    if from < entries.len() {
        tracked_files_are_files(records, entries, scheme, from + 1);
    }
}

/// Trees stand exactly where each names a directory of the manifest.
pub proof fn trees_are_directories(records: Seq<AuditedPhysicalRecord>, entries: Seq<FreshTreeEntry>)
    ensures
        trees_stand(records, entries) <==> forall|i: int|
            0 <= i < entries.len() ==> (#[trigger] entries[i]).directory.0 < records.len()
                && records[entries[i].directory.0 as int].kind is Directory,
{
    if trees_stand(records, entries) {
        assert forall|i: int| 0 <= i < entries.len() implies (#[trigger] entries[i]).directory.0 < records.len()
            && records[entries[i].directory.0 as int].kind is Directory by {
            assert(crate::worktree_evidence::tree_directory(records, entries[i]));
        }
    }
}

/// The views of a candidate are united exactly where they stand on its manifest, every tracked file is a
/// file, and the objects that they give can be united.
pub proof fn views_are_united(bound: bool, files: FreshTrackedManifest<'_>, trees: FreshTreeManifest<'_>, root: FreshRootCommitEvidence)
    ensures
        views_error(bound, files, trees, root) is None <==> {
            &&& bound
            &&& forall|i: int|
                0 <= i < files.entries@.len() ==> (#[trigger] files.entries@[i]).file.0 < files.physical.records@.len()
                    && files.physical.records@[files.entries@[i].file.0 as int].kind is File
            &&& union_error(tracked_blobs(files.physical.records@, files.entries@), tree_objects_of(trees.entries@), root) is None
        },
        !bound ==> views_error(bound, files, trees, root) == Some(CandidateSealError::InvalidRecord),
{
    if views_error(bound, files, trees, root) is None {
        assert forall|i: int| 0 <= i < files.entries@.len() implies (#[trigger] files.entries@[i]).file.0
            < files.physical.records@.len() && files.physical.records@[files.entries@[i].file.0 as int].kind is File by {
            assert(crate::worktree_evidence::tracked_file(files.physical.records@, files.entries@[i]));
        }
    }
}

proof fn bodies_pass(objects: Seq<ObjectRecord>, from: int)
    requires
        0 <= from,
    ensures
        bodies_error(objects, from) is None <==> forall|i: int|
            from <= i < objects.len() ==> object_record_error(#[trigger] objects[i], MAX_RAW_OBJECT_BYTES) is None,
    decreases objects.len() - from,
{
    if from < objects.len() {
        bodies_pass(objects, from + 1);
    }
}

/// Git evidence is right only where it lists at least one and at most a million objects and control records,
/// the commit is right and is listed with its tree, the objects are in the order of their ids, and each is
/// right.
pub proof fn right_git_evidence(evidence: FreshGitManifest<'_>)
    requires
        git_manifest_error(evidence) is None,
    ensures
        0 < evidence.objects.object_seq().len() <= 1_000_000,
        evidence.git_control@.len() <= 1_000_000,
        root_commit_error(evidence.root_commit) is None,
        objects_ascend(evidence.objects.object_seq()),
        commit_and_tree_listed(evidence.objects.object_seq(), evidence.root_commit),
        forall|i: int|
            0 <= i < evidence.objects.object_seq().len() ==> object_record_error(
                #[trigger] evidence.objects.object_seq()[i],
                MAX_RAW_OBJECT_BYTES,
            ) is None,
{
    bodies_pass(evidence.objects.object_seq(), 0);
}

/// Git evidence is refused where it lists no objects or too many, or is not in order, and the reason is told.
pub proof fn refused_git_evidence(evidence: FreshGitManifest<'_>)
    ensures
        evidence.objects.object_seq().len() == 0 || evidence.objects.object_seq().len() > 1_000_000 || evidence.git_control@.len()
            > 1_000_000 ==> git_manifest_error(evidence) == Some(CandidateSealError::ResourceLimit),
        0 < evidence.objects.object_seq().len() <= 1_000_000 && evidence.git_control@.len() <= 1_000_000 && root_commit_error(
            evidence.root_commit,
        ) is None && !objects_ascend(evidence.objects.object_seq()) ==> git_manifest_error(evidence) == Some(
            CandidateSealError::NonCanonicalOrder,
        ),
        0 < evidence.objects.object_seq().len() <= 1_000_000 && evidence.git_control@.len() <= 1_000_000 && root_commit_error(
            evidence.root_commit,
        ) is None && objects_ascend(evidence.objects.object_seq()) && !commit_and_tree_listed(
            evidence.objects.object_seq(),
            evidence.root_commit,
        ) ==> git_manifest_error(evidence) == Some(CandidateSealError::InvalidRecord),
{
}

/// The evidence of an object is projected exactly where it names a file below `.git/` at the place of its
/// digits, and its record is right.
pub proof fn projected_objects(records: Seq<AuditedPhysicalRecord>, evidence: FreshObjectEvidence)
    ensures
        object_projection_error(records, evidence) is None <==> {
            let file = evidence.loose_file.0 as int;
            &&& file < records.len()
            &&& records[file].kind is File
            &&& below_git(encode_utf8(records[file].path@))
            &&& git_relative(encode_utf8(records[file].path@)) == loose_path(evidence.record.oid@)
            &&& object_record_error(evidence.record, MAX_RAW_OBJECT_BYTES) is None
        },
{
}

/// The evidence of a control record is projected exactly where it names a record below `.git/` at the place
/// of its role, whose identity is of the scheme.
pub proof fn projected_controls(
    records: Seq<AuditedPhysicalRecord>,
    evidence: FreshGitControlEvidence,
    scheme: PublicationIdentityScheme,
)
    ensures
        control_projection_error(records, evidence, scheme) is None <==> {
            let at = evidence.physical.0 as int;
            &&& at < records.len()
            &&& below_git(encode_utf8(records[at].path@)) && encode_utf8(records[at].path@).len() > 5
            &&& control_path_fits(records[at], evidence.role)
            &&& match records[at].kind {
                AuditedPhysicalKind::Directory(identity) => identity.scheme == scheme,
                AuditedPhysicalKind::File { identity, .. } => identity.scheme == scheme,
            }
        },
{
}

proof fn objects_projected(records: Seq<AuditedPhysicalRecord>, objects: Seq<FreshObjectEvidence>, from: int)
    requires
        0 <= from,
    ensures
        objects_projection_error(records, objects, from) is None <==> forall|i: int|
            from <= i < objects.len() ==> object_projection_error(records, #[trigger] objects[i]) is None,
    decreases objects.len() - from,
{
    if from < objects.len() {
        objects_projected(records, objects, from + 1);
    }
}

proof fn controls_projected(
    records: Seq<AuditedPhysicalRecord>,
    controls: Seq<FreshGitControlEvidence>,
    scheme: PublicationIdentityScheme,
    from: int,
)
    requires
        0 <= from,
    ensures
        controls_projection_error(records, controls, scheme, from) is None <==> forall|i: int|
            from <= i < controls.len() ==> control_projection_error(records, #[trigger] controls[i], scheme) is None,
    decreases controls.len() - from,
{
    if from < controls.len() {
        controls_projected(records, controls, scheme, from + 1);
    }
}

/// Git evidence is projected exactly where it is right and each of its objects and control records is
/// projected.
pub proof fn projected_evidence(evidence: FreshGitManifest<'_>, scheme: PublicationIdentityScheme)
    ensures
        projection_error(evidence, scheme) is None <==> {
            &&& git_manifest_error(evidence) is None
            &&& forall|i: int|
                0 <= i < evidence.objects@.len() ==> object_projection_error(
                    evidence.physical.records@,
                    #[trigger] evidence.objects@[i],
                ) is None
            &&& forall|i: int|
                0 <= i < evidence.git_control@.len() ==> control_projection_error(
                    evidence.physical.records@,
                    #[trigger] evidence.git_control@[i],
                    scheme,
                ) is None
        },
{
    objects_projected(evidence.physical.records@, evidence.objects@, 0);
    controls_projected(evidence.physical.records@, evidence.git_control@, scheme, 0);
}

/// Git evidence is of the content of the views exactly where the views are united and the evidence lists the
/// objects that they give: each of them, and no other.
pub proof fn evidence_of_the_content(
    bound: bool,
    evidence: FreshGitManifest<'_>,
    files: FreshTrackedManifest<'_>,
    trees: FreshTreeManifest<'_>,
)
    ensures
        content_error(bound, evidence, files, trees) is None <==> {
            let listed = evidence.objects.object_seq();
            let given = view_objects(files, trees, evidence.root_commit);
            &&& views_error(bound, files, trees, evidence.root_commit) is None
            &&& objects_ascend(listed)
            &&& forall|i: int| 0 <= i < listed.len() ==> given.contains(#[trigger] listed[i])
            &&& forall|i: int| 0 <= i < given.len() ==> listed.contains(#[trigger] given[i])
        },
{
    let listed = evidence.objects.object_seq();
    let given = view_objects(files, trees, evidence.root_commit);
    if is_union(listed, given) {
        assert forall|i: int| 0 <= i < listed.len() implies given.contains(#[trigger] listed[i]) by {
            assert(listed.contains(listed[i]));
        }
        assert forall|i: int| 0 <= i < given.len() implies listed.contains(#[trigger] given[i]) by {
            assert(given.contains(given[i]));
        }
    }
    if objects_ascend(listed) && (forall|i: int| 0 <= i < listed.len() ==> given.contains(#[trigger] listed[i])) && (forall|i: int|
        0 <= i < given.len() ==> listed.contains(#[trigger] given[i])) {
        assert forall|record: ObjectRecord| #[trigger] listed.contains(record) == given.contains(record) by {
            if listed.contains(record) {
                let i = choose|i: int| 0 <= i < listed.len() && listed[i] == record;
                assert(given.contains(listed[i]));
            }
            if given.contains(record) {
                let i = choose|i: int| 0 <= i < given.len() && given[i] == record;
                assert(listed.contains(given[i]));
            }
        }
    }
}

/// Evidence is collected exactly where the control directory can be read as that of the objects, there are
/// some, the commit is right, and it is listed with its tree.
pub proof fn collected_evidence(records: Seq<AuditedPhysicalRecord>, expected: Seq<ObjectRecord>, root: FreshRootCommitEvidence)
    ensures
        collect_error(records, expected, root) is None <==> {
            &&& crate::control_scan::scan_error(records, expected, root.commit_oid@, crate::control_scan::AdmitAll) is None
            &&& expected.len() > 0
            &&& root_commit_error(root) is None
            &&& commit_and_tree_listed(expected, root)
        },
{
}

/// All evidence of a candidate is sealed together exactly where it stands on one manifest, all identities are
/// of the scheme of the context, the tracked files are files and the trees directories, the objects are those
/// of the content, and the Git evidence is projected.
pub proof fn evidence_is_sealed_together(
    bound: bool,
    context: CandidateSealContext,
    physical: MarkerFreePhysicalManifest,
    files: FreshTrackedManifest<'_>,
    trees: FreshTreeManifest<'_>,
    git: FreshGitManifest<'_>,
)
    ensures
        aggregate_error(bound, context, physical, files, trees, git) is None <==> {
            &&& bound
            &&& physical.lock_identity.scheme == context.scheme
            &&& forall|i: int|
                0 <= i < physical.records@.len() ==> match (#[trigger] physical.records@[i]).kind {
                    AuditedPhysicalKind::Directory(identity) => identity.scheme == context.scheme,
                    AuditedPhysicalKind::File { identity, .. } => identity.scheme == context.scheme,
                }
            &&& tracked_error(files.physical.records@, files.entries@, context.scheme, 0) is None
            &&& trees_stand(trees.physical.records@, trees.entries@)
            &&& content_error(bound, git, files, trees) is None
            &&& projection_error(git, context.scheme) is None
        },
        bound && !manifest_scheme_is(physical, context.scheme) ==> aggregate_error(bound, context, physical, files, trees, git)
            == Some(CandidateSealError::InvalidContext),
        !bound ==> aggregate_error(bound, context, physical, files, trees, git) == Some(CandidateSealError::InvalidRecord),
{
    if manifest_scheme_is(physical, context.scheme) {
        assert forall|i: int| 0 <= i < physical.records@.len() implies match (#[trigger] physical.records@[i]).kind {
            AuditedPhysicalKind::Directory(identity) => identity.scheme == context.scheme,
            AuditedPhysicalKind::File { identity, .. } => identity.scheme == context.scheme,
        } by {
            assert(record_scheme(physical.records@[i].kind) == context.scheme);
        }
    }
}

/// What is sealed is what the evidence says, record by record: of each tracked file its path, class,
/// identity, size, digest and id; in the index its path and id; of each tree its path, id, size and digest;
/// and the commit, the objects and the lock as they are.
pub proof fn sealed_is_what_was_seen(
    manifest: CandidateSealManifest<'_>,
    physical: MarkerFreePhysicalManifest,
    files: FreshTrackedManifest<'_>,
    trees: FreshTreeManifest<'_>,
    git: FreshGitManifest<'_>,
    i: int,
)
    requires
        manifest_projects(manifest, physical, files, trees, git),
    ensures
        manifest.physical@.len() == physical.records@.len(),
        manifest.worktree@.len() == files.entries@.len(),
        manifest.index@.len() == files.entries@.len(),
        manifest.trees@.len() == trees.entries@.len(),
        manifest.git_control@.len() == git.git_control@.len(),
        manifest.objects@ == git.objects.object_seq(),
        manifest.head_refs.commit_oid == git.root_commit.commit_oid,
        manifest.root_commit.commit_oid == git.root_commit.commit_oid,
        manifest.root_commit.tree_oid == git.root_commit.tree_oid,
        manifest.root_commit.raw_size == git.root_commit.raw_size,
        manifest.root_commit.raw_sha256 == git.root_commit.raw_sha256,
        manifest.private_baseline.identity.0.bytes == physical.lock_identity.wire,
        0 <= i < physical.records@.len() ==> manifest.physical@[i].path@ == physical.records@[i].path@ && match physical.records@[i].kind {
            AuditedPhysicalKind::Directory(identity) => manifest.physical@[i].kind is Directory
                && manifest.physical@[i].seal_identity().bytes == identity.wire,
            AuditedPhysicalKind::File { identity, size, sha256 } => manifest.physical@[i].kind is File
                && manifest.physical@[i].seal_identity().bytes == identity.wire && manifest.physical@[i].kind->size == size
                && manifest.physical@[i].kind->sha256 == sha256,
        },
        0 <= i < files.entries@.len() ==> {
            let record = files.physical.records@[files.entries@[i].file.0 as int];
            &&& manifest.worktree@[i].path@ == record.path@
            &&& manifest.worktree@[i].class == files.entries@[i].class
            &&& manifest.worktree@[i].blob_oid == files.entries@[i].blob_oid
            &&& manifest.index@[i].path@ == record.path@
            &&& manifest.index@[i].blob_oid == files.entries@[i].blob_oid
            &&& record.kind matches AuditedPhysicalKind::File { identity, size, sha256 } && manifest.worktree@[i].size == size
                && manifest.worktree@[i].sha256 == sha256 && manifest.worktree@[i].identity.0.bytes == identity.wire
        },
        0 <= i < trees.entries@.len() ==> {
            &&& manifest.trees@[i].path@ == trees.physical.records@[trees.entries@[i].directory.0 as int].path@
            &&& manifest.trees@[i].tree_oid == trees.entries@[i].tree_oid
            &&& manifest.trees@[i].raw_size == trees.entries@[i].raw_size
            &&& manifest.trees@[i].raw_sha256 == trees.entries@[i].raw_sha256
        },
        0 <= i < git.git_control@.len() ==> {
            let record = git.physical.records@[git.git_control@[i].physical.0 as int];
            &&& manifest.git_control@[i].role == git.git_control@[i].role
            &&& manifest.git_control@[i].path.spec_bytes() == git_relative(encode_utf8(record.path@))
            &&& manifest.git_control@[i].kind is Directory == record.kind is Directory
        },
{
    if 0 <= i < physical.records@.len() {
        assert(crate::revalidation::projects(manifest.physical@[i], physical.records@[i]));
    }
    if 0 <= i < files.entries@.len() {
        let w = manifest.worktree@[i];
        let x = manifest.index@[i];
    }
    if 0 <= i < trees.entries@.len() {
        let t = manifest.trees@[i];
    }
    if 0 <= i < git.git_control@.len() {
        let c = manifest.git_control@[i];
    }
}

/// A manifest describes an inventory where its first record is that of the root and the others are those of
/// the inventory, in their order, each with its identity, and a file with its length and its digest.
pub proof fn manifests_describe_inventories(
    manifest: AuditedNamespace,
    root_identity: FilesystemDirectoryIdentity,
    seals: Seq<NamespaceSeal>,
    i: int,
)
    requires
        manifest.describes(root_identity, seals),
        0 <= i < seals.len(),
    ensures
        manifest.records@.len() == seals.len() + 1,
        manifest.records@[0].path@.len() == 0,
        manifest.records@[0].kind == AuditedPhysicalKind::Directory(root_identity),
        manifest.records@[i + 1].path@ == seals[i].relative_path@,
        match seals[i].kind {
            NamespaceKind::Directory(identity) => manifest.records@[i + 1].kind == AuditedPhysicalKind::Directory(identity),
            NamespaceKind::File(identity) => manifest.records@[i + 1].kind == (AuditedPhysicalKind::File {
                identity,
                size: seals[i].size,
                sha256: seals[i].sha256->Some_0,
            }),
        },
        paths_ascend(manifest.records@),
{
    assert(manifest.records@[i + 1].kind == audited_kind(seals[i]));
}

/// The projection of Git evidence says what the evidence does: its commit, its objects, and each of its
/// control records.
pub proof fn projections_say_what_the_evidence_does(
    projection: CandidateGitProjection<'_>,
    evidence: FreshGitManifest<'_>,
    i: int,
)
    requires
        git_projects(projection, evidence),
    ensures
        projection.head_refs.commit_oid == evidence.root_commit.commit_oid,
        projection.root_commit.commit_oid == evidence.root_commit.commit_oid,
        projection.root_commit.tree_oid == evidence.root_commit.tree_oid,
        projection.root_commit.raw_size == evidence.root_commit.raw_size,
        projection.root_commit.raw_sha256 == evidence.root_commit.raw_sha256,
        projection.objects@ == evidence.objects.object_seq(),
        projection.git_control@.len() == evidence.git_control@.len(),
        0 <= i < evidence.git_control@.len() ==> {
            let record = evidence.physical.records@[evidence.git_control@[i].physical.0 as int];
            &&& projection.git_control@[i].role == evidence.git_control@[i].role
            &&& projection.git_control@[i].path.spec_bytes() == git_relative(encode_utf8(record.path@))
            &&& match record.kind {
                AuditedPhysicalKind::Directory(identity) => projection.git_control@[i].kind is Directory
                    && projection.git_control@[i].seal_identity().bytes == identity.wire
                    && projection.git_control@[i].seal_identity().scheme == identity.scheme,
                AuditedPhysicalKind::File { identity, size, sha256 } => projection.git_control@[i].kind is File
                    && projection.git_control@[i].seal_identity().bytes == identity.wire && projection.git_control@[i].kind->size
                    == size && projection.git_control@[i].kind->sha256 == sha256,
            }
        },
{
    if 0 <= i < evidence.git_control@.len() {
        assert(crate::git_evidence::control_projects(
            projection.git_control@[i],
            evidence.physical.records@[evidence.git_control@[i].physical.0 as int],
            evidence.git_control@[i],
        ));
    }
}

} // verus!
