//! The audit of a target: everything that is observed of it must agree with what it was made as.

use crate::batch_session::{every_object_is_proved, first_failure, prove_expected_target_objects};
use crate::errors::RepositoryImportError;
use crate::git_object::typed_oid;
use crate::held_reading::HeldFile;
use crate::hex::hex_text;
use crate::identity::FilesystemDirectoryIdentity;
use crate::manifest::NamespaceSeal;
use crate::seal_records::ObjectKind;
use crate::source_checks::{same_keys, same_texts};
use crate::target_config::TargetConfigProfile;
use crate::source_snapshot::{namespaces_same, same_namespace};
use crate::target_control::{
    control_as_expected, descriptors_of, index_bound_at, loose_as_expected, marked_at, private_as_expected, raw_oids_match,
    require_exact_loose_target_objects, require_exact_target_raw_oids, require_private_manifest_with_marker,
    require_target_index_control_binding, target_object_descriptors, validate_target_git_control,
    validate_target_private_control, TargetIndexControlEvidence, TargetRawIndexEvidence,
};
use crate::target_objects::{
    blob_wishes, canonical_target_tree_oids, commit_wish, expectations_error, expected_target_object_expectations,
    manifest_holds, meets, paths_differ, target_blob_manifest, tree_wishes, wishes_held, ObjectDescriptor,
    TargetObjectExpectation, TargetTrackedEntry, Wish,
};
use crate::target_semantics::{answers_error, judge_answers, SemanticsAnswers};
use crate::target_tree::{
    are_canonical_trees, construct_canonical_target_trees, directory_error, fails_first, item_at, item_of, lists_directory,
    tree_holds, usable_blobs, is_tree_of, CanonicalTreeObject, TargetBlobs, TargetTrees,
};
use crate::target_worktree::{
    allowed_paths, found_as_allowed, inspect_target_tracked_entry, prove_target_worktree_allowlist, tracked_as_held,
    WorktreeWalk,
};
use crate::text::{encoding_is_injective, text_equal};
use crate::text_map::{entry_in_view, key_index, TextEntry, TextMap};
use crate::tree_body::{typed_git_object_oid, TreeItem, MAX_TARGET_OBJECT_BYTES};
use crate::wiped::WipedBytes;
use vstd::prelude::*;
use vstd::string::*;
use vstd::utf8::encode_utf8;

verus! {

/// A fresh target repository, as it was made.
pub struct TargetRepository {
    pub root_identity: FilesystemDirectoryIdentity,
    pub root_commit_oid: String,
    pub root_tree_oid: String,
    pub entries: Vec<TargetTrackedEntry>,
    pub tree_oids: TextMap<String>,
    pub object_ids: TextMap<ObjectDescriptor>,
    pub git_control: Vec<NamespaceSeal>,
    pub private_control: Vec<NamespaceSeal>,
    pub commit_bytes: WipedBytes,
}

impl TargetRepository {
    /// What it holds by key is kept in order.
    pub open spec fn wf(self) -> bool {
        self.tree_oids.wf() && self.object_ids.wf()
    }

    /// The id of the one commit, which has no parent.
    pub fn root_commit_oid(&self) -> (oid: &str)
        ensures
            oid@ == self.root_commit_oid@,
    {
        self.root_commit_oid.as_str()
    }

    /// The tracked paths.
    pub fn tracked_paths(&self) -> (paths: Vec<&str>)
        ensures
            paths@.len() == self.entries@.len(),
            forall|i: int| 0 <= i < paths@.len() ==> (#[trigger] paths@[i])@ == self.entries@[i].relative_path@,
    {
        let mut paths: Vec<&str> = Vec::new();
        let mut i: usize = 0;
        while i < self.entries.len()
            invariant
                i <= self.entries@.len(),
                paths@.len() == i,
                forall|k: int| 0 <= k < i ==> (#[trigger] paths@[k])@ == self.entries@[k].relative_path@,
            decreases self.entries@.len() - i,
        {
            paths.push(self.entries[i].relative_path.as_str());
            i = i + 1;
        }
        paths
    }
}

/// The files of a target by path.
pub open spec fn blobs_of(entries: Seq<TargetTrackedEntry>) -> TargetBlobs {
    Map::new(
        |path: Seq<char>| exists|i: int| 0 <= i < entries.len() && (#[trigger] entries[i]).relative_path@ == path,
        |path: Seq<char>|
            {
                let i = choose|i: int| 0 <= i < entries.len() && (#[trigger] entries[i]).relative_path@ == path;
                (entries[i].blob_oid, entries[i].size)
            },
    )
}

/// Two maps of files say the same.
pub open spec fn same_blobs(a: TargetBlobs, b: TargetBlobs) -> bool {
    a.dom() == b.dom() && forall|path: Seq<char>| #[trigger] a.dom().contains(path) ==> a[path].0@ == b[path].0@
}

/// A manifest of files says what they say.
pub proof fn manifest_is_blobs(manifest: TargetBlobs, entries: Seq<TargetTrackedEntry>)
    requires
        manifest_holds(manifest, entries, entries.len() as int),
    ensures
        same_blobs(manifest, blobs_of(entries)),
{
    let blobs = blobs_of(entries);
    assert(manifest.dom() =~= blobs.dom());
    assert forall|path: Seq<char>| #[trigger] manifest.dom().contains(path) implies manifest[path].0@ == blobs[path].0@ by {
        let i = choose|i: int| 0 <= i < entries.len() && (#[trigger] entries[i]).relative_path@ == path;
        assert(manifest[entries[i].relative_path@].0@ == entries[i].blob_oid@);
    }
}

/// Files that say the same have the same trees.
pub proof fn same_blobs_same_trees(a: TargetBlobs, b: TargetBlobs, trees: TargetTrees)
    requires
        same_blobs(a, b),
    ensures
        usable_blobs(a) == usable_blobs(b),
        are_canonical_trees(a, trees) ==> are_canonical_trees(b, trees),
{
    assert forall|path: Seq<char>| #[trigger] b.dom().contains(path) implies a[path].0@ == b[path].0@ by {
        assert(a.dom().contains(path));
    }
    if are_canonical_trees(a, trees) {
        assert forall|directory: Seq<char>| #[trigger] trees.dom().contains(directory) implies tree_holds(b, trees, directory) by {
            assert(tree_holds(a, trees, directory));
            let listing = choose|listing: Seq<TreeItem>| #[trigger]
                lists_directory(listing, a, trees, directory) && is_tree_of(trees[directory], listing);
            assert forall|item: TreeItem| #[trigger] listing.contains(item) <==> item_of(b, trees, directory, item) by {
                if item_of(a, trees, directory, item) {
                    let path = choose|path: Seq<char>| item_at(a, trees, directory, item, path);
                    assert(item_at(b, trees, directory, item, path));
                }
                if item_of(b, trees, directory, item) {
                    let path = choose|path: Seq<char>| item_at(b, trees, directory, item, path);
                    assert(item_at(a, trees, directory, item, path));
                }
            }
            assert(lists_directory(listing, b, trees, directory));
        }
    }
}

/// Why the bodies from `i` on are not those of the tracked files, if they are not.
pub open spec fn bodies_error(
    entries: Seq<TargetTrackedEntry>,
    bodies: Seq<Result<HeldFile, RepositoryImportError>>,
    i: int,
) -> Option<RepositoryImportError>
    decreases entries.len() - i,
{
    if i >= entries.len() {
        None
    } else if i >= bodies.len() {
        Some(RepositoryImportError::TargetAuditFailed)
    } else {
        match bodies[i] {
            Err(error) => Some(error),
            Ok(held) => if !tracked_as_held(entries[i], entries[i].relative_path@, held) {
                Some(RepositoryImportError::TargetAuditFailed)
            } else if held.bytes@.len() > MAX_TARGET_OBJECT_BYTES {
                Some(RepositoryImportError::ResourceLimit)
            } else if encode_utf8(entries[i].blob_oid@) != hex_text(
                typed_oid(ObjectKind::Blob, held.bytes@.len() as u64, held.bytes@),
            ) {
                Some(RepositoryImportError::TargetAuditFailed)
            } else {
                bodies_error(entries, bodies, i + 1)
            },
        }
    }
}

/// Require bodies to be those of the tracked files, and each to be the blob of its id.
fn judge_bodies(entries: &Vec<TargetTrackedEntry>, bodies: &Vec<Result<HeldFile, RepositoryImportError>>) -> (r: Result<
    (),
    RepositoryImportError,
>)
    ensures
        match bodies_error(entries@, bodies@, 0) {
            Some(error) => r matches Err(e) && e == error,
            None => r is Ok,
        },
{
    proof {
        reveal_strlit("blob");
        reveal_strlit("tree");
        reveal_strlit("commit");
    }
    let mut i: usize = 0;
    while i < entries.len()
        invariant
            i <= entries@.len(),
            bodies_error(entries@, bodies@, 0) == bodies_error(entries@, bodies@, i as int),
        decreases entries@.len() - i,
    {
        if i >= bodies.len() {
            return Err(RepositoryImportError::TargetAuditFailed);
        }
        let entry = &entries[i];
        let held = inspect_target_tracked_entry(entry.relative_path.as_str(), &bodies[i], Some(entry))?;
        let oid = typed_git_object_oid("blob", held.bytes.as_slice())?;
        proof {
            encoding_is_injective(oid@, entry.blob_oid@);
        }
        if !text_equal(oid.as_str(), entry.blob_oid.as_str()) {
            return Err(RepositoryImportError::TargetAuditFailed);
        }
        i = i + 1;
    }
    Ok(())
}

/// The trees are those of the target, and the root tree is among them.
pub open spec fn trees_as_recorded(expected: TargetRepository, trees: TargetTrees) -> bool {
    &&& expected.tree_oids@.dom() == trees.dom()
    &&& forall|path: Seq<char>| #[trigger] trees.dom().contains(path) ==> expected.tree_oids@[path]@ == trees[path].oid@
    &&& trees.dom().contains(""@)
    &&& trees[""@].oid@ == expected.root_tree_oid@
}

/// All that is expected of the objects of a target.
pub open spec fn all_wishes(expected: TargetRepository, trees: Seq<TextEntry<CanonicalTreeObject>>) -> Seq<Wish> {
    (blob_wishes(expected.entries@) + tree_wishes(trees)).push(
        commit_wish(expected.root_commit_oid@, expected.commit_bytes@),
    )
}

/// An object is wished for.
pub open spec fn wished(wishes: Seq<Wish>, oid: Seq<char>) -> bool {
    exists|i: int| 0 <= i < wishes.len() && (#[trigger] wishes[i]).oid == oid
}

/// The objects of the target are those that are wished for, of their types and sizes.
pub open spec fn objects_as_recorded(object_ids: Map<Seq<char>, ObjectDescriptor>, wishes: Seq<Wish>) -> bool {
    &&& forall|oid: Seq<char>| #[trigger] object_ids.dom().contains(oid) <==> wished(wishes, oid)
    &&& forall|i: int|
        0 <= i < wishes.len() ==> object_ids[(#[trigger] wishes[i]).oid].object_type@ == wishes[i].object_type
            && object_ids[wishes[i].oid].size == wishes[i].size
}

/// What comes of a target whose answers and bodies are right, given its canonical trees.
pub open spec fn objects_verdict(
    r: Result<TextMap<TargetObjectExpectation>, RepositoryImportError>,
    expected: TargetRepository,
    trees: TextMap<CanonicalTreeObject>,
    git_control: Seq<NamespaceSeal>,
) -> bool {
    let wishes = all_wishes(expected, trees.entries@);
    if !trees_as_recorded(expected, trees@) {
        r matches Err(error) && error == RepositoryImportError::TargetAuditFailed
    } else {
        match expectations_error(expected.entries@, trees.entries@, expected.root_commit_oid@, expected.commit_bytes@) {
            Some(failure) => r matches Err(error) && error == failure,
            None => if !objects_as_recorded(expected.object_ids@, wishes) || !loose_as_expected(
                git_control,
                Set::new(|oid: Seq<char>| wished(wishes, oid)),
            ) {
                r matches Err(error) && error == RepositoryImportError::TargetAuditFailed
            } else {
                r matches Ok(objects) && objects.wf() && wishes_held(objects@, wishes)
            },
        }
    }
}

/// Whether two descriptions of objects say the same.
fn same_descriptors(a: &TextMap<ObjectDescriptor>, b: &TextMap<ObjectDescriptor>) -> (r: bool)
    requires
        a.wf(),
        b.wf(),
    ensures
        r == (a@.dom() == b@.dom() && forall|oid: Seq<char>| #[trigger]
            a@.dom().contains(oid) ==> a@[oid].object_type@ == b@[oid].object_type@ && a@[oid].size == b@[oid].size),
{
    if !same_keys(a, b) {
        return false;
    }
    let mut i: usize = 0;
    while i < a.entries.len()
        invariant
            a.wf(),
            b.wf(),
            a@.dom() == b@.dom(),
            i <= a.entries@.len(),
            forall|k: int|
                0 <= k < i ==> a@[(#[trigger] a.entries@[k]).key@].object_type@ == b@[a.entries@[k].key@].object_type@
                    && a@[a.entries@[k].key@].size == b@[a.entries@[k].key@].size,
        decreases a.entries@.len() - i,
    {
        proof {
            entry_in_view(*a, i as int);
        }
        let key = a.entries[i].key.as_str();
        let ours = &a.entries[i].value;
        match b.get(key) {
            Some(theirs) => {
                if ours.size != theirs.size || !text_equal(ours.object_type.as_str(), theirs.object_type.as_str()) {
                    proof {
                        assert(a@.dom().contains(key@));
                    }
                    return false;
                }
            },
            None => {
                return false;
            },
        }
        i = i + 1;
    }
    proof {
        assert forall|oid: Seq<char>| #[trigger] a@.dom().contains(oid) implies a@[oid].object_type@ == b@[oid].object_type@
            && a@[oid].size == b@[oid].size by {
            let k = key_index(a.entries@, oid);
            assert(a.entries@[k].key@ == oid);
        }
    }
    true
}

/// Require the trees and the objects of a target to be those that it was made with.
fn judge_objects(expected: &TargetRepository, trees: &TextMap<CanonicalTreeObject>, git_control: &Vec<NamespaceSeal>) -> (r:
    Result<TextMap<TargetObjectExpectation>, RepositoryImportError>)
    requires
        expected.wf(),
        trees.wf(),
    ensures
        objects_verdict(r, *expected, *trees, git_control@),
{
    let tree_oids = canonical_target_tree_oids(trees);
    let same = same_texts(&tree_oids, &expected.tree_oids);
    proof {
        if same {
            assert(expected.tree_oids@.dom() =~= trees@.dom());
            assert forall|path: Seq<char>| #[trigger] trees@.dom().contains(path) implies expected.tree_oids@[path]@
                == trees@[path].oid@ by {
                assert(tree_oids@.dom().contains(path));
            }
        } else if trees_as_recorded(*expected, trees@) {
            assert forall|path: Seq<char>| #[trigger] tree_oids@.dom().contains(path) implies tree_oids@[path]@
                == expected.tree_oids@[path]@ by {
                assert(trees@.dom().contains(path));
            }
            assert forall|path: Seq<char>| #[trigger] expected.tree_oids@.dom().contains(path) implies expected.tree_oids@[path]@
                == tree_oids@[path]@ by {
                assert(trees@.dom().contains(path));
            }
        }
    }
    if !same {
        return Err(RepositoryImportError::TargetAuditFailed);
    }
    match tree_oids.get("") {
        Some(root) => {
            assert(trees@.dom().contains(""@));
            if !text_equal(root.as_str(), expected.root_tree_oid.as_str()) {
                return Err(RepositoryImportError::TargetAuditFailed);
            }
        },
        None => {
            return Err(RepositoryImportError::TargetAuditFailed);
        },
    }
    let objects = expected_target_object_expectations(
        &expected.entries,
        trees,
        expected.root_commit_oid.as_str(),
        expected.commit_bytes.as_slice(),
    )?;
    let ghost wishes = all_wishes(*expected, trees.entries@);
    let descriptors = target_object_descriptors(&objects);
    let recorded = same_descriptors(&descriptors, &expected.object_ids);
    proof {
        recorded_is_wished(recorded, objects@, descriptors@, expected.object_ids@, wishes);
        assert(Set::new(|oid: Seq<char>| wished(wishes, oid)) =~= objects@.dom()) by {
            assert forall|oid: Seq<char>| #[trigger] objects@.dom().contains(oid) == wished(wishes, oid) by {}
        }
    }
    if !recorded {
        return Err(RepositoryImportError::TargetAuditFailed);
    }
    require_exact_loose_target_objects(git_control, &objects)?;
    Ok(objects)
}

/// Comparing descriptions is comparing with the wishes.
proof fn recorded_is_wished(
    same: bool,
    objects: Map<Seq<char>, TargetObjectExpectation>,
    descriptors: Map<Seq<char>, ObjectDescriptor>,
    recorded: Map<Seq<char>, ObjectDescriptor>,
    wishes: Seq<Wish>,
)
    requires
        wishes_held(objects, wishes),
        descriptors_of(descriptors, objects),
        same == (descriptors.dom() == recorded.dom() && forall|oid: Seq<char>| #[trigger]
            descriptors.dom().contains(oid) ==> descriptors[oid].object_type@ == recorded[oid].object_type@
                && descriptors[oid].size == recorded[oid].size),
    ensures
        same == objects_as_recorded(recorded, wishes),
{
    if same {
        assert forall|oid: Seq<char>| #[trigger] recorded.dom().contains(oid) <==> wished(wishes, oid) by {
            assert(descriptors.dom().contains(oid) == recorded.dom().contains(oid));
            assert(objects.dom().contains(oid) <==> wished(wishes, oid));
        }
        assert forall|i: int| 0 <= i < wishes.len() implies recorded[(#[trigger] wishes[i]).oid].object_type@
            == wishes[i].object_type && recorded[wishes[i].oid].size == wishes[i].size by {
            assert(meets(objects[wishes[i].oid], wishes[i]));
            assert(objects.dom().contains(wishes[i].oid));
            assert(descriptors.dom().contains(wishes[i].oid));
        }
    }
    if objects_as_recorded(recorded, wishes) {
        assert forall|oid: Seq<char>| #[trigger] descriptors.dom().contains(oid) == recorded.dom().contains(oid) by {
            assert(objects.dom().contains(oid) <==> wished(wishes, oid));
        }
        assert(descriptors.dom() =~= recorded.dom());
        assert forall|oid: Seq<char>| #[trigger] descriptors.dom().contains(oid) implies descriptors[oid].object_type@
            == recorded[oid].object_type@ && descriptors[oid].size == recorded[oid].size by {
            assert(objects.dom().contains(oid));
            let i = choose|i: int| 0 <= i < wishes.len() && (#[trigger] wishes[i]).oid == oid;
            assert(meets(objects[wishes[i].oid], wishes[i]));
        }
    }
}

/// What comes of what was observed of a target with everything that Git has to say.
pub open spec fn semantics_verdict(
    r: Result<TextMap<TargetObjectExpectation>, RepositoryImportError>,
    answers: SemanticsAnswers,
    bodies: Seq<Result<HeldFile, RepositoryImportError>>,
    expected: TargetRepository,
    git_control: Seq<NamespaceSeal>,
    profile: TargetConfigProfile<'_>,
) -> bool {
    let blobs = blobs_of(expected.entries@);
    if answers_error(answers, expected.root_commit_oid@, profile) is Some {
        r matches Err(error) && Some(error) == answers_error(answers, expected.root_commit_oid@, profile)
    } else if bodies_error(expected.entries@, bodies, 0) is Some {
        r matches Err(error) && Some(error) == bodies_error(expected.entries@, bodies, 0)
    } else if !paths_differ(expected.entries@) || !usable_blobs(blobs) {
        r matches Err(error) && error == RepositoryImportError::TargetAuditFailed
    } else if exists|directory: Seq<char>| #[trigger] fails_first(blobs.dom(), directory) {
        r matches Err(error) && exists|directory: Seq<char>| #[trigger]
            fails_first(blobs.dom(), directory) && directory_error(blobs.dom(), directory) == Some(error)
    } else {
        exists|trees: TextMap<CanonicalTreeObject>| #[trigger]
            objects_verdict(r, expected, trees, git_control) && trees.wf() && are_canonical_trees(blobs, trees@)
    }
}

/// Prove what Git and the files of a target say. What it gives back are the objects that are still to
/// be proved one by one. The canonical trees that it compares with are determined by the files.
pub fn prove_target_semantics(
    answers: &SemanticsAnswers,
    bodies: &Vec<Result<HeldFile, RepositoryImportError>>,
    expected: &TargetRepository,
    git_control: &Vec<NamespaceSeal>,
    profile: &TargetConfigProfile<'_>,
) -> (r: Result<TextMap<TargetObjectExpectation>, RepositoryImportError>)
    requires
        expected.wf(),
    ensures
        semantics_verdict(r, *answers, bodies@, *expected, git_control@, *profile),
{
    let ghost blobs = blobs_of(expected.entries@);
    judge_answers(answers, expected.root_commit_oid.as_str(), profile)?;
    judge_bodies(&expected.entries, bodies)?;
    let manifest = target_blob_manifest(&expected.entries)?;
    proof {
        manifest_is_blobs(manifest@, expected.entries@);
        same_blobs_same_trees(manifest@, blobs, Map::empty());
    }
    let trees = construct_canonical_target_trees(&manifest)?;
    proof {
        same_blobs_same_trees(manifest@, blobs, trees@);
        assert forall|directory: Seq<char>| !#[trigger] fails_first(blobs.dom(), directory) by {}
    }
    let r = judge_objects(expected, &trees, git_control);
    assert(objects_verdict(r, *expected, trees, git_control@));
    r
}

/// The verdict that a failure, or none, makes.
pub open spec fn verdict(error: Option<RepositoryImportError>) -> Result<(), RepositoryImportError> {
    match error {
        Some(failure) => Err(failure),
        None => Ok(()),
    }
}

/// Why an inventory of the control directory is refused, if it is.
pub open spec fn control_error(
    control: Result<Vec<NamespaceSeal>, RepositoryImportError>,
    expected: TargetRepository,
    index: TargetIndexControlEvidence,
) -> Option<RepositoryImportError> {
    match control {
        Err(error) => Some(error),
        Ok(seals) => if control_as_expected(seals@, expected.object_ids@.dom()) && namespaces_same(
            seals@,
            expected.git_control@,
        ) && exists|i: int| #[trigger] index_bound_at(seals@, index, i) {
            None
        } else {
            Some(RepositoryImportError::TargetAuditFailed)
        },
    }
}

/// Require an inventory of the control directory to be as it was made, with the index that was read.
fn judge_control(
    control: &Result<Vec<NamespaceSeal>, RepositoryImportError>,
    expected: &TargetRepository,
    index: &TargetIndexControlEvidence,
) -> (r: Result<(), RepositoryImportError>)
    requires
        expected.wf(),
    ensures
        match control_error(*control, *expected, *index) {
            Some(error) => r matches Err(e) && e == error,
            None => r is Ok,
        },
{
    match control {
        Err(error) => Err(*error),
        Ok(seals) => {
            validate_target_git_control(seals, &expected.object_ids)?;
            if !same_namespace(seals.as_slice(), expected.git_control.as_slice()) {
                return Err(RepositoryImportError::TargetAuditFailed);
            }
            require_target_index_control_binding(index, seals)
        },
    }
}

/// A directory has the identity that it must have.
pub open spec fn identity_holds(seen: Option<FilesystemDirectoryIdentity>, expected: FilesystemDirectoryIdentity) -> bool {
    seen matches Some(identity) && identity.same(expected)
}

fn has_identity(seen: &Option<FilesystemDirectoryIdentity>, expected: &FilesystemDirectoryIdentity) -> (r: bool)
    ensures
        r == identity_holds(*seen, *expected),
{
    match seen {
        Some(identity) => identity.matches(expected),
        None => false,
    }
}

/// Why a walk through the worktree is refused, if it is.
pub open spec fn walk_error(walk: Result<WorktreeWalk, RepositoryImportError>, expected: TargetRepository) -> Option<
    RepositoryImportError,
> {
    match walk {
        Err(error) => Some(error),
        Ok(found) => if found_as_allowed(found, allowed_paths(expected.entries@, expected.entries@.len() as int)) {
            None
        } else {
            Some(RepositoryImportError::TargetAuditFailed)
        },
    }
}

fn judge_walk(walk: &Result<WorktreeWalk, RepositoryImportError>, expected: &TargetRepository) -> (r: Result<
    (),
    RepositoryImportError,
>)
    requires
        walk matches Ok(found) ==> found.wf(),
    ensures
        match walk_error(*walk, *expected) {
            Some(error) => r matches Err(e) && e == error,
            None => r is Ok,
        },
{
    match walk {
        Err(error) => Err(*error),
        Ok(found) => prove_target_worktree_allowlist(found, &expected.entries),
    }
}

/// What is observed of a target before its objects are proved.
pub struct AuditOpening {
    /// The root is an ordinary directory under its own path.
    pub root: Result<(), RepositoryImportError>,
    pub root_identity: Option<FilesystemDirectoryIdentity>,
    pub walk: Result<WorktreeWalk, RepositoryImportError>,
    /// Git can be run with the empty hooks directory held.
    pub runner: Result<(), RepositoryImportError>,
    pub raw_index: Result<TargetRawIndexEvidence, RepositoryImportError>,
    pub git_control: Result<Vec<NamespaceSeal>, RepositoryImportError>,
    pub answers: SemanticsAnswers,
    pub bodies: Vec<Result<HeldFile, RepositoryImportError>>,
}

/// Why a target is refused before Git is asked about it, if it is.
pub open spec fn opening_error(opening: AuditOpening, expected: TargetRepository) -> Option<RepositoryImportError> {
    match opening.root {
        Err(error) => Some(error),
        Ok(()) => if !identity_holds(opening.root_identity, expected.root_identity) {
            Some(RepositoryImportError::TargetAuditFailed)
        } else if walk_error(opening.walk, expected) is Some {
            walk_error(opening.walk, expected)
        } else {
            match opening.runner {
                Err(error) => Some(error),
                Ok(()) => match opening.raw_index {
                    Err(error) => Some(error),
                    Ok(index) => if !raw_oids_match(index.summary.oids@, expected.entries@) {
                        Some(RepositoryImportError::TargetAuditFailed)
                    } else {
                        control_error(opening.git_control, expected, index.control)
                    },
                },
            }
        },
    }
}

/// What comes of the first part of an audit.
pub open spec fn opening_verdict(
    r: Result<TextMap<TargetObjectExpectation>, RepositoryImportError>,
    opening: AuditOpening,
    expected: TargetRepository,
    profile: TargetConfigProfile<'_>,
) -> bool {
    match opening_error(opening, expected) {
        Some(failure) => r matches Err(error) && error == failure,
        None => semantics_verdict(r, opening.answers, opening.bodies@, expected, expected.git_control@, profile),
    }
}

/// The first part of an audit: the worktree, the index, the control directory and what Git says. What
/// it gives back are the objects that are still to be proved.
pub fn audit_before_objects(opening: &AuditOpening, expected: &TargetRepository, profile: &TargetConfigProfile<'_>) -> (r:
    Result<TextMap<TargetObjectExpectation>, RepositoryImportError>)
    requires
        expected.wf(),
        opening.walk matches Ok(found) ==> found.wf(),
    ensures
        opening_verdict(r, *opening, *expected, *profile),
{
    opening.root?;
    if !has_identity(&opening.root_identity, &expected.root_identity) {
        return Err(RepositoryImportError::TargetAuditFailed);
    }
    judge_walk(&opening.walk, expected)?;
    opening.runner?;
    match &opening.raw_index {
        Err(error) => {
            return Err(*error);
        },
        Ok(index) => {
            require_exact_target_raw_oids(&index.summary, &expected.entries)?;
            judge_control(&opening.git_control, expected, &index.control)?;
        },
    }
    prove_target_semantics(&opening.answers, &opening.bodies, expected, &expected.git_control, profile)
}

/// Why the files read at last are not the tracked ones, if they are not.
pub open spec fn reread_error(
    entries: Seq<TargetTrackedEntry>,
    bodies: Seq<Result<HeldFile, RepositoryImportError>>,
    i: int,
) -> Option<RepositoryImportError>
    decreases entries.len() - i,
{
    if i >= entries.len() {
        None
    } else if i >= bodies.len() {
        Some(RepositoryImportError::TargetAuditFailed)
    } else {
        match bodies[i] {
            Err(error) => Some(error),
            Ok(held) => if !tracked_as_held(entries[i], entries[i].relative_path@, held) {
                Some(RepositoryImportError::TargetAuditFailed)
            } else {
                reread_error(entries, bodies, i + 1)
            },
        }
    }
}

/// What a last look at a worktree gave.
pub struct WorktreeRecheck {
    pub identity_before: Option<FilesystemDirectoryIdentity>,
    pub walk: Result<WorktreeWalk, RepositoryImportError>,
    pub bodies: Vec<Result<HeldFile, RepositoryImportError>>,
    pub identity_after: Option<FilesystemDirectoryIdentity>,
}

/// Why a last look at a worktree is refused, if it is.
pub open spec fn recheck_error(recheck: WorktreeRecheck, expected: TargetRepository) -> Option<RepositoryImportError> {
    if !identity_holds(recheck.identity_before, expected.root_identity) {
        Some(RepositoryImportError::TargetAuditFailed)
    } else if walk_error(recheck.walk, expected) is Some {
        walk_error(recheck.walk, expected)
    } else if reread_error(expected.entries@, recheck.bodies@, 0) is Some {
        reread_error(expected.entries@, recheck.bodies@, 0)
    } else if !identity_holds(recheck.identity_after, expected.root_identity) {
        Some(RepositoryImportError::TargetAuditFailed)
    } else {
        None
    }
}

/// Require a last look at a worktree to find the root, the allowed entries and every tracked file.
pub fn revalidate_target_worktree(recheck: &WorktreeRecheck, expected: &TargetRepository) -> (r: Result<(), RepositoryImportError>)
    requires
        recheck.walk matches Ok(found) ==> found.wf(),
    ensures
        r == verdict(recheck_error(*recheck, *expected)),
{
    if !has_identity(&recheck.identity_before, &expected.root_identity) {
        return Err(RepositoryImportError::TargetAuditFailed);
    }
    judge_walk(&recheck.walk, expected)?;
    let mut i: usize = 0;
    while i < expected.entries.len()
        invariant
            i <= expected.entries@.len(),
            identity_holds(recheck.identity_before, expected.root_identity),
            walk_error(recheck.walk, *expected) is None,
            reread_error(expected.entries@, recheck.bodies@, 0) == reread_error(
                expected.entries@,
                recheck.bodies@,
                i as int,
            ),
        decreases expected.entries@.len() - i,
    {
        if i >= recheck.bodies.len() {
            return Err(RepositoryImportError::TargetAuditFailed);
        }
        let entry = &expected.entries[i];
        let _ = inspect_target_tracked_entry(entry.relative_path.as_str(), &recheck.bodies[i], Some(entry))?;
        i = i + 1;
    }
    if !has_identity(&recheck.identity_after, &expected.root_identity) {
        return Err(RepositoryImportError::TargetAuditFailed);
    }
    Ok(())
}

/// What is observed of a target after its objects were proved.
pub struct AuditClosing {
    pub git_control: Result<Vec<NamespaceSeal>, RepositoryImportError>,
    pub private_control: Result<Vec<NamespaceSeal>, RepositoryImportError>,
    pub worktree: WorktreeRecheck,
}

/// A publication marker was added, and nothing else changed.
pub open spec fn is_marked(current: Seq<NamespaceSeal>, baseline: Seq<NamespaceSeal>, marker: Seq<char>) -> bool {
    exists|i: int| #[trigger] marked_at(current, baseline, marker, i)
}

/// Why the private directory is refused, if it is: it must be as it was made, with the publication
/// marker added where one is expected.
pub open spec fn private_error(
    private: Result<Vec<NamespaceSeal>, RepositoryImportError>,
    expected: TargetRepository,
    marker: Option<Seq<char>>,
) -> Option<RepositoryImportError> {
    match private {
        Err(error) => Some(error),
        Ok(seals) => {
            let right = match marker {
                Some(name) => is_marked(seals@, expected.private_control@, name),
                None => namespaces_same(seals@, expected.private_control@) && private_as_expected(seals@),
            };
            if right {
                None
            } else {
                Some(RepositoryImportError::TargetAuditFailed)
            }
        },
    }
}

/// The name of the publication marker, if one is expected.
pub open spec fn marker_text(marker: Option<&str>) -> Option<Seq<char>> {
    match marker {
        Some(name) => Some(name@),
        None => None,
    }
}

/// Why a target is refused after its objects were proved, if it is.
pub open spec fn closing_error(
    closing: AuditClosing,
    index: TargetIndexControlEvidence,
    expected: TargetRepository,
    marker: Option<Seq<char>>,
) -> Option<RepositoryImportError> {
    if control_error(closing.git_control, expected, index) is Some {
        control_error(closing.git_control, expected, index)
    } else if private_error(closing.private_control, expected, marker) is Some {
        private_error(closing.private_control, expected, marker)
    } else {
        recheck_error(closing.worktree, expected)
    }
}

/// Require the private directory to be as it was made, with the publication marker added where one is
/// expected.
fn judge_private(
    private: &Result<Vec<NamespaceSeal>, RepositoryImportError>,
    expected: &TargetRepository,
    marker: Option<&str>,
) -> (r: Result<(), RepositoryImportError>)
    ensures
        r == verdict(private_error(*private, *expected, marker_text(marker))),
{
    match private {
        Err(error) => Err(*error),
        Ok(seals) => match marker {
            Some(name) => {
                match require_private_manifest_with_marker(seals, &expected.private_control, name) {
                    Ok(()) => {
                        assert(is_marked(seals@, expected.private_control@, name@));
                        Ok(())
                    },
                    Err(error) => {
                        assert(!is_marked(seals@, expected.private_control@, name@));
                        Err(error)
                    },
                }
            },
            None => {
                if !same_namespace(seals.as_slice(), expected.private_control.as_slice()) {
                    return Err(RepositoryImportError::TargetAuditFailed);
                }
                validate_target_private_control(seals)
            },
        },
    }
}

/// The last part of an audit: the control directory, the private directory and the worktree again.
pub fn audit_after_objects(
    closing: &AuditClosing,
    index: &TargetIndexControlEvidence,
    expected: &TargetRepository,
    marker: Option<&str>,
) -> (r: Result<(), RepositoryImportError>)
    requires
        expected.wf(),
        closing.worktree.walk matches Ok(found) ==> found.wf(),
    ensures
        r == verdict(closing_error(*closing, *index, *expected, marker_text(marker))),
{
    judge_control(&closing.git_control, expected, index)?;
    judge_private(&closing.private_control, expected, marker)?;
    revalidate_target_worktree(&closing.worktree, expected)
}

/// All that an audit observed, in the order in which it was observed.
pub struct TargetAudit {
    pub opening: AuditOpening,
    /// The verdict on each object that was to be proved, up to the first failure.
    pub objects: Vec<Result<(), RepositoryImportError>>,
    /// The verdict on the end of the conversation about the objects.
    pub conversation: Result<(), RepositoryImportError>,
    pub closing: AuditClosing,
}

/// What comes of an audit once its first part found the objects to prove.
pub open spec fn audit_verdict(
    audit: TargetAudit,
    objects: TextMap<TargetObjectExpectation>,
    expected: TargetRepository,
    marker: Option<Seq<char>>,
) -> Result<(), RepositoryImportError> {
    match first_failure(audit.objects@, 0) {
        Err(error) => Err(error),
        Ok(()) => if audit.objects@.len() != objects.entries@.len() {
            Err(RepositoryImportError::TargetAuditFailed)
        } else {
            match audit.conversation {
                Err(error) => Err(error),
                Ok(()) => verdict(closing_error(audit.closing, audit.opening.raw_index->Ok_0.control, expected, marker)),
            }
        },
    }
}

/// What comes of an audit: the first thing that is not as it must be decides.
pub open spec fn is_audit_verdict(
    r: Result<(), RepositoryImportError>,
    opened: Result<TextMap<TargetObjectExpectation>, RepositoryImportError>,
    audit: TargetAudit,
    expected: TargetRepository,
    profile: TargetConfigProfile<'_>,
    marker: Option<Seq<char>>,
) -> bool {
    opening_verdict(opened, audit.opening, expected, profile) && match opened {
        Err(failure) => r matches Err(error) && error == failure,
        Ok(objects) => r == audit_verdict(audit, objects, expected, marker),
    }
}

/// Judge a whole audit.
fn audit_target(audit: &TargetAudit, expected: &TargetRepository, profile: &TargetConfigProfile<'_>, marker: Option<&str>) -> (r:
    Result<(), RepositoryImportError>)
    requires
        expected.wf(),
        audit.opening.walk matches Ok(found) ==> found.wf(),
        audit.closing.worktree.walk matches Ok(found) ==> found.wf(),
    ensures
        exists|opened: Result<TextMap<TargetObjectExpectation>, RepositoryImportError>| #[trigger]
            is_audit_verdict(r, opened, *audit, *expected, *profile, marker_text(marker)),
{
    let opened = audit_before_objects(&audit.opening, expected, profile);
    let ghost shown = opened;
    match opened {
        Err(error) => {
            let r: Result<(), RepositoryImportError> = Err(error);
            assert(is_audit_verdict(r, shown, *audit, *expected, *profile, marker_text(marker)));
            r
        },
        Ok(objects) => {
            let r = conclude_audit(audit, &objects, expected, marker);
            assert(is_audit_verdict(r, shown, *audit, *expected, *profile, marker_text(marker)));
            r
        },
    }
}

fn conclude_audit(
    audit: &TargetAudit,
    objects: &TextMap<TargetObjectExpectation>,
    expected: &TargetRepository,
    marker: Option<&str>,
) -> (r: Result<(), RepositoryImportError>)
    requires
        expected.wf(),
        audit.opening.raw_index is Ok,
        audit.closing.worktree.walk matches Ok(found) ==> found.wf(),
    ensures
        r == audit_verdict(*audit, *objects, *expected, marker_text(marker)),
{
    prove_expected_target_objects(objects, &audit.objects)?;
    audit.conversation?;
    match &audit.opening.raw_index {
        Ok(index) => audit_after_objects(&audit.closing, &index.control, expected, marker),
        Err(error) => Err(*error),
    }
}

/// Judge an audit of a target without a publication marker.
pub fn audit_repository_import_target(audit: &TargetAudit, expected: &TargetRepository, profile: &TargetConfigProfile<'_>) -> (r:
    Result<(), RepositoryImportError>)
    requires
        expected.wf(),
        audit.opening.walk matches Ok(found) ==> found.wf(),
        audit.closing.worktree.walk matches Ok(found) ==> found.wf(),
    ensures
        exists|opened: Result<TextMap<TargetObjectExpectation>, RepositoryImportError>| #[trigger]
            is_audit_verdict(r, opened, *audit, *expected, *profile, None),
{
    audit_target(audit, expected, profile, None)
}

/// Judge an audit of a target while the publication marker is in its private directory.
pub fn audit_repository_import_target_for_publication(
    audit: &TargetAudit,
    expected: &TargetRepository,
    profile: &TargetConfigProfile<'_>,
    marker_name: &str,
) -> (r: Result<(), RepositoryImportError>)
    requires
        expected.wf(),
        audit.opening.walk matches Ok(found) ==> found.wf(),
        audit.closing.worktree.walk matches Ok(found) ==> found.wf(),
    ensures
        exists|opened: Result<TextMap<TargetObjectExpectation>, RepositoryImportError>| #[trigger]
            is_audit_verdict(r, opened, *audit, *expected, *profile, Some(marker_name@)),
{
    audit_target(audit, expected, profile, Some(marker_name))
}

/// What was found where something is to be synced.
#[derive(Clone, Copy, Debug, PartialEq, Eq, Structural)]
pub enum SyncPlace {
    Directory,
    /// A regular file; whether it is the one at its path, with one name, if that could be seen.
    File { sole: bool },
    /// A link, something else, or something that could not be seen.
    Other,
}

/// What to do with something that is to be synced.
#[derive(Clone, Copy, Debug, PartialEq, Eq, Structural)]
pub enum SyncStep {
    /// Sync what is in it, and then the directory itself.
    Descend,
    SyncFile,
}

/// Decide what to do with something that is to be synced.
pub fn sync_step(place: SyncPlace) -> (r: Result<SyncStep, RepositoryImportError>)
    ensures
        r == match place {
            SyncPlace::Directory => Ok::<SyncStep, RepositoryImportError>(SyncStep::Descend),
            SyncPlace::File { sole: true } => Ok(SyncStep::SyncFile),
            _ => Err(RepositoryImportError::DurabilityNotConfirmed),
        },
{
    match place {
        SyncPlace::Directory => Ok(SyncStep::Descend),
        SyncPlace::File { sole } => {
            if sole {
                Ok(SyncStep::SyncFile)
            } else {
                Err(RepositoryImportError::DurabilityNotConfirmed)
            }
        },
        SyncPlace::Other => Err(RepositoryImportError::DurabilityNotConfirmed),
    }
}

/// Judge a durable audit: an audit, a sync of everything, and an audit again.
pub fn durably_audit_repository_import_target(
    first: Result<(), RepositoryImportError>,
    synced: bool,
    second: Result<(), RepositoryImportError>,
) -> (r: Result<(), RepositoryImportError>)
    ensures
        r == match first {
            Err(error) => Err::<(), RepositoryImportError>(error),
            Ok(()) => if synced {
                second
            } else {
                Err(RepositoryImportError::DurabilityNotConfirmed)
            },
        },
{
    first?;
    if !synced {
        return Err(RepositoryImportError::DurabilityNotConfirmed);
    }
    second
}

/// A target that passes an audit is as it was made: its control directory holds exactly its objects
/// and is what it was, its worktree holds exactly the tracked files, and every one of its objects was
/// proved.
pub proof fn passed_audit_is_complete(
    opened: Result<TextMap<TargetObjectExpectation>, RepositoryImportError>,
    audit: TargetAudit,
    expected: TargetRepository,
    profile: TargetConfigProfile<'_>,
    marker: Option<Seq<char>>,
)
    requires
        is_audit_verdict(Ok(()), opened, audit, expected, profile, marker),
    ensures
        opened is Ok,
        audit.opening.git_control matches Ok(seals) && control_as_expected(seals@, expected.object_ids@.dom())
            && namespaces_same(seals@, expected.git_control@),
        audit.closing.git_control matches Ok(seals) && control_as_expected(seals@, expected.object_ids@.dom())
            && namespaces_same(seals@, expected.git_control@),
        audit.opening.walk matches Ok(found) && found_as_allowed(
            found,
            allowed_paths(expected.entries@, expected.entries@.len() as int),
        ),
        audit.closing.worktree.walk matches Ok(found) && found_as_allowed(
            found,
            allowed_paths(expected.entries@, expected.entries@.len() as int),
        ),
        identity_holds(audit.opening.root_identity, expected.root_identity),
        identity_holds(audit.closing.worktree.identity_after, expected.root_identity),
        audit.objects@.len() == opened->Ok_0.entries@.len(),
        forall|k: int| 0 <= k < audit.objects@.len() ==> (#[trigger] audit.objects@[k]) is Ok,
        private_error(audit.closing.private_control, expected, marker) is None,
{
    assert forall|k: int| 0 <= k < audit.objects@.len() implies (#[trigger] audit.objects@[k]) is Ok by {
        every_object_is_proved(audit.objects@, 0, k);
    }
}

} // verus!
