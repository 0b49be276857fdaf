//! When an audit of a target passes, part by part.

use crate::batch_session::first_failure;
use crate::bytes::lex_less;
use crate::digest::sha256_of;
use crate::errors::RepositoryImportError;
use crate::git_object::typed_oid;
use crate::git_output::sha1_text;
use crate::held_reading::HeldFile;
use crate::hex::{hex_bytes, hex_text};
use crate::identity::FilesystemDirectoryIdentity;
use crate::manifest::NamespaceSeal;
use crate::seal_records::ObjectKind;
use crate::source_snapshot::namespaces_same;
use crate::target_audit::{
    audit_verdict, blobs_of, bodies_error, closing_error, control_error, identity_holds, objects_as_recorded,
    opening_error, opening_verdict, private_error, recheck_error, reread_error, semantics_verdict, trees_as_recorded,
    walk_error, wished, AuditClosing, AuditOpening, TargetAudit, TargetRepository, WorktreeRecheck,
};
use crate::target_config::TargetConfigProfile;
use crate::target_control::{
    control_as_expected, fanout_of, index_bound_at, loose_as_expected, loose_at, loose_file_of, marked_at, names_object,
    objects_are_loose, private_as_expected, raw_oids_match, TargetIndexControlEvidence,
};
use crate::target_objects::{
    blob_wishes, commit_wish, expectations_error, paths_differ, tree_wishes, wishes_agree, wishes_clash, wishes_held,
    ObjectDescriptor, TargetObjectExpectation, TargetTrackedEntry, Wish,
};
use crate::target_semantics::answers_error;
use crate::target_tree::{
    are_canonical_trees, is_tree_of, item_at, item_key, item_of, items_ascend, listing_length, lists_directory,
    tree_holds, CanonicalTreeObject, TargetBlobs, TargetTrees,
};
use crate::target_worktree::{allowed_paths, found_as_allowed, tracked_as_held, WorktreeWalk};
use crate::text_map::{TextEntry, TextMap};
use crate::tree_body::{tree_body, TreeItem};
use crate::tree_path::holds_path;
use crate::walk_laws::parents_and_names;
use vstd::prelude::*;
use vstd::string::*;
use vstd::utf8::{encode_utf8, is_ascii_chars_encode_utf8};

verus! {

/// The bodies of a target pass exactly where each file was read as recorded, is at most 68 MiB long, and has
/// the recorded id.
pub proof fn bodies_are_as_recorded(
    entries: Seq<TargetTrackedEntry>,
    bodies: Seq<Result<HeldFile, RepositoryImportError>>,
    from: int,
)
    requires
        0 <= from,
    ensures
        bodies_error(entries, bodies, from) is None <==> forall|i: int|
            from <= i < entries.len() ==> body_is_as_recorded(#[trigger] entries[i], bodies, i),
    decreases entries.len() - from,
{
    if from < entries.len() {
        bodies_are_as_recorded(entries, bodies, from + 1);
        if bodies_error(entries, bodies, from) is Some && (forall|i: int|
            from <= i < entries.len() ==> body_is_as_recorded(#[trigger] entries[i], bodies, i)) {
            assert(body_is_as_recorded(entries[from], bodies, from));
        }
    }
}

/// The body number `i` was read and is that of the entry.
pub open spec fn body_is_as_recorded(
    entry: TargetTrackedEntry,
    bodies: Seq<Result<HeldFile, RepositoryImportError>>,
    i: int,
) -> bool {
    &&& i < bodies.len()
    &&& bodies[i] is Ok
    &&& tracked_as_held(entry, entry.relative_path@, bodies[i]->Ok_0)
    &&& bodies[i]->Ok_0.bytes@.len() <= 68 * 1024 * 1024
    &&& encode_utf8(entry.blob_oid@) == hex_text(
        typed_oid(ObjectKind::Blob, bodies[i]->Ok_0.bytes@.len() as u64, bodies[i]->Ok_0.bytes@),
    )
}

/// The bodies that are read once more pass exactly where each file is found as recorded.
pub proof fn bodies_are_read_once_more(
    entries: Seq<TargetTrackedEntry>,
    bodies: Seq<Result<HeldFile, RepositoryImportError>>,
    from: int,
)
    requires
        0 <= from,
    ensures
        reread_error(entries, bodies, from) is None <==> forall|i: int|
            from <= i < entries.len() ==> i < bodies.len() && bodies[i] is Ok && tracked_as_held(
                #[trigger] entries[i],
                entries[i].relative_path@,
                bodies[i]->Ok_0,
            ),
    decreases entries.len() - from,
{
    if from < entries.len() {
        bodies_are_read_once_more(entries, bodies, from + 1);
        if reread_error(entries, bodies, from) is Some && (forall|i: int|
            from <= i < entries.len() ==> i < bodies.len() && bodies[i] is Ok && tracked_as_held(
                #[trigger] entries[i],
                entries[i].relative_path@,
                bodies[i]->Ok_0,
            )) {
            let first = entries[from];
            assert(reread_error(entries, bodies, from + 1) is None);
        }
    }
}

/// The control directory passes exactly where it was listed, holds what belongs there, is as it was recorded,
/// and its index is the one that was read.
pub proof fn control_directories_pass(
    control: Result<Vec<NamespaceSeal>, RepositoryImportError>,
    expected: TargetRepository,
    index: TargetIndexControlEvidence,
)
    ensures
        control_error(control, expected, index) is None <==> {
            &&& control is Ok
            &&& control_as_expected(control->Ok_0@, expected.object_ids@.dom())
            &&& namespaces_same(control->Ok_0@, expected.git_control@)
            &&& exists|i: int| #[trigger] index_bound_at(control->Ok_0@, index, i)
        },
{
}

/// The index in a control directory is the one that was read where it is the only file of that name, and has
/// the length, the digest and the identity that were read.
pub proof fn the_index_is_the_one_that_was_read(seals: Seq<NamespaceSeal>, evidence: TargetIndexControlEvidence, i: int)
    ensures
        index_bound_at(seals, evidence, i) <==> {
            &&& 0 <= i < seals.len()
            &&& seals[i].relative_path@ == "index"@
            &&& forall|k: int| 0 <= k < seals.len() && k != i ==> (#[trigger] seals[k]).relative_path@ != "index"@
            &&& seals[i].size == evidence.size
            &&& seals[i].sha256 is Some && seals[i].sha256->Some_0@ == evidence.sha256@
            &&& seals[i].kind is File && seals[i].kind->File_0.scheme == evidence.identity.scheme && seals[i].kind->File_0.wire@
                == evidence.identity.wire@
        },
{
}

/// The ids in a raw index are those of the files, in their order.
pub proof fn ids_of_the_raw_index(oids: Seq<[u8; 20]>, entries: Seq<TargetTrackedEntry>)
    ensures
        raw_oids_match(oids, entries) <==> oids.len() == entries.len() && forall|i: int|
            0 <= i < oids.len() ==> sha1_text(encode_utf8((#[trigger] entries[i]).blob_oid@)) && oids[i]@ == hex_bytes(
                encode_utf8(entries[i].blob_oid@),
            ),
{
}

/// A worktree passes exactly where it was walked and holds what is allowed.
pub proof fn worktrees_pass(walk: Result<WorktreeWalk, RepositoryImportError>, expected: TargetRepository)
    ensures
        walk_error(walk, expected) is None <==> walk is Ok && found_as_allowed(
            walk->Ok_0,
            allowed_paths(expected.entries@, expected.entries@.len() as int),
        ),
{
}

/// A root is the recorded one where it could be opened and has the same scheme and identity.
pub proof fn roots_are_the_recorded_ones(seen: Option<FilesystemDirectoryIdentity>, expected: FilesystemDirectoryIdentity)
    ensures
        identity_holds(seen, expected) <==> seen is Some && seen->Some_0.scheme == expected.scheme && seen->Some_0.wire@ == expected.wire@,
{
}

/// An audit begins well exactly where the root is the recorded one, the worktree and the control directory
/// pass, Git can be run, and the raw index has the ids of the files.
pub proof fn audits_begin_well(opening: AuditOpening, expected: TargetRepository)
    ensures
        opening_error(opening, expected) is None <==> {
            &&& opening.root is Ok
            &&& identity_holds(opening.root_identity, expected.root_identity)
            &&& walk_error(opening.walk, expected) is None
            &&& opening.runner is Ok
            &&& opening.raw_index is Ok
            &&& raw_oids_match(opening.raw_index->Ok_0.summary.oids@, expected.entries@)
            &&& control_error(opening.git_control, expected, opening.raw_index->Ok_0.control) is None
        },
{
}

/// The last look at a worktree passes exactly where the root is the recorded one before and after, and the
/// worktree and all bodies pass between.
pub proof fn last_looks_pass(recheck: WorktreeRecheck, expected: TargetRepository)
    ensures
        recheck_error(recheck, expected) is None <==> {
            &&& identity_holds(recheck.identity_before, expected.root_identity)
            &&& walk_error(recheck.walk, expected) is None
            &&& reread_error(expected.entries@, recheck.bodies@, 0) is None
            &&& identity_holds(recheck.identity_after, expected.root_identity)
        },
{
}

/// The private directory passes exactly where it was listed and is as recorded, with its lock alone; or,
/// where a marker is expected, with the marker and nothing else added.
pub proof fn private_directories_pass(
    private: Result<Vec<NamespaceSeal>, RepositoryImportError>,
    expected: TargetRepository,
    marker: Option<Seq<char>>,
)
    ensures
        private_error(private, expected, marker) is None <==> private is Ok && match marker {
            None => namespaces_same(private->Ok_0@, expected.private_control@) && private_as_expected(private->Ok_0@),
            Some(name) => exists|i: int| #[trigger] marked_at(private->Ok_0@, expected.private_control@, name, i),
        },
{
}

/// A private directory is as expected where it holds an empty lock and nothing else.
pub proof fn private_directories_hold_a_lock(seals: Seq<NamespaceSeal>)
    ensures
        private_as_expected(seals) <==> {
            &&& seals.len() == 1
            &&& seals[0].relative_path@ == "mutation.lock"@
            &&& seals[0].kind is File
            &&& seals[0].size == 0
            &&& seals[0].sha256 is Some && seals[0].sha256->Some_0@ == sha256_of(Seq::empty())
        },
{
}

/// A marker is a file of 16 bytes under its name, and without it everything is as it was.
pub proof fn markers_are_files_of_sixteen_bytes(
    current: Seq<NamespaceSeal>,
    baseline: Seq<NamespaceSeal>,
    marker: Seq<char>,
    i: int,
)
    ensures
        marked_at(current, baseline, marker, i) <==> {
            &&& 0 <= i < current.len()
            &&& current[i].relative_path@ == marker
            &&& forall|k: int| 0 <= k < i ==> (#[trigger] current[k]).relative_path@ != marker
            &&& current[i].size == 16
            &&& current[i].sha256 is Some
            &&& current[i].kind is File
            &&& namespaces_same(current.remove(i), baseline)
        },
{
}

/// An audit ends well exactly where both control directories and the last look at the worktree pass.
pub proof fn audits_end_well(
    closing: AuditClosing,
    index: TargetIndexControlEvidence,
    expected: TargetRepository,
    marker: Option<Seq<char>>,
)
    ensures
        closing_error(closing, index, expected, marker) is None <==> {
            &&& control_error(closing.git_control, expected, index) is None
            &&& private_error(closing.private_control, expected, marker) is None
            &&& recheck_error(closing.worktree, expected) is None
        },
{
}

proof fn no_failure(verdicts: Seq<Result<(), RepositoryImportError>>, from: int)
    requires
        0 <= from,
    ensures
        first_failure(verdicts, from) is Ok <==> forall|i: int| from <= i < verdicts.len() ==> (#[trigger] verdicts[i]) is Ok,
    decreases verdicts.len() - from,
{
    if from < verdicts.len() {
        no_failure(verdicts, from + 1);
    }
}

/// An audit passes, once it began well, exactly where every object was proved, the conversation ended well,
/// and the audit ends well.
pub proof fn audits_pass(
    audit: TargetAudit,
    objects: TextMap<TargetObjectExpectation>,
    expected: TargetRepository,
    marker: Option<Seq<char>>,
)
    ensures
        audit_verdict(audit, objects, expected, marker) is Ok <==> {
            &&& audit.objects@.len() == objects.entries@.len()
            &&& forall|i: int| 0 <= i < audit.objects@.len() ==> (#[trigger] audit.objects@[i]) is Ok
            &&& audit.conversation is Ok
            &&& closing_error(audit.closing, audit.opening.raw_index->Ok_0.control, expected, marker) is None
        },
{
    no_failure(audit.objects@, 0);
}

/// Trees are as recorded where there is one for each recorded directory, with its recorded id, and the root
/// tree is the recorded one.
pub proof fn trees_are_the_recorded_ones(expected: TargetRepository, trees: TargetTrees)
    ensures
        trees_as_recorded(expected, trees) <==> {
            &&& forall|path: Seq<char>| #[trigger] expected.tree_oids@.dom().contains(path) <==> trees.dom().contains(path)
            &&& forall|path: Seq<char>| #[trigger] trees.dom().contains(path) ==> expected.tree_oids@[path]@ == trees[path].oid@
            &&& trees.dom().contains(""@)
            &&& trees[""@].oid@ == expected.root_tree_oid@
        },
{
    if forall|path: Seq<char>| #[trigger] expected.tree_oids@.dom().contains(path) <==> trees.dom().contains(path) {
        assert(expected.tree_oids@.dom() =~= trees.dom());
    }
}

/// Objects are as recorded where the recorded ids are those that are expected, each with its kind and its
/// length.
pub proof fn objects_are_the_recorded_ones(object_ids: Map<Seq<char>, ObjectDescriptor>, wishes: Seq<Wish>)
    ensures
        objects_as_recorded(object_ids, wishes) <==> {
            &&& forall|oid: Seq<char>| #[trigger]
                object_ids.dom().contains(oid) <==> exists|i: int| 0 <= i < wishes.len() && (#[trigger] wishes[i]).oid == oid
            &&& forall|i: int|
                0 <= i < wishes.len() ==> object_ids[(#[trigger] wishes[i]).oid].object_type@ == wishes[i].object_type
                    && object_ids[wishes[i].oid].size == wishes[i].size
        },
{
    assert forall|oid: Seq<char>| wished(wishes, oid) <==> exists|i: int| 0 <= i < wishes.len() && (#[trigger] wishes[i]).oid == oid by {}
}

/// What is expected of the objects agrees exactly where each id is forty digits and no id is expected to be
/// two things.
pub proof fn expectations_agree(wishes: Seq<Wish>)
    ensures
        wishes_agree(wishes) <==> {
            &&& forall|i: int| 0 <= i < wishes.len() ==> sha1_text(encode_utf8((#[trigger] wishes[i]).oid))
            &&& forall|i: int, j: int|
                0 <= i < j < wishes.len() && (#[trigger] wishes[i]).oid == (#[trigger] wishes[j]).oid ==> wishes[i].object_type
                    == wishes[j].object_type && wishes[i].size == wishes[j].size && wishes[i].sha256 == wishes[j].sha256
        },
{
    if wishes_agree(wishes) {
        assert forall|i: int, j: int|
            0 <= i < j < wishes.len() && (#[trigger] wishes[i]).oid == (#[trigger] wishes[j]).oid implies wishes[i].object_type
            == wishes[j].object_type && wishes[i].size == wishes[j].size && wishes[i].sha256 == wishes[j].sha256 by {
            assert(!wishes_clash(wishes, i, j));
        }
    }
    if forall|i: int, j: int|
        0 <= i < j < wishes.len() && (#[trigger] wishes[i]).oid == (#[trigger] wishes[j]).oid ==> wishes[i].object_type
            == wishes[j].object_type && wishes[i].size == wishes[j].size && wishes[i].sha256 == wishes[j].sha256 {
        assert forall|i: int, j: int| !#[trigger] wishes_clash(wishes, i, j) by {
            if 0 <= i < j < wishes.len() && wishes[i].oid == wishes[j].oid {
                assert(wishes[i] == wishes[j]);
            }
        }
    }
}

/// The objects of a target are expected exactly where the blobs and the trees agree, the commit is at most 68
/// MiB long, has the id that it is given, and agrees with them too.
pub proof fn objects_are_expected(
    entries: Seq<TargetTrackedEntry>,
    trees: Seq<TextEntry<CanonicalTreeObject>>,
    root_commit_oid: Seq<char>,
    commit_bytes: Seq<u8>,
)
    ensures
        expectations_error(entries, trees, root_commit_oid, commit_bytes) is None <==> {
            &&& wishes_agree(blob_wishes(entries) + tree_wishes(trees))
            &&& commit_bytes.len() <= 68 * 1024 * 1024
            &&& encode_utf8(root_commit_oid) == hex_text(typed_oid(ObjectKind::Commit, commit_bytes.len() as u64, commit_bytes))
            &&& wishes_agree((blob_wishes(entries) + tree_wishes(trees)).push(commit_wish(root_commit_oid, commit_bytes)))
        },
        wishes_agree(blob_wishes(entries) + tree_wishes(trees)) && commit_bytes.len() > 68 * 1024 * 1024 ==> expectations_error(
            entries,
            trees,
            root_commit_oid,
            commit_bytes,
        ) == Some(RepositoryImportError::ResourceLimit),
{
}

/// The loose objects of a control directory are as expected where each file below `objects/` is at the place
/// of some digits, no digits are there twice, and the digits are those of the expected objects.
pub proof fn loose_objects_are_as_expected(seals: Seq<NamespaceSeal>, expected: Set<Seq<char>>, oid: Seq<char>)
    requires
        loose_as_expected(seals, expected),
    ensures
        expected.contains(oid) <==> exists|i: int| #[trigger] loose_at(seals, oid, i),
        objects_are_loose(seals),
        forall|i: int|
            0 <= i < seals.len() && names_object(#[trigger] seals[i]) ==> encode_utf8(seals[i].relative_path@).len() == 49,
{
}

/// The place of a loose object: `objects/`, two digits of its id, a slash, and the others.
pub proof fn places_of_loose_files(oid: Seq<u8>)
    requires
        oid.len() == 40,
    ensures
        fanout_of(oid) == encode_utf8("objects/"@) + oid.subrange(0, 2),
        loose_file_of(oid) == encode_utf8("objects/"@) + oid.subrange(0, 2) + seq![0x2fu8] + oid.subrange(2, 40),
        loose_file_of(oid).len() == 49,
{
    reveal_strlit("objects/");
    is_ascii_chars_encode_utf8("objects/"@);
}

/// A tree has the id, the length and the digest of the body that lists its items.
pub proof fn trees_are_their_bodies(object: CanonicalTreeObject, listing: Seq<TreeItem>)
    ensures
        is_tree_of(object, listing) <==> {
            let body = tree_body(listing, listing.len() as int);
            &&& object.size == body.len()
            &&& object.sha256@ == sha256_of(body)
            &&& encode_utf8(object.oid@) == hex_text(typed_oid(ObjectKind::Tree, body.len() as u64, body))
        },
{
}

/// The items of a tree are ordered by their names, those of directories with a slash behind them.
pub proof fn items_are_ordered_by_names(item: TreeItem)
    ensures
        item_key(item) == if item.directory {
            item.name + seq![0x2fu8]
        } else {
            item.name
        },
{
    if item.directory {
        assert(item_key(item) =~= item.name + seq![0x2fu8]);
    }
}

/// The blobs of a target are those of its files, each under the path of its file.
pub proof fn blobs_are_those_of_the_files(entries: Seq<TargetTrackedEntry>, path: Seq<char>)
    ensures
        blobs_of(entries).dom().contains(path) <==> exists|i: int| 0 <= i < entries.len() && (#[trigger] entries[i]).relative_path@ == path,
        blobs_of(entries).dom().contains(path) ==> exists|i: int|
            0 <= i < entries.len() && (#[trigger] entries[i]).relative_path@ == path && blobs_of(entries)[path] == (
                entries[i].blob_oid,
                entries[i].size,
            ),
{
    let value = blobs_of(entries)[path];
}

/// An audit that is opened found the target as it was made: it answers as expected, all bodies pass, no two
/// files share a path, and each directory has the tree that lists it, as it was recorded.
pub proof fn opened_audits_found_the_target(
    objects: TextMap<TargetObjectExpectation>,
    opening: AuditOpening,
    expected: TargetRepository,
    profile: TargetConfigProfile<'_>,
)
    requires
        opening_verdict(Ok::<TextMap<TargetObjectExpectation>, RepositoryImportError>(objects), opening, expected, profile),
    ensures
        opening_error(opening, expected) is None,
        answers_error(opening.answers, expected.root_commit_oid@, profile) is None,
        bodies_error(expected.entries@, opening.bodies@, 0) is None,
        paths_differ(expected.entries@),
        exists|trees: TextMap<CanonicalTreeObject>|
            {
                &&& #[trigger] are_canonical_trees(blobs_of(expected.entries@), trees@)
                &&& trees_as_recorded(expected, trees@)
                &&& expectations_error(
                    expected.entries@,
                    trees.entries@,
                    expected.root_commit_oid@,
                    expected.commit_bytes@,
                ) is None
            },
{
    let r = Ok::<TextMap<TargetObjectExpectation>, RepositoryImportError>(objects);
    assert(semantics_verdict(r, opening.answers, opening.bodies@, expected, expected.git_control@, profile));
    let trees = choose|trees: TextMap<CanonicalTreeObject>| #[trigger]
        crate::target_audit::objects_verdict(r, expected, trees, expected.git_control@) && trees.wf() && are_canonical_trees(
            blobs_of(expected.entries@),
            trees@,
        );
    assert(are_canonical_trees(blobs_of(expected.entries@), trees@));
}

/// No two files of a target share a path exactly where any two of them differ in it.
pub proof fn files_have_their_own_paths(entries: Seq<TargetTrackedEntry>)
    ensures
        paths_differ(entries) <==> forall|i: int, j: int|
            0 <= i < j < entries.len() ==> (#[trigger] entries[i]).relative_path@ != (#[trigger] entries[j]).relative_path@,
{
    if paths_differ(entries) {
        assert forall|i: int, j: int| 0 <= i < j < entries.len() implies (#[trigger] entries[i]).relative_path@ != (
        #[trigger] entries[j]).relative_path@ by {
            assert(!crate::target_objects::path_repeats(entries, i, j));
        }
    }
}

/// The tree of a directory lists each file that stands in it under its name, with its id.
pub proof fn trees_list_their_files(
    listing: Seq<TreeItem>,
    blobs: TargetBlobs,
    trees: TargetTrees,
    directory: Seq<char>,
    path: Seq<char>,
    name: Seq<u8>,
)
    requires
        lists_directory(listing, blobs, trees, directory),
        blobs.dom().contains(path),
        name.len() > 0,
        !name.contains(0x2f),
        encode_utf8(path) == if encode_utf8(directory).len() == 0 {
            name
        } else {
            encode_utf8(directory) + seq![0x2fu8] + name
        },
    ensures
        listing.contains((TreeItem { name, oid: encode_utf8(blobs[path].0@), directory: false })),
{
    parents_and_names(encode_utf8(directory), name);
    let item = TreeItem { name, oid: encode_utf8(blobs[path].0@), directory: false };
    if encode_utf8(directory).len() == 0 {
        assert(encode_utf8(directory) =~= Seq::<u8>::empty());
    }
    assert(item_at(blobs, trees, directory, item, path));
    assert(item_of(blobs, trees, directory, item));
}

/// The tree of a directory lists each directory that stands in it under its name, with the id of its tree.
pub proof fn trees_list_their_directories(
    listing: Seq<TreeItem>,
    blobs: TargetBlobs,
    trees: TargetTrees,
    directory: Seq<char>,
    path: Seq<char>,
    name: Seq<u8>,
)
    requires
        lists_directory(listing, blobs, trees, directory),
        holds_path(blobs.dom(), path),
        name.len() > 0,
        !name.contains(0x2f),
        encode_utf8(path) == if encode_utf8(directory).len() == 0 {
            name
        } else {
            encode_utf8(directory) + seq![0x2fu8] + name
        },
    ensures
        listing.contains((TreeItem { name, oid: encode_utf8(trees[path].oid@), directory: true })),
{
    parents_and_names(encode_utf8(directory), name);
    let item = TreeItem { name, oid: encode_utf8(trees[path].oid@), directory: true };
    if encode_utf8(directory).len() == 0 {
        assert(encode_utf8(directory) =~= Seq::<u8>::empty());
    }
    assert(item_at(blobs, trees, directory, item, path));
    assert(item_of(blobs, trees, directory, item));
}

/// What the tree of a directory lists stands in it: a file of the target with its id, or a directory of the
/// target with the id of its tree; and the items are in order.
pub proof fn trees_list_nothing_else(
    listing: Seq<TreeItem>,
    blobs: TargetBlobs,
    trees: TargetTrees,
    directory: Seq<char>,
    i: int,
)
    requires
        lists_directory(listing, blobs, trees, directory),
        0 <= i < listing.len(),
    ensures
        exists|path: Seq<char>| #[trigger]
            item_at(blobs, trees, directory, listing[i], path) && if listing[i].directory {
                holds_path(blobs.dom(), path) && listing[i].oid == encode_utf8(trees[path].oid@)
            } else {
                blobs.dom().contains(path) && listing[i].oid == encode_utf8(blobs[path].0@)
            },
        i + 1 < listing.len() ==> lex_less(item_key(listing[i]), item_key(listing[i + 1])),
{
    assert(listing.contains(listing[i]));
    assert(item_of(blobs, trees, directory, listing[i]));
    let path = choose|path: Seq<char>| #[trigger] item_at(blobs, trees, directory, listing[i], path);
    assert(item_at(blobs, trees, directory, listing[i], path));
    assert(items_ascend(listing));
}

/// There is a tree for each directory of a target and for no other, and each lists its directory.
pub proof fn each_directory_has_a_tree(blobs: TargetBlobs, trees: TargetTrees, directory: Seq<char>)
    requires
        are_canonical_trees(blobs, trees),
    ensures
        trees.dom().contains(directory) <==> holds_path(blobs.dom(), directory),
        trees.dom().contains(directory) ==> exists|listing: Seq<TreeItem>| #[trigger]
            lists_directory(listing, blobs, trees, directory) && is_tree_of(trees[directory], listing),
{
    if trees.dom().contains(directory) {
        assert(tree_holds(blobs, trees, directory));
    }
}

/// The length of a tree is, for each item, that of its mode, its name, a zero byte and the 20 bytes of its
/// id.
pub proof fn lengths_of_trees(items: Seq<TreeItem>, n: int)
    requires
        0 <= n < items.len(),
    ensures
        listing_length(items, 0) == 0,
        listing_length(items, n + 1) == listing_length(items, n) + (if items[n].directory {
            6int
        } else {
            7
        }) + items[n].name.len() + 1 + 20,
{
    reveal_strlit("40000 ");
    reveal_strlit("100644 ");
    is_ascii_chars_encode_utf8("40000 "@);
    is_ascii_chars_encode_utf8("100644 "@);
}

/// The expectations of a target are those of its objects: one for each id, with its kind, its length and its
/// digest.
pub proof fn expectations_are_held(objects: Map<Seq<char>, TargetObjectExpectation>, wishes: Seq<Wish>, i: int, oid: Seq<char>)
    requires
        wishes_held(objects, wishes),
        0 <= i < wishes.len(),
    ensures
        objects.dom().contains(wishes[i].oid),
        objects[wishes[i].oid].object_type@ == wishes[i].object_type,
        objects[wishes[i].oid].size == wishes[i].size,
        objects[wishes[i].oid].sha256@ == wishes[i].sha256,
        objects.dom().contains(oid) ==> exists|k: int| 0 <= k < wishes.len() && (#[trigger] wishes[k]).oid == oid,
{
    assert(wishes[i].oid == wishes[i].oid);
    assert(crate::target_objects::meets(objects[wishes[i].oid], wishes[i]));
}

} // verus!
