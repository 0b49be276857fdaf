//! When a walk through a tree passes: what each step may meet, and what must have been met at the end.

use crate::bytes::{lex_less, split_pieces};
use crate::errors::{RepositoryImportError, RepositoryIoOperation};
use crate::identity::FilesystemDirectoryIdentity;
use crate::inventory_walk::{
    directories_in_order, entered_count, finds_source_file, inventory_error, namespace_event_error,
    namespace_walk_error, sealed_in_order, source_event_error, source_file_listed, source_inventory_error,
    source_walk_error, target_child_passes, target_directory_listed, target_event_error, target_file_listed,
    target_listing_error, target_walk_error, NamespaceSighting, SealedChild, SourceEntry, SourceSighting, TargetEntry,
    TargetSighting,
};
use crate::manifest::{AuditedPhysicalKind, MarkerFreePhysicalManifest, NamespaceKind, NamespaceSeal, PhysicalRecordId};
use crate::namespace::{namespace_failure, source_child_error, DirectorySeal, NamespacePolicy};
use crate::path_components::{pieces_of_concat, single_piece};
use crate::physical_walk::{
    child_error, current_error, event_error, met_before, record_at, record_of, walk_error, CurrentSighting, SeenChild,
};
use crate::revalidation::{child_path, enter_error, path_order, PathOrder, PhysicalWalk};
use crate::source_endpoints::{kept_parts, path_parts};
use crate::target_worktree::TargetChild;
use crate::tree_path::{last_slash, last_slash_facts, lies_below, name_of, parent_of};
use crate::tree_walk::{
    children_before, enters_child, event_name, event_parent, event_path, named_bytes, names_child, open_directories,
    Entered, TreeEvent,
};
use vstd::prelude::*;
use vstd::string::*;
use vstd::utf8::{decode_utf8, encode_utf8};

verus! {

/// A child of the root is at its name; a child of another directory is at the path of the directory, a slash,
/// and its name.
pub proof fn paths_of_children(parent: Seq<u8>, name: Seq<u8>)
    ensures
        child_path(Seq::empty(), name) == name,
        parent.len() > 0 ==> child_path(parent, name) == parent + seq![0x2fu8] + name,
{
}

/// Paths are told apart by the order of their bytes.
pub proof fn paths_are_ordered(a: Seq<u8>, b: Seq<u8>)
    ensures
        path_order(a, a) == PathOrder::Same,
        lex_less(a, b) ==> path_order(a, b) == PathOrder::Before,
        lex_less(b, a) ==> path_order(a, b) == PathOrder::After,
        path_order(a, b) == PathOrder::Same ==> a == b,
{
    crate::bytes::lex_less_irreflexive(a);
    if lex_less(b, a) {
        if lex_less(a, b) {
            crate::bytes::lex_less_transitive(a, b, a);
        }
        crate::bytes::lex_less_irreflexive(b);
    }
}

/// A path is the path of its parent, a slash, and its name; a name alone has the root for a parent.
pub proof fn parents_and_names(parent: Seq<u8>, name: Seq<u8>)
    requires
        !name.contains(0x2f),
    ensures
        parent_of(parent + seq![0x2fu8] + name) == parent,
        name_of(parent + seq![0x2fu8] + name) == name,
        parent_of(name) == Seq::<u8>::empty(),
        name_of(name) == name,
        parent.len() > 0 ==> lies_below(parent, parent + seq![0x2fu8] + name),
{
    let path = parent + seq![0x2fu8] + name;
    last_slash_facts(path, path.len() as int);
    let at = last_slash(path, path.len() as int);
    assert(path[parent.len() as int] == 0x2f);
    if at > parent.len() {
        assert(path[at] == name[at - parent.len() - 1]);
        assert(name.contains(0x2f));
    }
    assert(at == parent.len());
    assert(path.subrange(0, at) =~= parent);
    assert(path.subrange(at + 1, path.len() as int) =~= name);
    last_slash_facts(name, name.len() as int);
    let none = last_slash(name, name.len() as int);
    if none >= 0 {
        assert(name.contains(name[none]));
    }
    assert(name.subrange(0, name.len() as int) =~= name);
    assert(path.subrange(0, parent.len() as int) =~= parent);
}

/// What lies below a directory has its path, a slash, and something behind it; everything lies below the
/// root.
pub proof fn what_lies_below(directory: Seq<u8>, path: Seq<u8>)
    ensures
        lies_below(Seq::empty(), path),
        directory.len() > 0 ==> (lies_below(directory, path) <==> exists|rest: Seq<u8>|
            path == #[trigger] (directory + seq![0x2fu8] + rest)),
{
    if directory.len() > 0 && lies_below(directory, path) {
        let rest = path.subrange(directory.len() as int + 1, path.len() as int);
        assert(path =~= directory + seq![0x2fu8] + rest) by {
            assert(path.subrange(0, directory.len() as int) == directory);
        }
    }
    if directory.len() > 0 && (exists|rest: Seq<u8>| path == #[trigger] (directory + seq![0x2fu8] + rest)) {
        let rest = choose|rest: Seq<u8>| path == #[trigger] (directory + seq![0x2fu8] + rest);
        assert(path.subrange(0, directory.len() as int) =~= directory);
    }
}

/// A walk begins in the root; a child that is entered is the open directory from then on, and leaving a
/// directory goes back to the one around it.
pub proof fn walks_enter_and_leave<C: Entered>(events: Seq<TreeEvent<C>>, n: int)
    requires
        0 <= n < events.len(),
    ensures
        open_directories(events, 0) == seq![Seq::<u8>::empty()],
        events[n] is Leave && open_directories(events, n).len() > 0 ==> open_directories(events, n + 1) == open_directories(
            events,
            n,
        ).drop_last(),
        enters_child(events, n) ==> open_directories(events, n + 1) == open_directories(events, n).push(event_path(events, n)),
        events[n] is Child && !enters_child(events, n) ==> open_directories(events, n + 1) == open_directories(events, n),
        children_before(events, n + 1) == children_before(events, n) + if events[n] is Child {
            1int
        } else {
            0
        },
{
}

/// A directory of a manifest is entered exactly where it is not deeper than 128 and is a directory of the
/// manifest.
pub proof fn directories_are_entered(manifest: MarkerFreePhysicalManifest, parent: PhysicalRecordId, depth: usize)
    ensures
        enter_error(manifest, parent, depth) is None <==> depth <= 128 && parent.0 < manifest.records@.len()
            && manifest.records@[parent.0 as int].kind is Directory,
        depth > 128 ==> enter_error(manifest, parent, depth) == Some(RepositoryImportError::ResourceLimit),
{
}

/// A record is met exactly where its path is at most 1034 bytes long, it was not met before, and all paths
/// that were met are at most 256 MiB long in all.
pub proof fn records_are_met_once(walk: PhysicalWalk, manifest: MarkerFreePhysicalManifest, id: PhysicalRecordId)
    requires
        id.0 < manifest.records@.len(),
    ensures
        walk.visit_refusal(manifest, id.0 as int) is None <==> {
            let length = encode_utf8(manifest.records@[id.0 as int].path@).len();
            length <= 1034 && !walk.met(id) && walk.observed_path_bytes + length <= 256 * 1024 * 1024
        },
        encode_utf8(manifest.records@[id.0 as int].path@).len() <= 1034 && walk.met(id) ==> walk.visit_refusal(
            manifest,
            id.0 as int,
        ) == Some(RepositoryImportError::TargetAuditFailed),
{
}

/// What is entered: of a namespace and of a candidate each directory, of a source each but its own control
/// directory, and of a target each but its two control directories.
pub proof fn what_is_entered(
    parent: Seq<u8>,
    name: Seq<char>,
    sealed: SealedChild,
    seen: SeenChild,
    source: SourceEntry,
    target: TargetEntry,
)
    ensures
        sealed.entered(parent, name) <==> sealed is Directory,
        seen.entered(parent, name) <==> seen is Directory,
        source.entered(parent, name) <==> source.seen is Directory && !(decode_utf8(parent).len() == 0 && name == ".git"@),
        target.entered(parent, name) <==> target.seen is Directory && !(encode_utf8(decode_utf8(parent)).len() == 0 && (name
            == ".vault-local"@ || name == ".git"@)),
{
}

/// What is seen is what was recorded exactly where it is a directory with the recorded identity, not too deep
/// and without another stream, or a file without another stream, with the recorded identity, length and
/// digest.
pub proof fn seen_is_what_was_recorded(kind: AuditedPhysicalKind, child: SeenChild, depth: nat)
    ensures
        child_error(kind, child, depth) is None <==> match (kind, child) {
            (AuditedPhysicalKind::Directory(expected), SeenChild::Directory { identity, plain }) => expected.scheme == identity.scheme
                && expected.wire@ == identity.wire@ && depth <= 128 && plain,
            (AuditedPhysicalKind::File { identity, size, sha256 }, SeenChild::File { plain, hashed }) => plain && hashed is Ok
                && identity.scheme == hashed->Ok_0.identity.scheme && identity.wire@ == hashed->Ok_0.identity.wire@ && size
                == hashed->Ok_0.size && sha256@ == hashed->Ok_0.sha256@,
            _ => false,
        },
        child is Refused ==> child_error(kind, child, depth) == Some(RepositoryImportError::TargetAuditFailed),
{
}

/// A step of a walk over a candidate passes exactly where a directory is open and it either leaves one that
/// still holds, or meets for the first time a child that is recorded, within the bounds, and is what was
/// recorded.
pub proof fn steps_over_a_candidate(manifest: MarkerFreePhysicalManifest, events: Seq<TreeEvent<SeenChild>>, i: int)
    requires
        0 <= i < events.len(),
    ensures
        event_error(manifest, events, i) is None <==> open_directories(events, i).len() > 0 && match events[i] {
            TreeEvent::Leave { holds } => holds,
            TreeEvent::Child { name, child } => {
                let path = event_path(events, i);
                &&& name is Some
                &&& exists|r: int| record_at(manifest, path, r)
                &&& path.len() <= 1034
                &&& !met_before(events, path, i)
                &&& named_bytes(events, i) + path.len() <= 256 * 1024 * 1024
                &&& child_error(
                    manifest.records@[record_of(manifest, path)].kind,
                    child,
                    open_directories(events, i).len(),
                ) is None
            },
        },
{
}

proof fn all_steps(manifest: MarkerFreePhysicalManifest, events: Seq<TreeEvent<SeenChild>>, from: int)
    requires
        0 <= from,
    ensures
        walk_error(manifest, events, from) is None <==> forall|i: int|
            from <= i < events.len() ==> #[trigger] event_error(manifest, events, i) is None,
    decreases events.len() - from,
{
    if from < events.len() {
        all_steps(manifest, events, from + 1);
        if walk_error(manifest, events, from) is None {
            assert forall|i: int| from <= i < events.len() implies #[trigger] event_error(manifest, events, i) is None by {
                if i > from {
                    assert(walk_error(manifest, events, from + 1) is None);
                }
            }
        }
    }
}

/// A candidate is exactly as recorded where its root is, without another stream, each step of the walk
/// passes, every directory was left again, and every record was met.
pub proof fn candidates_are_exactly_as_recorded(manifest: MarkerFreePhysicalManifest, seen: CurrentSighting)
    requires
        manifest.records@.len() + 63 <= usize::MAX,
    ensures
        current_error(manifest, seen) is None <==> {
            &&& seen.root is Ok && seen.root->Ok_0.scheme == manifest.root_identity.scheme && seen.root->Ok_0.wire@
                == manifest.root_identity.wire@
            &&& seen.root_plain
            &&& forall|i: int| 0 <= i < seen.events@.len() ==> #[trigger] event_error(manifest, seen.events@, i) is None
            &&& open_directories(seen.events@, seen.events@.len() as int).len() == 0
            &&& forall|r: int|
                0 <= r < manifest.records@.len() ==> met_before(
                    seen.events@,
                    encode_utf8((#[trigger] manifest.records@[r]).path@),
                    seen.events@.len() as int,
                )
        },
{
    all_steps(manifest, seen.events@, 0);
}

/// A step of an inventory passes exactly where a directory is open and it either leaves one that still holds,
/// or meets a named child within the bounds that is a file that was hashed, or a directory that still holds
/// and is not too deep.
pub proof fn steps_of_an_inventory(policy: NamespacePolicy, events: Seq<TreeEvent<SealedChild>>, i: int)
    requires
        0 <= i < events.len(),
    ensures
        namespace_event_error(policy, events, i) is None <==> open_directories(events, i).len() > 0 && match events[i] {
            TreeEvent::Leave { holds } => holds,
            TreeEvent::Child { name, child } => {
                &&& name is Some
                &&& named_bytes(events, i + 1) <= 256 * 1024 * 1024
                &&& children_before(events, i) < 1_000_000
                &&& match child {
                    SealedChild::Refused => false,
                    SealedChild::File(hashed) => hashed is Ok,
                    SealedChild::Directory { holds, .. } => holds && open_directories(events, i).len() <= 128 && children_before(
                        events,
                        i,
                    ) + 1 < 1_000_000,
                }
            },
        },
{
}

proof fn all_inventory_steps(policy: NamespacePolicy, events: Seq<TreeEvent<SealedChild>>, from: int)
    requires
        0 <= from,
    ensures
        namespace_walk_error(policy, events, from) is None <==> forall|i: int|
            from <= i < events.len() ==> #[trigger] namespace_event_error(policy, events, i) is None,
    decreases events.len() - from,
{
    if from < events.len() {
        all_inventory_steps(policy, events, from + 1);
        if namespace_walk_error(policy, events, from) is None {
            assert forall|i: int| from <= i < events.len() implies #[trigger] namespace_event_error(policy, events, i) is None by {
                if i > from {
                    assert(namespace_walk_error(policy, events, from + 1) is None);
                }
            }
        }
    }
}

/// An inventory is taken exactly where its root opened and holds, each step passes, and every directory was
/// left again.
pub proof fn inventories_are_taken(policy: NamespacePolicy, seen: NamespaceSighting)
    ensures
        inventory_error(policy, seen) is None <==> {
            &&& seen.root_opened && seen.root_holds
            &&& forall|i: int| 0 <= i < seen.events@.len() ==> #[trigger] namespace_event_error(policy, seen.events@, i) is None
            &&& open_directories(seen.events@, seen.events@.len() as int).len() == 0
        },
        !seen.root_opened ==> inventory_error(policy, seen) == Some(namespace_failure(policy)),
{
    all_inventory_steps(policy, seen.events@, 0);
}

/// A step through a source passes exactly where a directory is open and it either leaves one that still
/// holds, or meets a named child within the bounds that may stand there, and enters it only where it holds,
/// is not too deep and was listed.
pub proof fn steps_through_a_source(git_identity: FilesystemDirectoryIdentity, events: Seq<TreeEvent<SourceEntry>>, i: int)
    requires
        0 <= i < events.len(),
    ensures
        source_event_error(git_identity, events, i) is None <==> open_directories(events, i).len() > 0 && match events[i] {
            TreeEvent::Leave { holds } => holds,
            TreeEvent::Child { name, child } => {
                &&& name is Some
                &&& children_before(events, i + 1) <= 200_000
                &&& named_bytes(events, i + 1) <= 256 * 1024 * 1024
                &&& source_child_error(
                    git_identity,
                    decode_utf8(event_parent(events, i)),
                    event_name(events, i),
                    child.seen,
                ) is None
                &&& enters_child(events, i) ==> open_directories(events, i).len() <= 128 && child.seen->Directory_binding_holds
                    && child.listed is Ok
            },
        },
{
}

proof fn all_source_steps(git_identity: FilesystemDirectoryIdentity, events: Seq<TreeEvent<SourceEntry>>, from: int)
    requires
        0 <= from,
    ensures
        source_walk_error(git_identity, events, from) is None <==> forall|i: int|
            from <= i < events.len() ==> #[trigger] source_event_error(git_identity, events, i) is None,
    decreases events.len() - from,
{
    if from < events.len() {
        all_source_steps(git_identity, events, from + 1);
        if source_walk_error(git_identity, events, from) is None {
            assert forall|i: int| from <= i < events.len() implies #[trigger] source_event_error(git_identity, events, i) is None by {
                if i > from {
                    assert(source_walk_error(git_identity, events, from + 1) is None);
                }
            }
        }
    }
}

/// A source is walked exactly where its root opened, holds and was listed, each step passes, and every
/// directory was left again.
pub proof fn sources_are_walked(git_identity: FilesystemDirectoryIdentity, seen: SourceSighting)
    ensures
        source_inventory_error(git_identity, seen) is None <==> {
            &&& seen.root_opened && seen.root_holds && seen.root_listed is Ok
            &&& forall|i: int| 0 <= i < seen.events@.len() ==> #[trigger] source_event_error(git_identity, seen.events@, i) is None
            &&& open_directories(seen.events@, seen.events@.len() as int).len() == 0
        },
        !seen.root_opened ==> source_inventory_error(git_identity, seen) == Some(RepositoryImportError::UnsupportedSourceRepository),
        seen.root_opened && !seen.root_holds ==> source_inventory_error(git_identity, seen) == Some(
            RepositoryImportError::SourceChanged,
        ),
        seen.root_opened && seen.root_holds ==> (seen.root_listed matches Err(kind) ==> source_inventory_error(git_identity, seen)
            == Some(RepositoryImportError::Io { operation: RepositoryIoOperation::InspectNamespace, kind })),
{
    all_source_steps(git_identity, seen.events@, 0);
}

/// What may stand in a target: at the top the private directory, and the control directory once there is one;
/// and else files that are still under their names, and directories.
pub proof fn what_may_stand_in_a_target(git_required: bool, parent: Seq<char>, name: Seq<char>, child: TargetChild)
    ensures
        target_child_passes(git_required, parent, name, child) <==> if encode_utf8(parent).len() == 0 && name == ".git"@ && name
            != ".vault-local"@ {
            git_required && child == (TargetChild::Directory { binding_holds: true })
        } else if encode_utf8(parent).len() == 0 && name == ".vault-local"@ {
            child == (TargetChild::Directory { binding_holds: true }) && (name == ".git"@ ==> git_required)
        } else {
            child is Directory || child == (TargetChild::File { binding_holds: true })
        },
{
}

/// A step through a target passes exactly where a directory is open and it either leaves one that still
/// holds, or meets a named child within the bounds that may stand there, and enters it only where it holds,
/// is not too deep and can be read.
pub proof fn steps_through_a_target(git_required: bool, events: Seq<TreeEvent<TargetEntry>>, i: int)
    requires
        0 <= i < events.len(),
    ensures
        target_event_error(git_required, events, i) is None <==> open_directories(events, i).len() > 0 && match events[i] {
            TreeEvent::Leave { holds } => holds,
            TreeEvent::Child { name, child } => {
                &&& name is Some
                &&& children_before(events, i + 1) <= 200_000
                &&& named_bytes(events, i + 1) <= 256 * 1024 * 1024
                &&& target_child_passes(git_required, decode_utf8(event_parent(events, i)), event_name(events, i), child.seen)
                &&& enters_child(events, i) ==> open_directories(events, i).len() <= 128 && child.seen->Directory_binding_holds
                    && child.readable
            },
        },
{
}

proof fn all_target_steps(git_required: bool, events: Seq<TreeEvent<TargetEntry>>, from: int)
    requires
        0 <= from,
    ensures
        target_walk_error(git_required, events, from) is None <==> forall|i: int|
            from <= i < events.len() ==> #[trigger] target_event_error(git_required, events, i) is None,
    decreases events.len() - from,
{
    if from < events.len() {
        all_target_steps(git_required, events, from + 1);
        if target_walk_error(git_required, events, from) is None {
            assert forall|i: int| from <= i < events.len() implies #[trigger] target_event_error(git_required, events, i) is None by {
                if i > from {
                    assert(target_walk_error(git_required, events, from + 1) is None);
                }
            }
        }
    }
}

/// A target is walked exactly where its root opened and holds, each step passes, and every directory was left
/// again.
pub proof fn targets_are_walked(git_required: bool, seen: TargetSighting)
    ensures
        target_listing_error(git_required, seen) is None <==> {
            &&& seen.root_opened && seen.root_holds
            &&& forall|i: int| 0 <= i < seen.events@.len() ==> #[trigger] target_event_error(git_required, seen.events@, i) is None
            &&& open_directories(seen.events@, seen.events@.len() as int).len() == 0
        },
{
    all_target_steps(git_required, seen.events@, 0);
}

/// What an inventory lists is what it met: each child in turn, a directory with its identity, and a file with
/// its identity, its length and its digest.
pub proof fn inventories_list_what_they_met(seals: Seq<NamespaceSeal>, events: Seq<TreeEvent<SealedChild>>, n: int, i: int)
    requires
        sealed_in_order(seals, events, n),
        i < n,
        names_child(events, i),
    ensures
        seals.len() == children_before(events, n),
        ({
            let seal = seals[children_before(events, i) as int];
            &&& encode_utf8(seal.relative_path@) == event_path(events, i)
            &&& match events[i]->child {
                SealedChild::Directory { identity, .. } => seal.kind == NamespaceKind::Directory(identity) && seal.size == 0
                    && seal.sha256 is None,
                SealedChild::File(hashed) => hashed is Ok && seal.kind == NamespaceKind::File(hashed->Ok_0.identity) && seal.size
                    == hashed->Ok_0.size && seal.sha256 == Some(hashed->Ok_0.sha256),
                SealedChild::Refused => false,
            }
        }),
{
}

/// What a walk through a source gives is what it met: the files under their paths, and each directory that
/// was entered with its identity.
pub proof fn sources_list_what_they_met(
    seals: Seq<DirectorySeal>,
    events: Seq<TreeEvent<SourceEntry>>,
    n: int,
    path: Seq<char>,
    i: int,
)
    requires
        directories_in_order(seals, events, n),
        i < n,
    ensures
        source_file_listed(events, path, n) <==> exists|k: int|
            0 <= k < events.len() && k < n && #[trigger] names_child(events, k) && events[k]->child.seen is File && event_path(events, k)
                == encode_utf8(path),
        seals.len() == entered_count(events, n),
        enters_child(events, i) ==> encode_utf8(seals[entered_count(events, i) as int].relative_path@) == event_path(events, i)
            && seals[entered_count(events, i) as int].identity == events[i]->child.seen->Directory_identity,
{
    if source_file_listed(events, path, n) {
        let k = choose|k: int| k < n && #[trigger] finds_source_file(events, k) && event_path(events, k) == encode_utf8(path);
        assert(names_child(events, k));
    }
    if exists|k: int|
        0 <= k < events.len() && k < n && #[trigger] names_child(events, k) && events[k]->child.seen is File && event_path(events, k)
            == encode_utf8(path) {
        let k = choose|k: int|
            0 <= k < events.len() && k < n && #[trigger] names_child(events, k) && events[k]->child.seen is File && event_path(
                events,
                k,
            ) == encode_utf8(path);
        assert(finds_source_file(events, k));
    }
}

/// What a walk through a target gives is what it met: its files, and the directories that were entered.
pub proof fn targets_list_what_they_met(events: Seq<TreeEvent<TargetEntry>>, path: Seq<char>, n: int)
    ensures
        target_file_listed(events, path, n) <==> exists|k: int|
            0 <= k < events.len() && k < n && #[trigger] names_child(events, k) && events[k]->child.seen is File && event_path(events, k)
                == encode_utf8(path),
        target_directory_listed(events, path, n) <==> exists|k: int|
            k < n && #[trigger] enters_child(events, k) && event_path(events, k) == encode_utf8(path),
{
    if target_file_listed(events, path, n) {
        let k = choose|k: int|
            k < n && #[trigger] crate::inventory_walk::finds_target_file(events, k) && event_path(events, k) == encode_utf8(path);
        assert(names_child(events, k));
    }
    if exists|k: int|
        0 <= k < events.len() && k < n && #[trigger] names_child(events, k) && events[k]->child.seen is File && event_path(events, k)
            == encode_utf8(path) {
        let k = choose|k: int|
            0 <= k < events.len() && k < n && #[trigger] names_child(events, k) && events[k]->child.seen is File && event_path(
                events,
                k,
            ) == encode_utf8(path);
        assert(crate::inventory_walk::finds_target_file(events, k));
    }
}

proof fn kept_parts_of_a_longer_list(pieces: Seq<Seq<u8>>, last: Seq<u8>, n: int)
    requires
        0 <= n <= pieces.len(),
    ensures
        kept_parts(pieces.push(last), n) == kept_parts(pieces, n),
    decreases n,
{
    if n > 0 {
        kept_parts_of_a_longer_list(pieces, last, n - 1);
        assert(pieces.push(last)[n - 1] == pieces[n - 1]);
    }
}

/// The parts of a path: a name behind a slash is one more part, and a slash at the end, a second slash, or a
/// dot behind a slash changes nothing.
pub proof fn parts_of_a_path(path: Seq<u8>, name: Seq<u8>)
    requires
        name.len() > 0,
        !name.contains(0x2f),
        name != seq![0x2eu8],
    ensures
        path_parts(path + seq![0x2fu8] + name) == path_parts(path).push(name),
        path_parts(path + seq![0x2fu8] + seq![0x2eu8]) == path_parts(path),
        path_parts(path + seq![0x2fu8] + Seq::<u8>::empty()) == path_parts(path),
        path_parts(name) == seq![name],
{
    let pieces = split_pieces(path, 0x2f);
    let n = pieces.len() as int;
    let dot = seq![0x2eu8];
    let none = Seq::<u8>::empty();
    single_piece(name, 0x2f);
    single_piece(dot, 0x2f);
    single_piece(none, 0x2f);
    pieces_of_concat(path, 0x2f, name);
    pieces_of_concat(path, 0x2f, dot);
    pieces_of_concat(path, 0x2f, none);
    crate::path_components::some_piece(path, 0x2f);
    assert(crate::git_output::dot() =~= dot);
    assert(pieces + seq![name] =~= pieces.push(name));
    assert(pieces + seq![dot] =~= pieces.push(dot));
    assert(pieces + seq![none] =~= pieces.push(none));
    kept_parts_of_a_longer_list(pieces, name, n);
    kept_parts_of_a_longer_list(pieces, dot, n);
    kept_parts_of_a_longer_list(pieces, none, n);
    assert(pieces.push(name)[n] == name && pieces.push(dot)[n] == dot && pieces.push(none)[n] == none);
    assert(kept_parts(seq![name], 0) == Seq::<Seq<u8>>::empty());
    assert(path_parts(name) =~= seq![name]);
}

} // verus!
