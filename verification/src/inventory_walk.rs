//! Whole inventories: what a walk through a namespace or a worktree met, and what is listed of it.

use crate::errors::{io_failure, IoErrorKind, RepositoryImportError, RepositoryIoOperation};
use crate::git_output::MAX_TREE_DEPTH;
use crate::identity::FilesystemDirectoryIdentity;
use crate::manifest::{NamespaceKind, NamespaceSeal};
use crate::namespace::{
    is_git_entry, namespace_error, namespace_failure, source_child_error, DirectorySeal, HashedFile, NamespaceChild,
    NamespaceInventory, NamespacePolicy, SourceChild, SourceInventory, SourceStep, MAX_CONTROL_ENTRIES,
};
use crate::sorting::keys_in_order;
use crate::source_tree::{MAX_RETAINED_PATH_BYTES, MAX_SOURCE_ENTRIES};
use crate::target_worktree::{control_name, TargetChild, WorktreeWalk, MAX_WALKED_ENTRIES};
use crate::text::text_of_bytes;
use crate::text_map::TextMap;
use crate::tree_walk::{
    children_before, entered_before, enters_child, event_name, event_parent, event_path, named_bytes, names_child,
    open_directories, open_directories_were_entered, Entered, TreeEvent,
};
use vstd::prelude::*;
use vstd::string::*;
use vstd::utf8::{decode_utf8, encode_utf8};

verus! {

/// What stood under a name in a namespace.
pub enum SealedChild {
    /// It could not be opened, or is neither a directory nor a regular file.
    Refused,
    /// A directory, which is the one at its path and could be listed, or not.
    Directory { identity: FilesystemDirectoryIdentity, holds: bool },
    /// A file, and what hashing it gave.
    File(Result<HashedFile, RepositoryImportError>),
}

impl Entered for SealedChild {
    open spec fn entered(&self, parent: Seq<u8>, name: Seq<char>) -> bool {
        self is Directory
    }
}

/// What a walk through a namespace saw.
pub struct NamespaceSighting {
    pub root_opened: bool,
    /// The root is the one at its path and could be listed.
    pub root_holds: bool,
    pub events: Vec<TreeEvent<SealedChild>>,
}

/// Why a walk through a namespace stops at event `i`, if it does.
pub open spec fn namespace_event_error(policy: NamespacePolicy, events: Seq<TreeEvent<SealedChild>>, i: int) -> Option<
    RepositoryImportError,
> {
    let failed = Some(namespace_failure(policy));
    let limit = Some(RepositoryImportError::ResourceLimit);
    let depth = open_directories(events, i).len();
    if depth == 0 {
        failed
    } else {
        match events[i] {
            TreeEvent::Leave { holds } => if holds {
                None
            } else {
                failed
            },
            TreeEvent::Child { name: None, .. } => failed,
            TreeEvent::Child { name: Some(_), child } => if named_bytes(events, i + 1) > MAX_RETAINED_PATH_BYTES
                || children_before(events, i) >= MAX_CONTROL_ENTRIES {
                limit
            } else {
                match child {
                    SealedChild::Refused => failed,
                    SealedChild::File(Err(error)) => Some(error),
                    SealedChild::File(Ok(_)) => None,
                    SealedChild::Directory { holds, .. } => if depth > MAX_TREE_DEPTH || children_before(events, i + 1)
                        >= MAX_CONTROL_ENTRIES {
                        limit
                    } else if !holds {
                        failed
                    } else {
                        None
                    },
                }
            },
        }
    }
}

/// The first event from `i` on at which a walk through a namespace stops, and why.
pub open spec fn namespace_walk_error(policy: NamespacePolicy, events: Seq<TreeEvent<SealedChild>>, i: int) -> Option<
    RepositoryImportError,
>
    decreases events.len() - i,
{
    if i >= events.len() {
        None
    } else if namespace_event_error(policy, events, i) is Some {
        namespace_event_error(policy, events, i)
    } else {
        namespace_walk_error(policy, events, i + 1)
    }
}

/// Why a namespace has no inventory, if it has none.
pub open spec fn inventory_error(policy: NamespacePolicy, seen: NamespaceSighting) -> Option<RepositoryImportError> {
    let failed = Some(namespace_failure(policy));
    if !seen.root_opened || !seen.root_holds {
        failed
    } else if namespace_walk_error(policy, seen.events@, 0) is Some {
        namespace_walk_error(policy, seen.events@, 0)
    } else if open_directories(seen.events@, seen.events@.len() as int).len() != 0 {
        failed
    } else {
        None
    }
}

/// A seal says what event `i` found.
pub open spec fn seals_event(seal: NamespaceSeal, events: Seq<TreeEvent<SealedChild>>, i: int) -> bool {
    &&& encode_utf8(seal.relative_path@) == event_path(events, i)
    &&& match events[i]->child {
        SealedChild::Directory { identity, .. } => seal.kind == NamespaceKind::Directory(identity) && seal.size == 0
            && seal.sha256 is None,
        SealedChild::File(Ok(file)) => seal.kind == NamespaceKind::File(file.identity) && seal.size == file.size
            && seal.sha256 == Some(file.sha256),
        _ => false,
    }
}

/// There is one seal for each of the first `n` events that name something, in their order.
pub open spec fn sealed_in_order(seals: Seq<NamespaceSeal>, events: Seq<TreeEvent<SealedChild>>, n: int) -> bool {
    &&& seals.len() == children_before(events, n)
    &&& forall|i: int|
        i < n && #[trigger] names_child(events, i) ==> seals_event(seals[children_before(events, i) as int], events, i)
}

/// The child of an earlier event comes earlier.
proof fn children_grow<C>(events: Seq<TreeEvent<C>>, i: int, n: int)
    requires
        0 <= i < n <= events.len(),
        events[i] is Child,
    ensures
        children_before(events, i) < children_before(events, n),
    decreases n - i,
{
    if i < n - 1 {
        children_grow(events, i, n - 1);
    }
}

/// The directories that are open before event `n`.
spec fn open_state<C: Entered>(events: Seq<TreeEvent<C>>, n: int, open: Seq<String>) -> bool {
    &&& open.len() == open_directories(events, n).len()
    &&& forall|k: int| 0 <= k < open.len() ==> encode_utf8((#[trigger] open[k])@) == open_directories(events, n)[k]
}

/// The state of an inventory before event `n`.
spec fn namespace_state(
    policy: NamespacePolicy,
    events: Seq<TreeEvent<SealedChild>>,
    n: int,
    inventory: NamespaceInventory,
    open: Seq<String>,
) -> bool {
    &&& inventory.policy == policy
    &&& inventory.path_bytes == named_bytes(events, n)
    &&& sealed_in_order(inventory.seals@, events, n)
    &&& open_state(events, n, open)
}

/// Take one event of a walk through a namespace.
fn take_namespace_event(
    inventory: &mut NamespaceInventory,
    open: &mut Vec<String>,
    events: &Vec<TreeEvent<SealedChild>>,
    i: usize,
) -> (r: Result<(), RepositoryImportError>)
    requires
        i < events@.len(),
        old(inventory).path_bytes <= MAX_RETAINED_PATH_BYTES,
        namespace_state(old(inventory).policy, events@, i as int, *old(inventory), old(open)@),
    ensures
        match namespace_event_error(old(inventory).policy, events@, i as int) {
            Some(failure) => r matches Err(error) && error == failure,
            None => {
                &&& r is Ok
                &&& final(inventory).path_bytes <= MAX_RETAINED_PATH_BYTES
                &&& namespace_state(old(inventory).policy, events@, i + 1, *final(inventory), final(open)@)
            },
        },
{
    let depth: usize = open.len();
    if depth == 0 {
        return Err(namespace_error(inventory.policy));
    }
    let ghost held = open@;
    let ghost sealed = inventory.seals@;
    match &events[i] {
        TreeEvent::Leave { holds } => {
            inventory.leave_directory(*holds)?;
            let _ = open.pop();
            assert(open@ =~= held.drop_last());
            Ok(())
        },
        TreeEvent::Child { name, child } => {
            let text: Option<&str> = match name {
                Some(name) => Some(name.as_str()),
                None => None,
            };
            let path = inventory.account_child(open[depth - 1].as_str(), text)?;
            assert(encode_utf8(path@) == event_path(events@, i as int));
            match child {
                SealedChild::Refused => inventory.record_child(path, NamespaceChild::Refused),
                SealedChild::File(Err(error)) => Err(*error),
                SealedChild::File(Ok(file)) => {
                    inventory.record_child(path, NamespaceChild::File(*file))?;
                    proof {
                        one_more_seal(sealed, inventory.seals@, events@, i as int);
                    }
                    Ok(())
                },
                SealedChild::Directory { identity, holds } => {
                    let inner = path.clone();
                    inventory.record_child(path, NamespaceChild::Directory(*identity))?;
                    proof {
                        one_more_seal(sealed, inventory.seals@, events@, i as int);
                    }
                    inventory.enter_directory(depth, *holds)?;
                    open.push(inner);
                    assert(open@ =~= held.push(inner));
                    Ok(())
                },
            }
        },
    }
}

proof fn one_more_seal(before: Seq<NamespaceSeal>, after: Seq<NamespaceSeal>, events: Seq<TreeEvent<SealedChild>>, i: int)
    requires
        0 <= i < events.len(),
        names_child(events, i),
        sealed_in_order(before, events, i),
        after.len() == before.len() + 1,
        after.drop_last() == before,
        seals_event(after.last(), events, i),
    ensures
        sealed_in_order(after, events, i + 1),
{
    assert forall|j: int| j < i + 1 && #[trigger] names_child(events, j) implies seals_event(
        after[children_before(events, j) as int],
        events,
        j,
    ) by {
        if j < i {
            children_grow(events, j, i);
            assert(after[children_before(events, j) as int] == before[children_before(events, j) as int]);
        }
    }
}

/// List a namespace: everything below its root, in the order of the paths.
pub fn inventory_namespace(policy: NamespacePolicy, seen: &NamespaceSighting) -> (r: Result<
    Vec<NamespaceSeal>,
    RepositoryImportError,
>)
    ensures
        match inventory_error(policy, *seen) {
            Some(failure) => r matches Err(error) && error == failure,
            None => {
                &&& r matches Ok(seals)
                &&& keys_in_order(seals@)
                &&& exists|found: Seq<NamespaceSeal>| #[trigger]
                    sealed_in_order(found, seen.events@, seen.events@.len() as int) && seals@.to_multiset()
                        == found.to_multiset()
            },
        },
{
    if !seen.root_opened {
        return Err(namespace_error(policy));
    }
    let mut inventory = NamespaceInventory::begin(policy);
    inventory.enter_directory(0, seen.root_holds)?;
    let mut open: Vec<String> = Vec::new();
    open.push("".to_owned());
    proof {
        reveal_strlit("");
        assert(encode_utf8(""@) =~= Seq::<u8>::empty());
    }
    let mut i: usize = 0;
    while i < seen.events.len()
        invariant
            seen.root_opened,
            seen.root_holds,
            i <= seen.events@.len(),
            inventory.policy == policy,
            inventory.path_bytes <= MAX_RETAINED_PATH_BYTES,
            namespace_state(policy, seen.events@, i as int, inventory, open@),
            namespace_walk_error(policy, seen.events@, 0) == namespace_walk_error(policy, seen.events@, i as int),
        decreases seen.events@.len() - i,
    {
        take_namespace_event(&mut inventory, &mut open, &seen.events, i)?;
        i = i + 1;
    }
    let ghost found = inventory.seals@;
    assert(sealed_in_order(found, seen.events@, seen.events@.len() as int));
    inventory.finish(open.len() == 0)
}

proof fn every_namespace_event_passes(policy: NamespacePolicy, events: Seq<TreeEvent<SealedChild>>, from: int, i: int)
    requires
        namespace_walk_error(policy, events, from) is None,
        0 <= from <= i < events.len(),
    ensures
        namespace_event_error(policy, events, i) is None,
    decreases i - from,
{
    if from < i {
        every_namespace_event_passes(policy, events, from + 1, i);
    }
}

/// An inventory has no gaps: everything in it stands in the root or in a directory that is in it too,
/// and nothing was refused.
pub proof fn inventory_has_no_gaps(policy: NamespacePolicy, seen: NamespaceSighting)
    requires
        inventory_error(policy, seen) is None,
    ensures
        forall|i: int| #[trigger]
            names_child(seen.events@, i) ==> entered_before(seen.events@, event_parent(seen.events@, i), i)
                && !(seen.events@[i]->child is Refused),
        children_before(seen.events@, seen.events@.len() as int) <= MAX_CONTROL_ENTRIES,
{
    let events = seen.events@;
    assert forall|i: int| #[trigger] names_child(events, i) implies entered_before(events, event_parent(events, i), i) && !(
    events[i]->child is Refused) by {
        every_namespace_event_passes(policy, events, 0, i);
        open_directories_were_entered(events, i, open_directories(events, i).len() - 1);
    }
    children_are_bounded(policy, events, events.len() as int);
}

proof fn children_are_bounded(policy: NamespacePolicy, events: Seq<TreeEvent<SealedChild>>, n: int)
    requires
        namespace_walk_error(policy, events, 0) is None,
        n <= events.len(),
    ensures
        children_before(events, n) <= MAX_CONTROL_ENTRIES,
    decreases n,
{
    if n > 0 {
        children_are_bounded(policy, events, n - 1);
        every_namespace_event_passes(policy, events, 0, n - 1);
    }
}

/// What stood under a name in a source worktree.
pub struct SourceEntry {
    pub seen: SourceChild,
    /// A directory could be listed.
    pub listed: Result<(), IoErrorKind>,
}

impl Entered for SourceEntry {
    open spec fn entered(&self, parent: Seq<u8>, name: Seq<char>) -> bool {
        self.seen is Directory && !is_git_entry(decode_utf8(parent), name)
    }
}

/// What a walk through a source worktree saw.
pub struct SourceSighting {
    pub root_opened: bool,
    /// The root is the one at its path.
    pub root_holds: bool,
    /// The root could be listed.
    pub root_listed: Result<(), IoErrorKind>,
    pub events: Vec<TreeEvent<SourceEntry>>,
}

/// Why a walk through a source worktree stops at event `i`, if it does.
pub open spec fn source_event_error(
    git_identity: FilesystemDirectoryIdentity,
    events: Seq<TreeEvent<SourceEntry>>,
    i: int,
) -> Option<RepositoryImportError> {
    let changed = Some(RepositoryImportError::SourceChanged);
    let limit = Some(RepositoryImportError::ResourceLimit);
    let depth = open_directories(events, i).len();
    if depth == 0 {
        changed
    } else {
        match events[i] {
            TreeEvent::Leave { holds } => if holds {
                None
            } else {
                changed
            },
            TreeEvent::Child { name, child } => if children_before(events, i + 1) > 2 * MAX_SOURCE_ENTRIES {
                limit
            } else if name is None {
                Some(RepositoryImportError::UnsafeSourceEntry)
            } else if named_bytes(events, i + 1) > MAX_RETAINED_PATH_BYTES {
                limit
            } else {
                let refusal = source_child_error(
                    git_identity,
                    decode_utf8(event_parent(events, i)),
                    event_name(events, i),
                    child.seen,
                );
                if refusal is Some {
                    refusal
                } else if !enters_child(events, i) {
                    None
                } else if depth > MAX_TREE_DEPTH {
                    limit
                } else if !child.seen->Directory_binding_holds {
                    changed
                } else {
                    match child.listed {
                        Ok(()) => None,
                        Err(kind) => Some(io_failure(RepositoryIoOperation::InspectNamespace, kind)),
                    }
                }
            },
        }
    }
}

/// The first event from `i` on at which a walk through a source worktree stops, and why.
pub open spec fn source_walk_error(
    git_identity: FilesystemDirectoryIdentity,
    events: Seq<TreeEvent<SourceEntry>>,
    i: int,
) -> Option<RepositoryImportError>
    decreases events.len() - i,
{
    if i >= events.len() {
        None
    } else if source_event_error(git_identity, events, i) is Some {
        source_event_error(git_identity, events, i)
    } else {
        source_walk_error(git_identity, events, i + 1)
    }
}

/// Why a source worktree has no inventory, if it has none.
pub open spec fn source_inventory_error(git_identity: FilesystemDirectoryIdentity, seen: SourceSighting) -> Option<
    RepositoryImportError,
> {
    let changed = Some(RepositoryImportError::SourceChanged);
    if !seen.root_opened {
        Some(RepositoryImportError::UnsupportedSourceRepository)
    } else if !seen.root_holds {
        changed
    } else if seen.root_listed is Err {
        Some(io_failure(RepositoryIoOperation::InspectNamespace, seen.root_listed->Err_0))
    } else if source_walk_error(git_identity, seen.events@, 0) is Some {
        source_walk_error(git_identity, seen.events@, 0)
    } else if open_directories(seen.events@, seen.events@.len() as int).len() != 0 {
        changed
    } else {
        None
    }
}

/// Event `i` found a file.
pub open spec fn finds_source_file(events: Seq<TreeEvent<SourceEntry>>, i: int) -> bool {
    names_child(events, i) && events[i]->child.seen is File
}

/// One of the first `n` events found a file under a path.
pub open spec fn source_file_listed(events: Seq<TreeEvent<SourceEntry>>, path: Seq<char>, n: int) -> bool {
    exists|i: int| i < n && #[trigger] finds_source_file(events, i) && event_path(events, i) == encode_utf8(path)
}

/// How many of the first `n` events enter a directory.
pub open spec fn entered_count<C: Entered>(events: Seq<TreeEvent<C>>, n: int) -> nat
    decreases n,
{
    if n <= 0 {
        0
    } else {
        entered_count(events, n - 1) + if enters_child(events, n - 1) {
            1
        } else {
            0nat
        }
    }
}

/// There is one seal for each of the first `n` events that enter a directory, in their order.
pub open spec fn directories_in_order(seals: Seq<DirectorySeal>, events: Seq<TreeEvent<SourceEntry>>, n: int) -> bool {
    &&& seals.len() == entered_count(events, n)
    &&& forall|i: int|
        i < n && #[trigger] enters_child(events, i) ==> {
            let seal = seals[entered_count(events, i) as int];
            encode_utf8(seal.relative_path@) == event_path(events, i) && seal.identity
                == events[i]->child.seen->Directory_identity
        }
}

proof fn entered_grow<C: Entered>(events: Seq<TreeEvent<C>>, i: int, n: int)
    requires
        0 <= i < n <= events.len(),
        enters_child(events, i),
    ensures
        entered_count(events, i) < entered_count(events, n),
    decreases n - i,
{
    if i < n - 1 {
        entered_grow(events, i, n - 1);
    }
}

/// The state of a source inventory before event `n`.
spec fn source_state(
    git_identity: FilesystemDirectoryIdentity,
    events: Seq<TreeEvent<SourceEntry>>,
    n: int,
    inventory: SourceInventory,
    open: Seq<String>,
) -> bool {
    &&& inventory.wf()
    &&& inventory.git_identity == git_identity
    &&& inventory.entries == children_before(events, n)
    &&& inventory.path_bytes == named_bytes(events, n)
    &&& forall|path: Seq<char>| #[trigger] inventory.files@.dom().contains(path) == source_file_listed(events, path, n)
    &&& directories_in_order(inventory.directories@, events, n)
    &&& open_state(events, n, open)
}

proof fn source_file_step(events: Seq<TreeEvent<SourceEntry>>, path: Seq<char>, n: int)
    requires
        0 <= n < events.len(),
    ensures
        source_file_listed(events, path, n + 1) == (source_file_listed(events, path, n) || (finds_source_file(events, n)
            && event_path(events, n) == encode_utf8(path))),
{
    if source_file_listed(events, path, n + 1) {
        let i = choose|i: int| i < n + 1 && #[trigger] finds_source_file(events, i) && event_path(events, i) == encode_utf8(path);
        if i < n {
            assert(source_file_listed(events, path, n));
        }
    }
    if source_file_listed(events, path, n) {
        let i = choose|i: int| i < n && #[trigger] finds_source_file(events, i) && event_path(events, i) == encode_utf8(path);
        assert(finds_source_file(events, i));
    }
}

/// Take one event of a walk through a source worktree.
fn take_source_event(
    inventory: &mut SourceInventory,
    open: &mut Vec<String>,
    events: &Vec<TreeEvent<SourceEntry>>,
    i: usize,
) -> (r: Result<(), RepositoryImportError>)
    requires
        i < events@.len(),
        old(inventory).entries <= 2 * MAX_SOURCE_ENTRIES,
        old(inventory).path_bytes <= MAX_RETAINED_PATH_BYTES,
        source_state(old(inventory).git_identity, events@, i as int, *old(inventory), old(open)@),
    ensures
        match source_event_error(old(inventory).git_identity, events@, i as int) {
            Some(failure) => r matches Err(error) && error == failure,
            None => {
                &&& r is Ok
                &&& final(inventory).entries <= 2 * MAX_SOURCE_ENTRIES
                &&& final(inventory).path_bytes <= MAX_RETAINED_PATH_BYTES
                &&& source_state(old(inventory).git_identity, events@, i + 1, *final(inventory), final(open)@)
            },
        },
{
    let depth: usize = open.len();
    if depth == 0 {
        return Err(RepositoryImportError::SourceChanged);
    }
    let ghost held = open@;
    let ghost before = *inventory;
    proof {
        assert forall|path: Seq<char>| #[trigger] source_file_listed(events@, path, i + 1) == (source_file_listed(
            events@,
            path,
            i as int,
        ) || (finds_source_file(events@, i as int) && event_path(events@, i as int) == encode_utf8(path))) by {
            source_file_step(events@, path, i as int);
        }
    }
    match &events[i] {
        TreeEvent::Leave { holds } => {
            inventory.leave_directory(*holds)?;
            let _ = open.pop();
            assert(open@ =~= held.drop_last());
            Ok(())
        },
        TreeEvent::Child { name: None, .. } => {
            inventory.account_child(open[depth - 1].as_str(), None)?;
            Err(RepositoryImportError::UnsafeSourceEntry)
        },
        TreeEvent::Child { name: Some(name), child } => {
            let parent = open[depth - 1].as_str();
            let path = inventory.account_child(parent, Some(name.as_str()))?;
            let inner = path.clone();
            proof {
                text_of_bytes(parent@);
                assert(decode_utf8(event_parent(events@, i as int)) == parent@);
                assert(encode_utf8(path@) == event_path(events@, i as int));
            }
            let step = inventory.record_child(parent, name.as_str(), path, child.seen)?;
            proof {
                assert forall|p: Seq<char>| #[trigger] inventory.files@.dom().contains(p) == source_file_listed(
                    events@,
                    p,
                    i + 1,
                ) by {
                    assert(before.files@.dom().contains(p) == source_file_listed(events@, p, i as int));
                    if encode_utf8(p) == encode_utf8(inner@) {
                        crate::text::encoding_is_injective(p, inner@);
                    }
                }
                assert forall|j: int| j < i + 1 && #[trigger] enters_child(events@, j) implies {
                    let seal = inventory.directories@[entered_count(events@, j) as int];
                    encode_utf8(seal.relative_path@) == event_path(events@, j) && seal.identity
                        == events@[j]->child.seen->Directory_identity
                } by {
                    if j < i {
                        entered_grow(events@, j, i as int);
                        if enters_child(events@, i as int) {
                            assert(inventory.directories@[entered_count(events@, j) as int]
                                == inventory.directories@.drop_last()[entered_count(events@, j) as int]);
                        }
                    }
                }
            }
            match step {
                SourceStep::Descend => {
                    let (holds, listed) = match child.seen {
                        SourceChild::Directory { binding_holds, .. } => (binding_holds, child.listed),
                        _ => (false, Ok(())),
                    };
                    inventory.enter_directory(depth, holds, listed)?;
                    open.push(inner);
                    assert(open@ =~= held.push(inner));
                    Ok(())
                },
                SourceStep::PassOver | SourceStep::Listed => Ok(()),
            }
        },
    }
}

/// List a source worktree: its files, and its directories in the order of their paths. The control
/// directory at its top must be the expected one, and is passed over.
pub fn inventory_source_worktree(git_identity: FilesystemDirectoryIdentity, seen: &SourceSighting) -> (r: Result<
    (TextMap<()>, Vec<DirectorySeal>),
    RepositoryImportError,
>)
    ensures
        match source_inventory_error(git_identity, *seen) {
            Some(failure) => r matches Err(error) && error == failure,
            None => {
                let events = seen.events@;
                &&& r matches Ok((files, directories))
                &&& files.wf()
                &&& forall|path: Seq<char>| #[trigger]
                    files@.dom().contains(path) == source_file_listed(events, path, events.len() as int)
                &&& keys_in_order(directories@)
                &&& exists|found: Seq<DirectorySeal>| #[trigger]
                    directories_in_order(found, events, events.len() as int) && directories@.to_multiset()
                        == found.to_multiset()
            },
        },
{
    if !seen.root_opened {
        return Err(RepositoryImportError::UnsupportedSourceRepository);
    }
    let mut inventory = SourceInventory::begin(git_identity);
    inventory.enter_directory(0, seen.root_holds, seen.root_listed)?;
    let mut open: Vec<String> = Vec::new();
    open.push("".to_owned());
    proof {
        reveal_strlit("");
        assert(encode_utf8(""@) =~= Seq::<u8>::empty());
    }
    let mut i: usize = 0;
    while i < seen.events.len()
        invariant
            seen.root_opened,
            seen.root_holds,
            seen.root_listed is Ok,
            i <= seen.events@.len(),
            inventory.git_identity == git_identity,
            inventory.entries <= 2 * MAX_SOURCE_ENTRIES,
            inventory.path_bytes <= MAX_RETAINED_PATH_BYTES,
            source_state(git_identity, seen.events@, i as int, inventory, open@),
            source_walk_error(git_identity, seen.events@, 0) == source_walk_error(git_identity, seen.events@, i as int),
        decreases seen.events@.len() - i,
    {
        take_source_event(&mut inventory, &mut open, &seen.events, i)?;
        i = i + 1;
    }
    inventory.leave_directory(open.len() == 0)?;
    let ghost found = inventory.directories@;
    assert(directories_in_order(found, seen.events@, seen.events@.len() as int));
    Ok(inventory.finish())
}

/// A source inventory has no gaps: everything in it stands in the root or in a directory that is in it
/// too.
pub proof fn source_inventory_has_no_gaps(git_identity: FilesystemDirectoryIdentity, seen: SourceSighting)
    requires
        source_inventory_error(git_identity, seen) is None,
    ensures
        forall|i: int| #[trigger]
            names_child(seen.events@, i) ==> entered_before(seen.events@, event_parent(seen.events@, i), i),
{
    let events = seen.events@;
    assert forall|i: int| #[trigger] names_child(events, i) implies entered_before(events, event_parent(events, i), i) by {
        every_source_event_passes(git_identity, events, 0, i);
        open_directories_were_entered(events, i, open_directories(events, i).len() - 1);
    }
}

proof fn every_source_event_passes(
    git_identity: FilesystemDirectoryIdentity,
    events: Seq<TreeEvent<SourceEntry>>,
    from: int,
    i: int,
)
    requires
        source_walk_error(git_identity, events, from) is None,
        0 <= from <= i < events.len(),
    ensures
        source_event_error(git_identity, events, i) is None,
    decreases i - from,
{
    if from < i {
        every_source_event_passes(git_identity, events, from + 1, i);
    }
}

/// What stood under a name in the worktree of a target.
pub struct TargetEntry {
    pub seen: TargetChild,
    /// A directory could be listed.
    pub readable: bool,
}

impl Entered for TargetEntry {
    open spec fn entered(&self, parent: Seq<u8>, name: Seq<char>) -> bool {
        self.seen is Directory && !control_name(decode_utf8(parent), name)
    }
}

/// What a walk through the worktree of a target saw.
pub struct TargetSighting {
    pub root_opened: bool,
    /// The root is the one at its path and could be listed.
    pub root_holds: bool,
    pub events: Vec<TreeEvent<TargetEntry>>,
}

/// What stood under a name may stand there: a control directory at the top that is the one at its path,
/// where Git's only if it is expected; elsewhere a directory, or a file that is the one at its path.
pub open spec fn target_child_passes(git_required: bool, parent: Seq<char>, name: Seq<char>, child: TargetChild) -> bool {
    if control_name(parent, name) {
        child == (TargetChild::Directory { binding_holds: true }) && (name == ".git"@ ==> git_required)
    } else {
        child is Directory || child == (TargetChild::File { binding_holds: true })
    }
}

/// Why a walk through the worktree of a target stops at event `i`, if it does.
pub open spec fn target_event_error(git_required: bool, events: Seq<TreeEvent<TargetEntry>>, i: int) -> Option<
    RepositoryImportError,
> {
    let failed = Some(RepositoryImportError::TargetAuditFailed);
    let limit = Some(RepositoryImportError::ResourceLimit);
    let depth = open_directories(events, i).len();
    if depth == 0 {
        failed
    } else {
        match events[i] {
            TreeEvent::Leave { holds } => if holds {
                None
            } else {
                failed
            },
            TreeEvent::Child { name, child } => if children_before(events, i + 1) > MAX_WALKED_ENTRIES {
                limit
            } else if name is None {
                failed
            } else if named_bytes(events, i + 1) > MAX_RETAINED_PATH_BYTES {
                limit
            } else if !target_child_passes(
                git_required,
                decode_utf8(event_parent(events, i)),
                event_name(events, i),
                child.seen,
            ) {
                failed
            } else if !enters_child(events, i) {
                None
            } else if depth > MAX_TREE_DEPTH {
                limit
            } else if !child.seen->Directory_binding_holds || !child.readable {
                failed
            } else {
                None
            },
        }
    }
}

/// The first event from `i` on at which a walk through the worktree of a target stops, and why.
pub open spec fn target_walk_error(git_required: bool, events: Seq<TreeEvent<TargetEntry>>, i: int) -> Option<
    RepositoryImportError,
>
    decreases events.len() - i,
{
    if i >= events.len() {
        None
    } else if target_event_error(git_required, events, i) is Some {
        target_event_error(git_required, events, i)
    } else {
        target_walk_error(git_required, events, i + 1)
    }
}

/// Why the worktree of a target has no listing, if it has none.
pub open spec fn target_listing_error(git_required: bool, seen: TargetSighting) -> Option<RepositoryImportError> {
    let failed = Some(RepositoryImportError::TargetAuditFailed);
    if !seen.root_opened || !seen.root_holds {
        failed
    } else if target_walk_error(git_required, seen.events@, 0) is Some {
        target_walk_error(git_required, seen.events@, 0)
    } else if open_directories(seen.events@, seen.events@.len() as int).len() != 0 {
        failed
    } else {
        None
    }
}

/// Event `i` found a file.
pub open spec fn finds_target_file(events: Seq<TreeEvent<TargetEntry>>, i: int) -> bool {
    names_child(events, i) && events[i]->child.seen is File
}

/// One of the first `n` events found a file under a path.
pub open spec fn target_file_listed(events: Seq<TreeEvent<TargetEntry>>, path: Seq<char>, n: int) -> bool {
    exists|i: int| i < n && #[trigger] finds_target_file(events, i) && event_path(events, i) == encode_utf8(path)
}

/// One of the first `n` events entered a directory.
pub open spec fn target_directory_listed(events: Seq<TreeEvent<TargetEntry>>, path: Seq<char>, n: int) -> bool {
    exists|i: int| i < n && #[trigger] enters_child(events, i) && event_path(events, i) == encode_utf8(path)
}

/// The state of a walk through the worktree of a target before event `n`.
spec fn target_state(
    git_required: bool,
    events: Seq<TreeEvent<TargetEntry>>,
    n: int,
    walk: WorktreeWalk,
    open: Seq<String>,
) -> bool {
    &&& walk.wf()
    &&& walk.git_required == git_required
    &&& walk.entries == children_before(events, n)
    &&& walk.path_bytes == named_bytes(events, n)
    &&& forall|path: Seq<char>| #[trigger] walk.files@.dom().contains(path) == target_file_listed(events, path, n)
    &&& forall|path: Seq<char>| #[trigger] walk.directories@.dom().contains(path) == target_directory_listed(events, path, n)
    &&& open_state(events, n, open)
}

proof fn target_step(events: Seq<TreeEvent<TargetEntry>>, path: Seq<char>, n: int)
    requires
        0 <= n < events.len(),
    ensures
        target_file_listed(events, path, n + 1) == (target_file_listed(events, path, n) || (finds_target_file(events, n)
            && event_path(events, n) == encode_utf8(path))),
        target_directory_listed(events, path, n + 1) == (target_directory_listed(events, path, n) || (enters_child(events, n)
            && event_path(events, n) == encode_utf8(path))),
{
    let text = encode_utf8(path);
    if target_file_listed(events, path, n + 1) {
        let i = choose|i: int| i < n + 1 && #[trigger] finds_target_file(events, i) && event_path(events, i) == text;
        if i < n {
            assert(target_file_listed(events, path, n));
        }
    }
    if target_file_listed(events, path, n) {
        let i = choose|i: int| i < n && #[trigger] finds_target_file(events, i) && event_path(events, i) == text;
        assert(finds_target_file(events, i));
    }
    if target_directory_listed(events, path, n + 1) {
        let i = choose|i: int| i < n + 1 && #[trigger] enters_child(events, i) && event_path(events, i) == text;
        if i < n {
            assert(target_directory_listed(events, path, n));
        }
    }
    if target_directory_listed(events, path, n) {
        let i = choose|i: int| i < n && #[trigger] enters_child(events, i) && event_path(events, i) == text;
        assert(enters_child(events, i));
    }
}

/// Take one event of a walk through the worktree of a target.
fn take_target_event(walk: &mut WorktreeWalk, open: &mut Vec<String>, events: &Vec<TreeEvent<TargetEntry>>, i: usize) -> (r: Result<
    (),
    RepositoryImportError,
>)
    requires
        i < events@.len(),
        old(walk).entries <= MAX_WALKED_ENTRIES,
        old(walk).path_bytes <= MAX_RETAINED_PATH_BYTES,
        target_state(old(walk).git_required, events@, i as int, *old(walk), old(open)@),
    ensures
        match target_event_error(old(walk).git_required, events@, i as int) {
            Some(failure) => r matches Err(error) && error == failure,
            None => {
                &&& r is Ok
                &&& final(walk).entries <= MAX_WALKED_ENTRIES
                &&& final(walk).path_bytes <= MAX_RETAINED_PATH_BYTES
                &&& target_state(old(walk).git_required, events@, i + 1, *final(walk), final(open)@)
            },
        },
{
    let depth: usize = open.len();
    if depth == 0 {
        return Err(RepositoryImportError::TargetAuditFailed);
    }
    let ghost held = open@;
    let ghost before = *walk;
    match &events[i] {
        TreeEvent::Leave { holds } => {
            walk.leave_directory(*holds)?;
            let _ = open.pop();
            proof {
                assert(open@ =~= held.drop_last());
                assert forall|p: Seq<char>| #[trigger] walk.files@.dom().contains(p) == target_file_listed(events@, p, i + 1) by {
                    target_step(events@, p, i as int);
                }
                assert forall|p: Seq<char>| #[trigger] walk.directories@.dom().contains(p) == target_directory_listed(
                    events@,
                    p,
                    i + 1,
                ) by {
                    target_step(events@, p, i as int);
                }
            }
            Ok(())
        },
        TreeEvent::Child { name: None, .. } => {
            walk.account_child(open[depth - 1].as_str(), None)?;
            Err(RepositoryImportError::TargetAuditFailed)
        },
        TreeEvent::Child { name: Some(name), child } => {
            let parent = open[depth - 1].as_str();
            let path = walk.account_child(parent, Some(name.as_str()))?;
            let inner = path.clone();
            proof {
                text_of_bytes(parent@);
                assert(decode_utf8(event_parent(events@, i as int)) == parent@);
                assert(encode_utf8(path@) == event_path(events@, i as int));
            }
            let descend = walk.record_child(parent, name.as_str(), path, child.seen)?;
            proof {
                assert forall|p: Seq<char>| #[trigger] walk.files@.dom().contains(p) == target_file_listed(events@, p, i + 1) by {
                    target_step(events@, p, i as int);
                    assert(before.files@.dom().contains(p) == target_file_listed(events@, p, i as int));
                    if encode_utf8(p) == encode_utf8(inner@) {
                        crate::text::encoding_is_injective(p, inner@);
                    }
                }
                assert forall|p: Seq<char>| #[trigger] walk.directories@.dom().contains(p) == target_directory_listed(
                    events@,
                    p,
                    i + 1,
                ) by {
                    target_step(events@, p, i as int);
                    assert(before.directories@.dom().contains(p) == target_directory_listed(events@, p, i as int));
                    if encode_utf8(p) == encode_utf8(inner@) {
                        crate::text::encoding_is_injective(p, inner@);
                    }
                }
            }
            if descend {
                let holds = match child.seen {
                    TargetChild::Directory { binding_holds } => binding_holds,
                    _ => false,
                };
                walk.enter_directory(depth, holds, child.readable)?;
                open.push(inner);
                assert(open@ =~= held.push(inner));
            }
            Ok(())
        },
    }
}

/// List the worktree of a target: its files and its directories, without the control directories at its
/// top.
pub fn walk_target_worktree(git_required: bool, seen: &TargetSighting) -> (r: Result<WorktreeWalk, RepositoryImportError>)
    ensures
        match target_listing_error(git_required, *seen) {
            Some(failure) => r matches Err(error) && error == failure,
            None => {
                let events = seen.events@;
                &&& r matches Ok(walk)
                &&& walk.wf()
                &&& forall|path: Seq<char>| #[trigger]
                    walk.files@.dom().contains(path) == target_file_listed(events, path, events.len() as int)
                &&& forall|path: Seq<char>| #[trigger]
                    walk.directories@.dom().contains(path) == target_directory_listed(events, path, events.len() as int)
            },
        },
{
    let mut walk = WorktreeWalk::begin(git_required);
    walk.leave_directory(seen.root_opened)?;
    walk.enter_directory(0, seen.root_holds, true)?;
    let mut open: Vec<String> = Vec::new();
    open.push("".to_owned());
    proof {
        reveal_strlit("");
        assert(encode_utf8(""@) =~= Seq::<u8>::empty());
    }
    let mut i: usize = 0;
    while i < seen.events.len()
        invariant
            seen.root_opened,
            seen.root_holds,
            i <= seen.events@.len(),
            walk.git_required == git_required,
            walk.entries <= MAX_WALKED_ENTRIES,
            walk.path_bytes <= MAX_RETAINED_PATH_BYTES,
            target_state(git_required, seen.events@, i as int, walk, open@),
            target_walk_error(git_required, seen.events@, 0) == target_walk_error(git_required, seen.events@, i as int),
        decreases seen.events@.len() - i,
    {
        take_target_event(&mut walk, &mut open, &seen.events, i)?;
        i = i + 1;
    }
    walk.leave_directory(open.len() == 0)?;
    Ok(walk)
}

/// A listing of the worktree of a target has no gaps: every file and directory in it stands in the root or
/// in a directory that is in it too.
pub proof fn target_listing_has_no_gaps(git_required: bool, seen: TargetSighting)
    requires
        target_listing_error(git_required, seen) is None,
    ensures
        forall|i: int| #[trigger]
            names_child(seen.events@, i) ==> entered_before(seen.events@, event_parent(seen.events@, i), i),
{
    let events = seen.events@;
    assert forall|i: int| #[trigger] names_child(events, i) implies entered_before(events, event_parent(events, i), i) by {
        every_target_event_passes(git_required, events, 0, i);
        open_directories_were_entered(events, i, open_directories(events, i).len() - 1);
    }
}

proof fn every_target_event_passes(git_required: bool, events: Seq<TreeEvent<TargetEntry>>, from: int, i: int)
    requires
        target_walk_error(git_required, events, from) is None,
        0 <= from <= i < events.len(),
    ensures
        target_event_error(git_required, events, i) is None,
    decreases i - from,
{
    if from < i {
        every_target_event_passes(git_required, events, from + 1, i);
    }
}

} // verus!
