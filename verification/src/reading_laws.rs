//! How files are read and directories are walked: what must hold before, while and after.

use crate::errors::RepositoryImportError;
use crate::held_reading::{
    all_directories, bound_reading_error, leads_to_directory, leads_to_file, lexical_names, relative_reading_error,
    BoundReading, LexicalPart, OpenedKind, PlaceKind, RelativeReading,
};
use crate::identity::FilesystemDirectoryIdentity;
use crate::manifest::{NamespaceKind, NamespaceSeal};
use crate::namespace::{
    advanced, hashing_end_error, hashing_start_error, is_git_entry, joined_names, namespace_failure, saturated,
    seal_says, source_child_error, FileHashing, FileSighting, NamespaceChild, NamespacePolicy, PathPart, SourceChild,
    MAX_CONTROL_ENTRIES, MAX_TARGET_FILE_BYTES,
};
use vstd::prelude::*;
use vstd::string::*;

verus! {

/// A path leads to a file where each of its parts is a name, each but the last opened as a directory, and the
/// last as a file; and to a directory where each opened as one.
pub proof fn where_paths_lead(parts: Seq<PathPart<'_>>, opened: Seq<OpenedKind>)
    ensures
        leads_to_file(parts, opened) <==> {
            &&& parts.len() > 0 && opened.len() == parts.len()
            &&& forall|i: int| 0 <= i < parts.len() ==> (#[trigger] parts[i]) is Normal
            &&& forall|i: int| 0 <= i < opened.len() - 1 ==> (#[trigger] opened[i]) is Directory
            &&& opened[opened.len() - 1] is File
        },
        leads_to_directory(parts, opened) <==> {
            &&& opened.len() == parts.len()
            &&& forall|i: int| 0 <= i < parts.len() ==> (#[trigger] parts[i]) is Normal
            &&& forall|i: int| 0 <= i < opened.len() ==> (#[trigger] opened[i]) is Directory
        },
{
    if leads_to_directory(parts, opened) {
        assert forall|i: int| 0 <= i < opened.len() implies (#[trigger] opened[i]) is Directory by {
            assert(parts[i] is Normal);
        }
    }
}

/// A file is read below a root exactly where the path leads to it, its length is known and within the bound,
/// it is the same file under its name before and after, exactly its length was read, and every directory on
/// the way still holds. One that is too long is told as such.
pub proof fn files_are_read_below_a_root(
    parts: Seq<PathPart<'_>>,
    reading: RelativeReading,
    maximum: u64,
    unsafe_error: RepositoryImportError,
    limit_error: RepositoryImportError,
)
    ensures
        relative_reading_error(parts, reading, maximum, unsafe_error, limit_error) is None <==> {
            &&& reading.root_opened
            &&& leads_to_file(parts, reading.opened@)
            &&& reading.before.length is Some && reading.before.length->Some_0 <= maximum
            &&& reading.before.binding_holds && reading.before.identity is Some
            &&& reading.body@.len() == reading.before.length->Some_0 && !reading.more
            &&& reading.after.binding_holds && reading.after.identity is Some
            &&& reading.after.identity->Some_0.scheme == reading.before.identity->Some_0.scheme
            &&& reading.after.identity->Some_0.wire@ == reading.before.identity->Some_0.wire@
            &&& reading.directories_hold
        },
        reading.root_opened && leads_to_file(parts, reading.opened@) && reading.before.length is Some && reading.before.length->Some_0
            > maximum ==> relative_reading_error(parts, reading, maximum, unsafe_error, limit_error) == Some(limit_error),
        !reading.root_opened || !leads_to_file(parts, reading.opened@) ==> relative_reading_error(
            parts,
            reading,
            maximum,
            unsafe_error,
            limit_error,
        ) == Some(unsafe_error),
{
}

/// A bound file is read exactly where its length is known and within the bound, it opened, it is the only one
/// under its name before and after and has no other stream, exactly its length was read, and it is the same
/// file afterwards.
pub proof fn bound_files_are_read(reading: BoundReading, maximum: usize, unsafe_error: RepositoryImportError)
    ensures
        bound_reading_error(reading, maximum, unsafe_error) is None <==> {
            &&& reading.length is Some && reading.length->Some_0 <= maximum
            &&& reading.opened is Ok
            &&& reading.sole_before && reading.sole_stream && reading.sole_after
            &&& reading.identity is Some && reading.identity_after is Some
            &&& reading.identity_after->Some_0.scheme == reading.identity->Some_0.scheme
            &&& reading.identity_after->Some_0.wire@ == reading.identity->Some_0.wire@
            &&& reading.bytes is Ok && reading.bytes->Ok_0@.len() == reading.length->Some_0
        },
{
}

/// A path is made absolute from left to right: the root begins anew, a dot changes nothing, two dots take the
/// last name away, and there must be one; a name is added.
pub proof fn absolute_paths<'a>(parts: Seq<LexicalPart<'a>>, n: int, names: Seq<&'a str>)
    requires
        0 <= n < parts.len(),
        lexical_names(parts, n) == Some(names),
    ensures
        lexical_names(parts, 0) == Some(Seq::<&'a str>::empty()),
        parts[n] is Root ==> lexical_names(parts, n + 1) == Some(Seq::<&'a str>::empty()),
        parts[n] is Current ==> lexical_names(parts, n + 1) == Some(names),
        parts[n] is Parent && names.len() > 0 ==> lexical_names(parts, n + 1) == Some(names.drop_last()),
        parts[n] is Parent && names.len() == 0 ==> lexical_names(parts, n + 1) is None,
        (parts[n] matches LexicalPart::Name(name) ==> lexical_names(parts, n + 1) == Some(names.push(name))),
{
}

/// A chain of places is one of directories where each of them is.
pub proof fn chains_of_directories(places: Seq<PlaceKind>)
    ensures
        all_directories(places) <==> forall|i: int| 0 <= i < places.len() ==> (#[trigger] places[i]) is Directory,
{
    if forall|i: int| 0 <= i < places.len() ==> (#[trigger] places[i]) is Directory {
        assert forall|i: int| 0 <= i < places.len() implies #[trigger] places[i] == PlaceKind::Directory by {}
    }
}

/// What is said of a place that is not as it must be: of a source that its control is unsafe, of a target
/// that its audit failed.
pub proof fn failures_of_places(policy: NamespacePolicy)
    ensures
        policy == NamespacePolicy::SourceControl ==> namespace_failure(policy) == RepositoryImportError::UnsafeSourceControl,
        policy != NamespacePolicy::SourceControl ==> namespace_failure(policy) == RepositoryImportError::TargetAuditFailed,
        MAX_CONTROL_ENTRIES == 1_000_000,
        MAX_TARGET_FILE_BYTES == 68 * 1024 * 1024,
{
}

/// Names are joined by slashes.
pub proof fn names_are_joined_by_slashes(parts: Seq<PathPart<'_>>, n: int)
    requires
        1 <= n < parts.len(),
    ensures
        joined_names(parts, 0) == Seq::<char>::empty(),
        joined_names(parts, 1) == parts[0]->Normal_0->Some_0@,
        joined_names(parts, n + 1) == joined_names(parts, n) + seq!['/'] + parts[n]->Normal_0->Some_0@,
{
    reveal_strlit("/");
    assert("/"@ =~= seq!['/']);
}

/// What was read of a stream grows by what is read, as long as it stays within the bound.
pub proof fn streams_grow_within_the_bound(observed: u64, read: usize, maximum: Option<u64>)
    ensures
        (advanced(observed, read, maximum) matches Some(now) ==> now == observed + read),
        advanced(observed, read, maximum) is Some <==> observed + read <= u64::MAX && (maximum matches Some(bound) ==> observed + read
            <= bound),
{
}

/// A file is hashed exactly where its length is known and within the bound, and it is the file under its
/// name; and the hash is taken exactly where as much was read as the length said, the length is still the
/// same, and it is still the same file.
pub proof fn files_are_hashed(hashing: FileHashing, seen: FileSighting, policy: NamespacePolicy, maximum: Option<u64>)
    ensures
        hashing_start_error(seen, policy, maximum) is None <==> {
            &&& seen.length is Some
            &&& maximum matches Some(bound) ==> seen.length->Some_0 <= bound
            &&& seen.binding_holds && seen.identity is Some
        },
        hashing_end_error(hashing, seen) is None <==> {
            &&& seen.length is Some
            &&& hashing.maximum_file_bytes matches Some(bound) ==> seen.length->Some_0 <= bound
            &&& hashing.observed == hashing.expected && seen.length->Some_0 == hashing.expected
            &&& seen.binding_holds
            &&& seen.identity is Some && seen.identity->Some_0.scheme == hashing.identity.scheme && seen.identity->Some_0.wire@
                == hashing.identity.wire@
        },
        (seen.length matches Some(length) && maximum matches Some(bound) && length > bound ==> hashing_start_error(seen, policy, maximum)
            == Some(RepositoryImportError::ResourceLimit)),
{
}

/// A sum that would not fit stays at the greatest number.
pub proof fn sums_saturate(total: usize, more: nat)
    ensures
        saturated(total, more) == if total + more <= usize::MAX {
            total + more
        } else {
            usize::MAX as int
        },
{
}

/// A directory is listed with its identity and no body; a file with its identity, its length and its digest;
/// nothing else is listed.
pub proof fn what_is_listed(seal: NamespaceSeal, path: Seq<char>, child: NamespaceChild)
    ensures
        child is Refused ==> !seal_says(seal, path, child),
        (child matches NamespaceChild::Directory(identity) ==> (seal_says(seal, path, child) <==> seal.relative_path@ == path && seal.kind
            == NamespaceKind::Directory(identity) && seal.size == 0 && seal.sha256 is None)),
        (child matches NamespaceChild::File(file) ==> (seal_says(seal, path, child) <==> seal.relative_path@ == path && seal.kind
            == NamespaceKind::File(file.identity) && seal.size == file.size && seal.sha256 == Some(file.sha256))),
{
}

/// What stands in the worktree of a source is accepted exactly where it is a file that is still under its
/// name, or a directory; at the top, `.git` must be the directory that is known.
pub proof fn what_stands_in_a_source(
    git_identity: FilesystemDirectoryIdentity,
    parent: Seq<char>,
    name: Seq<char>,
    child: SourceChild,
)
    ensures
        is_git_entry(parent, name) <==> parent.len() == 0 && name == ".git"@,
        source_child_error(git_identity, parent, name, child) is None <==> match child {
            SourceChild::Directory { identity, binding_holds } => parent.len() == 0 && name == ".git"@ ==> identity.scheme
                == git_identity.scheme && identity.wire@ == git_identity.wire@ && binding_holds,
            SourceChild::File { binding_holds } => binding_holds && !(parent.len() == 0 && name == ".git"@),
            _ => false,
        },
        child is Unopened ==> source_child_error(git_identity, parent, name, child) == Some(RepositoryImportError::UnsafeSourceEntry),
        child is Other && !(parent.len() == 0 && name == ".git"@) ==> source_child_error(git_identity, parent, name, child) == Some(
            RepositoryImportError::UnsafeSourceEntry,
        ),
        (child matches SourceChild::File { binding_holds } && !binding_holds && !(parent.len() == 0 && name == ".git"@)
            ==> source_child_error(git_identity, parent, name, child) == Some(RepositoryImportError::SourceChanged)),
{
}

} // verus!
