//! Inventories of directory trees.
//!
//! Directories are opened and read elsewhere, one entry after another. What was seen of each
//! entry is judged and collected here.

use crate::bytes::bytes_less;
use crate::digest::{sha256_finalize, sha256_input, sha256_new, sha256_of, sha256_update, Sha256Stream};
use crate::errors::{io_error, io_failure, IoErrorKind, RepositoryImportError, RepositoryIoOperation};
use crate::git_output::MAX_TREE_DEPTH;
use crate::identity::{FilesystemDirectoryIdentity, FilesystemFileIdentity};
use crate::manifest::{NamespaceKind, NamespaceSeal};
use crate::portable_path::SLASH;
use crate::revalidation::child_path;
use crate::sorting::{keys_in_order, sort_keyed, Keyed};
use crate::source_tree::{MAX_RETAINED_PATH_BYTES, MAX_SOURCE_ENTRIES};
use crate::text::{encoding_of_concat, text_equal};
use crate::text_map::TextMap;
use vstd::prelude::*;
use vstd::string::*;
use vstd::utf8::{encode_utf8, is_ascii_chars_encode_utf8};

verus! {

/// Most entries of a control directory.
pub const MAX_CONTROL_ENTRIES: usize = 1_000_000;

/// Longest file of a target, in bytes.
pub const MAX_TARGET_FILE_BYTES: u64 = 71_303_168;

/// Which namespace is inventoried.
#[derive(Clone, Copy, Debug, PartialEq, Eq, Structural)]
pub enum NamespacePolicy {
    SourceControl,
    TargetGit,
    TargetPrivate,
}

/// The failure of an inventory.
pub open spec fn namespace_failure(policy: NamespacePolicy) -> RepositoryImportError {
    if policy == NamespacePolicy::SourceControl {
        RepositoryImportError::UnsafeSourceControl
    } else {
        RepositoryImportError::TargetAuditFailed
    }
}

/// The failure of an inventory.
pub fn namespace_error(policy: NamespacePolicy) -> (error: RepositoryImportError)
    ensures
        error == namespace_failure(policy),
{
    match policy {
        NamespacePolicy::SourceControl => RepositoryImportError::UnsafeSourceControl,
        NamespacePolicy::TargetGit | NamespacePolicy::TargetPrivate => RepositoryImportError::TargetAuditFailed,
    }
}

/// One component of a path.
#[derive(Clone, Copy)]
pub enum PathPart<'a> {
    /// An ordinary name, if it is text.
    Normal(Option<&'a str>),
    /// A root, a prefix, `.` or `..`.
    Other,
}

/// The names of the first `n` components, with slashes between them.
pub open spec fn joined_names(parts: Seq<PathPart>, n: int) -> Seq<char>
    decreases n,
{
    if n <= 0 {
        Seq::empty()
    } else if n == 1 {
        parts[0]->Normal_0->0@
    } else {
        joined_names(parts, n - 1) + "/"@ + parts[n - 1]->Normal_0->0@
    }
}

/// Every component is an ordinary name in text.
pub open spec fn all_named(parts: Seq<PathPart>) -> bool {
    forall|i: int| 0 <= i < parts.len() ==> (#[trigger] parts[i] matches PathPart::Normal(Some(_)))
}

/// A path of ordinary names, with slashes between them.
pub fn slash_path(parts: &[PathPart<'_>]) -> (r: Option<String>)
    ensures
        r is Some <==> all_named(parts@),
        r matches Some(path) ==> path@ == joined_names(parts@, parts@.len() as int),
{
    let mut path = String::new();
    let mut i: usize = 0;
    while i < parts.len()
        invariant
            i <= parts@.len(),
            path@ == joined_names(parts@, i as int),
            forall|k: int| 0 <= k < i ==> (#[trigger] parts@[k] matches PathPart::Normal(Some(_))),
        decreases parts@.len() - i,
    {
        match parts[i] {
            PathPart::Normal(Some(name)) => {
                if i > 0 {
                    path.append("/");
                }
                path.append(name);
                proof {
                    if i == 0 {
                        assert(path@ =~= name@);
                    }
                }
            },
            _ => {
                assert(!(parts@[i as int] matches PathPart::Normal(Some(_))));
                return None;
            },
        }
        i = i + 1;
    }
    Some(path)
}

/// The path of a child, from the path of its directory and its name.
pub fn child_text(parent: &str, name: &str) -> (path: String)
    ensures
        encode_utf8(path@) == child_path(encode_utf8(parent@), encode_utf8(name@)),
{
    if parent.as_bytes().len() == 0 {
        return name.to_owned();
    }
    let mut path = parent.to_owned();
    path.append("/");
    path.append(name);
    proof {
        reveal_strlit("/");
        is_ascii_chars_encode_utf8("/"@);
        assert(encode_utf8("/"@) =~= seq![SLASH]);
        encoding_of_concat(parent@, "/"@);
        encoding_of_concat(parent@ + "/"@, name@);
    }
    path
}

/// A number of bytes more, unless that is too many.
pub open spec fn advanced(observed: u64, read: usize, maximum: Option<u64>) -> Option<u64> {
    if observed + read > u64::MAX || (maximum matches Some(bound) && observed + read > bound) {
        None
    } else {
        Some((observed + read) as u64)
    }
}

/// Count the bytes of a stream, within a bound.
pub fn advance_bounded_stream_observation(observed: &mut u64, read: usize, maximum_file_bytes: Option<u64>) -> (r: Result<
    (),
    RepositoryImportError,
>)
    ensures
        match advanced(*old(observed), read, maximum_file_bytes) {
            Some(next) => r is Ok && *final(observed) == next,
            None => r == Err::<(), RepositoryImportError>(RepositoryImportError::ResourceLimit) && *final(observed)
                == *old(observed),
        },
{
    let more: u64 = read as u64;
    if more > u64::MAX - *observed {
        return Err(RepositoryImportError::ResourceLimit);
    }
    let next: u64 = *observed + more;
    if let Some(maximum) = maximum_file_bytes {
        if next > maximum {
            return Err(RepositoryImportError::ResourceLimit);
        }
    }
    *observed = next;
    Ok(())
}

/// A file that is read to its end and hashed on the way.
pub struct FileHashing {
    pub policy: NamespacePolicy,
    pub maximum_file_bytes: Option<u64>,
    pub expected: u64,
    pub identity: FilesystemFileIdentity,
    pub observed: u64,
    pub digest: Sha256Stream,
}

/// What was seen of a file before or after it was read. What could not be read is missing.
#[derive(Clone, Copy)]
pub struct FileSighting {
    pub length: Option<u64>,
    /// The file that was opened is the one at its path.
    pub binding_holds: bool,
    pub identity: Option<FilesystemFileIdentity>,
}

/// A length is within a bound.
pub open spec fn within(length: u64, maximum: Option<u64>) -> bool {
    maximum matches Some(bound) ==> length <= bound
}

fn is_within(length: u64, maximum: Option<u64>) -> (r: bool)
    ensures
        r == within(length, maximum),
{
    match maximum {
        Some(bound) => length <= bound,
        None => true,
    }
}

/// Why a file is not read, if it is not.
pub open spec fn hashing_start_error(
    seen: FileSighting,
    policy: NamespacePolicy,
    maximum: Option<u64>,
) -> Option<RepositoryImportError> {
    match seen.length {
        None => Some(namespace_failure(policy)),
        Some(length) => if !within(length, maximum) {
            Some(RepositoryImportError::ResourceLimit)
        } else if !seen.binding_holds || seen.identity is None {
            Some(namespace_failure(policy))
        } else {
            None
        },
    }
}

/// Why a file that was read to its end is refused, if it is: it grew beyond the bound, or it is
/// not the one that was opened, or it has another length.
pub open spec fn hashing_end_error(hashing: FileHashing, seen: FileSighting) -> Option<RepositoryImportError> {
    match seen.length {
        None => Some(namespace_failure(hashing.policy)),
        Some(length) => if !within(length, hashing.maximum_file_bytes) {
            Some(RepositoryImportError::ResourceLimit)
        } else if hashing.observed != hashing.expected || length != hashing.expected || !seen.binding_holds || !(
        seen.identity matches Some(identity) && identity.same(hashing.identity)) {
            Some(namespace_failure(hashing.policy))
        } else {
            None
        },
    }
}

/// The identity, length and digest of a file.
#[derive(Clone, Copy)]
pub struct HashedFile {
    pub identity: FilesystemFileIdentity,
    pub size: u64,
    pub sha256: [u8; 32],
}

impl FileHashing {
    /// As many bytes were counted as were hashed.
    pub open spec fn wf(self) -> bool {
        self.observed == sha256_input(self.digest).len()
    }

    /// Begin to read a file.
    pub fn begin(policy: NamespacePolicy, maximum_file_bytes: Option<u64>, seen: FileSighting) -> (r: Result<
        FileHashing,
        RepositoryImportError,
    >)
        ensures
            match hashing_start_error(seen, policy, maximum_file_bytes) {
                Some(error) => r matches Err(e) && e == error,
                None => r matches Ok(hashing) && hashing.wf() && hashing.policy == policy && hashing.maximum_file_bytes
                    == maximum_file_bytes && Some(hashing.expected) == seen.length && Some(hashing.identity) == seen.identity
                    && sha256_input(hashing.digest) == Seq::<u8>::empty(),
            },
    {
        let expected = match seen.length {
            Some(length) => length,
            None => {
                return Err(namespace_error(policy));
            },
        };
        if !is_within(expected, maximum_file_bytes) {
            return Err(RepositoryImportError::ResourceLimit);
        }
        match seen.identity {
            Some(identity) => {
                if !seen.binding_holds {
                    return Err(namespace_error(policy));
                }
                Ok(FileHashing { policy, maximum_file_bytes, expected, identity, observed: 0, digest: sha256_new() })
            },
            None => Err(namespace_error(policy)),
        }
    }

    /// Take in the next bytes.
    pub fn take(&mut self, chunk: &[u8]) -> (r: Result<(), RepositoryImportError>)
        requires
            old(self).wf(),
        ensures
            final(self).wf(),
            final(self).policy == old(self).policy,
            final(self).maximum_file_bytes == old(self).maximum_file_bytes,
            final(self).expected == old(self).expected,
            final(self).identity == old(self).identity,
            match advanced(old(self).observed, chunk@.len() as usize, old(self).maximum_file_bytes) {
                Some(next) => r is Ok && final(self).observed == next && sha256_input(final(self).digest) == sha256_input(
                    old(self).digest,
                ) + chunk@,
                None => r == Err::<(), RepositoryImportError>(RepositoryImportError::ResourceLimit) && *final(self)
                    == *old(self),
            },
    {
        advance_bounded_stream_observation(&mut self.observed, chunk.len(), self.maximum_file_bytes)?;
        sha256_update(&mut self.digest, chunk);
        Ok(())
    }

    /// The end of the file was reached.
    pub fn finish(self, seen: FileSighting) -> (r: Result<HashedFile, RepositoryImportError>)
        requires
            self.wf(),
        ensures
            match hashing_end_error(self, seen) {
                Some(error) => r matches Err(e) && e == error,
                None => r matches Ok(file) && file.identity == self.identity && file.size == self.expected && file.sha256@
                    == sha256_of(sha256_input(self.digest)),
            },
    {
        let length = match seen.length {
            Some(length) => length,
            None => {
                return Err(namespace_error(self.policy));
            },
        };
        if !is_within(length, self.maximum_file_bytes) {
            return Err(RepositoryImportError::ResourceLimit);
        }
        let same = match seen.identity {
            Some(identity) => identity.matches(&self.identity),
            None => false,
        };
        if self.observed != self.expected || length != self.expected || !same || !seen.binding_holds {
            return Err(namespace_error(self.policy));
        }
        Ok(HashedFile { identity: self.identity, size: self.observed, sha256: sha256_finalize(self.digest) })
    }
}

/// What one entry of a namespace turned out to be.
#[derive(Clone, Copy)]
pub enum NamespaceChild {
    /// It could not be opened, or is neither a directory nor a regular file.
    Refused,
    Directory(FilesystemDirectoryIdentity),
    File(HashedFile),
}

/// The inventory of a namespace so far.
pub struct NamespaceInventory {
    pub policy: NamespacePolicy,
    pub seals: Vec<NamespaceSeal>,
    pub path_bytes: usize,
}

impl Keyed for NamespaceSeal {
    open spec fn key(&self) -> Seq<u8> {
        encode_utf8(self.relative_path@)
    }

    fn below(&self, other: &Self) -> (r: bool) {
        bytes_less(self.relative_path.as_str().as_bytes(), other.relative_path.as_str().as_bytes())
    }
}

/// A sum of path bytes that stays at the largest number.
pub open spec fn saturated(total: usize, more: nat) -> usize {
    if total + more > usize::MAX {
        usize::MAX
    } else {
        (total + more) as usize
    }
}

pub fn saturating_total(total: usize, more: usize) -> (sum: usize)
    ensures
        sum == saturated(total, more as nat),
{
    if more > usize::MAX - total {
        usize::MAX
    } else {
        total + more
    }
}

/// A seal says what an entry turned out to be.
pub open spec fn seal_says(seal: NamespaceSeal, path: Seq<char>, child: NamespaceChild) -> bool {
    &&& seal.relative_path@ == path
    &&& match child {
        NamespaceChild::Refused => false,
        NamespaceChild::Directory(identity) => seal.kind == NamespaceKind::Directory(identity) && seal.size == 0
            && seal.sha256 is None,
        NamespaceChild::File(file) => seal.kind == NamespaceKind::File(file.identity) && seal.size == file.size
            && seal.sha256 == Some(file.sha256),
    }
}

impl NamespaceInventory {
    /// An inventory without entries.
    pub fn begin(policy: NamespacePolicy) -> (inventory: NamespaceInventory)
        ensures
            inventory.policy == policy,
            inventory.seals@.len() == 0,
            inventory.path_bytes == 0,
    {
        NamespaceInventory { policy, seals: Vec::new(), path_bytes: 0 }
    }

    /// Enter a directory at a depth, if it is still the one at its path and can be listed.
    pub fn enter_directory(&self, depth: usize, holds: bool) -> (r: Result<(), RepositoryImportError>)
        ensures
            r == if depth > MAX_TREE_DEPTH || self.seals@.len() >= MAX_CONTROL_ENTRIES {
                Err::<(), RepositoryImportError>(RepositoryImportError::ResourceLimit)
            } else if !holds {
                Err(namespace_failure(self.policy))
            } else {
                Ok(())
            },
    {
        if depth > MAX_TREE_DEPTH || self.seals.len() >= MAX_CONTROL_ENTRIES {
            return Err(RepositoryImportError::ResourceLimit);
        }
        self.leave_directory(holds)
    }

    /// Leave a directory: it must still be the one at its path.
    pub fn leave_directory(&self, holds: bool) -> (r: Result<(), RepositoryImportError>)
        ensures
            r == if holds {
                Ok::<(), RepositoryImportError>(())
            } else {
                Err(namespace_failure(self.policy))
            },
    {
        if holds {
            Ok(())
        } else {
            Err(namespace_error(self.policy))
        }
    }

    /// Count an entry by its name, before it is opened. A name that is no text is missing.
    pub fn account_child(&mut self, parent: &str, name: Option<&str>) -> (r: Result<String, RepositoryImportError>)
        ensures
            final(self).policy == old(self).policy,
            final(self).seals == old(self).seals,
            match name {
                None => r == Err::<String, RepositoryImportError>(namespace_failure(old(self).policy))
                    && final(self).path_bytes == old(self).path_bytes,
                Some(text) => {
                    let path = child_path(encode_utf8(parent@), encode_utf8(text@));
                    &&& final(self).path_bytes == saturated(old(self).path_bytes, path.len())
                    &&& if final(self).path_bytes > MAX_RETAINED_PATH_BYTES || old(self).seals@.len()
                        >= MAX_CONTROL_ENTRIES {
                        r == Err::<String, RepositoryImportError>(RepositoryImportError::ResourceLimit)
                    } else {
                        r matches Ok(child) && encode_utf8(child@) == path
                    }
                },
            },
    {
        match name {
            None => Err(namespace_error(self.policy)),
            Some(text) => {
                let path = child_text(parent, text);
                self.path_bytes = saturating_total(self.path_bytes, path.as_str().as_bytes().len());
                if self.path_bytes > MAX_RETAINED_PATH_BYTES || self.seals.len() >= MAX_CONTROL_ENTRIES {
                    return Err(RepositoryImportError::ResourceLimit);
                }
                Ok(path)
            },
        }
    }

    /// Add what an entry turned out to be.
    pub fn record_child(&mut self, path: String, child: NamespaceChild) -> (r: Result<(), RepositoryImportError>)
        ensures
            final(self).policy == old(self).policy,
            final(self).path_bytes == old(self).path_bytes,
            if child is Refused {
                r == Err::<(), RepositoryImportError>(namespace_failure(old(self).policy)) && final(self).seals@
                    == old(self).seals@
            } else {
                r is Ok && final(self).seals@.len() == old(self).seals@.len() + 1 && final(self).seals@.drop_last()
                    == old(self).seals@ && seal_says(final(self).seals@.last(), path@, child)
            },
    {
        let seal = match child {
            NamespaceChild::Refused => {
                return Err(namespace_error(self.policy));
            },
            NamespaceChild::Directory(identity) => NamespaceSeal {
                relative_path: path,
                kind: NamespaceKind::Directory(identity),
                size: 0,
                sha256: None,
            },
            NamespaceChild::File(file) => NamespaceSeal {
                relative_path: path,
                kind: NamespaceKind::File(file.identity),
                size: file.size,
                sha256: Some(file.sha256),
            },
        };
        self.seals.push(seal);
        assert(self.seals@.drop_last() =~= old(self).seals@);
        Ok(())
    }

    /// The entries, in the order of their paths, if every directory stayed the one at its path.
    pub fn finish(self, binding_holds: bool) -> (r: Result<Vec<NamespaceSeal>, RepositoryImportError>)
        ensures
            if binding_holds {
                r matches Ok(seals) && keys_in_order(seals@) && seals@.to_multiset() == self.seals@.to_multiset()
            } else {
                r matches Err(error) && error == namespace_failure(self.policy)
            },
    {
        if !binding_holds {
            return Err(namespace_error(self.policy));
        }
        let mut seals = self.seals;
        sort_keyed(&mut seals);
        Ok(seals)
    }
}

/// A directory of a source with its identity.
pub struct DirectorySeal {
    pub relative_path: String,
    pub identity: FilesystemDirectoryIdentity,
}

impl Keyed for DirectorySeal {
    open spec fn key(&self) -> Seq<u8> {
        encode_utf8(self.relative_path@)
    }

    fn below(&self, other: &Self) -> (r: bool) {
        bytes_less(self.relative_path.as_str().as_bytes(), other.relative_path.as_str().as_bytes())
    }
}

/// What one entry of a source worktree turned out to be.
#[derive(Clone, Copy)]
pub enum SourceChild {
    /// It could not be opened.
    Unopened,
    /// It is neither a directory nor a regular file.
    Other,
    Directory { identity: FilesystemDirectoryIdentity, binding_holds: bool },
    File { binding_holds: bool },
}

/// What follows from one entry of a source worktree.
#[derive(Clone, Copy, Debug, PartialEq, Eq, Structural)]
pub enum SourceStep {
    /// The control directory is passed over.
    PassOver,
    /// A directory is to be entered.
    Descend,
    /// A file was listed.
    Listed,
}

/// The inventory of a source worktree so far.
pub struct SourceInventory {
    pub git_identity: FilesystemDirectoryIdentity,
    pub files: TextMap<()>,
    pub directories: Vec<DirectorySeal>,
    pub entries: usize,
    pub path_bytes: usize,
}

/// The control directory of a worktree.
pub open spec fn is_git_entry(parent: Seq<char>, name: Seq<char>) -> bool {
    parent.len() == 0 && name == ".git"@
}

/// Why an entry of a source worktree is refused, if it is.
pub open spec fn source_child_error(
    git_identity: FilesystemDirectoryIdentity,
    parent: Seq<char>,
    name: Seq<char>,
    child: SourceChild,
) -> Option<RepositoryImportError> {
    match child {
        SourceChild::Unopened => Some(RepositoryImportError::UnsafeSourceEntry),
        SourceChild::Other => if is_git_entry(parent, name) {
            Some(RepositoryImportError::UnsafeSourceControl)
        } else {
            Some(RepositoryImportError::UnsafeSourceEntry)
        },
        SourceChild::Directory { identity, binding_holds } => if is_git_entry(parent, name) && (!identity.same(git_identity)
            || !binding_holds) {
            Some(RepositoryImportError::SourceChanged)
        } else {
            None
        },
        SourceChild::File { binding_holds } => if is_git_entry(parent, name) {
            Some(RepositoryImportError::UnsafeSourceControl)
        } else if !binding_holds {
            Some(RepositoryImportError::SourceChanged)
        } else {
            None
        },
    }
}

impl SourceInventory {
    /// The listed files are in order.
    pub open spec fn wf(self) -> bool {
        self.files.wf()
    }

    /// An inventory without entries.
    pub fn begin(git_identity: FilesystemDirectoryIdentity) -> (inventory: SourceInventory)
        ensures
            inventory.wf(),
            inventory.git_identity == git_identity,
            inventory.files@ == Map::<Seq<char>, ()>::empty(),
            inventory.directories@.len() == 0,
            inventory.entries == 0,
            inventory.path_bytes == 0,
    {
        SourceInventory { git_identity, files: TextMap::new(), directories: Vec::new(), entries: 0, path_bytes: 0 }
    }

    /// Enter a directory at a depth, if it is still the one at its path and can be listed.
    pub fn enter_directory(&self, depth: usize, binding_holds: bool, listed: Result<(), IoErrorKind>) -> (r: Result<
        (),
        RepositoryImportError,
    >)
        ensures
            r == if depth > MAX_TREE_DEPTH {
                Err::<(), RepositoryImportError>(RepositoryImportError::ResourceLimit)
            } else if !binding_holds {
                Err(RepositoryImportError::SourceChanged)
            } else {
                match listed {
                    Ok(()) => Ok(()),
                    Err(kind) => Err(io_failure(RepositoryIoOperation::InspectNamespace, kind)),
                }
            },
    {
        if depth > MAX_TREE_DEPTH {
            return Err(RepositoryImportError::ResourceLimit);
        }
        if !binding_holds {
            return Err(RepositoryImportError::SourceChanged);
        }
        match listed {
            Ok(()) => Ok(()),
            Err(kind) => Err(io_error(RepositoryIoOperation::InspectNamespace, kind)),
        }
    }

    /// Count an entry by its name, before it is opened. A name that is no text is missing.
    pub fn account_child(&mut self, parent: &str, name: Option<&str>) -> (r: Result<String, RepositoryImportError>)
        requires
            old(self).wf(),
        ensures
            final(self).wf(),
            final(self).git_identity == old(self).git_identity,
            final(self).files == old(self).files,
            final(self).directories == old(self).directories,
            final(self).entries == saturated(old(self).entries, 1),
            if final(self).entries > 2 * MAX_SOURCE_ENTRIES {
                r == Err::<String, RepositoryImportError>(RepositoryImportError::ResourceLimit) && final(self).path_bytes
                    == old(self).path_bytes
            } else {
                match name {
                    None => r == Err::<String, RepositoryImportError>(RepositoryImportError::UnsafeSourceEntry)
                        && final(self).path_bytes == old(self).path_bytes,
                    Some(text) => {
                        let path = child_path(encode_utf8(parent@), encode_utf8(text@));
                        &&& final(self).path_bytes == saturated(old(self).path_bytes, path.len())
                        &&& if final(self).path_bytes > MAX_RETAINED_PATH_BYTES {
                            r == Err::<String, RepositoryImportError>(RepositoryImportError::ResourceLimit)
                        } else {
                            r matches Ok(child) && encode_utf8(child@) == path
                        }
                    },
                }
            },
    {
        self.entries = saturating_total(self.entries, 1);
        if self.entries > 2 * MAX_SOURCE_ENTRIES {
            return Err(RepositoryImportError::ResourceLimit);
        }
        match name {
            None => Err(RepositoryImportError::UnsafeSourceEntry),
            Some(text) => {
                let path = child_text(parent, text);
                self.path_bytes = saturating_total(self.path_bytes, path.as_str().as_bytes().len());
                if self.path_bytes > MAX_RETAINED_PATH_BYTES {
                    return Err(RepositoryImportError::ResourceLimit);
                }
                Ok(path)
            },
        }
    }

    /// Add what an entry turned out to be.
    pub fn record_child(&mut self, parent: &str, name: &str, path: String, child: SourceChild) -> (r: Result<
        SourceStep,
        RepositoryImportError,
    >)
        requires
            old(self).wf(),
        ensures
            final(self).wf(),
            final(self).git_identity == old(self).git_identity,
            final(self).entries == old(self).entries,
            final(self).path_bytes == old(self).path_bytes,
            match source_child_error(old(self).git_identity, parent@, name@, child) {
                Some(error) => r == Err::<SourceStep, RepositoryImportError>(error) && final(self).files == old(self).files
                    && final(self).directories == old(self).directories,
                None => match child {
                    SourceChild::Unopened | SourceChild::Other => false,
                    SourceChild::Directory { identity, .. } => if is_git_entry(parent@, name@) {
                        r == Ok::<SourceStep, RepositoryImportError>(SourceStep::PassOver) && final(self).files
                            == old(self).files && final(self).directories == old(self).directories
                    } else {
                        &&& r == Ok::<SourceStep, RepositoryImportError>(SourceStep::Descend)
                        &&& final(self).files == old(self).files
                        &&& final(self).directories@.drop_last() == old(self).directories@
                        &&& final(self).directories@.len() == old(self).directories@.len() + 1
                        &&& final(self).directories@.last().relative_path@ == path@
                        &&& final(self).directories@.last().identity == identity
                    },
                    SourceChild::File { .. } => {
                        &&& r == Ok::<SourceStep, RepositoryImportError>(SourceStep::Listed)
                        &&& final(self).files@.dom() == old(self).files@.dom().insert(path@)
                        &&& final(self).directories == old(self).directories
                    },
                },
            },
    {
        let git_entry = parent.as_bytes().len() == 0 && text_equal(name, ".git");
        proof {
            crate::text::text_of_bytes(parent@);
            if parent@.len() == 0 {
                assert(encode_utf8(parent@).len() == 0);
            }
            if encode_utf8(parent@).len() == 0 {
                crate::text::encoding_is_injective(parent@, Seq::<char>::empty());
                assert(encode_utf8(parent@) =~= encode_utf8(Seq::<char>::empty()));
            }
        }
        match child {
            SourceChild::Unopened => Err(RepositoryImportError::UnsafeSourceEntry),
            SourceChild::Other => {
                if git_entry {
                    return Err(RepositoryImportError::UnsafeSourceControl);
                }
                Err(RepositoryImportError::UnsafeSourceEntry)
            },
            SourceChild::Directory { identity, binding_holds } => {
                if git_entry {
                    if !identity.matches(&self.git_identity) || !binding_holds {
                        return Err(RepositoryImportError::SourceChanged);
                    }
                    return Ok(SourceStep::PassOver);
                }
                self.directories.push(DirectorySeal { relative_path: path, identity });
                assert(self.directories@.drop_last() =~= old(self).directories@);
                Ok(SourceStep::Descend)
            },
            SourceChild::File { binding_holds } => {
                if git_entry {
                    return Err(RepositoryImportError::UnsafeSourceControl);
                }
                if !binding_holds {
                    return Err(RepositoryImportError::SourceChanged);
                }
                let ghost text = path@;
                let inserted = self.files.insert_new(path, ());
                proof {
                    if !inserted {
                        assert(self.files@.dom() =~= old(self).files@.dom().insert(text));
                    }
                }
                Ok(SourceStep::Listed)
            },
        }
    }

    /// Leave a directory, or end the inventory: the directory must still be the one at its path.
    pub fn leave_directory(&self, binding_holds: bool) -> (r: Result<(), RepositoryImportError>)
        ensures
            r == if binding_holds {
                Ok::<(), RepositoryImportError>(())
            } else {
                Err(RepositoryImportError::SourceChanged)
            },
    {
        if binding_holds {
            Ok(())
        } else {
            Err(RepositoryImportError::SourceChanged)
        }
    }

    /// The files, and the directories in the order of their paths.
    pub fn finish(self) -> (r: (TextMap<()>, Vec<DirectorySeal>))
        requires
            self.wf(),
        ensures
            r.0 == self.files,
            keys_in_order(r.1@),
            r.1@.to_multiset() == self.directories@.to_multiset(),
    {
        let mut directories = self.directories;
        sort_keyed(&mut directories);
        (self.files, directories)
    }
}

/// Require two places to be on one filesystem. A device that could not be read is missing.
pub fn require_same_filesystem(first: Option<u64>, second: Option<u64>, error: RepositoryImportError) -> (r: Result<
    (),
    RepositoryImportError,
>)
    ensures
        r == if first is Some && first == second {
            Ok::<(), RepositoryImportError>(())
        } else {
            Err(error)
        },
{
    match first {
        Some(a) => match second {
            Some(b) => if a == b {
                Ok(())
            } else {
                Err(error)
            },
            None => Err(error),
        },
        None => Err(error),
    }
}

} // verus!
