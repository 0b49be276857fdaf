//! Opaque, fully bound snapshots of clean source repositories.

use crate::bytes::{bytes_equal, bytes_less};
use crate::digest::sha256_of;
use crate::errors::{map_raw_index_error, source_index_failure, RawIndexError, RepositoryImportError};
use crate::git_object::raw_sha256;
use crate::git_runner::MAX_CONFIG_BYTES;
use crate::held_reading::HeldFile;
use crate::identity::{FilesystemDirectoryIdentity, FilesystemFileIdentity};
use crate::manifest::{NamespaceKind, NamespaceSeal};
use crate::namespace::DirectorySeal;
use crate::repository_commands::MAX_GIT_OUTPUT;
use crate::sorting::Keyed;
use crate::source_checks::CommandOutput;
use crate::source_content::{blob_error, check_source_blob, check_source_hash, hash_error};
use crate::source_tree::{RawIndex, RawIndexEntry};
use crate::text::text_equal;
use crate::wiped::WipedBytes;
use vstd::prelude::*;
use vstd::string::*;
use vstd::utf8::encode_utf8;

verus! {

/// One exact tracked blob of a source.
pub struct SourceSnapshotEntry {
    pub source_relative_path: String,
    pub relative_path: String,
    pub blob_oid: String,
    pub size: u64,
    pub sha256: [u8; 32],
    pub file_identity: FilesystemFileIdentity,
    pub markdown: bool,
}

impl Keyed for SourceSnapshotEntry {
    open spec fn key(&self) -> Seq<u8> {
        encode_utf8(self.relative_path@)
    }

    fn below(&self, other: &Self) -> (r: bool) {
        bytes_less(self.relative_path.as_str().as_bytes(), other.relative_path.as_str().as_bytes())
    }
}

impl SourceSnapshotEntry {
    /// The canonical path in the vault.
    pub fn relative_path(&self) -> (path: &str)
        ensures
            path@ == self.relative_path@,
    {
        self.relative_path.as_str()
    }

    /// The id of the blob, which the tree and the index agree on.
    pub fn blob_oid(&self) -> (oid: &str)
        ensures
            oid@ == self.blob_oid@,
    {
        self.blob_oid.as_str()
    }

    /// The length of the body.
    pub fn size(&self) -> (size: u64)
        ensures
            size == self.size,
    {
        self.size
    }

    /// The digest of the body.
    pub fn sha256(&self) -> (digest: [u8; 32])
        ensures
            digest == self.sha256,
    {
        self.sha256
    }

    /// Whether the file is a Markdown file.
    pub fn is_markdown(&self) -> (markdown: bool)
        ensures
            markdown == self.markdown,
    {
        self.markdown
    }

    /// Both entries say the same.
    pub open spec fn same(self, other: SourceSnapshotEntry) -> bool {
        &&& self.source_relative_path@ == other.source_relative_path@
        &&& self.relative_path@ == other.relative_path@
        &&& self.blob_oid@ == other.blob_oid@
        &&& self.size == other.size
        &&& self.sha256@ == other.sha256@
        &&& self.file_identity.same(other.file_identity)
        &&& self.markdown == other.markdown
    }

    /// Whether both entries say the same.
    pub fn matches(&self, other: &SourceSnapshotEntry) -> (r: bool)
        ensures
            r == self.same(*other),
    {
        text_equal(self.source_relative_path.as_str(), other.source_relative_path.as_str()) && text_equal(
            self.relative_path.as_str(),
            other.relative_path.as_str(),
        ) && text_equal(self.blob_oid.as_str(), other.blob_oid.as_str()) && self.size == other.size && bytes_equal(
            self.sha256.as_slice(),
            other.sha256.as_slice(),
        ) && self.file_identity.matches(&other.file_identity) && self.markdown == other.markdown
    }
}

/// A control file that commands depend on.
pub struct BoundControlFile {
    pub maximum_bytes: u64,
    pub identity: FilesystemFileIdentity,
    pub size: u64,
    pub sha256: [u8; 32],
}

/// A held file is the bound one, with the bound body.
pub open spec fn control_file_holds(file: BoundControlFile, held: HeldFile) -> bool {
    held.identity.same(file.identity) && held.bytes@.len() == file.size && sha256_of(held.bytes@) == file.sha256@
}

impl BoundControlFile {
    /// Bind a control file to what was read of it.
    pub fn capture(maximum_bytes: u64, held: &HeldFile) -> (file: BoundControlFile)
        ensures
            bound_to_reading(file, maximum_bytes, *held),
    {
        BoundControlFile {
            maximum_bytes,
            identity: held.identity,
            size: held.bytes.len() as u64,
            sha256: raw_sha256(held.bytes.as_slice()),
        }
    }

    /// Bind the index to what was read of it and to what it says.
    pub fn capture_index(held: &HeldFile, parsed: Result<RawIndex, RawIndexError>) -> (r: Result<
        (BoundControlFile, RawIndex),
        RepositoryImportError,
    >)
        ensures
            match parsed {
                Ok(raw_index) => r matches Ok((file, kept)) && kept == raw_index && bound_to_reading(
                    file,
                    MAX_GIT_OUTPUT as u64,
                    *held,
                ),
                Err(failure) => r matches Err(error) && error == source_index_failure(failure),
            },
    {
        match parsed {
            Ok(raw_index) => Ok((BoundControlFile::capture(MAX_GIT_OUTPUT as u64, held), raw_index)),
            Err(failure) => Err(map_raw_index_error(failure)),
        }
    }

    /// Require a control file to be as it was.
    pub fn verify(&self, held: &HeldFile) -> (r: Result<(), RepositoryImportError>)
        ensures
            r == if control_file_holds(*self, *held) {
                Ok::<(), RepositoryImportError>(())
            } else {
                Err(RepositoryImportError::SourceChanged)
            },
    {
        let digest = raw_sha256(held.bytes.as_slice());
        if held.identity.matches(&self.identity) && held.bytes.len() as u64 == self.size && bytes_equal(
            digest.as_slice(),
            self.sha256.as_slice(),
        ) {
            Ok(())
        } else {
            Err(RepositoryImportError::SourceChanged)
        }
    }

    /// Both say the same.
    pub open spec fn same(self, other: BoundControlFile) -> bool {
        &&& self.maximum_bytes == other.maximum_bytes
        &&& self.identity.same(other.identity)
        &&& self.size == other.size
        &&& self.sha256@ == other.sha256@
    }

    /// Whether both say the same.
    pub fn matches(&self, other: &BoundControlFile) -> (r: bool)
        ensures
            r == self.same(*other),
    {
        self.maximum_bytes == other.maximum_bytes && self.identity.matches(&other.identity) && self.size == other.size
            && bytes_equal(self.sha256.as_slice(), other.sha256.as_slice())
    }
}

/// The control state that every command on a source depends on.
pub struct SourceCommandBinding {
    pub root: String,
    pub root_identity: FilesystemDirectoryIdentity,
    pub git_identity: FilesystemDirectoryIdentity,
    pub objects_identity: FilesystemDirectoryIdentity,
    pub config: BoundControlFile,
    pub head: BoundControlFile,
    pub index: BoundControlFile,
    pub raw_index: RawIndex,
}

/// What was seen of the control state later. What could not be read carries its failure.
pub struct BindingSighting {
    pub root: Option<FilesystemDirectoryIdentity>,
    pub git: Result<FilesystemDirectoryIdentity, RepositoryImportError>,
    pub objects: Result<FilesystemDirectoryIdentity, RepositoryImportError>,
    pub config: Result<HeldFile, RepositoryImportError>,
    pub head: Result<HeldFile, RepositoryImportError>,
    pub index: Result<HeldFile, RepositoryImportError>,
}

/// What is seen of the control state when it is bound, in the order in which it is seen.
pub struct BindingCapture {
    pub root: Option<FilesystemDirectoryIdentity>,
    pub git: Result<FilesystemDirectoryIdentity, RepositoryImportError>,
    pub index: Result<HeldFile, RepositoryImportError>,
    /// What the index says, as read from its bytes.
    pub raw_index: Result<RawIndex, RawIndexError>,
    pub objects: Result<FilesystemDirectoryIdentity, RepositoryImportError>,
    pub config: Result<HeldFile, RepositoryImportError>,
    pub head: Result<HeldFile, RepositoryImportError>,
}

/// A directory is seen, and is a given one.
pub open spec fn is_directory(
    seen: Result<FilesystemDirectoryIdentity, RepositoryImportError>,
    identity: FilesystemDirectoryIdentity,
) -> bool {
    seen matches Ok(found) && found.same(identity)
}

/// Why the control state cannot be bound, if it cannot.
pub open spec fn capture_refusal(
    root_identity: FilesystemDirectoryIdentity,
    git_identity: FilesystemDirectoryIdentity,
    seen: BindingCapture,
) -> Option<RepositoryImportError> {
    if !(seen.root matches Some(root) && root.same(root_identity)) {
        Some(RepositoryImportError::UnsafeSourceControl)
    } else if seen.git is Err {
        Some(seen.git->Err_0)
    } else if !is_directory(seen.git, git_identity) {
        Some(RepositoryImportError::UnsafeSourceControl)
    } else if seen.index is Err {
        Some(seen.index->Err_0)
    } else if seen.raw_index is Err {
        Some(source_index_failure(seen.raw_index->Err_0))
    } else if seen.objects is Err {
        Some(seen.objects->Err_0)
    } else if seen.config is Err {
        Some(seen.config->Err_0)
    } else if seen.head is Err {
        Some(seen.head->Err_0)
    } else {
        None
    }
}

/// A control file is bound to what was read of it.
pub open spec fn bound_to_reading(file: BoundControlFile, maximum_bytes: u64, held: HeldFile) -> bool {
    &&& file.maximum_bytes == maximum_bytes
    &&& file.identity == held.identity
    &&& file.size == held.bytes@.len()
    &&& file.sha256@ == sha256_of(held.bytes@)
}

/// Two readings are of one file with one body.
pub open spec fn same_reading(a: HeldFile, b: HeldFile) -> bool {
    a.identity.same(b.identity) && a.bytes@.len() == b.bytes@.len() && sha256_of(a.bytes@) == sha256_of(b.bytes@)
}

/// A binding says what was seen when it was captured.
pub open spec fn binding_says(
    binding: SourceCommandBinding,
    root: Seq<char>,
    root_identity: FilesystemDirectoryIdentity,
    git_identity: FilesystemDirectoryIdentity,
    seen: BindingCapture,
) -> bool {
    &&& binding.root@ == root
    &&& binding.root_identity == root_identity
    &&& binding.git_identity == git_identity
    &&& binding.objects_identity == seen.objects->Ok_0
    &&& bound_to_reading(binding.config, MAX_CONFIG_BYTES as u64, seen.config->Ok_0)
    &&& bound_to_reading(binding.head, MAX_CONFIG_BYTES as u64, seen.head->Ok_0)
    &&& bound_to_reading(binding.index, MAX_GIT_OUTPUT as u64, seen.index->Ok_0)
    &&& binding.raw_index == seen.raw_index->Ok_0
}

/// Why a directory is not the bound one, if it is not.
pub open spec fn directory_drift(
    seen: Result<FilesystemDirectoryIdentity, RepositoryImportError>,
    bound: FilesystemDirectoryIdentity,
) -> Option<RepositoryImportError> {
    match seen {
        Err(error) => Some(error),
        Ok(identity) => if identity.same(bound) {
            None
        } else {
            Some(RepositoryImportError::SourceChanged)
        },
    }
}

fn require_directory(
    seen: &Result<FilesystemDirectoryIdentity, RepositoryImportError>,
    bound: &FilesystemDirectoryIdentity,
) -> (r: Result<(), RepositoryImportError>)
    ensures
        match directory_drift(*seen, *bound) {
            Some(error) => r matches Err(e) && e == error,
            None => r is Ok,
        },
{
    match seen {
        Err(error) => Err(*error),
        Ok(identity) => if identity.matches(bound) {
            Ok(())
        } else {
            Err(RepositoryImportError::SourceChanged)
        },
    }
}

/// Why a control file is not the bound one, if it is not.
pub open spec fn file_drift(
    seen: Result<HeldFile, RepositoryImportError>,
    bound: BoundControlFile,
) -> Option<RepositoryImportError> {
    match seen {
        Err(error) => Some(error),
        Ok(held) => if control_file_holds(bound, held) {
            None
        } else {
            Some(RepositoryImportError::SourceChanged)
        },
    }
}

fn require_file(seen: &Result<HeldFile, RepositoryImportError>, bound: &BoundControlFile) -> (r: Result<
    (),
    RepositoryImportError,
>)
    ensures
        match file_drift(*seen, *bound) {
            Some(error) => r matches Err(e) && e == error,
            None => r is Ok,
        },
{
    match seen {
        Err(error) => Err(*error),
        Ok(held) => bound.verify(held),
    }
}

/// Why the control state is not the bound one, if it is not.
pub open spec fn binding_drift(binding: SourceCommandBinding, seen: BindingSighting) -> Option<RepositoryImportError> {
    if !(seen.root matches Some(root) && root.same(binding.root_identity)) {
        Some(RepositoryImportError::SourceChanged)
    } else if directory_drift(seen.git, binding.git_identity) is Some {
        directory_drift(seen.git, binding.git_identity)
    } else if directory_drift(seen.objects, binding.objects_identity) is Some {
        directory_drift(seen.objects, binding.objects_identity)
    } else if file_drift(seen.config, binding.config) is Some {
        file_drift(seen.config, binding.config)
    } else if file_drift(seen.head, binding.head) is Some {
        file_drift(seen.head, binding.head)
    } else {
        file_drift(seen.index, binding.index)
    }
}

/// A binding holds of the control state that it was captured from: looked at again unchanged, nothing has
/// drifted.
pub proof fn captured_binding_holds(
    binding: SourceCommandBinding,
    root: Seq<char>,
    root_identity: FilesystemDirectoryIdentity,
    git_identity: FilesystemDirectoryIdentity,
    seen: BindingCapture,
    later: BindingSighting,
)
    requires
        capture_refusal(root_identity, git_identity, seen) is None,
        binding_says(binding, root, root_identity, git_identity, seen),
        later.root == seen.root,
        later.git == seen.git,
        later.objects == seen.objects,
        later.config == seen.config,
        later.head == seen.head,
        later.index == seen.index,
    ensures
        binding_drift(binding, later) is None,
{
}

/// Both raw entries say the same.
pub open spec fn raw_entry_same(a: RawIndexEntry, b: RawIndexEntry) -> bool {
    a.path@ == b.path@ && a.oid@ == b.oid@
}

/// Both raw indexes say the same.
pub open spec fn raw_index_same(a: RawIndex, b: RawIndex) -> bool {
    a.entries@.len() == b.entries@.len() && forall|i: int|
        0 <= i < a.entries@.len() ==> raw_entry_same(#[trigger] a.entries@[i], b.entries@[i])
}

fn same_raw_index(a: &RawIndex, b: &RawIndex) -> (r: bool)
    ensures
        r == raw_index_same(*a, *b),
{
    if a.entries.len() != b.entries.len() {
        return false;
    }
    let mut i: usize = 0;
    while i < a.entries.len()
        invariant
            a.entries@.len() == b.entries@.len(),
            i <= a.entries@.len(),
            forall|k: int| 0 <= k < i ==> raw_entry_same(#[trigger] a.entries@[k], b.entries@[k]),
        decreases a.entries@.len() - i,
    {
        if !bytes_equal(a.entries[i].path.as_slice(), b.entries[i].path.as_slice()) || !bytes_equal(
            a.entries[i].oid.as_slice(),
            b.entries[i].oid.as_slice(),
        ) {
            assert(!raw_entry_same(a.entries@[i as int], b.entries@[i as int]));
            return false;
        }
        i = i + 1;
    }
    true
}

impl SourceCommandBinding {
    /// Judge whether the control state of a source can be bound.
    pub fn judge_capture(
        root_identity: &FilesystemDirectoryIdentity,
        git_identity: &FilesystemDirectoryIdentity,
        seen: &BindingCapture,
    ) -> (r: Result<(), RepositoryImportError>)
        ensures
            match capture_refusal(*root_identity, *git_identity, *seen) {
                Some(refusal) => r matches Err(error) && error == refusal,
                None => r is Ok,
            },
    {
        match &seen.root {
            Some(found) => {
                if !found.matches(root_identity) {
                    return Err(RepositoryImportError::UnsafeSourceControl);
                }
            },
            None => {
                return Err(RepositoryImportError::UnsafeSourceControl);
            },
        }
        match &seen.git {
            Ok(found) => {
                if !found.matches(git_identity) {
                    return Err(RepositoryImportError::UnsafeSourceControl);
                }
            },
            Err(error) => {
                return Err(*error);
            },
        }
        match &seen.index {
            Ok(_) => {},
            Err(error) => {
                return Err(*error);
            },
        }
        match &seen.raw_index {
            Ok(_) => {},
            Err(failure) => {
                return Err(map_raw_index_error(*failure));
            },
        }
        match &seen.objects {
            Ok(_) => {},
            Err(error) => {
                return Err(*error);
            },
        }
        match &seen.config {
            Ok(_) => {},
            Err(error) => {
                return Err(*error);
            },
        }
        match &seen.head {
            Ok(_) => Ok(()),
            Err(error) => Err(*error),
        }
    }

    /// Bind the control state of a source: its directories are the given ones, and its control files
    /// are read.
    pub fn capture(
        root: String,
        root_identity: FilesystemDirectoryIdentity,
        git_identity: FilesystemDirectoryIdentity,
        seen: BindingCapture,
    ) -> (r: Result<SourceCommandBinding, RepositoryImportError>)
        ensures
            match capture_refusal(root_identity, git_identity, seen) {
                Some(refusal) => r matches Err(error) && error == refusal,
                None => r matches Ok(binding) && binding_says(binding, root@, root_identity, git_identity, seen),
            },
    {
        SourceCommandBinding::judge_capture(&root_identity, &git_identity, &seen)?;
        let held_index = seen.index?;
        let (index, raw_index) = BoundControlFile::capture_index(&held_index, seen.raw_index)?;
        let objects_identity = seen.objects?;
        let held_config = seen.config?;
        let config = BoundControlFile::capture(MAX_CONFIG_BYTES as u64, &held_config);
        let held_head = seen.head?;
        let head = BoundControlFile::capture(MAX_CONFIG_BYTES as u64, &held_head);
        Ok(
            SourceCommandBinding {
                root,
                root_identity,
                git_identity,
                objects_identity,
                config,
                head,
                index,
                raw_index,
            },
        )
    }

    /// Require the control state to be the bound one.
    pub fn verify_light(&self, seen: &BindingSighting) -> (r: Result<(), RepositoryImportError>)
        ensures
            match binding_drift(*self, *seen) {
                Some(error) => r matches Err(e) && e == error,
                None => r is Ok,
            },
    {
        match seen.root {
            Some(root) => {
                if !root.matches(&self.root_identity) {
                    return Err(RepositoryImportError::SourceChanged);
                }
            },
            None => {
                return Err(RepositoryImportError::SourceChanged);
            },
        }
        require_directory(&seen.git, &self.git_identity)?;
        require_directory(&seen.objects, &self.objects_identity)?;
        require_file(&seen.config, &self.config)?;
        require_file(&seen.head, &self.head)?;
        require_file(&seen.index, &self.index)
    }

    /// Both bindings say the same.
    pub open spec fn same(self, other: SourceCommandBinding) -> bool {
        &&& self.root@ == other.root@
        &&& self.root_identity.same(other.root_identity)
        &&& self.git_identity.same(other.git_identity)
        &&& self.objects_identity.same(other.objects_identity)
        &&& self.config.same(other.config)
        &&& self.head.same(other.head)
        &&& self.index.same(other.index)
        &&& raw_index_same(self.raw_index, other.raw_index)
    }

    /// Whether both bindings say the same.
    pub fn matches(&self, other: &SourceCommandBinding) -> (r: bool)
        ensures
            r == self.same(*other),
    {
        text_equal(self.root.as_str(), other.root.as_str()) && self.root_identity.matches(&other.root_identity)
            && self.git_identity.matches(&other.git_identity) && self.objects_identity.matches(&other.objects_identity)
            && self.config.matches(&other.config) && self.head.matches(&other.head) && self.index.matches(&other.index)
            && same_raw_index(&self.raw_index, &other.raw_index)
    }
}

/// Opaque, fully bound snapshot of a clean source repository.
pub struct SourceSnapshot {
    pub root: String,
    pub root_identity: FilesystemDirectoryIdentity,
    pub git_identity: FilesystemDirectoryIdentity,
    pub git_executable: String,
    pub head_oid: String,
    pub entries: Vec<SourceSnapshotEntry>,
    pub directories: Vec<DirectorySeal>,
    pub git_control: Vec<NamespaceSeal>,
    pub config_sha256: [u8; 32],
    pub tree_sha256: [u8; 32],
    pub index_sha256: [u8; 32],
    pub normalized_path_entries: usize,
    pub command_binding: SourceCommandBinding,
}

/// Both optional digests are the same.
pub open spec fn digests_same(a: Option<[u8; 32]>, b: Option<[u8; 32]>) -> bool {
    match (a, b) {
        (Some(x), Some(y)) => x@ == y@,
        (None, None) => true,
        _ => false,
    }
}

fn same_digests(a: &Option<[u8; 32]>, b: &Option<[u8; 32]>) -> (r: bool)
    ensures
        r == digests_same(*a, *b),
{
    match a {
        Some(x) => match b {
            Some(y) => bytes_equal(x.as_slice(), y.as_slice()),
            None => false,
        },
        None => match b {
            Some(_) => false,
            None => true,
        },
    }
}

/// Both kinds have the same identity.
pub open spec fn kinds_same(a: NamespaceKind, b: NamespaceKind) -> bool {
    match a {
        NamespaceKind::Directory(x) => b matches NamespaceKind::Directory(y) && x.same(y),
        NamespaceKind::File(x) => b matches NamespaceKind::File(y) && x.same(y),
    }
}

/// Both seals say the same.
pub open spec fn seal_same(a: NamespaceSeal, b: NamespaceSeal) -> bool {
    a.relative_path@ == b.relative_path@ && kinds_same(a.kind, b.kind) && a.size == b.size && digests_same(a.sha256, b.sha256)
}

pub fn same_seal(a: &NamespaceSeal, b: &NamespaceSeal) -> (r: bool)
    ensures
        r == seal_same(*a, *b),
{
    let kinds = match a.kind {
        NamespaceKind::Directory(x) => match b.kind {
            NamespaceKind::Directory(y) => x.matches(&y),
            NamespaceKind::File(_) => false,
        },
        NamespaceKind::File(x) => match b.kind {
            NamespaceKind::Directory(_) => false,
            NamespaceKind::File(y) => x.matches(&y),
        },
    };
    kinds && text_equal(a.relative_path.as_str(), b.relative_path.as_str()) && a.size == b.size && same_digests(
        &a.sha256,
        &b.sha256,
    )
}

/// Both namespaces hold the same, in the same order.
pub open spec fn namespaces_same(a: Seq<NamespaceSeal>, b: Seq<NamespaceSeal>) -> bool {
    a.len() == b.len() && forall|i: int| 0 <= i < a.len() ==> seal_same(#[trigger] a[i], b[i])
}

/// Whether both namespaces hold the same, in the same order.
pub fn same_namespace(a: &[NamespaceSeal], b: &[NamespaceSeal]) -> (r: bool)
    ensures
        r == namespaces_same(a@, b@),
{
    if a.len() != b.len() {
        return false;
    }
    let mut i: usize = 0;
    while i < a.len()
        invariant
            a@.len() == b@.len(),
            i <= a@.len(),
            forall|k: int| 0 <= k < i ==> seal_same(#[trigger] a@[k], b@[k]),
        decreases a@.len() - i,
    {
        if !same_seal(&a[i], &b[i]) {
            assert(!seal_same(a@[i as int], b@[i as int]));
            return false;
        }
        i = i + 1;
    }
    true
}

/// Both directories say the same.
pub open spec fn directory_same(a: DirectorySeal, b: DirectorySeal) -> bool {
    a.relative_path@ == b.relative_path@ && a.identity.same(b.identity)
}

/// Both lists of directories say the same.
pub open spec fn directories_same(a: Seq<DirectorySeal>, b: Seq<DirectorySeal>) -> bool {
    a.len() == b.len() && forall|i: int| 0 <= i < a.len() ==> directory_same(#[trigger] a[i], b[i])
}

fn same_directories(a: &Vec<DirectorySeal>, b: &Vec<DirectorySeal>) -> (r: bool)
    ensures
        r == directories_same(a@, b@),
{
    if a.len() != b.len() {
        return false;
    }
    let mut i: usize = 0;
    while i < a.len()
        invariant
            a@.len() == b@.len(),
            i <= a@.len(),
            forall|k: int| 0 <= k < i ==> directory_same(#[trigger] a@[k], b@[k]),
        decreases a@.len() - i,
    {
        if !text_equal(a[i].relative_path.as_str(), b[i].relative_path.as_str()) || !a[i].identity.matches(&b[i].identity) {
            assert(!directory_same(a@[i as int], b@[i as int]));
            return false;
        }
        i = i + 1;
    }
    true
}

/// Both lists of entries say the same.
pub open spec fn entries_same(a: Seq<SourceSnapshotEntry>, b: Seq<SourceSnapshotEntry>) -> bool {
    a.len() == b.len() && forall|i: int| 0 <= i < a.len() ==> (#[trigger] a[i]).same(b[i])
}

fn same_entries(a: &Vec<SourceSnapshotEntry>, b: &Vec<SourceSnapshotEntry>) -> (r: bool)
    ensures
        r == entries_same(a@, b@),
{
    if a.len() != b.len() {
        return false;
    }
    let mut i: usize = 0;
    while i < a.len()
        invariant
            a@.len() == b@.len(),
            i <= a@.len(),
            forall|k: int| 0 <= k < i ==> (#[trigger] a@[k]).same(b@[k]),
        decreases a@.len() - i,
    {
        if !a[i].matches(&b[i]) {
            assert(!a@[i as int].same(b@[i as int]));
            return false;
        }
        i = i + 1;
    }
    true
}

/// Why a body is not that of an entry, if it is not.
pub open spec fn entry_body_error(
    entry: SourceSnapshotEntry,
    held: HeldFile,
    hash: CommandOutput,
    raw: CommandOutput,
) -> Option<RepositoryImportError> {
    if !held.identity.same(entry.file_identity) || held.bytes@.len() != entry.size || sha256_of(held.bytes@)
        != entry.sha256@ {
        Some(RepositoryImportError::SourceChanged)
    } else if hash_error(hash, entry.blob_oid@) is Some {
        hash_error(hash, entry.blob_oid@)
    } else {
        blob_error(raw, entry.size, entry.sha256@, held.bytes@)
    }
}

/// An entry is one of a snapshot, in every field.
pub open spec fn holds_entry(snapshot: SourceSnapshot, entry: SourceSnapshotEntry) -> bool {
    exists|i: int| 0 <= i < snapshot.entries@.len() && (#[trigger] snapshot.entries@[i]).same(entry)
}

/// Why an entry is not read, if it is not.
pub open spec fn read_entry_error(
    snapshot: SourceSnapshot,
    entry: SourceSnapshotEntry,
    held: Result<HeldFile, RepositoryImportError>,
    hash: CommandOutput,
    raw: CommandOutput,
) -> Option<RepositoryImportError> {
    if !holds_entry(snapshot, entry) {
        Some(RepositoryImportError::SourceChanged)
    } else {
        match held {
            Err(error) => Some(error),
            Ok(file) => entry_body_error(entry, file, hash, raw),
        }
    }
}

/// Require Git to hash a body to the id of an entry, and to hold the body under it.
pub fn verify_source_bytes(entry: &SourceSnapshotEntry, bytes: &[u8], hash: &CommandOutput, raw: &CommandOutput) -> (r: Result<
    (),
    RepositoryImportError,
>)
    ensures
        match hash_error(*hash, entry.blob_oid@) {
            Some(error) => r matches Err(e) && e == error,
            None => match blob_error(*raw, entry.size, entry.sha256@, bytes@) {
                Some(error) => r matches Err(e) && e == error,
                None => r is Ok,
            },
        },
{
    check_source_hash(hash, entry.blob_oid.as_str())?;
    check_source_blob(raw, entry.size, &entry.sha256, bytes)
}

/// A refused plan of a source that was planned before says that the source changed: it is no longer what
/// a source must be. Failures of Git itself, of I/O and of bounds do not say so.
pub open spec fn says_source_changed(error: RepositoryImportError) -> bool {
    match error {
        RepositoryImportError::UnsupportedSourceRepository
        | RepositoryImportError::UnsafeSourceControl
        | RepositoryImportError::UnsafeSourceEntry
        | RepositoryImportError::SourceChanged
        | RepositoryImportError::ContentFilterUnsupported
        | RepositoryImportError::LfsPointerUnsupported
        | RepositoryImportError::MalformedGitOutput => true,
        _ => false,
    }
}

fn is_source_change(error: RepositoryImportError) -> (r: bool)
    ensures
        r == says_source_changed(error),
{
    match error {
        RepositoryImportError::UnsupportedSourceRepository
        | RepositoryImportError::UnsafeSourceControl
        | RepositoryImportError::UnsafeSourceEntry
        | RepositoryImportError::SourceChanged
        | RepositoryImportError::ContentFilterUnsupported
        | RepositoryImportError::LfsPointerUnsupported
        | RepositoryImportError::MalformedGitOutput => true,
        _ => false,
    }
}

impl SourceSnapshot {
    /// The root of the worktree.
    pub fn root(&self) -> (root: &str)
        ensures
            root@ == self.root@,
    {
        self.root.as_str()
    }

    /// The id of the source commit.
    pub fn head_oid(&self) -> (oid: &str)
        ensures
            oid@ == self.head_oid@,
    {
        self.head_oid.as_str()
    }

    /// The tracked files, in the order of their paths.
    pub fn entries(&self) -> (entries: &[SourceSnapshotEntry])
        ensures
            entries@ == self.entries@,
    {
        self.entries.as_slice()
    }

    /// How many directories stand below the root.
    pub fn directory_count(&self) -> (count: usize)
        ensures
            count == self.directories@.len(),
    {
        self.directories.len()
    }

    /// How many names were normalized.
    pub fn normalized_path_entry_count(&self) -> (count: usize)
        ensures
            count == self.normalized_path_entries,
    {
        self.normalized_path_entries
    }

    /// Whether a directory is the root of the source or one below it.
    pub fn contains_directory_identity(&self, identity: &FilesystemDirectoryIdentity) -> (r: bool)
        ensures
            r == (self.root_identity.same(*identity) || exists|i: int|
                0 <= i < self.directories@.len() && (#[trigger] self.directories@[i]).identity.same(*identity)),
    {
        if self.root_identity.matches(identity) {
            return true;
        }
        let mut i: usize = 0;
        while i < self.directories.len()
            invariant
                i <= self.directories@.len(),
                !self.root_identity.same(*identity),
                forall|k: int| 0 <= k < i ==> !(#[trigger] self.directories@[k]).identity.same(*identity),
            decreases self.directories@.len() - i,
        {
            if self.directories[i].identity.matches(identity) {
                assert(self.directories@[i as int].identity.same(*identity));
                return true;
            }
            i = i + 1;
        }
        false
    }

    /// The place of an entry of this very snapshot.
    pub fn find_entry(&self, entry: &SourceSnapshotEntry) -> (r: Result<usize, RepositoryImportError>)
        ensures
            r is Ok <==> holds_entry(*self, *entry),
            r matches Ok(i) ==> i < self.entries@.len() && self.entries@[i as int].same(*entry),
            r matches Err(error) ==> error == RepositoryImportError::SourceChanged,
    {
        let mut i: usize = 0;
        while i < self.entries.len()
            invariant
                i <= self.entries@.len(),
                forall|k: int| 0 <= k < i ==> !(#[trigger] self.entries@[k]).same(*entry),
            decreases self.entries@.len() - i,
        {
            if self.entries[i].matches(entry) {
                assert(self.entries@[i as int].same(*entry));
                return Ok(i);
            }
            i = i + 1;
        }
        Err(RepositoryImportError::SourceChanged)
    }

    /// Prove a body again as that of an entry of this snapshot.
    pub fn read_entry(
        &self,
        entry: &SourceSnapshotEntry,
        held: Result<HeldFile, RepositoryImportError>,
        hash: &CommandOutput,
        raw: &CommandOutput,
    ) -> (r: Result<WipedBytes, RepositoryImportError>)
        ensures
            match read_entry_error(*self, *entry, held, *hash, *raw) {
                Some(error) => r == Err::<WipedBytes, RepositoryImportError>(error),
                None => r matches Ok(bytes) && bytes@ == held->Ok_0.bytes@,
            },
    {
        let place = self.find_entry(entry)?;
        let expected = &self.entries[place];
        let file = match held {
            Err(error) => {
                return Err(error);
            },
            Ok(file) => file,
        };
        let digest = raw_sha256(file.bytes.as_slice());
        if !file.identity.matches(&expected.file_identity) || file.bytes.len() as u64 != expected.size || !bytes_equal(
            digest.as_slice(),
            expected.sha256.as_slice(),
        ) {
            return Err(RepositoryImportError::SourceChanged);
        }
        verify_source_bytes(expected, file.bytes.as_slice(), hash, raw)?;
        Ok(file.bytes)
    }

    /// Both snapshots say the same.
    pub open spec fn same(self, other: SourceSnapshot) -> bool {
        &&& self.root@ == other.root@
        &&& self.root_identity.same(other.root_identity)
        &&& self.git_identity.same(other.git_identity)
        &&& self.git_executable@ == other.git_executable@
        &&& self.head_oid@ == other.head_oid@
        &&& entries_same(self.entries@, other.entries@)
        &&& directories_same(self.directories@, other.directories@)
        &&& namespaces_same(self.git_control@, other.git_control@)
        &&& self.config_sha256@ == other.config_sha256@
        &&& self.tree_sha256@ == other.tree_sha256@
        &&& self.index_sha256@ == other.index_sha256@
        &&& self.normalized_path_entries == other.normalized_path_entries
        &&& self.command_binding.same(other.command_binding)
    }

    /// Require a fresh plan of the source to say the same as this snapshot. A plan that is refused for what
    /// the source has become says that the source changed; a failure of the machinery is handed on.
    pub fn revalidate(&self, current: &Result<SourceSnapshot, RepositoryImportError>) -> (r: Result<
        (),
        RepositoryImportError,
    >)
        ensures
            r == match *current {
                Err(error) => Err::<(), RepositoryImportError>(
                    if says_source_changed(error) {
                        RepositoryImportError::SourceChanged
                    } else {
                        error
                    },
                ),
                Ok(snapshot) => if snapshot.same(*self) {
                    Ok(())
                } else {
                    Err(RepositoryImportError::SourceChanged)
                },
            },
    {
        match current {
            Err(error) => {
                if is_source_change(*error) {
                    Err(RepositoryImportError::SourceChanged)
                } else {
                    Err(*error)
                }
            },
            Ok(snapshot) => {
                let same = text_equal(snapshot.root.as_str(), self.root.as_str()) && snapshot.root_identity.matches(
                    &self.root_identity,
                ) && snapshot.git_identity.matches(&self.git_identity) && text_equal(
                    snapshot.git_executable.as_str(),
                    self.git_executable.as_str(),
                ) && text_equal(snapshot.head_oid.as_str(), self.head_oid.as_str()) && same_entries(
                    &snapshot.entries,
                    &self.entries,
                ) && same_directories(&snapshot.directories, &self.directories) && same_namespace(
                    snapshot.git_control.as_slice(),
                    self.git_control.as_slice(),
                ) && bytes_equal(snapshot.config_sha256.as_slice(), self.config_sha256.as_slice()) && bytes_equal(
                    snapshot.tree_sha256.as_slice(),
                    self.tree_sha256.as_slice(),
                ) && bytes_equal(snapshot.index_sha256.as_slice(), self.index_sha256.as_slice())
                    && snapshot.normalized_path_entries == self.normalized_path_entries
                    && snapshot.command_binding.matches(&self.command_binding);
                if same {
                    Ok(())
                } else {
                    Err(RepositoryImportError::SourceChanged)
                }
            },
        }
    }
}

} // verus!
