//! Scrubbed failures of repository import, and the fixed labels in them.
//!
//! No failure carries a path, a command line or an underlying I/O error.

use vstd::prelude::*;
use vstd::string::*;

verus! {

/// The classes of I/O failure, as the standard library names them.
#[derive(Clone, Copy, Debug, PartialEq, Eq, Structural)]
pub enum IoErrorKind {
    NotFound,
    PermissionDenied,
    ConnectionRefused,
    ConnectionReset,
    HostUnreachable,
    NetworkUnreachable,
    ConnectionAborted,
    NotConnected,
    AddrInUse,
    AddrNotAvailable,
    NetworkDown,
    BrokenPipe,
    AlreadyExists,
    WouldBlock,
    NotADirectory,
    IsADirectory,
    DirectoryNotEmpty,
    ReadOnlyFilesystem,
    FilesystemLoop,
    StaleNetworkFileHandle,
    InvalidInput,
    InvalidData,
    TimedOut,
    WriteZero,
    StorageFull,
    NotSeekable,
    QuotaExceeded,
    FileTooLarge,
    ResourceBusy,
    ExecutableFileBusy,
    Deadlock,
    CrossesDevices,
    TooManyLinks,
    InvalidFilename,
    ArgumentListTooLong,
    Interrupted,
    Unsupported,
    UnexpectedEof,
    OutOfMemory,
    InProgress,
    Other,
    Uncategorized,
}

/// Fixed Git operation labels used by scrubbed diagnostics.
#[derive(Clone, Copy, Debug, PartialEq, Eq, Structural)]
pub enum RepositoryGitOperation {
    /// Resolve and prove the source repository.
    DiscoverSource,
    /// Inspect source configuration.
    InspectConfiguration,
    /// Read the source commit tree.
    ReadSourceTree,
    /// Read the source index.
    ReadSourceIndex,
    /// Bind source file and blob bytes.
    ReadSourceObject,
    /// Initialize target Git storage.
    InitializeTarget,
    /// Write target objects, index, tree, commit and ref.
    ConstructTarget,
    /// Independently audit target Git state.
    AuditTarget,
}

/// Fixed filesystem operation labels used by scrubbed diagnostics.
#[derive(Clone, Copy, Debug, PartialEq, Eq, Structural)]
pub enum RepositoryIoOperation {
    /// Resolve or inspect a repository root.
    InspectRoot,
    /// Enumerate a bounded namespace.
    InspectNamespace,
    /// Open or read one bounded file.
    ReadFile,
    /// Create target metadata.
    WriteTarget,
    /// Synchronize target state.
    SyncTarget,
    /// Spawn Git.
    SpawnGit,
    /// Communicate with Git.
    CommunicateGit,
}

/// A scrubbed repository-import failure.
#[allow(inconsistent_fields)]
#[derive(Clone, Copy, Debug, PartialEq, Eq, Structural)]
pub enum RepositoryImportError {
    /// Git could not be resolved to one absolute regular executable.
    GitExecutableUnavailable,
    /// Git is older than the frozen repository-import minimum.
    UnsupportedGitVersion,
    /// The source is not the top level of one ordinary local SHA-1 worktree.
    UnsupportedSourceRepository,
    /// Source configuration or control state is unsafe for offline inspection.
    UnsafeSourceControl,
    /// A tracked source path, mode, flag, or filesystem entry is unsupported.
    UnsafeSourceEntry,
    /// Source content is dirty or changed after its snapshot was prepared.
    SourceChanged,
    /// A source content-transforming attribute is selected.
    ContentFilterUnsupported,
    /// A possible Git LFS pointer was found instead of local attachment bytes.
    LfsPointerUnsupported,
    /// A frozen source or Git-output resource bound was exceeded.
    ResourceLimit,
    /// Git emitted bytes outside a strict plumbing grammar.
    MalformedGitOutput,
    /// One bounded Git plumbing operation failed.
    GitCommandFailed { operation: RepositoryGitOperation },
    /// The staging vault is not an exact safe target candidate.
    UnsafeTarget,
    /// The fresh target repository does not match its opaque creation proof.
    TargetAuditFailed,
    /// A recursive target durability barrier could not be established.
    DurabilityNotConfirmed,
    /// A scrubbed filesystem operation failed.
    Io { operation: RepositoryIoOperation, kind: IoErrorKind },
}

/// Scrubbed failure from the private v1 stream encoder and its collectors.
#[derive(Clone, Copy, Debug, PartialEq, Eq, Structural)]
pub enum CandidateSealError {
    /// The seal context is invalid.
    InvalidContext,
    /// A record is invalid.
    InvalidRecord,
    /// The records are not in canonical order.
    NonCanonicalOrder,
    /// A resource bound was exceeded.
    ResourceLimit,
}

/// Failure of reading a raw Git index.
#[derive(Clone, Copy, Debug, PartialEq, Eq, Structural)]
pub enum RawIndexError {
    /// The bytes are not an index.
    Malformed,
    /// The index uses a feature outside the profile.
    Unsupported,
    /// A resource bound was exceeded.
    ResourceLimit,
}

impl IoErrorKind {
    /// The class as it appears in a diagnostic.
    pub open spec fn label_text(self) -> Seq<char> {
        match self {
            IoErrorKind::NotFound => "NotFound"@,
            IoErrorKind::PermissionDenied => "PermissionDenied"@,
            IoErrorKind::ConnectionRefused => "ConnectionRefused"@,
            IoErrorKind::ConnectionReset => "ConnectionReset"@,
            IoErrorKind::HostUnreachable => "HostUnreachable"@,
            IoErrorKind::NetworkUnreachable => "NetworkUnreachable"@,
            IoErrorKind::ConnectionAborted => "ConnectionAborted"@,
            IoErrorKind::NotConnected => "NotConnected"@,
            IoErrorKind::AddrInUse => "AddrInUse"@,
            IoErrorKind::AddrNotAvailable => "AddrNotAvailable"@,
            IoErrorKind::NetworkDown => "NetworkDown"@,
            IoErrorKind::BrokenPipe => "BrokenPipe"@,
            IoErrorKind::AlreadyExists => "AlreadyExists"@,
            IoErrorKind::WouldBlock => "WouldBlock"@,
            IoErrorKind::NotADirectory => "NotADirectory"@,
            IoErrorKind::IsADirectory => "IsADirectory"@,
            IoErrorKind::DirectoryNotEmpty => "DirectoryNotEmpty"@,
            IoErrorKind::ReadOnlyFilesystem => "ReadOnlyFilesystem"@,
            IoErrorKind::FilesystemLoop => "FilesystemLoop"@,
            IoErrorKind::StaleNetworkFileHandle => "StaleNetworkFileHandle"@,
            IoErrorKind::InvalidInput => "InvalidInput"@,
            IoErrorKind::InvalidData => "InvalidData"@,
            IoErrorKind::TimedOut => "TimedOut"@,
            IoErrorKind::WriteZero => "WriteZero"@,
            IoErrorKind::StorageFull => "StorageFull"@,
            IoErrorKind::NotSeekable => "NotSeekable"@,
            IoErrorKind::QuotaExceeded => "QuotaExceeded"@,
            IoErrorKind::FileTooLarge => "FileTooLarge"@,
            IoErrorKind::ResourceBusy => "ResourceBusy"@,
            IoErrorKind::ExecutableFileBusy => "ExecutableFileBusy"@,
            IoErrorKind::Deadlock => "Deadlock"@,
            IoErrorKind::CrossesDevices => "CrossesDevices"@,
            IoErrorKind::TooManyLinks => "TooManyLinks"@,
            IoErrorKind::InvalidFilename => "InvalidFilename"@,
            IoErrorKind::ArgumentListTooLong => "ArgumentListTooLong"@,
            IoErrorKind::Interrupted => "Interrupted"@,
            IoErrorKind::Unsupported => "Unsupported"@,
            IoErrorKind::UnexpectedEof => "UnexpectedEof"@,
            IoErrorKind::OutOfMemory => "OutOfMemory"@,
            IoErrorKind::InProgress => "InProgress"@,
            IoErrorKind::Other => "Other"@,
            IoErrorKind::Uncategorized => "Uncategorized"@,
        }
    }

    /// The class as it appears in a diagnostic.
    pub fn label(&self) -> (text: &'static str)
        ensures
            text@ == self.label_text(),
    {
        match self {
            IoErrorKind::NotFound => "NotFound",
            IoErrorKind::PermissionDenied => "PermissionDenied",
            IoErrorKind::ConnectionRefused => "ConnectionRefused",
            IoErrorKind::ConnectionReset => "ConnectionReset",
            IoErrorKind::HostUnreachable => "HostUnreachable",
            IoErrorKind::NetworkUnreachable => "NetworkUnreachable",
            IoErrorKind::ConnectionAborted => "ConnectionAborted",
            IoErrorKind::NotConnected => "NotConnected",
            IoErrorKind::AddrInUse => "AddrInUse",
            IoErrorKind::AddrNotAvailable => "AddrNotAvailable",
            IoErrorKind::NetworkDown => "NetworkDown",
            IoErrorKind::BrokenPipe => "BrokenPipe",
            IoErrorKind::AlreadyExists => "AlreadyExists",
            IoErrorKind::WouldBlock => "WouldBlock",
            IoErrorKind::NotADirectory => "NotADirectory",
            IoErrorKind::IsADirectory => "IsADirectory",
            IoErrorKind::DirectoryNotEmpty => "DirectoryNotEmpty",
            IoErrorKind::ReadOnlyFilesystem => "ReadOnlyFilesystem",
            IoErrorKind::FilesystemLoop => "FilesystemLoop",
            IoErrorKind::StaleNetworkFileHandle => "StaleNetworkFileHandle",
            IoErrorKind::InvalidInput => "InvalidInput",
            IoErrorKind::InvalidData => "InvalidData",
            IoErrorKind::TimedOut => "TimedOut",
            IoErrorKind::WriteZero => "WriteZero",
            IoErrorKind::StorageFull => "StorageFull",
            IoErrorKind::NotSeekable => "NotSeekable",
            IoErrorKind::QuotaExceeded => "QuotaExceeded",
            IoErrorKind::FileTooLarge => "FileTooLarge",
            IoErrorKind::ResourceBusy => "ResourceBusy",
            IoErrorKind::ExecutableFileBusy => "ExecutableFileBusy",
            IoErrorKind::Deadlock => "Deadlock",
            IoErrorKind::CrossesDevices => "CrossesDevices",
            IoErrorKind::TooManyLinks => "TooManyLinks",
            IoErrorKind::InvalidFilename => "InvalidFilename",
            IoErrorKind::ArgumentListTooLong => "ArgumentListTooLong",
            IoErrorKind::Interrupted => "Interrupted",
            IoErrorKind::Unsupported => "Unsupported",
            IoErrorKind::UnexpectedEof => "UnexpectedEof",
            IoErrorKind::OutOfMemory => "OutOfMemory",
            IoErrorKind::InProgress => "InProgress",
            IoErrorKind::Other => "Other",
            IoErrorKind::Uncategorized => "Uncategorized",
        }
    }
}

impl RepositoryGitOperation {
    /// The fixed label of the operation.
    pub open spec fn label_text(self) -> Seq<char> {
        match self {
            RepositoryGitOperation::DiscoverSource => "source repository discovery"@,
            RepositoryGitOperation::InspectConfiguration => "source configuration inspection"@,
            RepositoryGitOperation::ReadSourceTree => "source tree inspection"@,
            RepositoryGitOperation::ReadSourceIndex => "source index inspection"@,
            RepositoryGitOperation::ReadSourceObject => "source object verification"@,
            RepositoryGitOperation::InitializeTarget => "target repository initialization"@,
            RepositoryGitOperation::ConstructTarget => "target root-commit construction"@,
            RepositoryGitOperation::AuditTarget => "target repository audit"@,
        }
    }

    /// The fixed label of the operation.
    pub fn label(&self) -> (text: &'static str)
        ensures
            text@ == self.label_text(),
    {
        match self {
            RepositoryGitOperation::DiscoverSource => "source repository discovery",
            RepositoryGitOperation::InspectConfiguration => "source configuration inspection",
            RepositoryGitOperation::ReadSourceTree => "source tree inspection",
            RepositoryGitOperation::ReadSourceIndex => "source index inspection",
            RepositoryGitOperation::ReadSourceObject => "source object verification",
            RepositoryGitOperation::InitializeTarget => "target repository initialization",
            RepositoryGitOperation::ConstructTarget => "target root-commit construction",
            RepositoryGitOperation::AuditTarget => "target repository audit",
        }
    }
}

impl RepositoryIoOperation {
    /// The fixed label of the operation.
    pub open spec fn label_text(self) -> Seq<char> {
        match self {
            RepositoryIoOperation::InspectRoot => "root inspection"@,
            RepositoryIoOperation::InspectNamespace => "namespace inspection"@,
            RepositoryIoOperation::ReadFile => "bounded file read"@,
            RepositoryIoOperation::WriteTarget => "target metadata creation"@,
            RepositoryIoOperation::SyncTarget => "target synchronization"@,
            RepositoryIoOperation::SpawnGit => "starting Git plumbing"@,
            RepositoryIoOperation::CommunicateGit => "communicating with Git plumbing"@,
        }
    }

    /// The fixed label of the operation.
    pub fn label(&self) -> (text: &'static str)
        ensures
            text@ == self.label_text(),
    {
        match self {
            RepositoryIoOperation::InspectRoot => "root inspection",
            RepositoryIoOperation::InspectNamespace => "namespace inspection",
            RepositoryIoOperation::ReadFile => "bounded file read",
            RepositoryIoOperation::WriteTarget => "target metadata creation",
            RepositoryIoOperation::SyncTarget => "target synchronization",
            RepositoryIoOperation::SpawnGit => "starting Git plumbing",
            RepositoryIoOperation::CommunicateGit => "communicating with Git plumbing",
        }
    }
}

impl RepositoryImportError {
    /// The scrubbed diagnostic of a failure.
    pub open spec fn message_text(self) -> Seq<char> {
        match self {
            RepositoryImportError::GitExecutableUnavailable =>
                "a regular Git executable could not be resolved"@,
            RepositoryImportError::UnsupportedGitVersion =>
                "Git 2.36 or newer is required for repository import"@,
            RepositoryImportError::UnsupportedSourceRepository =>
                "the source is not a supported top-level SHA-1 Git worktree"@,
            RepositoryImportError::UnsafeSourceControl =>
                "source Git control state is outside the repository-import profile"@,
            RepositoryImportError::UnsafeSourceEntry =>
                "the source namespace is outside the repository-import profile"@,
            RepositoryImportError::SourceChanged =>
                "the source repository changed during repository import"@,
            RepositoryImportError::ContentFilterUnsupported =>
                "source content-transforming Git attributes are unsupported"@,
            RepositoryImportError::LfsPointerUnsupported =>
                "a tracked source file is a possible Git LFS pointer"@,
            RepositoryImportError::ResourceLimit =>
                "repository import exceeded a frozen resource bound"@,
            RepositoryImportError::MalformedGitOutput =>
                "Git returned malformed repository-import plumbing output"@,
            RepositoryImportError::GitCommandFailed { operation } =>
                "Git plumbing failed during "@ + operation.label_text(),
            RepositoryImportError::UnsafeTarget =>
                "the target staging vault is outside the repository-import profile"@,
            RepositoryImportError::TargetAuditFailed =>
                "the target Git repository failed its independent audit"@,
            RepositoryImportError::DurabilityNotConfirmed =>
                "the target repository durability barrier was not confirmed"@,
            RepositoryImportError::Io { operation, kind } =>
                "repository import I/O failed during "@ + operation.label_text() + ": "@
                    + kind.label_text(),
        }
    }

    /// The scrubbed diagnostic of a failure.
    pub fn message(&self) -> (text: String)
        ensures
            text@ == self.message_text(),
    {
        match self {
            RepositoryImportError::GitExecutableUnavailable =>
                "a regular Git executable could not be resolved".to_owned(),
            RepositoryImportError::UnsupportedGitVersion =>
                "Git 2.36 or newer is required for repository import".to_owned(),
            RepositoryImportError::UnsupportedSourceRepository =>
                "the source is not a supported top-level SHA-1 Git worktree".to_owned(),
            RepositoryImportError::UnsafeSourceControl =>
                "source Git control state is outside the repository-import profile".to_owned(),
            RepositoryImportError::UnsafeSourceEntry =>
                "the source namespace is outside the repository-import profile".to_owned(),
            RepositoryImportError::SourceChanged =>
                "the source repository changed during repository import".to_owned(),
            RepositoryImportError::ContentFilterUnsupported =>
                "source content-transforming Git attributes are unsupported".to_owned(),
            RepositoryImportError::LfsPointerUnsupported =>
                "a tracked source file is a possible Git LFS pointer".to_owned(),
            RepositoryImportError::ResourceLimit =>
                "repository import exceeded a frozen resource bound".to_owned(),
            RepositoryImportError::MalformedGitOutput =>
                "Git returned malformed repository-import plumbing output".to_owned(),
            RepositoryImportError::GitCommandFailed { operation } => {
                let mut text = "Git plumbing failed during ".to_owned();
                text.append(operation.label());
                text
            },
            RepositoryImportError::UnsafeTarget =>
                "the target staging vault is outside the repository-import profile".to_owned(),
            RepositoryImportError::TargetAuditFailed =>
                "the target Git repository failed its independent audit".to_owned(),
            RepositoryImportError::DurabilityNotConfirmed =>
                "the target repository durability barrier was not confirmed".to_owned(),
            RepositoryImportError::Io { operation, kind } => {
                let mut text = "repository import I/O failed during ".to_owned();
                text.append(operation.label());
                text.append(": ");
                text.append(kind.label());
                text
            },
        }
    }
}

impl CandidateSealError {
    /// The scrubbed diagnostic of a failure.
    pub open spec fn message_text(self) -> Seq<char> {
        match self {
            CandidateSealError::InvalidContext => "repository candidate-seal context is invalid"@,
            CandidateSealError::InvalidRecord => "repository candidate-seal record is invalid"@,
            CandidateSealError::NonCanonicalOrder =>
                "repository candidate-seal records are not canonical"@,
            CandidateSealError::ResourceLimit =>
                "repository candidate-seal resource bound was exceeded"@,
        }
    }

    /// The scrubbed diagnostic of a failure.
    pub fn message(&self) -> (text: &'static str)
        ensures
            text@ == self.message_text(),
    {
        match self {
            CandidateSealError::InvalidContext => "repository candidate-seal context is invalid",
            CandidateSealError::InvalidRecord => "repository candidate-seal record is invalid",
            CandidateSealError::NonCanonicalOrder =>
                "repository candidate-seal records are not canonical",
            CandidateSealError::ResourceLimit =>
                "repository candidate-seal resource bound was exceeded",
        }
    }
}

/// A source index failure as the import reports it.
pub open spec fn source_index_failure(error: RawIndexError) -> RepositoryImportError {
    match error {
        RawIndexError::Malformed => RepositoryImportError::UnsafeSourceControl,
        RawIndexError::Unsupported => RepositoryImportError::UnsafeSourceEntry,
        RawIndexError::ResourceLimit => RepositoryImportError::ResourceLimit,
    }
}

/// Report a source index failure.
pub fn map_raw_index_error(error: RawIndexError) -> (mapped: RepositoryImportError)
    ensures
        mapped == source_index_failure(error),
{
    match error {
        RawIndexError::Malformed => RepositoryImportError::UnsafeSourceControl,
        RawIndexError::Unsupported => RepositoryImportError::UnsafeSourceEntry,
        RawIndexError::ResourceLimit => RepositoryImportError::ResourceLimit,
    }
}

/// A target index failure as the audit reports it.
pub open spec fn target_index_failure(error: RawIndexError) -> RepositoryImportError {
    match error {
        RawIndexError::Malformed => RepositoryImportError::TargetAuditFailed,
        RawIndexError::Unsupported => RepositoryImportError::TargetAuditFailed,
        RawIndexError::ResourceLimit => RepositoryImportError::ResourceLimit,
    }
}

/// Report a target index failure.
pub fn map_target_raw_index_error(error: RawIndexError) -> (mapped: RepositoryImportError)
    ensures
        mapped == target_index_failure(error),
{
    match error {
        RawIndexError::Malformed | RawIndexError::Unsupported =>
            RepositoryImportError::TargetAuditFailed,
        RawIndexError::ResourceLimit => RepositoryImportError::ResourceLimit,
    }
}

/// A candidate failure as the audit reports it: a bound stays a bound, all else is a failed audit.
pub open spec fn audit_failure(error: CandidateSealError) -> RepositoryImportError {
    if error == CandidateSealError::ResourceLimit {
        RepositoryImportError::ResourceLimit
    } else {
        RepositoryImportError::TargetAuditFailed
    }
}

/// Report a candidate failure.
pub fn map_candidate_error(error: CandidateSealError) -> (mapped: RepositoryImportError)
    ensures
        mapped == audit_failure(error),
{
    match error {
        CandidateSealError::ResourceLimit => RepositoryImportError::ResourceLimit,
        CandidateSealError::InvalidContext
        | CandidateSealError::InvalidRecord
        | CandidateSealError::NonCanonicalOrder => RepositoryImportError::TargetAuditFailed,
    }
}

/// Report a rejected candidate path.
pub fn map_candidate_path_error(error: CandidateSealError) -> (mapped: RepositoryImportError)
    ensures
        mapped == audit_failure(error),
{
    map_candidate_error(error)
}

/// An I/O failure as the import reports it.
pub open spec fn io_failure(operation: RepositoryIoOperation, kind: IoErrorKind) -> RepositoryImportError {
    RepositoryImportError::Io { operation, kind }
}

/// Report an I/O failure.
pub fn io_error(operation: RepositoryIoOperation, kind: IoErrorKind) -> (error: RepositoryImportError)
    ensures
        error == io_failure(operation, kind),
{
    RepositoryImportError::Io { operation, kind }
}

} // verus!
