//! What is told of a failure, and what is kept of it.

use crate::errors::{
    io_failure, target_index_failure, IoErrorKind, RawIndexError, RepositoryGitOperation, RepositoryImportError,
    RepositoryIoOperation,
};
use vstd::prelude::*;
use vstd::string::*;

verus! {

/// A failure of Git tells what Git was asked, and a failure of reading or writing tells what was done and of
/// which kind the failure was; so two failures that were of the same kind while the same was done are told
/// alike.
pub proof fn failures_tell_what_was_done(git: RepositoryGitOperation, operation: RepositoryIoOperation, kind: IoErrorKind)
    ensures
        (RepositoryImportError::GitCommandFailed { operation: git }).message_text() == "Git plumbing failed during "@ + git.label_text(),
        (RepositoryImportError::Io { operation, kind }).message_text() == "repository import I/O failed during "@
            + operation.label_text() + ": "@ + kind.label_text(),
        io_failure(operation, kind) == (RepositoryImportError::Io { operation, kind }),
{
}

/// An index of a target that cannot be read is a failed audit, unless it is too large.
pub proof fn unreadable_indexes_of_targets(error: RawIndexError)
    ensures
        target_index_failure(error) == RepositoryImportError::ResourceLimit <==> error is ResourceLimit,
        !(error is ResourceLimit) ==> target_index_failure(error) == RepositoryImportError::TargetAuditFailed,
{
}

} // verus!
