//! The authority of the process that made a candidate, before the candidate has a marker.
//!
//! The lock of the candidate is taken from its physical manifest, and all evidence is built while
//! the lock is held. Last of all the whole tree is checked once more. This authority is no right
//! to publish. The lock serializes writers that cooperate; a hostile process can ignore it, and
//! the seal has no key.

use crate::bytes::bytes_equal;
use crate::content_seal::{aggregate_when, aggregated, CandidateContentSeal};
use crate::errors::{CandidateSealError, RepositoryImportError};
use crate::git_evidence::{collect_git_evidence_when, collected, FreshGitManifest};
use crate::git_object::{is_root_commit, parse_canonical_root_commit, FreshRootCommitEvidence, MAX_CANONICAL_ROOT_COMMIT_BYTES};
use crate::git_output::sha1_text;
use crate::hex::hex_bytes;
use crate::identity::FilesystemDirectoryIdentity;
use crate::manifest::MarkerFreePhysicalManifest;
use crate::object_proof::{prove_objects_when, runtime_proof_error, RuntimeBatchTranscript};
use crate::seal_records::CandidateSealContext;
use crate::target_audit::TargetRepository;
use crate::tree_body::decode_sha1_oid;
use crate::worktree_evidence::{FreshTrackedEntry, FreshTrackedManifest, FreshTreeEntry, FreshTreeManifest};
use vstd::prelude::*;
use vstd::string::*;
use vstd::utf8::encode_utf8;

verus! {

/// Why there is no initial authority. `K` is the failure of a lock, which is kept as it is.
#[derive(Clone, Copy)]
pub enum InitialCandidateAuthorityError<K> {
    /// The lock could not be taken or is no longer the same.
    Lock(K),
    /// Evidence or the context of the seal is invalid.
    Candidate(CandidateSealError),
    /// The target could not be collected or proved.
    Repository(RepositoryImportError),
}

/// Authority over a candidate without a marker, which owns the candidate's lock. `H` is the open
/// root and `L` the lock. It is not copied.
#[must_use]
pub struct InitialCandidateAuthority<'physical, H, L> {
    pub root: String,
    pub physical: &'physical MarkerFreePhysicalManifest,
    pub held_root: H,
    pub context: CandidateSealContext,
    pub root_commit: FreshRootCommitEvidence,
    pub content_seal: CandidateContentSeal,
    pub mutation_lock: L,
}

/// An open root and its identity.
pub struct HeldRoot<H> {
    pub handle: H,
    pub identity: FilesystemDirectoryIdentity,
}

/// What was seen while the authority was acquired, in the order in which it was seen.
pub struct InitialSighting<'physical, H, L, K> {
    /// The root in canonical form.
    pub root: Result<String, RepositoryImportError>,
    pub physical: Result<&'physical MarkerFreePhysicalManifest, RepositoryImportError>,
    /// The root, if it could be opened.
    pub held_root: Option<HeldRoot<H>>,
    /// The open root has no other stream: before the lock, and under the lock.
    pub sole_stream_before: bool,
    pub sole_stream_under_lock: bool,
    pub lock: Result<L, K>,
    pub lock_current: Result<(), K>,
    /// The whole tree was exactly as before, under the lock.
    pub exact_under_lock: Result<(), RepositoryImportError>,
    /// Git was found, and a runner could be made.
    pub git_found: bool,
    pub runner: Result<(), RepositoryImportError>,
    /// The tracked files, in records of the manifest.
    pub files: Result<Vec<FreshTrackedEntry>, CandidateSealError>,
    /// The directories of the worktree, in records of the manifest.
    pub trees: Result<Vec<FreshTreeEntry>, CandidateSealError>,
    pub closing: InitialClosing<K>,
}

/// What was seen while the authority was acquired, after its evidence was there.
pub struct InitialClosing<K> {
    /// The authenticated vault and its configuration agree with the candidate.
    pub vault: Result<(), InitialCandidateAuthorityError<K>>,
    /// The vault has the profile that is expected.
    pub profile: Result<(), InitialCandidateAuthorityError<K>>,
    pub transcript: RuntimeBatchTranscript,
    /// The open root has no other stream at the end.
    pub sole_stream_at_end: bool,
    pub lock_current_at_end: Result<(), K>,
    /// The whole tree was exactly as before at the end.
    pub exact_at_end: Result<(), RepositoryImportError>,
}

impl<'physical, H, L, K> InitialSighting<'physical, H, L, K> {
    /// A manifest that was collected is valid.
    pub open spec fn wf(self) -> bool {
        self.physical matches Ok(physical) ==> physical.wf()
    }

    /// The files that were seen, on the manifest that was collected.
    pub open spec fn tracked_files(self) -> FreshTrackedManifest<'physical> {
        FreshTrackedManifest { physical: self.physical->Ok_0, entries: self.files->Ok_0 }
    }

    /// The trees that were seen, on the manifest that was collected.
    pub open spec fn worktree_trees(self) -> FreshTreeManifest<'physical> {
        FreshTreeManifest { physical: self.physical->Ok_0, entries: self.trees->Ok_0 }
    }
}

/// Why the lock cannot be taken or used, if it cannot.
pub open spec fn lock_error<H, L, K>(target: TargetRepository, seen: InitialSighting<H, L, K>) -> Option<
    InitialCandidateAuthorityError<K>,
> {
    if seen.root is Err {
        Some(InitialCandidateAuthorityError::Repository(seen.root->Err_0))
    } else if seen.physical is Err {
        Some(InitialCandidateAuthorityError::Repository(seen.physical->Err_0))
    } else if !target.root_identity.same(seen.physical->Ok_0.root_identity) {
        Some(InitialCandidateAuthorityError::Candidate(CandidateSealError::InvalidContext))
    } else if seen.held_root is None || !seen.sole_stream_before {
        Some(InitialCandidateAuthorityError::Repository(RepositoryImportError::TargetAuditFailed))
    } else if !seen.held_root->0.identity.same(seen.physical->Ok_0.root_identity) {
        Some(InitialCandidateAuthorityError::Candidate(CandidateSealError::InvalidContext))
    } else if seen.lock is Err {
        Some(InitialCandidateAuthorityError::Lock(seen.lock->Err_0))
    } else if seen.lock_current is Err {
        Some(InitialCandidateAuthorityError::Lock(seen.lock_current->Err_0))
    } else if !seen.sole_stream_under_lock {
        Some(InitialCandidateAuthorityError::Repository(RepositoryImportError::TargetAuditFailed))
    } else if seen.exact_under_lock is Err {
        Some(InitialCandidateAuthorityError::Repository(seen.exact_under_lock->Err_0))
    } else if !seen.git_found {
        Some(InitialCandidateAuthorityError::Repository(RepositoryImportError::GitExecutableUnavailable))
    } else if seen.runner is Err {
        Some(InitialCandidateAuthorityError::Repository(seen.runner->Err_0))
    } else if seen.files is Err {
        Some(InitialCandidateAuthorityError::Candidate(seen.files->Err_0))
    } else if seen.trees is Err {
        Some(InitialCandidateAuthorityError::Candidate(seen.trees->Err_0))
    } else {
        None
    }
}

/// A root commit is what the bytes of a commit give.
pub open spec fn parsed(commit: Result<FreshRootCommitEvidence, CandidateSealError>, body: Seq<u8>) -> bool {
    match commit {
        Ok(evidence) => body.len() <= MAX_CANONICAL_ROOT_COMMIT_BYTES && exists|tree: Seq<u8>, stamp: Seq<u8>| #[trigger]
            is_root_commit(body, tree, stamp) && evidence.describes(body, tree),
        Err(error) => if body.len() > MAX_CANONICAL_ROOT_COMMIT_BYTES {
            error == CandidateSealError::ResourceLimit
        } else {
            error == CandidateSealError::InvalidRecord && !exists|tree: Seq<u8>, stamp: Seq<u8>| is_root_commit(body, tree, stamp)
        },
    }
}

/// Why a commit is not the root commit of a target, if it is not.
pub open spec fn commit_error<K>(target: TargetRepository, commit: Result<FreshRootCommitEvidence, CandidateSealError>) -> Option<
    InitialCandidateAuthorityError<K>,
> {
    if commit is Err {
        Some(InitialCandidateAuthorityError::Candidate(commit->Err_0))
    } else if !sha1_text(encode_utf8(target.root_commit_oid@)) {
        Some(InitialCandidateAuthorityError::Repository(RepositoryImportError::TargetAuditFailed))
    } else if hex_bytes(encode_utf8(target.root_commit_oid@)) != commit->Ok_0.commit_oid@ {
        Some(InitialCandidateAuthorityError::Candidate(CandidateSealError::InvalidRecord))
    } else {
        None
    }
}

/// Why evidence gives no authority, if it gives none.
pub open spec fn evidence_error<K>(
    files: FreshTrackedManifest,
    trees: FreshTreeManifest,
    closing: InitialClosing<K>,
    git: Result<FreshGitManifest, CandidateSealError>,
    seal: Result<CandidateContentSeal, CandidateSealError>,
) -> Option<InitialCandidateAuthorityError<K>> {
    if git is Err {
        Some(InitialCandidateAuthorityError::Candidate(git->Err_0))
    } else if closing.vault is Err {
        Some(closing.vault->Err_0)
    } else if closing.profile is Err {
        Some(closing.profile->Err_0)
    } else if runtime_proof_error(true, git->Ok_0, files, trees, closing.transcript) is Some {
        Some(
            InitialCandidateAuthorityError::Repository(
                runtime_proof_error(true, git->Ok_0, files, trees, closing.transcript)->0,
            ),
        )
    } else if seal is Err {
        Some(InitialCandidateAuthorityError::Candidate(seal->Err_0))
    } else if !closing.sole_stream_at_end {
        Some(InitialCandidateAuthorityError::Repository(RepositoryImportError::TargetAuditFailed))
    } else if closing.lock_current_at_end is Err {
        Some(InitialCandidateAuthorityError::Lock(closing.lock_current_at_end->Err_0))
    } else if closing.exact_at_end is Err {
        Some(InitialCandidateAuthorityError::Repository(closing.exact_at_end->Err_0))
    } else {
        None
    }
}

/// Git evidence and a seal are the ones that a manifest, what was seen on it, and a commit give.
pub open spec fn initial_evidence(
    context: CandidateSealContext,
    files: FreshTrackedManifest,
    trees: FreshTreeManifest,
    commit: FreshRootCommitEvidence,
    git: Result<FreshGitManifest, CandidateSealError>,
    seal: Result<CandidateContentSeal, CandidateSealError>,
) -> bool {
    &&& collected(git, true, *files.physical, files, trees, commit)
    &&& git matches Ok(evidence) ==> aggregated(seal, true, context, *files.physical, files, trees, evidence)
}

/// An authority holds what was seen and what the evidence gave.
pub open spec fn granted<H, L, K>(
    authority: InitialCandidateAuthority<H, L>,
    context: CandidateSealContext,
    seen: InitialSighting<H, L, K>,
    commit: FreshRootCommitEvidence,
    seal: CandidateContentSeal,
) -> bool {
    &&& authority.root == seen.root->Ok_0
    &&& authority.physical == seen.physical->Ok_0
    &&& authority.held_root == seen.held_root->0.handle
    &&& authority.context == context
    &&& authority.root_commit == commit
    &&& authority.content_seal == seal
    &&& authority.mutation_lock == seen.lock->Ok_0
}

/// A result is what the evidence that was built from a commit gives.
pub open spec fn concluded<H, L, K>(
    r: Result<InitialCandidateAuthority<H, L>, InitialCandidateAuthorityError<K>>,
    context: CandidateSealContext,
    seen: InitialSighting<H, L, K>,
    commit: FreshRootCommitEvidence,
) -> bool {
    exists|git: Result<FreshGitManifest, CandidateSealError>, seal: Result<CandidateContentSeal, CandidateSealError>|
        {
            &&& #[trigger] initial_evidence(context, seen.tracked_files(), seen.worktree_trees(), commit, git, seal)
            &&& match evidence_error(seen.tracked_files(), seen.worktree_trees(), seen.closing, git, seal) {
                Some(error) => r matches Err(e) && e == error,
                None => r matches Ok(authority) && granted(authority, context, seen, commit, seal->Ok_0),
            }
        }
}

/// A result is what a target and the sightings of an attempt give.
pub open spec fn acquired<H, L, K>(
    r: Result<InitialCandidateAuthority<H, L>, InitialCandidateAuthorityError<K>>,
    target: TargetRepository,
    context: CandidateSealContext,
    seen: InitialSighting<H, L, K>,
) -> bool {
    match lock_error(target, seen) {
        Some(error) => r matches Err(e) && e == error,
        None => exists|commit: Result<FreshRootCommitEvidence, CandidateSealError>|
            {
                &&& #[trigger] parsed(commit, target.commit_bytes@)
                &&& match commit_error::<K>(target, commit) {
                    Some(error) => r matches Err(e) && e == error,
                    None => concluded(r, context, seen, commit->Ok_0),
                }
            },
    }
}

/// The first reason for which the lock cannot be taken or used, if any.
fn judge_lock<H, L, K: Copy>(target: &TargetRepository, seen: &InitialSighting<'_, H, L, K>) -> (r: Option<
    InitialCandidateAuthorityError<K>,
>)
    ensures
        r == lock_error(*target, *seen),
{
    match &seen.root {
        Ok(_) => {},
        Err(error) => {
            return Some(InitialCandidateAuthorityError::Repository(*error));
        },
    }
    let physical = match &seen.physical {
        Ok(physical) => *physical,
        Err(error) => {
            return Some(InitialCandidateAuthorityError::Repository(*error));
        },
    };
    if !target.root_identity.matches(&physical.root_identity) {
        return Some(InitialCandidateAuthorityError::Candidate(CandidateSealError::InvalidContext));
    }
    match &seen.held_root {
        None => {
            return Some(InitialCandidateAuthorityError::Repository(RepositoryImportError::TargetAuditFailed));
        },
        Some(held) => {
            if !seen.sole_stream_before {
                return Some(InitialCandidateAuthorityError::Repository(RepositoryImportError::TargetAuditFailed));
            }
            if !held.identity.matches(&physical.root_identity) {
                return Some(InitialCandidateAuthorityError::Candidate(CandidateSealError::InvalidContext));
            }
        },
    }
    match &seen.lock {
        Ok(_) => {},
        Err(error) => {
            return Some(InitialCandidateAuthorityError::Lock(*error));
        },
    }
    match &seen.lock_current {
        Ok(()) => {},
        Err(error) => {
            return Some(InitialCandidateAuthorityError::Lock(*error));
        },
    }
    if !seen.sole_stream_under_lock {
        return Some(InitialCandidateAuthorityError::Repository(RepositoryImportError::TargetAuditFailed));
    }
    match &seen.exact_under_lock {
        Ok(()) => {},
        Err(error) => {
            return Some(InitialCandidateAuthorityError::Repository(*error));
        },
    }
    if !seen.git_found {
        return Some(InitialCandidateAuthorityError::Repository(RepositoryImportError::GitExecutableUnavailable));
    }
    match &seen.runner {
        Ok(()) => {},
        Err(error) => {
            return Some(InitialCandidateAuthorityError::Repository(*error));
        },
    }
    match &seen.files {
        Ok(_) => {},
        Err(error) => {
            return Some(InitialCandidateAuthorityError::Candidate(*error));
        },
    }
    match &seen.trees {
        Ok(_) => {},
        Err(error) => {
            return Some(InitialCandidateAuthorityError::Candidate(*error));
        },
    }
    None
}

/// The reason for which a commit is not the root commit of a target, if any.
fn judge_commit<K>(target: &TargetRepository, commit: &Result<FreshRootCommitEvidence, CandidateSealError>) -> (r: Option<
    InitialCandidateAuthorityError<K>,
>)
    ensures
        r == commit_error::<K>(*target, *commit),
{
    let evidence = match commit {
        Ok(evidence) => *evidence,
        Err(error) => {
            return Some(InitialCandidateAuthorityError::Candidate(*error));
        },
    };
    match decode_sha1_oid(target.root_commit_oid.as_str()) {
        Err(error) => Some(InitialCandidateAuthorityError::Repository(error)),
        Ok(oid) => {
            if !bytes_equal(oid.as_slice(), evidence.commit_oid.as_slice()) {
                return Some(InitialCandidateAuthorityError::Candidate(CandidateSealError::InvalidRecord));
            }
            None
        },
    }
}

/// The first reason for which evidence gives no authority, if any.
fn judge_evidence<K: Copy>(
    files: &FreshTrackedManifest<'_>,
    trees: &FreshTreeManifest<'_>,
    closing: &InitialClosing<K>,
    git: &FreshGitManifest<'_>,
    seal: &Result<CandidateContentSeal, CandidateSealError>,
) -> (r: Option<InitialCandidateAuthorityError<K>>)
    requires
        git.physical.wf(),
    ensures
        r == evidence_error(*files, *trees, *closing, Ok(*git), *seal),
{
    match &closing.vault {
        Ok(()) => {},
        Err(error) => {
            return Some(*error);
        },
    }
    match &closing.profile {
        Ok(()) => {},
        Err(error) => {
            return Some(*error);
        },
    }
    match prove_objects_when(true, git, files, trees, &closing.transcript) {
        Ok(_) => {},
        Err(error) => {
            return Some(InitialCandidateAuthorityError::Repository(error));
        },
    }
    match seal {
        Ok(_) => {},
        Err(error) => {
            return Some(InitialCandidateAuthorityError::Candidate(*error));
        },
    }
    if !closing.sole_stream_at_end {
        return Some(InitialCandidateAuthorityError::Repository(RepositoryImportError::TargetAuditFailed));
    }
    match &closing.lock_current_at_end {
        Ok(()) => {},
        Err(error) => {
            return Some(InitialCandidateAuthorityError::Lock(*error));
        },
    }
    match &closing.exact_at_end {
        Ok(()) => {},
        Err(error) => {
            return Some(InitialCandidateAuthorityError::Repository(*error));
        },
    }
    None
}

/// Build Git evidence and the seal on one manifest, and judge them.
fn judge_candidate<'physical, K: Copy>(
    context: CandidateSealContext,
    physical: &'physical MarkerFreePhysicalManifest,
    files: &FreshTrackedManifest<'physical>,
    trees: &FreshTreeManifest<'physical>,
    closing: &InitialClosing<K>,
    commit: FreshRootCommitEvidence,
) -> (r: Result<CandidateContentSeal, InitialCandidateAuthorityError<K>>)
    requires
        physical.wf(),
        *files.physical == *physical,
    ensures
        exists|git: Result<FreshGitManifest, CandidateSealError>, seal: Result<CandidateContentSeal, CandidateSealError>|
            {
                &&& #[trigger] initial_evidence(context, *files, *trees, commit, git, seal)
                &&& match evidence_error(*files, *trees, *closing, git, seal) {
                    Some(error) => r matches Err(e) && e == error,
                    None => r matches Ok(content) && seal is Ok && content == seal->Ok_0,
                }
            },
{
    let ghost no_seal = Err::<CandidateContentSeal, CandidateSealError>(CandidateSealError::InvalidRecord);
    let collection = collect_git_evidence_when(true, physical, files, trees, commit);
    let git = match &collection {
        Ok(git) => git,
        Err(error) => {
            assert(initial_evidence(context, *files, *trees, commit, collection, no_seal));
            return Err(InitialCandidateAuthorityError::Candidate(*error));
        },
    };
    let seal = aggregate_when(true, context, physical, files, trees, git);
    assert(initial_evidence(context, *files, *trees, commit, collection, seal));
    match judge_evidence(files, trees, closing, git, &seal) {
        Some(error) => Err(error),
        None => match seal {
            Ok(content) => Ok(content),
            Err(error) => Err(InitialCandidateAuthorityError::Candidate(error)),
        },
    }
}

/// Acquire authority over a candidate without a marker, from what was seen while its lock was
/// taken and held. All evidence is built on the one manifest that was collected. The target that the
/// process made gives the body of the root commit alone.
pub fn acquire_initial_candidate_authority<'physical, H, L, K: Copy>(
    target: &TargetRepository,
    context: CandidateSealContext,
    seen: InitialSighting<'physical, H, L, K>,
) -> (r: Result<InitialCandidateAuthority<'physical, H, L>, InitialCandidateAuthorityError<K>>)
    requires
        seen.wf(),
    ensures
        acquired(r, *target, context, seen),
{
    match judge_lock(target, &seen) {
        Some(error) => {
            return Err(error);
        },
        None => {},
    }
    let parsing = parse_canonical_root_commit(target.commit_bytes.as_slice());
    assert(parsed(parsing, target.commit_bytes@));
    match judge_commit(target, &parsing) {
        Some(error) => {
            return Err(error);
        },
        None => {},
    }
    match (parsing, seen.root, seen.physical, seen.held_root, seen.lock, seen.files, seen.trees) {
        (Ok(root_commit), Ok(root), Ok(physical), Some(held), Ok(mutation_lock), Ok(files), Ok(trees)) => {
            let files = FreshTrackedManifest { physical, entries: files };
            let trees = FreshTreeManifest { physical, entries: trees };
            assert(files == seen.tracked_files() && trees == seen.worktree_trees());
            match judge_candidate(context, physical, &files, &trees, &seen.closing, root_commit) {
                Err(error) => Err(error),
                Ok(content_seal) => Ok(
                    InitialCandidateAuthority {
                        root,
                        physical,
                        held_root: held.handle,
                        context,
                        root_commit,
                        content_seal,
                        mutation_lock,
                    },
                ),
            }
        },
        _ => Err(InitialCandidateAuthorityError::Repository(RepositoryImportError::TargetAuditFailed)),
    }
}

/// Initial authority is complete: the lock was taken and is the same at the end, the tree was
/// exactly as before at the end, and the commit is the one whose id the target has.
pub proof fn initial_authority_is_complete<H, L, K>(
    authority: InitialCandidateAuthority<H, L>,
    target: TargetRepository,
    context: CandidateSealContext,
    seen: InitialSighting<H, L, K>,
)
    requires
        acquired(Ok::<InitialCandidateAuthority<H, L>, InitialCandidateAuthorityError<K>>(authority), target, context, seen),
    ensures
        seen.lock == Ok::<L, K>(authority.mutation_lock),
        seen.lock_current is Ok,
        seen.closing.lock_current_at_end is Ok,
        seen.exact_under_lock is Ok,
        seen.closing.exact_at_end is Ok,
        seen.closing.vault is Ok,
        seen.closing.profile is Ok,
        target.root_identity.same(authority.physical.root_identity),
        parsed(Ok::<FreshRootCommitEvidence, CandidateSealError>(authority.root_commit), target.commit_bytes@),
        hex_bytes(encode_utf8(target.root_commit_oid@)) == authority.root_commit.commit_oid@,
{
}

} // verus!
