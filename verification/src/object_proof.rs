//! Proof that a running Git holds every object of a candidate.
//!
//! The objects are proved one after another, in ascending order of their ids, and the batch
//! must end well. The bodies are read elsewhere; what is decided here is which object is asked
//! for next, and what the replies amount to.
//!
//! Git runs as one dedicated process group, which is ended as a whole. What leaves the group is out of reach:
//! a proof speaks of the objects alone, and not of every process that was started.

use crate::bytes::bytes_less;
use crate::errors::{audit_failure, map_candidate_error, CandidateSealError, RepositoryImportError};
use crate::git_control::SortedObjectSet;
use crate::git_evidence::{
    are_views_bound, content_error, git_manifest_error, git_projects, projection_error, validate_fresh_git_manifest,
    views_bound, CandidateGitProjection, FreshGitManifest,
};
use crate::git_object::{append, object_record_error, validate_object_record, MAX_RAW_OBJECT_BYTES};
use crate::hex::{decimal_text, decimal_u64};
use crate::identity::{FilesystemDirectoryIdentity, PublicationIdentityScheme};
use crate::manifest::MarkerFreePhysicalManifest;
use crate::seal::{ascends_at, first_error};
use crate::seal_records::ObjectRecord;
use crate::worktree_evidence::{FreshTrackedManifest, FreshTreeManifest};
use vstd::prelude::*;
use vstd::string::*;
use vstd::utf8::encode_utf8;

verus! {

/// What a proof of objects asks for next.
pub enum ProofRequest {
    /// The body of an object is to be proved.
    Prove(ObjectRecord),
    /// Every object is proved, and the batch is to be ended.
    Finish,
}

/// The progress of a proof of objects.
pub struct ObjectSetProof<'a, S: SortedObjectSet> {
    pub objects: &'a S,
    pub verified_objects: usize,
}

/// A proof of every object.
#[derive(Clone, Copy, Debug, PartialEq, Eq, Structural)]
pub struct CompletedRuntimeObjectSet {
    pub verified_objects: usize,
}

/// Why object `i` is not asked for, if it is not: it is refused by itself, or its id is not
/// above the one before.
pub open spec fn request_error(objects: Seq<ObjectRecord>, i: int) -> Option<RepositoryImportError> {
    if object_record_error(objects[i], MAX_RAW_OBJECT_BYTES) is Some {
        Some(audit_failure(object_record_error(objects[i], MAX_RAW_OBJECT_BYTES)->0))
    } else if i > 0 && !ascends_at(objects, i) {
        Some(RepositoryImportError::TargetAuditFailed)
    } else {
        None
    }
}

impl<'a, S: SortedObjectSet> ObjectSetProof<'a, S> {
    /// No more objects are verified than there are.
    pub open spec fn wf(self) -> bool {
        self.verified_objects <= self.objects.object_seq().len()
    }

    /// Begin with nothing proved.
    pub fn begin(objects: &'a S) -> (proof: ObjectSetProof<'a, S>)
        ensures
            proof.wf(),
            *proof.objects == *objects,
            proof.verified_objects == 0,
    {
        ObjectSetProof { objects, verified_objects: 0 }
    }

    /// The next thing to ask for.
    pub fn next_request(&self) -> (r: Result<ProofRequest, RepositoryImportError>)
        requires
            self.wf(),
        ensures
            if self.verified_objects == self.objects.object_seq().len() {
                r == Ok::<ProofRequest, RepositoryImportError>(ProofRequest::Finish)
            } else {
                let i = self.verified_objects as int;
                match request_error(self.objects.object_seq(), i) {
                    Some(error) => r == Err::<ProofRequest, RepositoryImportError>(error),
                    None => r == Ok::<ProofRequest, RepositoryImportError>(ProofRequest::Prove(self.objects.object_seq()[i])),
                }
            },
    {
        if self.verified_objects == self.objects.object_count() {
            return Ok(ProofRequest::Finish);
        }
        let object = self.objects.object_at(self.verified_objects);
        match validate_object_record(object) {
            Ok(()) => {},
            Err(error) => {
                return Err(map_candidate_error(error));
            },
        }
        if self.verified_objects > 0 {
            let previous = self.objects.object_at(self.verified_objects - 1);
            if !bytes_less(previous.oid.as_slice(), object.oid.as_slice()) {
                return Err(RepositoryImportError::TargetAuditFailed);
            }
        }
        Ok(ProofRequest::Prove(object))
    }

    /// Take the reply to the object that was asked for.
    pub fn take_reply(&mut self, reply: Result<(), RepositoryImportError>) -> (r: Result<(), RepositoryImportError>)
        requires
            old(self).wf(),
            old(self).verified_objects < old(self).objects.object_seq().len(),
        ensures
            r == reply,
            final(self).wf(),
            *final(self).objects == *old(self).objects,
            final(self).verified_objects == old(self).verified_objects + if reply is Ok {
                1int
            } else {
                0int
            },
    {
        reply?;
        let count: usize = self.objects.object_count();
        assert(self.verified_objects < count);
        self.verified_objects = self.verified_objects + 1;
        Ok(())
    }

    /// End the batch: every object must be proved, and the batch must have ended well.
    pub fn complete(self, finish: Result<(), RepositoryImportError>) -> (r: Result<
        CompletedRuntimeObjectSet,
        RepositoryImportError,
    >)
        ensures
            r == if self.verified_objects != self.objects.object_seq().len() {
                Err::<CompletedRuntimeObjectSet, RepositoryImportError>(RepositoryImportError::TargetAuditFailed)
            } else {
                match finish {
                    Err(error) => Err(error),
                    Ok(()) => Ok(CompletedRuntimeObjectSet { verified_objects: self.verified_objects }),
                }
            },
    {
        if self.verified_objects != self.objects.object_count() {
            return Err(RepositoryImportError::TargetAuditFailed);
        }
        finish?;
        Ok(CompletedRuntimeObjectSet { verified_objects: self.verified_objects })
    }
}

/// What the replies from object `i` on amount to: the first refusal, whether of a request or
/// in a reply; a missing reply is a refusal too.
pub open spec fn replies_error(
    objects: Seq<ObjectRecord>,
    replies: Seq<Result<(), RepositoryImportError>>,
    i: int,
) -> Option<RepositoryImportError>
    decreases objects.len() - i,
{
    if i >= objects.len() {
        None
    } else if request_error(objects, i) is Some {
        request_error(objects, i)
    } else if i >= replies.len() {
        Some(RepositoryImportError::TargetAuditFailed)
    } else if replies[i] is Err {
        Some(replies[i]->Err_0)
    } else {
        replies_error(objects, replies, i + 1)
    }
}

/// What a whole batch amounts to.
pub open spec fn batch_outcome(
    objects: Seq<ObjectRecord>,
    replies: Seq<Result<(), RepositoryImportError>>,
    finish: Result<(), RepositoryImportError>,
) -> Result<CompletedRuntimeObjectSet, RepositoryImportError> {
    match replies_error(objects, replies, 0) {
        Some(error) => Err(error),
        None => match finish {
            Err(error) => Err(error),
            Ok(()) => Ok(CompletedRuntimeObjectSet { verified_objects: objects.len() as usize }),
        },
    }
}

/// What the replies of a batch, and its end, amount to.
pub fn prove_complete_object_set<S: SortedObjectSet>(
    objects: &S,
    replies: &Vec<Result<(), RepositoryImportError>>,
    finish: Result<(), RepositoryImportError>,
) -> (r: Result<CompletedRuntimeObjectSet, RepositoryImportError>)
    ensures
        r == batch_outcome(objects.object_seq(), replies@, finish),
{
    let ghost all = objects.object_seq();
    let mut proof_of_set = ObjectSetProof::begin(objects);
    loop
        invariant_except_break
            proof_of_set.wf(),
            *proof_of_set.objects == *objects,
            all == objects.object_seq(),
            replies_error(all, replies@, 0) == replies_error(all, replies@, proof_of_set.verified_objects as int),
        ensures
            *proof_of_set.objects == *objects,
            all == objects.object_seq(),
            proof_of_set.verified_objects == all.len(),
            replies_error(all, replies@, 0) is None,
        decreases all.len() - proof_of_set.verified_objects,
    {
        match proof_of_set.next_request() {
            Err(error) => {
                return Err(error);
            },
            Ok(ProofRequest::Finish) => {
                break;
            },
            Ok(ProofRequest::Prove(_)) => {
                if proof_of_set.verified_objects >= replies.len() {
                    return Err(RepositoryImportError::TargetAuditFailed);
                }
                match proof_of_set.take_reply(replies[proof_of_set.verified_objects]) {
                    Ok(()) => {},
                    Err(error) => {
                        return Err(error);
                    },
                }
            },
        }
    }
    proof_of_set.complete(finish)
}

/// A batch that amounts to a proof has proved every object: each was asked for and answered
/// well, their ids ascend, and the batch ended well.
pub proof fn proof_covers_every_object(
    objects: Seq<ObjectRecord>,
    replies: Seq<Result<(), RepositoryImportError>>,
    finish: Result<(), RepositoryImportError>,
    i: int,
)
    requires
        batch_outcome(objects, replies, finish) is Ok,
        0 <= i < objects.len(),
    ensures
        finish is Ok,
        i < replies.len(),
        replies[i] is Ok,
        i > 0 ==> ascends_at(objects, i),
        object_record_error(objects[i], MAX_RAW_OBJECT_BYTES) is None,
{
    accepted_replies(objects, replies, 0, i);
}

proof fn accepted_replies(
    objects: Seq<ObjectRecord>,
    replies: Seq<Result<(), RepositoryImportError>>,
    from: int,
    i: int,
)
    requires
        0 <= from <= i < objects.len(),
        replies_error(objects, replies, from) is None,
    ensures
        request_error(objects, i) is None,
        i < replies.len(),
        replies[i] is Ok,
    decreases i - from,
{
    if from < i {
        accepted_replies(objects, replies, from + 1, i);
    }
}

/// What was seen of the root of a Git runner.
#[derive(Clone, Copy)]
pub struct RunnerRootObservation {
    /// The runner works on a target.
    pub target: bool,
    /// The identity of its root, if the root could be opened.
    pub identity: Option<FilesystemDirectoryIdentity>,
    /// The root that was opened is still the one at its path.
    pub binding_holds: bool,
}

/// The root of a runner is the root of a manifest.
pub open spec fn runner_bound(observation: RunnerRootObservation, physical: MarkerFreePhysicalManifest) -> bool {
    &&& observation.target
    &&& observation.binding_holds
    &&& observation.identity matches Some(identity) && identity.same(physical.root_identity)
}

/// Require a runner to work on the root of a manifest.
pub fn require_runner_root_binding(git: &FreshGitManifest<'_>, observation: &RunnerRootObservation) -> (r: Result<
    (),
    RepositoryImportError,
>)
    ensures
        r == if runner_bound(*observation, *git.physical) {
            Ok::<(), RepositoryImportError>(())
        } else {
            Err(RepositoryImportError::TargetAuditFailed)
        },
{
    match observation.identity {
        None => Err(RepositoryImportError::TargetAuditFailed),
        Some(identity) => {
            if !observation.target || !identity.matches(&git.physical.root_identity) || !observation.binding_holds {
                return Err(RepositoryImportError::TargetAuditFailed);
            }
            Ok(())
        },
    }
}

/// Successful runtime verification permanently bound to one Git manifest. It owns no body, no
/// path, no process, no lock and no right to publish.
pub struct FreshRuntimeObjectProof<'manifest, 'physical> {
    pub git: &'manifest FreshGitManifest<'physical>,
    pub verified_objects: usize,
}

/// Everything that was seen while a batch ran.
pub struct RuntimeBatchTranscript {
    pub root_before: RunnerRootObservation,
    /// The batch was started.
    pub started: Result<(), RepositoryImportError>,
    pub replies: Vec<Result<(), RepositoryImportError>>,
    pub finish: Result<(), RepositoryImportError>,
    pub root_after: RunnerRootObservation,
}

/// Why a transcript is no proof of the objects in Git evidence, if it is none. The views stand on the manifest
/// of the evidence, or not.
pub open spec fn runtime_proof_error(
    bound: bool,
    git: FreshGitManifest,
    files: FreshTrackedManifest,
    trees: FreshTreeManifest,
    transcript: RuntimeBatchTranscript,
) -> Option<RepositoryImportError> {
    if git_manifest_error(git) is Some {
        Some(audit_failure(git_manifest_error(git)->0))
    } else if content_error(bound, git, files, trees) is Some {
        Some(audit_failure(content_error(bound, git, files, trees)->0))
    } else if !runner_bound(transcript.root_before, *git.physical) {
        Some(RepositoryImportError::TargetAuditFailed)
    } else if transcript.started is Err {
        Some(transcript.started->Err_0)
    } else if batch_outcome(git.objects.object_seq(), transcript.replies@, transcript.finish) is Err {
        Some(batch_outcome(git.objects.object_seq(), transcript.replies@, transcript.finish)->Err_0)
    } else if !runner_bound(transcript.root_after, *git.physical) {
        Some(RepositoryImportError::TargetAuditFailed)
    } else {
        None
    }
}

/// Make a proof of every object of Git evidence from what was seen while a batch ran.
pub fn prove_fresh_runtime_objects<'manifest, 'physical>(
    git: &'manifest FreshGitManifest<'physical>,
    files: &FreshTrackedManifest<'physical>,
    trees: &FreshTreeManifest<'physical>,
    transcript: &RuntimeBatchTranscript,
) -> (r: Result<FreshRuntimeObjectProof<'manifest, 'physical>, RepositoryImportError>)
    requires
        git.physical.wf(),
    ensures
        exists|bound: bool| #[trigger]
            views_bound(bound, *git.physical, *files, *trees) && objects_proved(r, bound, *git, *files, *trees, *transcript),
{
    let bound = are_views_bound(git.physical, files, trees);
    prove_objects_when(bound, git, files, trees, transcript)
}

/// A result is the proof that a transcript gives.
pub open spec fn objects_proved(
    r: Result<FreshRuntimeObjectProof, RepositoryImportError>,
    bound: bool,
    git: FreshGitManifest,
    files: FreshTrackedManifest,
    trees: FreshTreeManifest,
    transcript: RuntimeBatchTranscript,
) -> bool {
    match runtime_proof_error(bound, git, files, trees, transcript) {
        Some(error) => r matches Err(e) && e == error,
        None => r matches Ok(evidence) && *evidence.git == git && evidence.verified_objects == git.objects@.len(),
    }
}

/// Make a proof of every object of Git evidence from what was seen while a batch ran. The views stand on the
/// manifest of the evidence, or not.
pub fn prove_objects_when<'manifest, 'physical>(
    bound: bool,
    git: &'manifest FreshGitManifest<'physical>,
    files: &FreshTrackedManifest<'physical>,
    trees: &FreshTreeManifest<'physical>,
    transcript: &RuntimeBatchTranscript,
) -> (r: Result<FreshRuntimeObjectProof<'manifest, 'physical>, RepositoryImportError>)
    requires
        git.physical.wf(),
    ensures
        objects_proved(r, bound, *git, *files, *trees, *transcript),
{
    match validate_fresh_git_manifest(git) {
        Ok(()) => {},
        Err(error) => {
            return Err(map_candidate_error(error));
        },
    }
    match git.require_content_when(bound, files, trees) {
        Ok(()) => {},
        Err(error) => {
            return Err(map_candidate_error(error));
        },
    }
    require_runner_root_binding(git, &transcript.root_before)?;
    transcript.started?;
    let completed = prove_complete_object_set(&git.objects, &transcript.replies, transcript.finish)?;
    require_runner_root_binding(git, &transcript.root_after)?;
    Ok(FreshRuntimeObjectProof { git, verified_objects: completed.verified_objects })
}

/// Why a proof gives no object count, if it gives none.
pub open spec fn object_count_error(runtime: FreshRuntimeObjectProof) -> Option<CandidateSealError> {
    if git_manifest_error(*runtime.git) is Some {
        git_manifest_error(*runtime.git)
    } else if runtime.verified_objects != runtime.git.objects@.len() {
        Some(CandidateSealError::InvalidRecord)
    } else {
        None
    }
}

/// Why a proof gives no seal records, if it gives none. The views stand on its manifest, or not.
pub open spec fn runtime_projection_error(
    bound: bool,
    runtime: FreshRuntimeObjectProof,
    scheme: PublicationIdentityScheme,
    files: FreshTrackedManifest,
    trees: FreshTreeManifest,
) -> Option<CandidateSealError> {
    if runtime.verified_objects != runtime.git.objects@.len() {
        Some(CandidateSealError::InvalidRecord)
    } else {
        first_error(content_error(bound, *runtime.git, files, trees), projection_error(*runtime.git, scheme))
    }
}

impl<'manifest, 'physical> FreshRuntimeObjectProof<'manifest, 'physical> {
    /// Whether the proof is of objects of a given manifest.
    pub fn is_bound_to(&self, physical: &MarkerFreePhysicalManifest) -> (r: bool)
        ensures
            r ==> *self.git.physical == *physical,
    {
        self.git.is_bound_to(physical)
    }

    /// The proof in diagnostics, where only the number of its objects appears.
    pub open spec fn redacted_text(self) -> Seq<u8> {
        encode_utf8("FreshRuntimeObjectProof { git: \"[BOUND MANIFEST]\", verified_objects: "@) + decimal_text(
            self.verified_objects as nat,
        ) + encode_utf8(", .. }"@)
    }

    /// The proof in diagnostics, where only the number of its objects appears.
    pub fn redacted(&self) -> (text: Vec<u8>)
        ensures
            text@ == self.redacted_text(),
    {
        let mut text: Vec<u8> = Vec::new();
        append(&mut text, "FreshRuntimeObjectProof { git: \"[BOUND MANIFEST]\", verified_objects: ".as_bytes());
        append(&mut text, decimal_u64(self.verified_objects as u64).as_slice());
        append(&mut text, ", .. }".as_bytes());
        assert(text@ =~= self.redacted_text());
        text
    }

    /// Revalidate the Git evidence, and give only the number of its objects.
    pub fn checked_object_count(&self) -> (r: Result<u32, CandidateSealError>)
        requires
            self.git.physical.wf(),
        ensures
            match object_count_error(*self) {
                Some(error) => r == Err::<u32, CandidateSealError>(error),
                None => r matches Ok(count) && count == self.git.objects@.len(),
            },
    {
        validate_fresh_git_manifest(self.git)?;
        if self.verified_objects != self.git.objects.len() {
            return Err(CandidateSealError::InvalidRecord);
        }
        Ok(self.verified_objects as u32)
    }

    /// Seal records, through a completed proof only.
    pub fn project_for_seal(
        &self,
        scheme: PublicationIdentityScheme,
        files: &FreshTrackedManifest<'_>,
        trees: &FreshTreeManifest<'_>,
    ) -> (r: Result<CandidateGitProjection<'physical>, CandidateSealError>)
        requires
            self.git.physical.wf(),
        ensures
            exists|bound: bool| #[trigger]
                views_bound(bound, *self.git.physical, *files, *trees) && match runtime_projection_error(
                    bound,
                    *self,
                    scheme,
                    *files,
                    *trees,
                ) {
                    Some(error) => r matches Err(e) && e == error,
                    None => r matches Ok(projection) && git_projects(projection, *self.git),
                },
    {
        let bound = are_views_bound(self.git.physical, files, trees);
        self.project_when(bound, scheme, files, trees)
    }

    /// Seal records, through a completed proof only. The views stand on its manifest, or not.
    pub fn project_when(
        &self,
        bound: bool,
        scheme: PublicationIdentityScheme,
        files: &FreshTrackedManifest<'_>,
        trees: &FreshTreeManifest<'_>,
    ) -> (r: Result<CandidateGitProjection<'physical>, CandidateSealError>)
        requires
            self.git.physical.wf(),
        ensures
            match runtime_projection_error(bound, *self, scheme, *files, *trees) {
                Some(error) => r matches Err(e) && e == error,
                None => r matches Ok(projection) && git_projects(projection, *self.git),
            },
    {
        if self.verified_objects != self.git.objects.len() {
            return Err(CandidateSealError::InvalidRecord);
        }
        self.git.project_when(bound, scheme, files, trees)
    }
}

} // verus!
