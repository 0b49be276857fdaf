//! The content seal of a candidate: one digest over all the evidence that was collected on one
//! physical manifest.
//!
//! A seal proves only the content that the evidence stands for. It does not prove that a
//! mutation lock is held, and it is no permission to write or publish a marker.

use crate::digest::sha256_of;
use crate::errors::CandidateSealError;
use crate::git_control::SortedObjectSet;
use crate::git_evidence::{content_error, control_projects, projection_error, FreshGitManifest};
use crate::manifest::MarkerFreePhysicalManifest;
use crate::revalidation::{projects, record_scheme};
use crate::seal::{encode_candidate_seal_v1, first_error, seal_error, seal_stream};
use crate::seal_agreement::{same_manifests_are_judged_alike, same_schemes};
use crate::seal_framing::{same_manifest, streams_tell_candidates_apart, ReadableRecord};
use crate::seal_records::{CandidateSealContext, CandidateSealManifest};
use crate::text::encoding_is_injective;
use crate::worktree_evidence::{
    index_projects, tracked_error, tree_projects, trees_stand, worktree_projects, FreshTrackedManifest, FreshTreeManifest,
};
use vstd::prelude::*;

verus! {

/// A digest of content, with no lock and no right to publish.
#[derive(Clone, Copy)]
pub struct CandidateContentSeal(pub [u8; 32]);

impl CandidateContentSeal {
    /// The digest.
    pub fn into_digest(self) -> (digest: [u8; 32])
        ensures
            digest == self.0,
    {
        self.0
    }

    /// The seal in diagnostics, where its digest does not appear.
    pub fn redacted(&self) -> (text: &'static str)
        ensures
            text@ == "CandidateContentSeal(\"[REDACTED]\")"@,
    {
        "CandidateContentSeal(\"[REDACTED]\")"
    }
}

/// Where evidence is found to stand on one manifest, it stands on the same.
pub open spec fn bound_together(
    bound: bool,
    physical: MarkerFreePhysicalManifest,
    files: FreshTrackedManifest,
    trees: FreshTreeManifest,
    git: FreshGitManifest,
) -> bool {
    bound ==> *files.physical == physical && *trees.physical == physical && *git.physical == physical
}

/// Every identity in a manifest is of a scheme.
pub open spec fn manifest_scheme_is(
    physical: MarkerFreePhysicalManifest,
    scheme: crate::identity::PublicationIdentityScheme,
) -> bool {
    physical.lock_identity.scheme == scheme && forall|i: int|
        0 <= i < physical.records@.len() ==> record_scheme((#[trigger] physical.records@[i]).kind) == scheme
}

/// Why evidence cannot be brought together for a seal, if it cannot. It stands on one manifest, or not.
pub open spec fn aggregate_error(
    bound: bool,
    context: CandidateSealContext,
    physical: MarkerFreePhysicalManifest,
    files: FreshTrackedManifest,
    trees: FreshTreeManifest,
    git: FreshGitManifest,
) -> Option<CandidateSealError> {
    if !bound {
        Some(CandidateSealError::InvalidRecord)
    } else if !manifest_scheme_is(physical, context.scheme) {
        Some(CandidateSealError::InvalidContext)
    } else if tracked_error(files.physical.records@, files.entries@, context.scheme, 0) is Some {
        tracked_error(files.physical.records@, files.entries@, context.scheme, 0)
    } else if !trees_stand(trees.physical.records@, trees.entries@) {
        Some(CandidateSealError::InvalidRecord)
    } else {
        first_error(content_error(bound, git, files, trees), projection_error(git, context.scheme))
    }
}

/// The sections of a seal manifest say what the evidence says.
pub open spec fn manifest_projects(
    manifest: CandidateSealManifest,
    physical: MarkerFreePhysicalManifest,
    files: FreshTrackedManifest,
    trees: FreshTreeManifest,
    git: FreshGitManifest,
) -> bool {
    &&& manifest.physical@.len() == physical.records@.len()
    &&& forall|i: int| 0 <= i < manifest.physical@.len() ==> projects(#[trigger] manifest.physical@[i], physical.records@[i])
    &&& manifest.worktree@.len() == files.entries@.len()
    &&& forall|i: int|
        0 <= i < manifest.worktree@.len() ==> worktree_projects(
            #[trigger] manifest.worktree@[i],
            files.physical.records@[files.entries@[i].file.0 as int],
            files.entries@[i],
        )
    &&& manifest.index@.len() == files.entries@.len()
    &&& forall|i: int|
        0 <= i < manifest.index@.len() ==> index_projects(
            #[trigger] manifest.index@[i],
            files.physical.records@[files.entries@[i].file.0 as int],
            files.entries@[i],
        )
    &&& manifest.trees@.len() == trees.entries@.len()
    &&& forall|i: int|
        0 <= i < manifest.trees@.len() ==> tree_projects(
            #[trigger] manifest.trees@[i],
            trees.physical.records@[trees.entries@[i].directory.0 as int],
            trees.entries@[i],
        )
    &&& manifest.head_refs.commit_oid == git.root_commit.commit_oid
    &&& manifest.root_commit.commit_oid == git.root_commit.commit_oid
    &&& manifest.root_commit.tree_oid == git.root_commit.tree_oid
    &&& manifest.root_commit.raw_size == git.root_commit.raw_size
    &&& manifest.root_commit.raw_sha256 == git.root_commit.raw_sha256
    &&& manifest.objects@ == git.objects.object_seq()
    &&& manifest.git_control@.len() == git.git_control@.len()
    &&& forall|i: int|
        0 <= i < manifest.git_control@.len() ==> control_projects(
            #[trigger] manifest.git_control@[i],
            git.physical.records@[git.git_control@[i].physical.0 as int],
            git.git_control@[i],
        )
    &&& manifest.private_baseline.identity.0.scheme == physical.lock_identity.scheme
    &&& manifest.private_baseline.identity.0.bytes == physical.lock_identity.wire
}

/// What comes of evidence that can be brought together: the seal of a manifest that says what the evidence
/// says.
pub open spec fn sealed_as(
    r: Result<CandidateContentSeal, CandidateSealError>,
    context: CandidateSealContext,
    manifest: CandidateSealManifest,
) -> bool {
    match seal_error(context, manifest) {
        Some(error) => r matches Err(e) && e == error,
        None => r matches Ok(seal) && seal.0@ == sha256_of(seal_stream(context, manifest)),
    }
}

/// What comes of evidence.
pub open spec fn aggregated(
    r: Result<CandidateContentSeal, CandidateSealError>,
    bound: bool,
    context: CandidateSealContext,
    physical: MarkerFreePhysicalManifest,
    files: FreshTrackedManifest,
    trees: FreshTreeManifest,
    git: FreshGitManifest,
) -> bool {
    match aggregate_error(bound, context, physical, files, trees, git) {
        Some(error) => r matches Err(e) && e == error,
        None => exists|manifest: CandidateSealManifest| #[trigger]
            manifest_projects(manifest, physical, files, trees, git) && sealed_as(r, context, manifest),
    }
}

/// Project all nine sections once, and hash their stream.
pub fn aggregate_candidate_content_seal_v1<'physical>(
    context: CandidateSealContext,
    physical: &'physical MarkerFreePhysicalManifest,
    files: &FreshTrackedManifest<'physical>,
    trees: &FreshTreeManifest<'physical>,
    git: &FreshGitManifest<'physical>,
) -> (r: Result<CandidateContentSeal, CandidateSealError>)
    requires
        git.physical.wf(),
    ensures
        exists|bound: bool| #[trigger]
            bound_together(bound, *physical, *files, *trees, *git) && aggregated(
                r,
                bound,
                context,
                *physical,
                *files,
                *trees,
                *git,
            ),
{
    let bound = files.is_bound_to(physical) && trees.is_bound_to(physical) && git.is_bound_to(physical);
    assert(bound_together(bound, *physical, *files, *trees, *git));
    aggregate_when(bound, context, physical, files, trees, git)
}

/// Project all nine sections of evidence once, and hash their stream. The evidence stands on one manifest, or
/// not.
pub fn aggregate_when<'physical>(
    bound: bool,
    context: CandidateSealContext,
    physical: &'physical MarkerFreePhysicalManifest,
    files: &FreshTrackedManifest<'physical>,
    trees: &FreshTreeManifest<'physical>,
    git: &FreshGitManifest<'physical>,
) -> (r: Result<CandidateContentSeal, CandidateSealError>)
    requires
        git.physical.wf(),
    ensures
        aggregated(r, bound, context, *physical, *files, *trees, *git),
{
    if !bound {
        return Err(CandidateSealError::InvalidRecord);
    }
    let physical_projection = physical.project(context.scheme)?;
    let (worktree, index) = files.project(context.scheme)?;
    let tree_records = trees.project()?;
    let git_projection = git.project_when(bound, context.scheme, files, trees)?;
    let manifest = CandidateSealManifest {
        physical: physical_projection.physical.as_slice(),
        worktree: worktree.as_slice(),
        head_refs: git_projection.head_refs,
        index: index.as_slice(),
        trees: tree_records.as_slice(),
        root_commit: git_projection.root_commit,
        objects: git_projection.objects.as_slice(),
        git_control: git_projection.git_control.as_slice(),
        private_baseline: physical_projection.private_baseline,
    };
    assert(manifest_projects(manifest, *physical, *files, *trees, *git));
    let digest = encode_candidate_seal_v1(context, manifest)?;
    Ok(CandidateContentSeal(digest))
}

/// One body of evidence has one seal: any two manifests that say what the evidence says are refused alike
/// or have the same stream.
pub proof fn evidence_has_one_seal(
    context: CandidateSealContext,
    physical: MarkerFreePhysicalManifest,
    files: FreshTrackedManifest,
    trees: FreshTreeManifest,
    git: FreshGitManifest,
    manifest: CandidateSealManifest,
    other: CandidateSealManifest,
)
    requires
        manifest_projects(manifest, physical, files, trees, git),
        manifest_projects(other, physical, files, trees, git),
    ensures
        same_manifest(manifest, other),
        seal_error(context, manifest) == seal_error(context, other),
        seal_error(context, manifest) is None ==> sha256_of(seal_stream(context, manifest)) == sha256_of(
            seal_stream(context, other),
        ),
{
    assert forall|i: int| 0 <= i < manifest.physical@.len() implies (#[trigger] manifest.physical@[i]).same_record(
        &other.physical@[i],
    ) by {
        assert(projects(manifest.physical@[i], physical.records@[i]));
        assert(projects(other.physical@[i], physical.records@[i]));
    }
    assert forall|i: int| 0 <= i < manifest.worktree@.len() implies (#[trigger] manifest.worktree@[i]).same_record(
        &other.worktree@[i],
    ) by {
        let record = files.physical.records@[files.entries@[i].file.0 as int];
        assert(worktree_projects(manifest.worktree@[i], record, files.entries@[i]));
        assert(worktree_projects(other.worktree@[i], record, files.entries@[i]));
    }
    assert forall|i: int| 0 <= i < manifest.index@.len() implies (#[trigger] manifest.index@[i]).same_record(
        &other.index@[i],
    ) by {
        let record = files.physical.records@[files.entries@[i].file.0 as int];
        assert(index_projects(manifest.index@[i], record, files.entries@[i]));
        assert(index_projects(other.index@[i], record, files.entries@[i]));
    }
    assert forall|i: int| 0 <= i < manifest.trees@.len() implies (#[trigger] manifest.trees@[i]).same_record(
        &other.trees@[i],
    ) by {
        let record = trees.physical.records@[trees.entries@[i].directory.0 as int];
        assert(tree_projects(manifest.trees@[i], record, trees.entries@[i]));
        assert(tree_projects(other.trees@[i], record, trees.entries@[i]));
    }
    assert forall|i: int| 0 <= i < manifest.git_control@.len() implies (#[trigger] manifest.git_control@[i]).same_record(
        &other.git_control@[i],
    ) by {
        let record = git.physical.records@[git.git_control@[i].physical.0 as int];
        assert(control_projects(manifest.git_control@[i], record, git.git_control@[i]));
        assert(control_projects(other.git_control@[i], record, git.git_control@[i]));
        encoding_is_injective(manifest.git_control@[i].path@, other.git_control@[i].path@);
    }
    assert forall|i: int| 0 <= i < manifest.physical@.len() implies (#[trigger] manifest.physical@[i]).seal_identity().scheme
        == other.physical@[i].seal_identity().scheme by {
        assert(projects(manifest.physical@[i], physical.records@[i]));
        assert(projects(other.physical@[i], physical.records@[i]));
    }
    assert forall|i: int| 0 <= i < manifest.worktree@.len() implies (#[trigger] manifest.worktree@[i]).identity.0.scheme
        == other.worktree@[i].identity.0.scheme by {
        let record = files.physical.records@[files.entries@[i].file.0 as int];
        assert(worktree_projects(manifest.worktree@[i], record, files.entries@[i]));
        assert(worktree_projects(other.worktree@[i], record, files.entries@[i]));
    }
    assert forall|i: int| 0 <= i < manifest.git_control@.len() implies (
    #[trigger] manifest.git_control@[i]).seal_identity().scheme == other.git_control@[i].seal_identity().scheme by {
        let record = git.physical.records@[git.git_control@[i].physical.0 as int];
        assert(control_projects(manifest.git_control@[i], record, git.git_control@[i]));
        assert(control_projects(other.git_control@[i], record, git.git_control@[i]));
    }
    assert(same_schemes(manifest, other));
    same_manifests_are_judged_alike(context, manifest, other);
    if seal_error(context, manifest) is None {
        streams_tell_candidates_apart(context, manifest, context, other);
    }
}

/// Evidence that stands on another manifest than the rest is refused: mixed evidence has no seal.
pub proof fn mixed_evidence_has_no_seal(
    r: Result<CandidateContentSeal, CandidateSealError>,
    bound: bool,
    context: CandidateSealContext,
    physical: MarkerFreePhysicalManifest,
    files: FreshTrackedManifest,
    trees: FreshTreeManifest,
    git: FreshGitManifest,
)
    requires
        bound_together(bound, physical, files, trees, git),
        aggregated(r, bound, context, physical, files, trees, git),
        *files.physical != physical || *trees.physical != physical || *git.physical != physical,
    ensures
        r == Err::<CandidateContentSeal, CandidateSealError>(CandidateSealError::InvalidRecord),
{
}

/// The seal of a body of evidence is that of every manifest that says what the evidence says, however
/// its sections were put together; and evidence is refused as every such manifest is.
pub proof fn seal_is_that_of_every_projection(
    r: Result<CandidateContentSeal, CandidateSealError>,
    bound: bool,
    context: CandidateSealContext,
    physical: MarkerFreePhysicalManifest,
    files: FreshTrackedManifest,
    trees: FreshTreeManifest,
    git: FreshGitManifest,
    manifest: CandidateSealManifest,
)
    requires
        aggregated(r, bound, context, physical, files, trees, git),
        aggregate_error(bound, context, physical, files, trees, git) is None,
        manifest_projects(manifest, physical, files, trees, git),
    ensures
        sealed_as(r, context, manifest),
{
    let found = choose|found: CandidateSealManifest| #[trigger]
        manifest_projects(found, physical, files, trees, git) && sealed_as(r, context, found);
    evidence_has_one_seal(context, physical, files, trees, git, found, manifest);
}

} // verus!
