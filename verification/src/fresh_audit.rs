//! The full audit of a candidate that carries a publication marker, and its summary.
//!
//! The audit borrows the marker, brings the evidence of all nine sections together once, and
//! gives a summary of fixed size. It publishes nothing and changes nothing.

use crate::bytes::bytes_equal;
use crate::content_seal::{aggregate_when, aggregated, CandidateContentSeal};
use crate::errors::{audit_failure, map_candidate_error, CandidateSealError, RepositoryImportError};
use crate::git_evidence::{collect_git_evidence_when, collected, FreshGitManifest};
use crate::git_object::{append, FreshRootCommitEvidence};
use crate::hex::{decimal_text, decimal_u64};
use crate::identity::FilesystemDirectoryIdentity;
use crate::manifest::MarkerFreePhysicalManifest;
use crate::object_proof::{prove_objects_when, runtime_proof_error, RuntimeBatchTranscript};
use crate::seal_records::{CandidateSealContext, WorktreeClass, DOMAIN};
use crate::text::text_equal;
use crate::worktree_evidence::{FreshTrackedEntry, FreshTrackedManifest, FreshTreeEntry, FreshTreeManifest};
use vstd::prelude::*;
use vstd::string::*;
use vstd::utf8::encode_utf8;

verus! {

/// What the body of a publication marker says.
pub struct PublicationMarker<'a> {
    pub domain: &'a str,
    pub context: CandidateSealContext,
    pub candidate_seal: [u8; 32],
    pub staging_child_name: &'a str,
    pub destination_child_name: &'a str,
    pub common_parent: FilesystemDirectoryIdentity,
}

/// The summary of one complete audit, of fixed size. It owns no path, no handle, no lock and no
/// marker, and is not copied.
pub struct FreshMarkerCandidateAudit {
    pub context: CandidateSealContext,
    pub content_seal: CandidateContentSeal,
    pub worktree_files: u32,
    pub encrypted_markdown: u32,
    pub encrypted_assets: u32,
    pub git_objects: u32,
    pub root_commit_oid: [u8; 20],
}

/// One field of a summary that changed from one review to another.
#[derive(Clone, Copy, Debug, PartialEq, Eq, Structural)]
pub enum CandidateSummaryMismatch {
    Context,
    ContentSeal,
    RootCommit,
    WorktreeCount,
    MarkdownCount,
    AssetCount,
    GitObjectCount,
}

/// Two contexts are the same.
pub open spec fn same_context(a: CandidateSealContext, b: CandidateSealContext) -> bool {
    a.scheme == b.scheme && a.scheme_wire_value == b.scheme_wire_value && a.publication_id@ == b.publication_id@
}

/// Two summaries say the same.
pub open spec fn same_summary(a: FreshMarkerCandidateAudit, b: FreshMarkerCandidateAudit) -> bool {
    &&& same_context(a.context, b.context)
    &&& a.content_seal.0@ == b.content_seal.0@
    &&& a.root_commit_oid@ == b.root_commit_oid@
    &&& a.worktree_files == b.worktree_files
    &&& a.encrypted_markdown == b.encrypted_markdown
    &&& a.encrypted_assets == b.encrypted_assets
    &&& a.git_objects == b.git_objects
}

/// The first field in which two summaries differ.
pub open spec fn summary_mismatch(current: FreshMarkerCandidateAudit, expected: FreshMarkerCandidateAudit) -> Option<
    CandidateSummaryMismatch,
> {
    if !same_context(current.context, expected.context) {
        Some(CandidateSummaryMismatch::Context)
    } else if current.content_seal.0@ != expected.content_seal.0@ {
        Some(CandidateSummaryMismatch::ContentSeal)
    } else if current.root_commit_oid@ != expected.root_commit_oid@ {
        Some(CandidateSummaryMismatch::RootCommit)
    } else if current.worktree_files != expected.worktree_files {
        Some(CandidateSummaryMismatch::WorktreeCount)
    } else if current.encrypted_markdown != expected.encrypted_markdown {
        Some(CandidateSummaryMismatch::MarkdownCount)
    } else if current.encrypted_assets != expected.encrypted_assets {
        Some(CandidateSummaryMismatch::AssetCount)
    } else if current.git_objects != expected.git_objects {
        Some(CandidateSummaryMismatch::GitObjectCount)
    } else {
        None
    }
}

/// The verdict on two summaries.
pub open spec fn summary_verdict(current: FreshMarkerCandidateAudit, expected: FreshMarkerCandidateAudit) -> Result<
    (),
    CandidateSummaryMismatch,
> {
    match summary_mismatch(current, expected) {
        Some(mismatch) => Err(mismatch),
        None => Ok(()),
    }
}

/// No field differs between two summaries if and only if they say the same; and to say the same
/// carries over from one summary to the next.
pub proof fn reviews_keep_the_summary(
    first: FreshMarkerCandidateAudit,
    second: FreshMarkerCandidateAudit,
    third: FreshMarkerCandidateAudit,
)
    ensures
        summary_mismatch(second, first) is None <==> same_summary(second, first),
        summary_mismatch(second, first) is None && summary_mismatch(third, second) is None ==> summary_mismatch(
            third,
            first,
        ) is None,
        summary_mismatch(first, first) is None,
        summary_mismatch(second, first) is None <==> summary_mismatch(first, second) is None,
{
}

/// The text of a summary in a diagnostic.
pub open spec fn summary_text(audit: FreshMarkerCandidateAudit) -> Seq<u8> {
    encode_utf8("FreshMarkerCandidateAudit { context: \"[REDACTED]\", content_seal: \"[REDACTED]\", worktree_files: "@)
        + decimal_text(audit.worktree_files as nat) + encode_utf8(", encrypted_markdown: "@) + decimal_text(
        audit.encrypted_markdown as nat,
    ) + encode_utf8(", encrypted_assets: "@) + decimal_text(audit.encrypted_assets as nat) + encode_utf8(
        ", git_objects: "@,
    ) + decimal_text(audit.git_objects as nat) + encode_utf8(", root_commit_oid: \"[REDACTED]\" }"@)
}

impl FreshMarkerCandidateAudit {
    /// The context of the seal.
    pub fn context(&self) -> (context: CandidateSealContext)
        ensures
            context == self.context,
    {
        self.context
    }

    /// The digest of the content.
    pub fn content_seal(&self) -> (digest: [u8; 32])
        ensures
            digest == self.content_seal.0,
    {
        self.content_seal.into_digest()
    }

    /// How many files are tracked.
    pub fn worktree_files(&self) -> (count: u32)
        ensures
            count == self.worktree_files,
    {
        self.worktree_files
    }

    /// How many notes are encrypted.
    pub fn encrypted_markdown(&self) -> (count: u32)
        ensures
            count == self.encrypted_markdown,
    {
        self.encrypted_markdown
    }

    /// How many assets are encrypted.
    pub fn encrypted_assets(&self) -> (count: u32)
        ensures
            count == self.encrypted_assets,
    {
        self.encrypted_assets
    }

    /// How many Git objects were proved.
    pub fn git_objects(&self) -> (count: u32)
        ensures
            count == self.git_objects,
    {
        self.git_objects
    }

    /// The id of the root commit.
    pub fn root_commit_oid(&self) -> (oid: [u8; 20])
        ensures
            oid == self.root_commit_oid,
    {
        self.root_commit_oid
    }

    /// The summary in diagnostics, which show its counts alone.
    pub fn redacted(&self) -> (text: Vec<u8>)
        ensures
            text@ == summary_text(*self),
    {
        let mut text: Vec<u8> = Vec::new();
        append(
            &mut text,
            "FreshMarkerCandidateAudit { context: \"[REDACTED]\", content_seal: \"[REDACTED]\", worktree_files: ".as_bytes(),
        );
        append(&mut text, decimal_u64(self.worktree_files as u64).as_slice());
        append(&mut text, ", encrypted_markdown: ".as_bytes());
        append(&mut text, decimal_u64(self.encrypted_markdown as u64).as_slice());
        append(&mut text, ", encrypted_assets: ".as_bytes());
        append(&mut text, decimal_u64(self.encrypted_assets as u64).as_slice());
        append(&mut text, ", git_objects: ".as_bytes());
        append(&mut text, decimal_u64(self.git_objects as u64).as_slice());
        append(&mut text, ", root_commit_oid: \"[REDACTED]\" }".as_bytes());
        assert(text@ =~= summary_text(*self));
        text
    }
}

/// Compare every field of two summaries.
pub fn compare_candidate_summaries(current: &FreshMarkerCandidateAudit, expected: &FreshMarkerCandidateAudit) -> (r: Result<
    (),
    CandidateSummaryMismatch,
>)
    ensures
        r == summary_verdict(*current, *expected),
{
    if current.context.scheme != expected.context.scheme || current.context.scheme_wire_value
        != expected.context.scheme_wire_value || !bytes_equal(
        current.context.publication_id.as_slice(),
        expected.context.publication_id.as_slice(),
    ) {
        Err(CandidateSummaryMismatch::Context)
    } else if !bytes_equal(current.content_seal.0.as_slice(), expected.content_seal.0.as_slice()) {
        Err(CandidateSummaryMismatch::ContentSeal)
    } else if !bytes_equal(current.root_commit_oid.as_slice(), expected.root_commit_oid.as_slice()) {
        Err(CandidateSummaryMismatch::RootCommit)
    } else if current.worktree_files != expected.worktree_files {
        Err(CandidateSummaryMismatch::WorktreeCount)
    } else if current.encrypted_markdown != expected.encrypted_markdown {
        Err(CandidateSummaryMismatch::MarkdownCount)
    } else if current.encrypted_assets != expected.encrypted_assets {
        Err(CandidateSummaryMismatch::AssetCount)
    } else if current.git_objects != expected.git_objects {
        Err(CandidateSummaryMismatch::GitObjectCount)
    } else {
        Ok(())
    }
}

/// What was seen during an audit, in the order in which it was seen.
pub struct FreshAuditSighting<'physical> {
    /// The root could be brought into canonical form.
    pub root: Result<(), RepositoryImportError>,
    /// The marker that is held is the one at the root.
    pub marker_current: bool,
    /// The one physical collection, which left out the marker.
    pub physical: Result<&'physical MarkerFreePhysicalManifest, RepositoryImportError>,
    /// A Git runner could be made for the root.
    pub runner: Result<(), RepositoryImportError>,
    pub root_commit: Result<FreshRootCommitEvidence, RepositoryImportError>,
    /// The tracked files, in records of that collection.
    pub files: Result<Vec<FreshTrackedEntry>, CandidateSealError>,
    /// The directories of the worktree, in records of that collection.
    pub trees: Result<Vec<FreshTreeEntry>, CandidateSealError>,
    pub closing: FreshAuditClosing,
}

/// What was seen during an audit after its evidence was there.
pub struct FreshAuditClosing {
    pub transcript: RuntimeBatchTranscript,
    /// The number of tracked files, of encrypted notes and of encrypted assets.
    pub counts: Result<(u32, u32, u32), CandidateSealError>,
    /// The whole tree, with its marker, was exactly as before at the end.
    pub current_exact: Result<(), RepositoryImportError>,
}

impl<'physical> FreshAuditSighting<'physical> {
    /// A manifest that was collected is valid.
    pub open spec fn wf(self) -> bool {
        self.physical matches Ok(physical) ==> physical.wf()
    }

    /// The files that were seen, on the manifest that was collected.
    pub open spec fn tracked_files(self) -> FreshTrackedManifest<'physical> {
        FreshTrackedManifest { physical: self.physical->Ok_0, entries: self.files->Ok_0 }
    }

    /// The trees that were seen, on the manifest that was collected.
    pub open spec fn worktree_trees(self) -> FreshTreeManifest<'physical> {
        FreshTreeManifest { physical: self.physical->Ok_0, entries: self.trees->Ok_0 }
    }
}

/// Why an audit ends before Git evidence is built, if it does.
pub open spec fn opening_error(marker: PublicationMarker, seen: FreshAuditSighting) -> Option<RepositoryImportError> {
    if seen.root is Err {
        Some(seen.root->Err_0)
    } else if !seen.marker_current || marker.domain@ != DOMAIN@ {
        Some(RepositoryImportError::TargetAuditFailed)
    } else if seen.physical is Err {
        Some(seen.physical->Err_0)
    } else if seen.runner is Err {
        Some(seen.runner->Err_0)
    } else if seen.root_commit is Err {
        Some(seen.root_commit->Err_0)
    } else if seen.files is Err {
        Some(audit_failure(seen.files->Err_0))
    } else if seen.trees is Err {
        Some(audit_failure(seen.trees->Err_0))
    } else {
        None
    }
}

/// What an audit gives, from the evidence and the seal that it came to.
pub open spec fn closing_verdict(
    marker: PublicationMarker,
    files: FreshTrackedManifest,
    trees: FreshTreeManifest,
    closing: FreshAuditClosing,
    git: Result<FreshGitManifest, CandidateSealError>,
    seal: Result<CandidateContentSeal, CandidateSealError>,
) -> Result<FreshMarkerCandidateAudit, RepositoryImportError> {
    if git is Err {
        Err(audit_failure(git->Err_0))
    } else if runtime_proof_error(true, git->Ok_0, files, trees, closing.transcript) is Some {
        Err(runtime_proof_error(true, git->Ok_0, files, trees, closing.transcript)->0)
    } else if seal is Err {
        Err(audit_failure(seal->Err_0))
    } else if closing.counts is Err {
        Err(audit_failure(closing.counts->Err_0))
    } else if closing.current_exact is Err {
        Err(closing.current_exact->Err_0)
    } else if marker.candidate_seal@ != seal->Ok_0.0@ {
        Err(RepositoryImportError::TargetAuditFailed)
    } else {
        Ok(
            FreshMarkerCandidateAudit {
                context: marker.context,
                content_seal: seal->Ok_0,
                worktree_files: closing.counts->Ok_0.0,
                encrypted_markdown: closing.counts->Ok_0.1,
                encrypted_assets: closing.counts->Ok_0.2,
                git_objects: git->Ok_0.objects@.len() as u32,
                root_commit_oid: git->Ok_0.root_commit.commit_oid,
            },
        )
    }
}

/// A result is what a marker and the sightings of an audit give.
pub open spec fn audited(
    r: Result<FreshMarkerCandidateAudit, RepositoryImportError>,
    marker: PublicationMarker,
    seen: FreshAuditSighting,
) -> bool {
    match opening_error(marker, seen) {
        Some(error) => r == Err::<FreshMarkerCandidateAudit, RepositoryImportError>(error),
        None => exists|
            git: Result<FreshGitManifest, CandidateSealError>,
            seal: Result<CandidateContentSeal, CandidateSealError>,
        | #[trigger]
            evidence_found(marker, seen, git, seal) && r == closing_verdict(
                marker,
                seen.tracked_files(),
                seen.worktree_trees(),
                seen.closing,
                git,
                seal,
            ),
    }
}

/// Git evidence and a seal are the ones that the sightings of an audit give. All of it stands on the one
/// manifest.
pub open spec fn evidence_found(
    marker: PublicationMarker,
    seen: FreshAuditSighting,
    git: Result<FreshGitManifest, CandidateSealError>,
    seal: Result<CandidateContentSeal, CandidateSealError>,
) -> bool {
    &&& collected(
        git,
        true,
        *seen.physical->Ok_0,
        seen.tracked_files(),
        seen.worktree_trees(),
        seen.root_commit->Ok_0,
    )
    &&& git matches Ok(evidence) ==> aggregated(
        seal,
        true,
        marker.context,
        *seen.physical->Ok_0,
        seen.tracked_files(),
        seen.worktree_trees(),
        evidence,
    )
}

/// Audit a whole candidate while its marker is borrowed. All evidence is built on the one manifest that was
/// collected. Nothing is read after the last exact check of the tree.
pub fn audit_fresh_marker_candidate(marker: &PublicationMarker<'_>, seen: FreshAuditSighting<'_>) -> (r: Result<
    FreshMarkerCandidateAudit,
    RepositoryImportError,
>)
    requires
        seen.wf(),
    ensures
        audited(r, *marker, seen),
        r matches Ok(audit) ==> audit.content_seal.0@ == marker.candidate_seal@ && audit.context == marker.context,
        r matches Ok(audit) ==> seen.closing.counts == Ok::<(u32, u32, u32), CandidateSealError>(
            (audit.worktree_files, audit.encrypted_markdown, audit.encrypted_assets),
        ),
        r matches Ok(audit) ==> seen.root_commit matches Ok(commit) && audit.root_commit_oid == commit.commit_oid,
{
    seen.root?;
    if !seen.marker_current || !text_equal(marker.domain, DOMAIN) {
        return Err(RepositoryImportError::TargetAuditFailed);
    }
    let physical = match seen.physical {
        Ok(physical) => physical,
        Err(error) => {
            return Err(error);
        },
    };
    seen.runner?;
    let root_commit = match seen.root_commit {
        Ok(root_commit) => root_commit,
        Err(error) => {
            return Err(error);
        },
    };
    let files = match seen.files {
        Ok(entries) => FreshTrackedManifest { physical, entries },
        Err(error) => {
            return Err(map_candidate_error(error));
        },
    };
    let trees = match seen.trees {
        Ok(entries) => FreshTreeManifest { physical, entries },
        Err(error) => {
            return Err(map_candidate_error(error));
        },
    };
    assert(opening_error(*marker, seen) is None);
    assert(files == seen.tracked_files() && trees == seen.worktree_trees());
    let ghost no_seal = Err::<CandidateContentSeal, CandidateSealError>(CandidateSealError::InvalidRecord);
    let collection = collect_git_evidence_when(true, physical, &files, &trees, root_commit);
    let git = match &collection {
        Ok(git) => git,
        Err(error) => {
            assert(evidence_found(*marker, seen, collection, no_seal));
            return Err(map_candidate_error(*error));
        },
    };
    let aggregation = aggregate_when(true, marker.context, physical, &files, &trees, git);
    assert(evidence_found(*marker, seen, collection, aggregation));
    conclude_fresh_audit(marker, &files, &trees, &seen.closing, git, &aggregation)
}

/// Conclude an audit from its evidence and a seal.
pub fn conclude_fresh_audit(
    marker: &PublicationMarker<'_>,
    files: &FreshTrackedManifest<'_>,
    trees: &FreshTreeManifest<'_>,
    closing: &FreshAuditClosing,
    git: &FreshGitManifest<'_>,
    seal: &Result<CandidateContentSeal, CandidateSealError>,
) -> (r: Result<FreshMarkerCandidateAudit, RepositoryImportError>)
    requires
        git.physical.wf(),
    ensures
        r == closing_verdict(*marker, *files, *trees, *closing, Ok(*git), *seal),
        r matches Ok(audit) ==> closing.counts == Ok::<(u32, u32, u32), CandidateSealError>(
            (audit.worktree_files, audit.encrypted_markdown, audit.encrypted_assets),
        ),
        r matches Ok(audit) ==> audit.root_commit_oid == git.root_commit.commit_oid && audit.git_objects == git.objects@.len()
            && *seal == Ok::<CandidateContentSeal, CandidateSealError>(audit.content_seal),
{
    let runtime = prove_objects_when(true, git, files, trees, &closing.transcript)?;
    let content_seal = match seal {
        Ok(content_seal) => *content_seal,
        Err(error) => {
            return Err(map_candidate_error(*error));
        },
    };
    let (worktree_files, encrypted_markdown, encrypted_assets) = match closing.counts {
        Ok(counts) => counts,
        Err(error) => {
            return Err(map_candidate_error(error));
        },
    };
    let git_objects: u32 = match runtime.checked_object_count() {
        Ok(count) => count,
        Err(error) => {
            return Err(map_candidate_error(error));
        },
    };
    closing.current_exact?;
    if !bytes_equal(marker.candidate_seal.as_slice(), content_seal.0.as_slice()) {
        return Err(RepositoryImportError::TargetAuditFailed);
    }
    Ok(
        FreshMarkerCandidateAudit {
            context: marker.context,
            content_seal,
            worktree_files,
            encrypted_markdown,
            encrypted_assets,
            git_objects,
            root_commit_oid: git.root_commit.commit_oid,
        },
    )
}

/// How many of the first `n` tracked files are of a class.
pub open spec fn files_of_class(files: Seq<FreshTrackedEntry>, class: WorktreeClass, n: int) -> nat
    decreases n,
{
    if n <= 0 {
        0
    } else {
        files_of_class(files, class, n - 1) + if files[n - 1].class == class {
            1nat
        } else {
            0nat
        }
    }
}

/// The summary of an audit reports what was seen: the seal and the context of the marker, the commit, as many
/// objects as evidence was proved of, and as many files, encrypted notes and encrypted assets as the tracked
/// files were counted to be, each under its own name.
pub proof fn summary_reports_what_was_seen(
    audit: FreshMarkerCandidateAudit,
    marker: PublicationMarker,
    seen: FreshAuditSighting,
)
    requires
        audited(Ok::<FreshMarkerCandidateAudit, RepositoryImportError>(audit), marker, seen),
    ensures
        audit.context == marker.context,
        audit.content_seal.0@ == marker.candidate_seal@,
        seen.root_commit matches Ok(commit) && audit.root_commit_oid == commit.commit_oid,
        seen.closing.counts matches Ok(counts) && audit.worktree_files == counts.0 && audit.encrypted_markdown == counts.1
            && audit.encrypted_assets == counts.2,
        ({
            let files = seen.files->Ok_0@;
            let n = files.len() as int;
            let (all, notes, assets) = seen.closing.counts->Ok_0;
            all == n && notes == files_of_class(files, WorktreeClass::MarkdownEnvelope, n) && assets == files_of_class(
                files,
                WorktreeClass::AssetEnvelope,
                n,
            ) ==> audit.worktree_files == n && audit.encrypted_markdown == files_of_class(
                files,
                WorktreeClass::MarkdownEnvelope,
                n,
            ) && audit.encrypted_assets == files_of_class(files, WorktreeClass::AssetEnvelope, n)
        }),
        exists|git: FreshGitManifest| #[trigger]
            collected(
                Ok::<FreshGitManifest, CandidateSealError>(git),
                true,
                *seen.physical->Ok_0,
                seen.tracked_files(),
                seen.worktree_trees(),
                seen.root_commit->Ok_0,
            ) && audit.git_objects == git.objects@.len(),
{
    let (git, seal) = choose|
        git: Result<FreshGitManifest, CandidateSealError>,
        seal: Result<CandidateContentSeal, CandidateSealError>,
    | #[trigger]
        evidence_found(marker, seen, git, seal) && Ok::<FreshMarkerCandidateAudit, RepositoryImportError>(audit)
            == closing_verdict(marker, seen.tracked_files(), seen.worktree_trees(), seen.closing, git, seal);
    let evidence = git->Ok_0;
    assert(collected(
        Ok::<FreshGitManifest, CandidateSealError>(evidence),
        true,
        *seen.physical->Ok_0,
        seen.tracked_files(),
        seen.worktree_trees(),
        seen.root_commit->Ok_0,
    ));
}

/// An audit passes only where nothing went wrong from the first look to the last: the root was found, the
/// marker was the held one and of the domain of repository imports, everything was collected, the runner
/// worked on the candidate before and after, every object was answered well, and the tree was exactly as
/// before at the end.
pub proof fn passed_audit_saw_nothing_wrong(
    audit: FreshMarkerCandidateAudit,
    marker: PublicationMarker,
    seen: FreshAuditSighting,
)
    requires
        audited(Ok::<FreshMarkerCandidateAudit, RepositoryImportError>(audit), marker, seen),
    ensures
        seen.root is Ok,
        seen.marker_current,
        marker.domain@ == "inex.repository-import.v1"@,
        seen.physical is Ok,
        seen.runner is Ok,
        seen.root_commit is Ok,
        seen.files is Ok,
        seen.trees is Ok,
        seen.closing.transcript.started is Ok,
        seen.closing.transcript.finish is Ok,
        seen.closing.transcript.root_before.target,
        seen.closing.transcript.root_before.binding_holds,
        seen.closing.transcript.root_before.identity matches Some(identity) && identity.same(
            seen.physical->Ok_0.root_identity,
        ),
        seen.closing.transcript.root_after.target,
        seen.closing.transcript.root_after.binding_holds,
        seen.closing.transcript.root_after.identity matches Some(identity) && identity.same(seen.physical->Ok_0.root_identity),
        seen.closing.current_exact is Ok,
{
    let (git, seal) = choose|
        git: Result<FreshGitManifest, CandidateSealError>,
        seal: Result<CandidateContentSeal, CandidateSealError>,
    | #[trigger]
        evidence_found(marker, seen, git, seal) && Ok::<FreshMarkerCandidateAudit, RepositoryImportError>(audit)
            == closing_verdict(marker, seen.tracked_files(), seen.worktree_trees(), seen.closing, git, seal);
    assert(*git->Ok_0.physical == *seen.physical->Ok_0);
}

/// What goes wrong first is what an audit reports: a root that is not found, a marker that is another one or
/// of another domain, and then each failure as it was seen, where a failure of evidence that is not a limit
/// is a failed audit.
pub proof fn first_trouble_of_an_audit_decides(
    r: Result<FreshMarkerCandidateAudit, RepositoryImportError>,
    marker: PublicationMarker,
    seen: FreshAuditSighting,
)
    requires
        audited(r, marker, seen),
    ensures
        seen.root matches Err(error) ==> r == Err::<FreshMarkerCandidateAudit, RepositoryImportError>(error),
        seen.root is Ok && (!seen.marker_current || marker.domain@ != "inex.repository-import.v1"@) ==> r == Err::<
            FreshMarkerCandidateAudit,
            RepositoryImportError,
        >(RepositoryImportError::TargetAuditFailed),
        seen.root is Ok && seen.marker_current && marker.domain@ == "inex.repository-import.v1"@ ==> {
            &&& seen.physical matches Err(error) ==> r == Err::<FreshMarkerCandidateAudit, RepositoryImportError>(error)
            &&& seen.physical is Ok ==> {
                &&& seen.runner matches Err(error) ==> r == Err::<FreshMarkerCandidateAudit, RepositoryImportError>(error)
                &&& seen.runner is Ok ==> {
                    &&& seen.root_commit matches Err(error) ==> r == Err::<FreshMarkerCandidateAudit, RepositoryImportError>(
                        error,
                    )
                    &&& seen.root_commit is Ok ==> (seen.files matches Err(error) ==> r == Err::<
                        FreshMarkerCandidateAudit,
                        RepositoryImportError,
                    >(
                        if error == CandidateSealError::ResourceLimit {
                            RepositoryImportError::ResourceLimit
                        } else {
                            RepositoryImportError::TargetAuditFailed
                        },
                    ))
                }
            }
        },
{
}

} // verus!
