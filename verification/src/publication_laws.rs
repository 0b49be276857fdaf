//! What becomes of a published candidate: when a claim on it is accepted, and where each step leads.

use crate::content_seal::CandidateContentSeal;
use crate::errors::{CandidateSealError, RepositoryImportError};
use crate::fresh_audit::{
    closing_verdict, opening_error, summary_mismatch, summary_verdict, CandidateSummaryMismatch, FreshAuditClosing,
    FreshAuditSighting, FreshMarkerCandidateAudit, PublicationMarker,
};
use crate::git_evidence::FreshGitManifest;
use crate::hex::{all_lower_hex, lower_hex_byte};
use crate::object_proof::runtime_proof_error;
use crate::publication::{
    clean_outcome, durability_outcome, parent_sync_outcome, review_verdict, unlink_opening, unlink_outcome,
    AbsenceFailure, CleanAuditOutcome, CleanAuditPending, MarkerUnlinkReport, ParentSyncReport,
    PublicationDurabilityOutcome, PublicationDurableWithMarker, PublicationMarkerUnlinkOutcome,
    PublicationParentSyncOutcome, PublishedCandidateReviewFailure, PublishedReview,
};
use crate::publication_claim::{
    claim_failure, staging_name, ClaimSighting, FreshExistingClaimInput, FreshExistingPostOpenFailure,
    PublicationMarkerFailureKind, PublishedWithMarker,
};
use crate::worktree_evidence::{FreshTrackedManifest, FreshTreeManifest};
use vstd::prelude::*;
use vstd::string::*;
use vstd::utf8::{encode_utf8, is_ascii_chars_encode_utf8};

verus! {

/// The name of a staging directory is the fixed prefix and 32 digits in small letters.
pub proof fn names_of_staging_directories(name: Seq<u8>, id: Seq<u8>)
    ensures
        staging_name(name) ==> name == encode_utf8(".inex-import-staging-"@) + name.skip(21) && name.len() == 53,
        staging_name(encode_utf8(".inex-import-staging-"@) + id) <==> id.len() == 32 && forall|i: int|
            0 <= i < 32 ==> 0x30 <= #[trigger] id[i] <= 0x39 || 0x61 <= id[i] <= 0x66,
{
    reveal_strlit(".inex-import-staging-");
    is_ascii_chars_encode_utf8(".inex-import-staging-"@);
    let prefix = encode_utf8(".inex-import-staging-"@);
    assert(prefix.len() == 21);
    if staging_name(name) {
        assert(name =~= prefix + name.skip(21));
    }
    let whole = prefix + id;
    assert(prefix.is_prefix_of(whole)) by {
        assert(whole.subrange(0, 21) =~= prefix);
    }
    assert(whole.skip(21) =~= id);
    if all_lower_hex(id) && id.len() == 32 {
        assert forall|i: int| 0 <= i < 32 implies 0x30 <= #[trigger] id[i] <= 0x39 || 0x61 <= id[i] <= 0x66 by {
            assert(lower_hex_byte(id[i]));
        }
    }
}

/// A claim is accepted exactly where the marker is of the domain of imports, names a staging directory, the
/// destination of the claim, which is the name of its root and not reserved, and the parent of the claim, and
/// the candidate has its published role before and after an audit that passed.
pub proof fn claims_are_accepted(input: FreshExistingClaimInput<'_>, seen: ClaimSighting<'_>)
    ensures
        claim_failure(input, seen) is None <==> {
            &&& seen.marker.domain@ == "inex.repository-import.v1"@
            &&& staging_name(seen.marker.staging_child_name.spec_bytes())
            &&& input.root_name is Some && input.root_name->Some_0@ == input.destination_child_name@
            &&& seen.marker.destination_child_name@ == input.destination_child_name@
            &&& !seen.reserved_key.spec_bytes().is_prefix_of(seen.destination_key.spec_bytes())
            &&& seen.marker.common_parent.scheme == input.common_parent_identity.scheme && seen.marker.common_parent.wire@
                == input.common_parent_identity.wire@
            &&& seen.role_before is Ok
            &&& seen.audit is Ok
            &&& seen.role_after is Ok
        },
        seen.marker.domain@ != "inex.repository-import.v1"@ ==> claim_failure(input, seen) == Some(
            FreshExistingPostOpenFailure::DomainMismatch,
        ),
        seen.marker.domain@ == "inex.repository-import.v1"@ && !staging_name(seen.marker.staging_child_name.spec_bytes())
            ==> claim_failure(input, seen) == Some(FreshExistingPostOpenFailure::InvalidStagingName),
{
}

/// An audit of a marked candidate begins exactly where its root is there, the marker is the held one and of
/// the domain of imports, and everything that it needs could be had.
pub proof fn audits_of_candidates_begin(marker: PublicationMarker<'_>, seen: FreshAuditSighting<'_>)
    ensures
        opening_error(marker, seen) is None <==> {
            &&& seen.root is Ok
            &&& seen.marker_current
            &&& marker.domain@ == "inex.repository-import.v1"@
            &&& seen.physical is Ok
            &&& seen.runner is Ok
            &&& seen.root_commit is Ok
            &&& seen.files is Ok
            &&& seen.trees is Ok
        },
{
}

/// An audit of a marked candidate passes exactly where the evidence was collected, the objects were proved,
/// the content was sealed and counted, the tree is exactly as before, and the seal is the one in the marker.
pub proof fn audits_of_candidates_pass(
    marker: PublicationMarker<'_>,
    files: FreshTrackedManifest<'_>,
    trees: FreshTreeManifest<'_>,
    closing: FreshAuditClosing,
    git: Result<FreshGitManifest<'_>, CandidateSealError>,
    seal: Result<CandidateContentSeal, CandidateSealError>,
)
    ensures
        closing_verdict(marker, files, trees, closing, git, seal) is Ok <==> {
            &&& git is Ok
            &&& runtime_proof_error(true, git->Ok_0, files, trees, closing.transcript) is None
            &&& seal is Ok
            &&& closing.counts is Ok
            &&& closing.current_exact is Ok
            &&& marker.candidate_seal@ == seal->Ok_0.0@
        },
        git is Ok && runtime_proof_error(true, git->Ok_0, files, trees, closing.transcript) is None && seal is Ok && closing.counts is Ok
            && closing.current_exact is Ok && marker.candidate_seal@ != seal->Ok_0.0@ ==> closing_verdict(
            marker,
            files,
            trees,
            closing,
            git,
            seal,
        ) == Err::<FreshMarkerCandidateAudit, _>(RepositoryImportError::TargetAuditFailed),
{
}

/// Two summaries agree exactly where every field of them does; the first field that differs is told.
pub proof fn summaries_agree(current: FreshMarkerCandidateAudit, expected: FreshMarkerCandidateAudit)
    ensures
        summary_verdict(current, expected) is Ok <==> {
            &&& current.context.scheme == expected.context.scheme
            &&& current.context.scheme_wire_value == expected.context.scheme_wire_value
            &&& current.context.publication_id@ == expected.context.publication_id@
            &&& current.content_seal.0@ == expected.content_seal.0@
            &&& current.root_commit_oid@ == expected.root_commit_oid@
            &&& current.worktree_files == expected.worktree_files
            &&& current.encrypted_markdown == expected.encrypted_markdown
            &&& current.encrypted_assets == expected.encrypted_assets
            &&& current.git_objects == expected.git_objects
        },
        summary_verdict(current, current) is Ok,
        summary_mismatch(current, expected) == Some(CandidateSummaryMismatch::Context) ==> current.context != expected.context,
        summary_mismatch(current, expected) == Some(CandidateSummaryMismatch::ContentSeal) ==> current.content_seal.0@
            != expected.content_seal.0@,
        summary_mismatch(current, expected) == Some(CandidateSummaryMismatch::RootCommit) ==> current.root_commit_oid@
            != expected.root_commit_oid@,
        summary_mismatch(current, expected) == Some(CandidateSummaryMismatch::WorktreeCount) ==> current.worktree_files
            != expected.worktree_files,
        summary_mismatch(current, expected) == Some(CandidateSummaryMismatch::MarkdownCount) ==> current.encrypted_markdown
            != expected.encrypted_markdown,
        summary_mismatch(current, expected) == Some(CandidateSummaryMismatch::AssetCount) ==> current.encrypted_assets
            != expected.encrypted_assets,
        summary_mismatch(current, expected) == Some(CandidateSummaryMismatch::GitObjectCount) ==> current.git_objects
            != expected.git_objects,
{
}

/// A review passes exactly where the role is the published one before and after, and the audit passed with
/// the expected summary; and it gives back the summary that was found.
pub proof fn reviews_pass(seen: PublishedReview, expected: FreshMarkerCandidateAudit)
    ensures
        review_verdict(seen, expected) is Ok <==> {
            &&& seen.role_before is Ok
            &&& seen.audit is Ok
            &&& summary_verdict(seen.audit->Ok_0, expected) is Ok
            &&& seen.role_after is Ok
        },
        (review_verdict(seen, expected) matches Ok(audit) ==> seen.audit == Ok::<_, RepositoryImportError>(audit)),
        (seen.role_before matches Err(kind) ==> review_verdict(seen, expected) == Err::<FreshMarkerCandidateAudit, _>(
            PublishedCandidateReviewFailure::PublishedRole(kind),
        )),
        seen.role_before is Ok ==> (seen.audit matches Err(error) ==> review_verdict(seen, expected) == Err::<
            FreshMarkerCandidateAudit,
            _,
        >(PublishedCandidateReviewFailure::FreshAudit(error))),
{
}

/// A published candidate is durable exactly where it was synced and its review passed; where only the sync
/// failed it can be tried again; where the review failed it is over. Nothing of it is lost on the way.
pub proof fn candidates_become_durable<M>(
    published: PublishedWithMarker<M>,
    sync: Result<(), PublicationMarkerFailureKind>,
    review: PublishedReview,
)
    ensures
        durability_outcome(published, sync, review) is Durable <==> sync is Ok && review_verdict(review, published.audit) is Ok,
        durability_outcome(published, sync, review) is Retryable <==> sync is Err && review_verdict(review, published.audit) is Ok,
        durability_outcome(published, sync, review) is Terminal <==> review_verdict(review, published.audit) is Err,
        match durability_outcome(published, sync, review) {
            PublicationDurabilityOutcome::Durable(durable) => durable.root == published.root && durable.held_marker
                == published.held_marker && Ok::<_, RepositoryImportError>(durable.audit) == review.audit,
            PublicationDurabilityOutcome::Retryable(retryable) => retryable.root == published.root && retryable.held_marker
                == published.held_marker && sync == Err::<(), _>(retryable.sync_failure),
            PublicationDurabilityOutcome::Terminal(failed) => failed.root == published.root && failed.held_marker
                == published.held_marker && failed.audit == published.audit && failed.sync_failure == sync.err() && review_verdict(
                review,
                published.audit,
            ) == Err::<FreshMarkerCandidateAudit, _>(failed.review_failure),
        },
{
}

/// A marker is only removed after a review that passed.
pub proof fn markers_are_removed_after_a_review<M, T>(durable: PublicationDurableWithMarker<M>, review: PublishedReview)
    ensures
        unlink_opening::<M, T>(durable, review) is Ok <==> review_verdict(review, durable.audit) is Ok,
        (unlink_opening::<M, T>(durable, review) matches Ok(unlink) ==> unlink.root == durable.root && unlink.held_marker
            == durable.held_marker && Ok::<_, RepositoryImportError>(unlink.audit) == review.audit),
        (unlink_opening::<M, T>(durable, review) matches Err(failed) ==> failed.root == durable.root && failed.audit == durable.audit
            && failed.failure is PreUnlinkReview && failed.authority is Held),
{
}

/// Where the removal of a marker leads: a marker that was removed and synced leads to the clean audit, one
/// that was removed without a sync to another sync, one that was not removed back to where it was if its
/// review passes, and anything else is over.
pub proof fn removals_lead_somewhere<M, S, U, T>(
    root: String,
    audit: FreshMarkerCandidateAudit,
    report: MarkerUnlinkReport<M, S, U, T>,
)
    ensures
        unlink_outcome(root, audit, report) is CleanAuditPending <==> report is RemovedAndParentSynced,
        unlink_outcome(root, audit, report) is ParentSyncPending <==> report is RemovedButParentSyncIndeterminate,
        unlink_outcome(root, audit, report) is NotRemoved <==> (report matches MarkerUnlinkReport::NotRemoved(_, review)
            && review_verdict(review, audit) is Ok),
        match unlink_outcome(root, audit, report) {
            PublicationMarkerUnlinkOutcome::CleanAuditPending(pending) => pending.root == root && pending.audit == audit && report
                == MarkerUnlinkReport::<M, S, U, T>::RemovedAndParentSynced(pending.authority),
            PublicationMarkerUnlinkOutcome::ParentSyncPending(pending) => pending.root == root && pending.audit == audit && report
                == MarkerUnlinkReport::<M, S, U, T>::RemovedButParentSyncIndeterminate(pending.authority),
            PublicationMarkerUnlinkOutcome::NotRemoved(durable) => durable.root == root,
            PublicationMarkerUnlinkOutcome::Terminal(failed) => failed.root == root && failed.audit == audit,
        },
        report is ReplacementRetained ==> (unlink_outcome(root, audit, report) matches PublicationMarkerUnlinkOutcome::Terminal(failed)
            && failed.failure is ReplacementRetained && failed.authority is Core),
        report is PostStateIndeterminate ==> (unlink_outcome(root, audit, report) matches PublicationMarkerUnlinkOutcome::Terminal(
            failed,
        ) && failed.failure is PostStateIndeterminate && failed.authority is Core),
{
}

/// Where another sync leads: to the clean audit if it went well, to one more if that is unknown, and else it
/// is over.
pub proof fn syncs_lead_somewhere<M, S, U, T>(root: String, audit: FreshMarkerCandidateAudit, report: ParentSyncReport<S, U, T>)
    ensures
        parent_sync_outcome::<M, S, U, T>(root, audit, report) is CleanAuditPending <==> report is Synced,
        parent_sync_outcome::<M, S, U, T>(root, audit, report) is ParentSyncPending <==> report is StillIndeterminate,
        match parent_sync_outcome::<M, S, U, T>(root, audit, report) {
            PublicationParentSyncOutcome::CleanAuditPending(pending) => pending.root == root && pending.audit == audit && report
                == ParentSyncReport::<S, U, T>::Synced(pending.authority),
            PublicationParentSyncOutcome::ParentSyncPending(pending) => pending.root == root && pending.audit == audit && report
                == ParentSyncReport::<S, U, T>::StillIndeterminate(pending.authority),
            PublicationParentSyncOutcome::Terminal(failed) => failed.root == root && failed.audit == audit,
        },
        report is ReplacementRetained ==> (parent_sync_outcome::<M, S, U, T>(
            root,
            audit,
            report,
        ) matches PublicationParentSyncOutcome::Terminal(failed) && failed.failure is ParentSyncReplacementRetained),
        report is PostStateIndeterminate ==> (parent_sync_outcome::<M, S, U, T>(
            root,
            audit,
            report,
        ) matches PublicationParentSyncOutcome::Terminal(failed) && failed.failure is ParentSyncPostStateIndeterminate),
{
}

/// A publication is clean exactly where the clean audit passed with the same summary and the marker is known
/// to be absent; it can be tried again where the audit failed without the authority being lost, or where the
/// absence is unknown; and else it is over.
pub proof fn publications_become_clean<S>(
    pending: CleanAuditPending<S>,
    clean: Result<FreshMarkerCandidateAudit, RepositoryImportError>,
    absence: Result<(), AbsenceFailure>,
)
    ensures
        clean_outcome(pending, clean, absence) is PublishedClean <==> clean is Ok && summary_verdict(
            clean->Ok_0,
            pending.audit,
        ) is Ok && absence is Ok,
        clean_outcome(pending, clean, absence) is Retryable <==> match clean {
            Err(_) => absence is Ok || absence == Err::<(), _>(AbsenceFailure::Indeterminate),
            Ok(audit) => summary_verdict(audit, pending.audit) is Ok && absence == Err::<(), _>(AbsenceFailure::Indeterminate),
        },
        match clean_outcome(pending, clean, absence) {
            CleanAuditOutcome::PublishedClean(done) => done.root == pending.root && done.authority == pending.authority && clean == Ok::<
                _,
                RepositoryImportError,
            >(done.audit),
            CleanAuditOutcome::Retryable(again) => again.root == pending.root && again.authority == pending.authority,
            CleanAuditOutcome::Terminal(failed) => failed.root == pending.root && failed.authority == pending.authority,
        },
{
}

} // verus!
