//! The states of a publication, from a destination with its marker to a clean one.
//!
//! Each state owns the authority that it was reached with and is consumed by the step to the
//! next. `M` is the held marker, `U` the authority left by a marker that was removed, `S` the
//! same once its parent was synchronized, and `T` what is left when nothing more can be done.
//! A terminal state keeps its authority and has no step forward.

use crate::errors::RepositoryImportError;
use crate::fresh_audit::{
    compare_candidate_summaries, same_summary, summary_mismatch, summary_text, CandidateSummaryMismatch,
    FreshMarkerCandidateAudit,
};
use crate::git_object::append;
use crate::publication_claim::{PublicationMarkerFailureKind, PublishedWithMarker};
use vstd::prelude::*;
use vstd::string::*;
use vstd::utf8::encode_utf8;

verus! {

/// What was seen in one complete review of a published candidate, in the order in which it was
/// seen.
pub struct PublishedReview {
    pub role_before: Result<(), PublicationMarkerFailureKind>,
    pub audit: Result<FreshMarkerCandidateAudit, RepositoryImportError>,
    pub role_after: Result<(), PublicationMarkerFailureKind>,
}

/// Why a review failed.
#[derive(Clone, Copy, PartialEq, Eq, Structural)]
pub enum PublishedCandidateReviewFailure {
    PublishedRole(PublicationMarkerFailureKind),
    FreshAudit(RepositoryImportError),
    SummaryMismatch(CandidateSummaryMismatch),
}

impl PublishedCandidateReviewFailure {
    /// The failure in words.
    pub fn text(&self) -> (text: &'static str)
        ensures
            text@ == match self {
                PublishedCandidateReviewFailure::PublishedRole(_) => "published role changed during complete review"@,
                PublishedCandidateReviewFailure::FreshAudit(_) => "published candidate audit failed during complete review"@,
                PublishedCandidateReviewFailure::SummaryMismatch(_) => "published candidate summary changed during complete review"@,
            },
    {
        match self {
            PublishedCandidateReviewFailure::PublishedRole(_) => "published role changed during complete review",
            PublishedCandidateReviewFailure::FreshAudit(_) => "published candidate audit failed during complete review",
            PublishedCandidateReviewFailure::SummaryMismatch(_) => "published candidate summary changed during complete review",
        }
    }
}

/// What a review gives, against the summary that is expected.
pub open spec fn review_verdict(seen: PublishedReview, expected: FreshMarkerCandidateAudit) -> Result<
    FreshMarkerCandidateAudit,
    PublishedCandidateReviewFailure,
> {
    if seen.role_before is Err {
        Err(PublishedCandidateReviewFailure::PublishedRole(seen.role_before->Err_0))
    } else if seen.audit is Err {
        Err(PublishedCandidateReviewFailure::FreshAudit(seen.audit->Err_0))
    } else if summary_mismatch(seen.audit->Ok_0, expected) is Some {
        Err(PublishedCandidateReviewFailure::SummaryMismatch(summary_mismatch(seen.audit->Ok_0, expected)->0))
    } else if seen.role_after is Err {
        Err(PublishedCandidateReviewFailure::PublishedRole(seen.role_after->Err_0))
    } else {
        Ok(seen.audit->Ok_0)
    }
}

/// Review a published candidate against the summary that is expected.
pub fn review_published_candidate(seen: PublishedReview, expected: &FreshMarkerCandidateAudit) -> (r: Result<
    FreshMarkerCandidateAudit,
    PublishedCandidateReviewFailure,
>)
    ensures
        r == review_verdict(seen, *expected),
{
    match seen.role_before {
        Ok(()) => {},
        Err(kind) => {
            return Err(PublishedCandidateReviewFailure::PublishedRole(kind));
        },
    }
    let audit = match seen.audit {
        Ok(audit) => audit,
        Err(error) => {
            return Err(PublishedCandidateReviewFailure::FreshAudit(error));
        },
    };
    match compare_candidate_summaries(&audit, expected) {
        Ok(()) => {},
        Err(mismatch) => {
            return Err(PublishedCandidateReviewFailure::SummaryMismatch(mismatch));
        },
    }
    match seen.role_after {
        Ok(()) => {},
        Err(kind) => {
            return Err(PublishedCandidateReviewFailure::PublishedRole(kind));
        },
    }
    Ok(audit)
}

/// A published candidate whose root and common parent were both synchronized. It alone may have
/// its marker removed.
#[must_use]
pub struct PublicationDurableWithMarker<M> {
    pub root: String,
    pub audit: FreshMarkerCandidateAudit,
    pub held_marker: M,
}

/// A published candidate that was reviewed, but whose synchronization was not confirmed. It alone
/// may try again.
#[must_use]
pub struct RetryablePublicationDurability<M> {
    pub sync_failure: PublicationMarkerFailureKind,
    pub root: String,
    pub audit: FreshMarkerCandidateAudit,
    pub held_marker: M,
}

/// The end of a publication whose review failed after a synchronization.
#[must_use]
pub struct FailedPublicationDurability<M> {
    pub sync_failure: Option<PublicationMarkerFailureKind>,
    pub review_failure: PublishedCandidateReviewFailure,
    pub root: String,
    pub audit: FreshMarkerCandidateAudit,
    pub held_marker: M,
}

/// The outcome of one synchronization of the root and the common parent.
#[must_use]
pub enum PublicationDurabilityOutcome<M> {
    Durable(PublicationDurableWithMarker<M>),
    Retryable(RetryablePublicationDurability<M>),
    Terminal(FailedPublicationDurability<M>),
}

/// The outcome of a synchronization and the review that follows it.
pub open spec fn durability_outcome<M>(
    published: PublishedWithMarker<M>,
    sync: Result<(), PublicationMarkerFailureKind>,
    review: PublishedReview,
) -> PublicationDurabilityOutcome<M> {
    match review_verdict(review, published.audit) {
        Err(review_failure) => PublicationDurabilityOutcome::Terminal(
            FailedPublicationDurability {
                sync_failure: match sync {
                    Ok(_) => None,
                    Err(kind) => Some(kind),
                },
                review_failure,
                root: published.root,
                audit: published.audit,
                held_marker: published.held_marker,
            },
        ),
        Ok(audit) => match sync {
            Err(sync_failure) => PublicationDurabilityOutcome::Retryable(
                RetryablePublicationDurability {
                    sync_failure,
                    root: published.root,
                    audit,
                    held_marker: published.held_marker,
                },
            ),
            Ok(_) => PublicationDurabilityOutcome::Durable(
                PublicationDurableWithMarker { root: published.root, audit, held_marker: published.held_marker },
            ),
        },
    }
}

/// The text of a state that keeps a root, a summary and an authority.
pub open spec fn state_text(name: Seq<char>, audit: FreshMarkerCandidateAudit, authority: Seq<char>) -> Seq<u8> {
    encode_utf8(name) + encode_utf8(" { root: \"[REDACTED]\", audit: "@) + summary_text(audit) + encode_utf8(", "@)
        + encode_utf8(authority) + encode_utf8(": \"[HELD]\" }"@)
}

/// A state in diagnostics, which show the counts of its summary alone.
fn redacted_state(name: &str, audit: &FreshMarkerCandidateAudit, authority: &str) -> (text: Vec<u8>)
    ensures
        text@ == state_text(name@, *audit, authority@),
{
    let mut text: Vec<u8> = Vec::new();
    append(&mut text, name.as_bytes());
    append(&mut text, " { root: \"[REDACTED]\", audit: ".as_bytes());
    append(&mut text, audit.redacted().as_slice());
    append(&mut text, ", ".as_bytes());
    append(&mut text, authority.as_bytes());
    append(&mut text, ": \"[HELD]\" }".as_bytes());
    assert(text@ =~= state_text(name@, *audit, authority@));
    text
}

impl<M> PublishedWithMarker<M> {
    /// The root of the candidate.
    pub fn root(&self) -> (root: &str)
        ensures
            root@ == self.root@,
    {
        self.root.as_str()
    }

    /// The summary of the candidate.
    pub fn audit(&self) -> (audit: &FreshMarkerCandidateAudit)
        ensures
            *audit == self.audit,
    {
        &self.audit
    }

    /// The marker, which stays held.
    pub fn held_marker(&self) -> (held_marker: &M)
        ensures
            *held_marker == self.held_marker,
    {
        &self.held_marker
    }

    /// Conclude a synchronization of the root and the common parent, and the review after it.
    pub fn synchronize(self, sync: Result<(), PublicationMarkerFailureKind>, review: PublishedReview) -> (outcome:
        PublicationDurabilityOutcome<M>)
        ensures
            outcome == durability_outcome(self, sync, review),
    {
        match review_published_candidate(review, &self.audit) {
            Err(review_failure) => {
                let sync_failure = match sync {
                    Ok(()) => None,
                    Err(kind) => Some(kind),
                };
                PublicationDurabilityOutcome::Terminal(
                    FailedPublicationDurability {
                        sync_failure,
                        review_failure,
                        root: self.root,
                        audit: self.audit,
                        held_marker: self.held_marker,
                    },
                )
            },
            Ok(audit) => match sync {
                Err(sync_failure) => PublicationDurabilityOutcome::Retryable(
                    RetryablePublicationDurability { sync_failure, root: self.root, audit, held_marker: self.held_marker },
                ),
                Ok(()) => PublicationDurabilityOutcome::Durable(
                    PublicationDurableWithMarker { root: self.root, audit, held_marker: self.held_marker },
                ),
            },
        }
    }

    /// The state in diagnostics.
    pub fn redacted(&self) -> (text: Vec<u8>)
        ensures
            text@ == state_text("PublishedWithMarker"@, self.audit, "held_marker"@),
    {
        redacted_state("PublishedWithMarker", &self.audit, "held_marker")
    }
}

impl<M> RetryablePublicationDurability<M> {
    /// Why the synchronization was not confirmed.
    pub fn failure(&self) -> (failure: PublicationMarkerFailureKind)
        ensures
            failure == self.sync_failure,
    {
        self.sync_failure
    }

    /// Conclude one more synchronization.
    pub fn retry(self, sync: Result<(), PublicationMarkerFailureKind>, review: PublishedReview) -> (outcome:
        PublicationDurabilityOutcome<M>)
        ensures
            outcome == durability_outcome(
                (PublishedWithMarker { root: self.root, audit: self.audit, held_marker: self.held_marker }),
                sync,
                review,
            ),
    {
        let published = PublishedWithMarker { root: self.root, audit: self.audit, held_marker: self.held_marker };
        published.synchronize(sync, review)
    }
}

impl<M> FailedPublicationDurability<M> {
    /// Why the synchronization failed, if it did.
    pub fn sync_failure(&self) -> (failure: Option<PublicationMarkerFailureKind>)
        ensures
            failure == self.sync_failure,
    {
        self.sync_failure
    }

    /// Why the review failed.
    pub fn review_failure(&self) -> (failure: PublishedCandidateReviewFailure)
        ensures
            failure == self.review_failure,
    {
        self.review_failure
    }
}

/// Why the removal of a marker came to an end.
#[derive(Clone, Copy, PartialEq, Eq, Structural)]
pub enum PublicationMarkerUnlinkFailure {
    PreUnlinkReview(PublishedCandidateReviewFailure),
    NotRemovedReview(PublishedCandidateReviewFailure),
    ReplacementRetained,
    PostStateIndeterminate,
    ParentSyncReplacementRetained,
    ParentSyncPostStateIndeterminate,
}

impl PublicationMarkerUnlinkFailure {
    /// The failure in words.
    pub open spec fn message(self) -> Seq<char> {
        match self {
            PublicationMarkerUnlinkFailure::PreUnlinkReview(_) => "published candidate failed its pre-unlink review"@,
            PublicationMarkerUnlinkFailure::NotRemovedReview(_) => "published candidate failed review after marker was not removed"@,
            PublicationMarkerUnlinkFailure::ReplacementRetained => "publication marker replacement was retained"@,
            PublicationMarkerUnlinkFailure::PostStateIndeterminate => "publication marker post-state is indeterminate"@,
            PublicationMarkerUnlinkFailure::ParentSyncReplacementRetained => "publication marker replacement appeared during parent-sync retry"@,
            PublicationMarkerUnlinkFailure::ParentSyncPostStateIndeterminate => "publication marker state became indeterminate during parent-sync retry"@,
        }
    }

    /// The failure in words.
    pub fn text(&self) -> (text: &'static str)
        ensures
            text@ == self.message(),
    {
        match self {
            PublicationMarkerUnlinkFailure::PreUnlinkReview(_) => "published candidate failed its pre-unlink review",
            PublicationMarkerUnlinkFailure::NotRemovedReview(_) => "published candidate failed review after marker was not removed",
            PublicationMarkerUnlinkFailure::ReplacementRetained => "publication marker replacement was retained",
            PublicationMarkerUnlinkFailure::PostStateIndeterminate => "publication marker post-state is indeterminate",
            PublicationMarkerUnlinkFailure::ParentSyncReplacementRetained => "publication marker replacement appeared during parent-sync retry",
            PublicationMarkerUnlinkFailure::ParentSyncPostStateIndeterminate => "publication marker state became indeterminate during parent-sync retry",
        }
    }
}

/// The authority that a terminal state keeps.
pub enum TerminalPublicationAuthority<M, T> {
    Held(M),
    Core(T),
}

/// The end of the removal of a marker.
#[must_use]
pub struct FailedPublicationMarkerUnlink<M, T> {
    pub failure: PublicationMarkerUnlinkFailure,
    pub root: String,
    pub audit: FreshMarkerCandidateAudit,
    pub authority: TerminalPublicationAuthority<M, T>,
}

impl<M, T> FailedPublicationMarkerUnlink<M, T> {
    /// Why the removal came to an end.
    pub fn failure(&self) -> (failure: PublicationMarkerUnlinkFailure)
        ensures
            failure == self.failure,
    {
        self.failure
    }
}

/// A candidate without a marker, whose marker's parent was synchronized. It waits for the clean
/// audit and is no success yet.
#[must_use]
pub struct CleanAuditPending<S> {
    pub root: String,
    pub audit: FreshMarkerCandidateAudit,
    pub authority: S,
}

/// A candidate without a marker, whose marker's parent is not known to be synchronized.
#[must_use]
pub struct ParentSyncPending<U> {
    pub root: String,
    pub audit: FreshMarkerCandidateAudit,
    pub authority: U,
}

/// A durable publication that was reviewed once more. Its marker may now be removed.
#[must_use]
pub struct MarkerUnlink<M> {
    pub root: String,
    pub audit: FreshMarkerCandidateAudit,
    pub held_marker: M,
}

/// A removal under way, while the marker is in the hands of the one who removes it.
#[must_use]
pub struct MarkerUnlinkInProgress {
    pub root: String,
    pub audit: FreshMarkerCandidateAudit,
}

/// What came of one removal. If nothing was removed, the marker comes back with one more review.
pub enum MarkerUnlinkReport<M, S, U, T> {
    NotRemoved(M, PublishedReview),
    RemovedAndParentSynced(S),
    RemovedButParentSyncIndeterminate(U),
    ReplacementRetained(T),
    PostStateIndeterminate(T),
}

/// The outcome of one removal.
#[must_use]
pub enum PublicationMarkerUnlinkOutcome<M, S, U, T> {
    NotRemoved(PublicationDurableWithMarker<M>),
    CleanAuditPending(CleanAuditPending<S>),
    ParentSyncPending(ParentSyncPending<U>),
    Terminal(FailedPublicationMarkerUnlink<M, T>),
}

/// What the review before a removal gives.
pub open spec fn unlink_opening<M, T>(durable: PublicationDurableWithMarker<M>, review: PublishedReview) -> Result<
    MarkerUnlink<M>,
    FailedPublicationMarkerUnlink<M, T>,
> {
    match review_verdict(review, durable.audit) {
        Ok(audit) => Ok(MarkerUnlink { root: durable.root, audit, held_marker: durable.held_marker }),
        Err(failure) => Err(
            FailedPublicationMarkerUnlink {
                failure: PublicationMarkerUnlinkFailure::PreUnlinkReview(failure),
                root: durable.root,
                audit: durable.audit,
                authority: TerminalPublicationAuthority::Held(durable.held_marker),
            },
        ),
    }
}

/// The outcome of a removal, from what came of it.
pub open spec fn unlink_outcome<M, S, U, T>(
    root: String,
    audit: FreshMarkerCandidateAudit,
    report: MarkerUnlinkReport<M, S, U, T>,
) -> PublicationMarkerUnlinkOutcome<M, S, U, T> {
    match report {
        MarkerUnlinkReport::NotRemoved(held_marker, review) => match review_verdict(review, audit) {
            Ok(reviewed) => PublicationMarkerUnlinkOutcome::NotRemoved(
                PublicationDurableWithMarker { root, audit: reviewed, held_marker },
            ),
            Err(failure) => PublicationMarkerUnlinkOutcome::Terminal(
                FailedPublicationMarkerUnlink {
                    failure: PublicationMarkerUnlinkFailure::NotRemovedReview(failure),
                    root,
                    audit,
                    authority: TerminalPublicationAuthority::Held(held_marker),
                },
            ),
        },
        MarkerUnlinkReport::RemovedAndParentSynced(authority) => PublicationMarkerUnlinkOutcome::CleanAuditPending(
            CleanAuditPending { root, audit, authority },
        ),
        MarkerUnlinkReport::RemovedButParentSyncIndeterminate(authority) => PublicationMarkerUnlinkOutcome::ParentSyncPending(
            ParentSyncPending { root, audit, authority },
        ),
        MarkerUnlinkReport::ReplacementRetained(authority) => PublicationMarkerUnlinkOutcome::Terminal(
            FailedPublicationMarkerUnlink {
                failure: PublicationMarkerUnlinkFailure::ReplacementRetained,
                root,
                audit,
                authority: TerminalPublicationAuthority::Core(authority),
            },
        ),
        MarkerUnlinkReport::PostStateIndeterminate(authority) => PublicationMarkerUnlinkOutcome::Terminal(
            FailedPublicationMarkerUnlink {
                failure: PublicationMarkerUnlinkFailure::PostStateIndeterminate,
                root,
                audit,
                authority: TerminalPublicationAuthority::Core(authority),
            },
        ),
    }
}

impl<M> PublicationDurableWithMarker<M> {
    /// The root of the candidate.
    pub fn root(&self) -> (root: &str)
        ensures
            root@ == self.root@,
    {
        self.root.as_str()
    }

    /// The summary of the candidate.
    pub fn audit(&self) -> (audit: &FreshMarkerCandidateAudit)
        ensures
            *audit == self.audit,
    {
        &self.audit
    }

    /// Review the candidate before its marker is removed.
    pub fn unlink_marker<T>(self, review: PublishedReview) -> (r: Result<MarkerUnlink<M>, FailedPublicationMarkerUnlink<M, T>>)
        ensures
            r == unlink_opening::<M, T>(self, review),
    {
        match review_published_candidate(review, &self.audit) {
            Ok(audit) => Ok(MarkerUnlink { root: self.root, audit, held_marker: self.held_marker }),
            Err(failure) => Err(
                FailedPublicationMarkerUnlink {
                    failure: PublicationMarkerUnlinkFailure::PreUnlinkReview(failure),
                    root: self.root,
                    audit: self.audit,
                    authority: TerminalPublicationAuthority::Held(self.held_marker),
                },
            ),
        }
    }

    /// The state in diagnostics.
    pub fn redacted(&self) -> (text: Vec<u8>)
        ensures
            text@ == state_text("PublicationDurableWithMarker"@, self.audit, "held_marker"@),
    {
        redacted_state("PublicationDurableWithMarker", &self.audit, "held_marker")
    }
}

impl<M> MarkerUnlink<M> {
    /// Hand the marker over to be removed.
    pub fn hand_over(self) -> (r: (M, MarkerUnlinkInProgress))
        ensures
            r.0 == self.held_marker,
            r.1 == (MarkerUnlinkInProgress { root: self.root, audit: self.audit }),
    {
        (self.held_marker, MarkerUnlinkInProgress { root: self.root, audit: self.audit })
    }
}

impl MarkerUnlinkInProgress {
    /// Conclude a removal.
    pub fn conclude<M, S, U, T>(self, report: MarkerUnlinkReport<M, S, U, T>) -> (outcome: PublicationMarkerUnlinkOutcome<
        M,
        S,
        U,
        T,
    >)
        ensures
            outcome == unlink_outcome(self.root, self.audit, report),
    {
        let root = self.root;
        let audit = self.audit;
        match report {
            MarkerUnlinkReport::NotRemoved(held_marker, review) => match review_published_candidate(review, &audit) {
                Ok(reviewed) => PublicationMarkerUnlinkOutcome::NotRemoved(
                    PublicationDurableWithMarker { root, audit: reviewed, held_marker },
                ),
                Err(failure) => PublicationMarkerUnlinkOutcome::Terminal(
                    FailedPublicationMarkerUnlink {
                        failure: PublicationMarkerUnlinkFailure::NotRemovedReview(failure),
                        root,
                        audit,
                        authority: TerminalPublicationAuthority::Held(held_marker),
                    },
                ),
            },
            MarkerUnlinkReport::RemovedAndParentSynced(authority) => PublicationMarkerUnlinkOutcome::CleanAuditPending(
                CleanAuditPending { root, audit, authority },
            ),
            MarkerUnlinkReport::RemovedButParentSyncIndeterminate(authority) => {
                PublicationMarkerUnlinkOutcome::ParentSyncPending(ParentSyncPending { root, audit, authority })
            },
            MarkerUnlinkReport::ReplacementRetained(authority) => PublicationMarkerUnlinkOutcome::Terminal(
                FailedPublicationMarkerUnlink {
                    failure: PublicationMarkerUnlinkFailure::ReplacementRetained,
                    root,
                    audit,
                    authority: TerminalPublicationAuthority::Core(authority),
                },
            ),
            MarkerUnlinkReport::PostStateIndeterminate(authority) => PublicationMarkerUnlinkOutcome::Terminal(
                FailedPublicationMarkerUnlink {
                    failure: PublicationMarkerUnlinkFailure::PostStateIndeterminate,
                    root,
                    audit,
                    authority: TerminalPublicationAuthority::Core(authority),
                },
            ),
        }
    }
}

/// What came of one more synchronization of a marker's parent.
pub enum ParentSyncReport<S, U, T> {
    Synced(S),
    StillIndeterminate(U),
    ReplacementRetained(T),
    PostStateIndeterminate(T),
}

/// The outcome of one more synchronization of a marker's parent. `M` is the type of the marker,
/// which no longer exists.
#[must_use]
pub enum PublicationParentSyncOutcome<M, S, U, T> {
    CleanAuditPending(CleanAuditPending<S>),
    ParentSyncPending(ParentSyncPending<U>),
    Terminal(FailedPublicationMarkerUnlink<M, T>),
}

/// The outcome of one more synchronization of a marker's parent, from what came of it.
pub open spec fn parent_sync_outcome<M, S, U, T>(
    root: String,
    audit: FreshMarkerCandidateAudit,
    report: ParentSyncReport<S, U, T>,
) -> PublicationParentSyncOutcome<M, S, U, T> {
    match report {
        ParentSyncReport::Synced(authority) => PublicationParentSyncOutcome::CleanAuditPending(
            CleanAuditPending { root, audit, authority },
        ),
        ParentSyncReport::StillIndeterminate(authority) => PublicationParentSyncOutcome::ParentSyncPending(
            ParentSyncPending { root, audit, authority },
        ),
        ParentSyncReport::ReplacementRetained(authority) => PublicationParentSyncOutcome::Terminal(
            FailedPublicationMarkerUnlink {
                failure: PublicationMarkerUnlinkFailure::ParentSyncReplacementRetained,
                root,
                audit,
                authority: TerminalPublicationAuthority::Core(authority),
            },
        ),
        ParentSyncReport::PostStateIndeterminate(authority) => PublicationParentSyncOutcome::Terminal(
            FailedPublicationMarkerUnlink {
                failure: PublicationMarkerUnlinkFailure::ParentSyncPostStateIndeterminate,
                root,
                audit,
                authority: TerminalPublicationAuthority::Core(authority),
            },
        ),
    }
}

/// Map what came of one more synchronization of a marker's parent.
pub fn map_parent_sync_outcome<M, S, U, T>(
    root: String,
    audit: FreshMarkerCandidateAudit,
    report: ParentSyncReport<S, U, T>,
) -> (outcome: PublicationParentSyncOutcome<M, S, U, T>)
    ensures
        outcome == parent_sync_outcome::<M, S, U, T>(root, audit, report),
{
    match report {
        ParentSyncReport::Synced(authority) => PublicationParentSyncOutcome::CleanAuditPending(
            CleanAuditPending { root, audit, authority },
        ),
        ParentSyncReport::StillIndeterminate(authority) => PublicationParentSyncOutcome::ParentSyncPending(
            ParentSyncPending { root, audit, authority },
        ),
        ParentSyncReport::ReplacementRetained(authority) => PublicationParentSyncOutcome::Terminal(
            FailedPublicationMarkerUnlink {
                failure: PublicationMarkerUnlinkFailure::ParentSyncReplacementRetained,
                root,
                audit,
                authority: TerminalPublicationAuthority::Core(authority),
            },
        ),
        ParentSyncReport::PostStateIndeterminate(authority) => PublicationParentSyncOutcome::Terminal(
            FailedPublicationMarkerUnlink {
                failure: PublicationMarkerUnlinkFailure::ParentSyncPostStateIndeterminate,
                root,
                audit,
                authority: TerminalPublicationAuthority::Core(authority),
            },
        ),
    }
}

/// What a synchronization of a marker's parent has to keep while it is under way.
#[must_use]
pub struct ParentSyncInProgress {
    pub root: String,
    pub audit: FreshMarkerCandidateAudit,
}

impl<U> ParentSyncPending<U> {
    /// Hand the authority over for one more synchronization.
    pub fn retry_parent_sync(self) -> (r: (U, ParentSyncInProgress))
        ensures
            r.0 == self.authority,
            r.1 == (ParentSyncInProgress { root: self.root, audit: self.audit }),
    {
        (self.authority, ParentSyncInProgress { root: self.root, audit: self.audit })
    }

    /// The state in diagnostics.
    pub fn redacted(&self) -> (text: Vec<u8>)
        ensures
            text@ == state_text("ParentSyncPending"@, self.audit, "authority"@),
    {
        redacted_state("ParentSyncPending", &self.audit, "authority")
    }
}

impl ParentSyncInProgress {
    /// Conclude one more synchronization.
    pub fn conclude<M, S, U, T>(self, report: ParentSyncReport<S, U, T>) -> (outcome: PublicationParentSyncOutcome<M, S, U, T>)
        ensures
            outcome == parent_sync_outcome::<M, S, U, T>(self.root, self.audit, report),
    {
        map_parent_sync_outcome(self.root, self.audit, report)
    }
}

/// Why the absence of a marker could not be confirmed.
#[derive(Clone, Copy, Debug, PartialEq, Eq, Structural)]
pub enum AbsenceFailure {
    /// It could not be told.
    Indeterminate,
    /// Another entry stands in the marker's place.
    NamespaceConflict,
    /// The authority is no longer the one that was kept.
    AuthorityChanged,
}

/// Why a clean audit came to an end.
#[derive(Clone, Copy, PartialEq, Eq, Structural)]
pub enum CleanAuditTerminalFailure {
    AuditFailedAndAuthorityLost { audit: RepositoryImportError, authority: AbsenceFailure },
    SummaryMismatch(CandidateSummaryMismatch),
    FinalAuthority(AbsenceFailure),
}

impl CleanAuditTerminalFailure {
    /// The failure in words.
    pub fn text(&self) -> (text: &'static str)
        ensures
            text@ == match self {
                CleanAuditTerminalFailure::AuditFailedAndAuthorityLost { .. } => "clean audit failed and retained authority changed"@,
                CleanAuditTerminalFailure::SummaryMismatch(_) => "clean audit candidate summary changed"@,
                CleanAuditTerminalFailure::FinalAuthority(_) => "clean audit final authority changed"@,
            },
    {
        match self {
            CleanAuditTerminalFailure::AuditFailedAndAuthorityLost { .. } => "clean audit failed and retained authority changed",
            CleanAuditTerminalFailure::SummaryMismatch(_) => "clean audit candidate summary changed",
            CleanAuditTerminalFailure::FinalAuthority(_) => "clean audit final authority changed",
        }
    }
}

/// The end of a clean audit.
#[must_use]
pub struct FailedCleanAudit<S> {
    pub failure: CleanAuditTerminalFailure,
    pub root: String,
    pub audit: FreshMarkerCandidateAudit,
    pub authority: S,
}

impl<S> FailedCleanAudit<S> {
    /// Why the audit came to an end.
    pub fn failure(&self) -> (failure: CleanAuditTerminalFailure)
        ensures
            failure == self.failure,
    {
        self.failure
    }
}

/// A published candidate without a marker, audited as a whole.
#[must_use]
pub struct PublishedClean<S> {
    pub root: String,
    pub audit: FreshMarkerCandidateAudit,
    pub authority: S,
}

impl<S> PublishedClean<S> {
    /// The root of the candidate.
    pub fn root(&self) -> (root: &str)
        ensures
            root@ == self.root@,
    {
        self.root.as_str()
    }

    /// The summary of the candidate.
    pub fn audit(&self) -> (audit: &FreshMarkerCandidateAudit)
        ensures
            *audit == self.audit,
    {
        &self.audit
    }

    /// The state in diagnostics.
    pub fn redacted(&self) -> (text: Vec<u8>)
        ensures
            text@ == state_text("PublishedClean"@, self.audit, "authority"@),
    {
        redacted_state("PublishedClean", &self.audit, "authority")
    }
}

/// The outcome of a clean audit.
#[must_use]
pub enum CleanAuditOutcome<S> {
    PublishedClean(PublishedClean<S>),
    Retryable(CleanAuditPending<S>),
    Terminal(FailedCleanAudit<S>),
}

/// The outcome of a clean audit, from the audit and the absence of the marker after it.
pub open spec fn clean_outcome<S>(
    pending: CleanAuditPending<S>,
    clean: Result<FreshMarkerCandidateAudit, RepositoryImportError>,
    absence: Result<(), AbsenceFailure>,
) -> CleanAuditOutcome<S> {
    match clean {
        Err(audit) => match absence {
            Err(authority) if authority != AbsenceFailure::Indeterminate => CleanAuditOutcome::Terminal(
                FailedCleanAudit {
                    failure: CleanAuditTerminalFailure::AuditFailedAndAuthorityLost { audit, authority },
                    root: pending.root,
                    audit: pending.audit,
                    authority: pending.authority,
                },
            ),
            _ => CleanAuditOutcome::Retryable(pending),
        },
        Ok(audit) => match summary_mismatch(audit, pending.audit) {
            Some(mismatch) => CleanAuditOutcome::Terminal(
                FailedCleanAudit {
                    failure: CleanAuditTerminalFailure::SummaryMismatch(mismatch),
                    root: pending.root,
                    audit: pending.audit,
                    authority: pending.authority,
                },
            ),
            None => match absence {
                Ok(_) => CleanAuditOutcome::PublishedClean(
                    PublishedClean { root: pending.root, audit, authority: pending.authority },
                ),
                Err(AbsenceFailure::Indeterminate) => CleanAuditOutcome::Retryable(
                    CleanAuditPending { root: pending.root, audit, authority: pending.authority },
                ),
                Err(error) => CleanAuditOutcome::Terminal(
                    FailedCleanAudit {
                        failure: CleanAuditTerminalFailure::FinalAuthority(error),
                        root: pending.root,
                        audit,
                        authority: pending.authority,
                    },
                ),
            },
        },
    }
}

impl<S> CleanAuditPending<S> {
    /// The root of the candidate.
    pub fn root(&self) -> (root: &str)
        ensures
            root@ == self.root@,
    {
        self.root.as_str()
    }

    /// The summary of the candidate.
    pub fn audit(&self) -> (audit: &FreshMarkerCandidateAudit)
        ensures
            *audit == self.audit,
    {
        &self.audit
    }

    /// Conclude a clean audit, from the audit and the absence of the marker after it.
    pub fn audit_clean(
        self,
        clean: Result<FreshMarkerCandidateAudit, RepositoryImportError>,
        absence: Result<(), AbsenceFailure>,
    ) -> (outcome: CleanAuditOutcome<S>)
        ensures
            outcome == clean_outcome(self, clean, absence),
    {
        let audit = match clean {
            Ok(audit) => audit,
            Err(error) => {
                return match absence {
                    Ok(()) | Err(AbsenceFailure::Indeterminate) => CleanAuditOutcome::Retryable(self),
                    Err(authority) => CleanAuditOutcome::Terminal(
                        FailedCleanAudit {
                            failure: CleanAuditTerminalFailure::AuditFailedAndAuthorityLost { audit: error, authority },
                            root: self.root,
                            audit: self.audit,
                            authority: self.authority,
                        },
                    ),
                };
            },
        };
        match compare_candidate_summaries(&audit, &self.audit) {
            Ok(()) => {},
            Err(mismatch) => {
                return CleanAuditOutcome::Terminal(
                    FailedCleanAudit {
                        failure: CleanAuditTerminalFailure::SummaryMismatch(mismatch),
                        root: self.root,
                        audit: self.audit,
                        authority: self.authority,
                    },
                );
            },
        }
        match absence {
            Ok(()) => CleanAuditOutcome::PublishedClean(
                PublishedClean { root: self.root, audit, authority: self.authority },
            ),
            Err(AbsenceFailure::Indeterminate) => CleanAuditOutcome::Retryable(
                CleanAuditPending { root: self.root, audit, authority: self.authority },
            ),
            Err(error) => CleanAuditOutcome::Terminal(
                FailedCleanAudit {
                    failure: CleanAuditTerminalFailure::FinalAuthority(error),
                    root: self.root,
                    audit,
                    authority: self.authority,
                },
            ),
        }
    }

    /// The state in diagnostics.
    pub fn redacted(&self) -> (text: Vec<u8>)
        ensures
            text@ == state_text("CleanAuditPending"@, self.audit, "authority"@),
    {
        redacted_state("CleanAuditPending", &self.audit, "authority")
    }
}

/// Whatever a synchronization comes to, the marker and the root stay the same and the summary
/// does not change; and a publication is durable if and only if the synchronization succeeded and
/// the review after it passed.
pub proof fn durability_keeps_the_owner<M>(
    published: PublishedWithMarker<M>,
    sync: Result<(), PublicationMarkerFailureKind>,
    review: PublishedReview,
)
    ensures
        match durability_outcome(published, sync, review) {
            PublicationDurabilityOutcome::Durable(owner) => owner.held_marker == published.held_marker && owner.root
                == published.root && same_summary(owner.audit, published.audit),
            PublicationDurabilityOutcome::Retryable(owner) => owner.held_marker == published.held_marker && owner.root
                == published.root && same_summary(owner.audit, published.audit),
            PublicationDurabilityOutcome::Terminal(owner) => owner.held_marker == published.held_marker && owner.root
                == published.root && owner.audit == published.audit,
        },
        durability_outcome(published, sync, review) is Durable <==> sync is Ok && review_verdict(review, published.audit) is Ok,
        durability_outcome(published, sync, review) is Terminal <==> review_verdict(review, published.audit) is Err,
{
}

/// A marker leaves a durable publication only after a review that passed; and a marker that was
/// not removed, or that a failed review keeps, is the one that was there.
pub proof fn unlink_keeps_the_owner<M, S, U, T>(
    durable: PublicationDurableWithMarker<M>,
    before: PublishedReview,
    report: MarkerUnlinkReport<M, S, U, T>,
)
    ensures
        match unlink_opening::<M, T>(durable, before) {
            Err(failed) => review_verdict(before, durable.audit) is Err && failed.root == durable.root && failed.audit
                == durable.audit && failed.authority == TerminalPublicationAuthority::<M, T>::Held(durable.held_marker),
            Ok(ready) => {
                &&& review_verdict(before, durable.audit) is Ok
                &&& ready.held_marker == durable.held_marker
                &&& match unlink_outcome(ready.root, ready.audit, report) {
                    PublicationMarkerUnlinkOutcome::NotRemoved(owner) => owner.root == durable.root && same_summary(
                        owner.audit,
                        durable.audit,
                    ) && (report matches MarkerUnlinkReport::NotRemoved(marker, _) && owner.held_marker == marker),
                    PublicationMarkerUnlinkOutcome::CleanAuditPending(owner) => owner.root == durable.root && same_summary(
                        owner.audit,
                        durable.audit,
                    ),
                    PublicationMarkerUnlinkOutcome::ParentSyncPending(owner) => owner.root == durable.root && same_summary(
                        owner.audit,
                        durable.audit,
                    ),
                    PublicationMarkerUnlinkOutcome::Terminal(owner) => owner.root == durable.root && same_summary(
                        owner.audit,
                        durable.audit,
                    ),
                }
            },
        },
{
}

/// A clean audit succeeds if and only if the audit passed, its summary is the one that was
/// published, and the marker is known to be absent; and whatever it comes to, root and authority
/// stay the same.
pub proof fn clean_audit_keeps_the_owner<S>(
    pending: CleanAuditPending<S>,
    clean: Result<FreshMarkerCandidateAudit, RepositoryImportError>,
    absence: Result<(), AbsenceFailure>,
)
    ensures
        clean_outcome(pending, clean, absence) is PublishedClean <==> (clean matches Ok(audit) && same_summary(
            audit,
            pending.audit,
        ) && absence is Ok),
        match clean_outcome(pending, clean, absence) {
            CleanAuditOutcome::PublishedClean(owner) => owner.root == pending.root && owner.authority == pending.authority
                && same_summary(owner.audit, pending.audit),
            CleanAuditOutcome::Retryable(owner) => owner.root == pending.root && owner.authority == pending.authority
                && same_summary(owner.audit, pending.audit),
            CleanAuditOutcome::Terminal(owner) => owner.root == pending.root && owner.authority == pending.authority
                && same_summary(owner.audit, pending.audit),
        },
{
}

/// One more synchronization of a marker's parent changes neither root nor summary.
pub proof fn parent_sync_keeps_the_owner<M, S, U, T>(pending: ParentSyncPending<U>, report: ParentSyncReport<S, U, T>)
    ensures
        match parent_sync_outcome::<M, S, U, T>(pending.root, pending.audit, report) {
            PublicationParentSyncOutcome::CleanAuditPending(owner) => owner.root == pending.root && owner.audit
                == pending.audit && report == ParentSyncReport::<S, U, T>::Synced(owner.authority),
            PublicationParentSyncOutcome::ParentSyncPending(owner) => owner.root == pending.root && owner.audit
                == pending.audit && report == ParentSyncReport::<S, U, T>::StillIndeterminate(owner.authority),
            PublicationParentSyncOutcome::Terminal(owner) => owner.root == pending.root && owner.audit == pending.audit
                && owner.authority is Core,
        },
{
}

/// What ends as a clean publication is what was published with a marker: the same root and the
/// same summary.
pub proof fn clean_publication_is_what_was_published<M, S, U, T>(
    published: PublishedWithMarker<M>,
    sync: Result<(), PublicationMarkerFailureKind>,
    review: PublishedReview,
    durable: PublicationDurableWithMarker<M>,
    before: PublishedReview,
    ready: MarkerUnlink<M>,
    report: MarkerUnlinkReport<M, S, U, T>,
    pending: CleanAuditPending<S>,
    clean: Result<FreshMarkerCandidateAudit, RepositoryImportError>,
    absence: Result<(), AbsenceFailure>,
    owner: PublishedClean<S>,
)
    requires
        durability_outcome(published, sync, review) == PublicationDurabilityOutcome::Durable(durable),
        unlink_opening::<M, T>(durable, before) == Ok::<MarkerUnlink<M>, FailedPublicationMarkerUnlink<M, T>>(ready),
        unlink_outcome(ready.root, ready.audit, report) == PublicationMarkerUnlinkOutcome::<M, S, U, T>::CleanAuditPending(
            pending,
        ),
        clean_outcome(pending, clean, absence) == CleanAuditOutcome::PublishedClean(owner),
    ensures
        owner.root == published.root,
        same_summary(owner.audit, published.audit),
{
}

} // verus!
