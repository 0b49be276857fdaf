use inex_git::content_seal::CandidateContentSeal;
use inex_git::errors::{IoErrorKind, RepositoryImportError};
use inex_git::fresh_audit::{
    compare_candidate_summaries, CandidateSummaryMismatch, FreshMarkerCandidateAudit, PublicationMarker,
};
use inex_git::identity::{FilesystemDirectoryIdentity, PublicationIdentityScheme};
use inex_git::publication::{
    map_parent_sync_outcome, review_published_candidate, AbsenceFailure, CleanAuditOutcome, CleanAuditPending,
    CleanAuditTerminalFailure, MarkerUnlinkReport, ParentSyncReport, PublicationDurabilityOutcome,
    PublicationDurableWithMarker, PublicationMarkerUnlinkFailure, PublicationMarkerUnlinkOutcome,
    PublicationParentSyncOutcome, PublishedCandidateReviewFailure, PublishedReview, TerminalPublicationAuthority,
};
use inex_git::publication_claim::{
    claim_fresh_existing_candidate, require_unreserved_destination_child_name, validate_staging_child_name,
    validated_staging_child_name_from_root, CandidatePublicationNameError, ClaimSighting, FreshExistingClaimError,
    FreshExistingClaimInput, FreshExistingPostOpenFailure, PublicationMarkerFailureKind, PublishedWithMarker,
    IMPORT_STAGING_PREFIX,
};
use inex_git::seal_records::{CandidateSealContext, DOMAIN};

const ROOT: &str = "/vaults/private-destination";
const TAF: RepositoryImportError = RepositoryImportError::TargetAuditFailed;

/// A marker that can be held by one owner only.
#[derive(Debug, PartialEq)]
struct Marker(u32);

/// The authority after a removal, with the parent synchronized, not synchronized, or lost.
#[derive(Debug, PartialEq)]
struct Synced(u32);
#[derive(Debug, PartialEq)]
struct Unsynced(u32);
#[derive(Debug, PartialEq)]
struct Lost(u32);

fn context() -> CandidateSealContext {
    CandidateSealContext {
        scheme: PublicationIdentityScheme::LinuxDevInodeV1,
        scheme_wire_value: 1,
        publication_id: [0x71; 16],
    }
}

fn summary() -> FreshMarkerCandidateAudit {
    FreshMarkerCandidateAudit {
        context: context(),
        content_seal: CandidateContentSeal([0x5a; 32]),
        worktree_files: 6,
        encrypted_markdown: 2,
        encrypted_assets: 1,
        git_objects: 9,
        root_commit_oid: [0x33; 20],
    }
}

fn summary_mismatch(mismatch: CandidateSummaryMismatch) -> FreshMarkerCandidateAudit {
    let mut audit = summary();
    match mismatch {
        CandidateSummaryMismatch::Context => audit.context.publication_id[0] ^= 1,
        CandidateSummaryMismatch::ContentSeal => audit.content_seal.0[31] ^= 1,
        CandidateSummaryMismatch::RootCommit => audit.root_commit_oid[19] ^= 1,
        CandidateSummaryMismatch::WorktreeCount => audit.worktree_files += 1,
        CandidateSummaryMismatch::MarkdownCount => audit.encrypted_markdown += 1,
        CandidateSummaryMismatch::AssetCount => audit.encrypted_assets += 1,
        CandidateSummaryMismatch::GitObjectCount => audit.git_objects += 1,
    }
    audit
}

fn mismatches() -> [CandidateSummaryMismatch; 7] {
    [
        CandidateSummaryMismatch::Context,
        CandidateSummaryMismatch::ContentSeal,
        CandidateSummaryMismatch::RootCommit,
        CandidateSummaryMismatch::WorktreeCount,
        CandidateSummaryMismatch::MarkdownCount,
        CandidateSummaryMismatch::AssetCount,
        CandidateSummaryMismatch::GitObjectCount,
    ]
}

fn good_review() -> PublishedReview {
    PublishedReview { role_before: Ok(()), audit: Ok(summary()), role_after: Ok(()) }
}

fn drifted_review() -> PublishedReview {
    PublishedReview { role_before: Ok(()), audit: Err(TAF), role_after: Ok(()) }
}

fn published() -> PublishedWithMarker<Marker> {
    PublishedWithMarker { root: ROOT.to_owned(), audit: summary(), held_marker: Marker(7) }
}

fn durable() -> PublicationDurableWithMarker<Marker> {
    match published().synchronize(Ok(()), good_review()) {
        PublicationDurabilityOutcome::Durable(owner) => owner,
        _ => panic!("expected durable owner"),
    }
}

fn unlink(
    owner: PublicationDurableWithMarker<Marker>,
    report: impl FnOnce(Marker) -> MarkerUnlinkReport<Marker, Synced, Unsynced, Lost>,
) -> PublicationMarkerUnlinkOutcome<Marker, Synced, Unsynced, Lost> {
    match owner.unlink_marker::<Lost>(good_review()) {
        Ok(ready) => {
            let (marker, progress) = ready.hand_over();
            progress.conclude(report(marker))
        },
        Err(_) => panic!("expected the review before the removal to pass"),
    }
}

fn clean_pending() -> CleanAuditPending<Synced> {
    match unlink(durable(), |marker| MarkerUnlinkReport::RemovedAndParentSynced(Synced(marker.0))) {
        PublicationMarkerUnlinkOutcome::CleanAuditPending(owner) => owner,
        _ => panic!("expected clean-audit-pending owner"),
    }
}

fn assert_expected(audit: &FreshMarkerCandidateAudit) {
    assert_eq!(compare_candidate_summaries(audit, &summary()), Ok(()));
    assert_eq!(audit.worktree_files(), 6);
    assert_eq!(audit.encrypted_markdown(), 2);
    assert_eq!(audit.encrypted_assets(), 1);
    assert_eq!(audit.git_objects(), 9);
    assert_eq!(audit.content_seal(), [0x5a; 32]);
    assert_eq!(audit.root_commit_oid(), [0x33; 20]);
    assert_eq!(audit.context().publication_id, [0x71; 16]);
}

fn text(bytes: Vec<u8>) -> String {
    String::from_utf8(bytes).expect("diagnostics are text")
}

#[test]
fn durability_real_fresh_and_initial_states_reach_only_durable_owner() {
    let owner = durable();
    assert_eq!(owner.root(), ROOT);
    assert_expected(owner.audit());
    assert_eq!(owner.held_marker, Marker(7));
    assert!(!text(owner.redacted()).contains(ROOT));
}

#[test]
fn durability_sync_errors_before_and_after_effect_are_retryable_and_scrubbed() {
    for (normalized, words) in [
        (PublicationMarkerFailureKind::InvalidInput, "publication marker input is invalid"),
        (PublicationMarkerFailureKind::NamespaceConflict, "publication marker namespace conflicts"),
        (PublicationMarkerFailureKind::AuthorityChanged, "publication marker authority changed"),
        (PublicationMarkerFailureKind::Io(IoErrorKind::PermissionDenied), "publication marker I/O failed"),
    ] {
        assert_eq!(normalized.text(), words);
    }
    for kind in [IoErrorKind::PermissionDenied, IoErrorKind::Interrupted] {
        let failure = PublicationMarkerFailureKind::Io(kind);
        let retry = match published().synchronize(Err(failure), good_review()) {
            PublicationDurabilityOutcome::Retryable(owner) => owner,
            _ => panic!("expected retry owner"),
        };
        assert_eq!(retry.failure(), failure);
        assert_eq!(retry.root, ROOT);
        assert_eq!(retry.held_marker, Marker(7));
        match retry.retry(Ok(()), good_review()) {
            PublicationDurabilityOutcome::Durable(owner) => {
                assert_eq!(owner.held_marker, Marker(7));
                assert_expected(owner.audit());
            },
            _ => panic!("expected retry to become durable"),
        }
    }
}

#[test]
fn durability_ok_or_error_with_staging_drift_is_terminal() {
    for sync in [Ok(()), Err(PublicationMarkerFailureKind::Io(IoErrorKind::Interrupted))] {
        let review = PublishedReview {
            role_before: Err(PublicationMarkerFailureKind::NamespaceConflict),
            audit: Ok(summary()),
            role_after: Ok(()),
        };
        match published().synchronize(sync, review) {
            PublicationDurabilityOutcome::Terminal(owner) => {
                assert_eq!(owner.sync_failure(), sync.err());
                assert!(
                    owner.review_failure()
                        == PublishedCandidateReviewFailure::PublishedRole(
                            PublicationMarkerFailureKind::NamespaceConflict
                        )
                );
                assert_eq!(owner.held_marker, Marker(7));
            },
            _ => panic!("expected terminal owner"),
        }
    }
}

#[test]
fn durability_ok_or_error_with_content_drift_is_terminal() {
    for sync in [Ok(()), Err(PublicationMarkerFailureKind::AuthorityChanged)] {
        match published().synchronize(sync, drifted_review()) {
            PublicationDurabilityOutcome::Terminal(owner) => {
                assert_eq!(owner.sync_failure(), sync.err());
                assert!(owner.review_failure() == PublishedCandidateReviewFailure::FreshAudit(TAF));
                assert_eq!(owner.review_failure().text(), "published candidate audit failed during complete review");
                assert_eq!(owner.root, ROOT);
            },
            _ => panic!("expected terminal owner"),
        }
    }
}

/// The role comes first, then the audit, then the summary, then the role again.
#[test]
fn durability_api_surface_and_review_order_are_frozen() {
    let first = PublicationMarkerFailureKind::InvalidInput;
    let second = PublicationMarkerFailureKind::AuthorityChanged;
    let review = |before: bool, audit: Result<FreshMarkerCandidateAudit, RepositoryImportError>, after: bool| {
        let seen = PublishedReview {
            role_before: if before { Ok(()) } else { Err(first) },
            audit,
            role_after: if after { Ok(()) } else { Err(second) },
        };
        review_published_candidate(seen, &summary()).err()
    };
    let other = || Ok(summary_mismatch(CandidateSummaryMismatch::RootCommit));
    assert!(review(false, Err(TAF), false) == Some(PublishedCandidateReviewFailure::PublishedRole(first)));
    assert!(review(true, Err(TAF), false) == Some(PublishedCandidateReviewFailure::FreshAudit(TAF)));
    assert!(
        review(true, other(), false)
            == Some(PublishedCandidateReviewFailure::SummaryMismatch(CandidateSummaryMismatch::RootCommit))
    );
    assert!(review(true, Ok(summary()), false) == Some(PublishedCandidateReviewFailure::PublishedRole(second)));
    assert!(review(true, Ok(summary()), true).is_none());
    // The failure of a synchronization is kept beside that of the review.
    match published().synchronize(Err(first), drifted_review()) {
        PublicationDurabilityOutcome::Terminal(owner) => assert_eq!(owner.sync_failure(), Some(first)),
        _ => panic!("expected terminal owner"),
    }
}

#[test]
fn marker_unlink_real_durable_reaches_only_clean_audit_pending() {
    let pending = clean_pending();
    assert_eq!(pending.root(), ROOT);
    assert_expected(pending.audit());
    assert_eq!(pending.authority, Synced(7));
    let diagnostics = text(pending.redacted());
    assert!(!diagnostics.contains(ROOT));
    assert!(!diagnostics.to_ascii_lowercase().contains("success"));
}

#[test]
fn marker_unlink_pre_review_drift_never_calls_driver() {
    match durable().unlink_marker::<Lost>(drifted_review()) {
        Ok(_) => panic!("a drifted candidate hands no marker over"),
        Err(terminal) => {
            assert!(
                terminal.failure()
                    == PublicationMarkerUnlinkFailure::PreUnlinkReview(PublishedCandidateReviewFailure::FreshAudit(TAF))
            );
            assert_eq!(terminal.failure().text(), "published candidate failed its pre-unlink review");
            assert!(matches!(terminal.authority, TerminalPublicationAuthority::Held(Marker(7))));
        },
    }
}

#[test]
fn marker_unlink_not_removed_returns_durable_then_real_unlink() {
    let owner = match unlink(durable(), |marker| MarkerUnlinkReport::NotRemoved(marker, good_review())) {
        PublicationMarkerUnlinkOutcome::NotRemoved(owner) => owner,
        _ => panic!("expected durable not-removed owner"),
    };
    assert_eq!(owner.held_marker, Marker(7));
    match unlink(owner, |marker| MarkerUnlinkReport::RemovedAndParentSynced(Synced(marker.0))) {
        PublicationMarkerUnlinkOutcome::CleanAuditPending(pending) => assert_eq!(pending.authority, Synced(7)),
        _ => panic!("expected retry to reach clean audit pending"),
    }
}

#[test]
fn marker_unlink_not_removed_post_review_drift_is_terminal() {
    match unlink(durable(), |marker| MarkerUnlinkReport::NotRemoved(marker, drifted_review())) {
        PublicationMarkerUnlinkOutcome::Terminal(owner) => {
            assert!(
                owner.failure()
                    == PublicationMarkerUnlinkFailure::NotRemovedReview(PublishedCandidateReviewFailure::FreshAudit(TAF))
            );
            assert!(matches!(owner.authority, TerminalPublicationAuthority::Held(Marker(7))));
        },
        _ => panic!("expected not-removed review terminal owner"),
    }
}

#[test]
fn marker_unlink_and_parent_sync_api_surfaces_are_frozen() {
    match unlink(durable(), |marker| MarkerUnlinkReport::RemovedButParentSyncIndeterminate(Unsynced(marker.0))) {
        PublicationMarkerUnlinkOutcome::ParentSyncPending(owner) => assert_eq!(owner.authority, Unsynced(7)),
        _ => panic!("expected parent-sync-pending owner"),
    }
    match unlink(durable(), |marker| MarkerUnlinkReport::ReplacementRetained(Lost(marker.0))) {
        PublicationMarkerUnlinkOutcome::Terminal(owner) => {
            assert!(owner.failure() == PublicationMarkerUnlinkFailure::ReplacementRetained);
            assert!(matches!(owner.authority, TerminalPublicationAuthority::Core(Lost(7))));
        },
        _ => panic!("expected terminal owner"),
    }
    match unlink(durable(), |marker| MarkerUnlinkReport::PostStateIndeterminate(Lost(marker.0))) {
        PublicationMarkerUnlinkOutcome::Terminal(owner) => {
            assert!(owner.failure() == PublicationMarkerUnlinkFailure::PostStateIndeterminate);
        },
        _ => panic!("expected terminal owner"),
    }

    let map = |report: ParentSyncReport<Synced, Unsynced, Lost>| -> PublicationParentSyncOutcome<Marker, Synced, Unsynced, Lost> {
        map_parent_sync_outcome(ROOT.to_owned(), summary(), report)
    };
    assert!(matches!(
        map(ParentSyncReport::Synced(Synced(1))),
        PublicationParentSyncOutcome::CleanAuditPending(CleanAuditPending { authority: Synced(1), .. })
    ));
    match map(ParentSyncReport::StillIndeterminate(Unsynced(2))) {
        PublicationParentSyncOutcome::ParentSyncPending(owner) => assert_eq!(owner.authority, Unsynced(2)),
        _ => panic!("expected parent-sync-pending owner"),
    }
    match map(ParentSyncReport::ReplacementRetained(Lost(3))) {
        PublicationParentSyncOutcome::Terminal(owner) => {
            assert!(owner.failure() == PublicationMarkerUnlinkFailure::ParentSyncReplacementRetained);
            assert_eq!(
                owner.failure().text(),
                "publication marker replacement appeared during parent-sync retry"
            );
        },
        _ => panic!("expected terminal owner"),
    }
    match map(ParentSyncReport::PostStateIndeterminate(Lost(4))) {
        PublicationParentSyncOutcome::Terminal(owner) => {
            assert!(owner.failure() == PublicationMarkerUnlinkFailure::ParentSyncPostStateIndeterminate);
            assert!(matches!(owner.authority, TerminalPublicationAuthority::Core(Lost(4))));
        },
        _ => panic!("expected terminal owner"),
    }
}

#[test]
fn marker_unlink_pending_owner_surfaces_are_frozen() {
    let pending = match unlink(durable(), |marker| {
        MarkerUnlinkReport::RemovedButParentSyncIndeterminate(Unsynced(marker.0))
    }) {
        PublicationMarkerUnlinkOutcome::ParentSyncPending(owner) => owner,
        _ => panic!("expected parent-sync-pending owner"),
    };
    assert!(text(pending.redacted()).starts_with("ParentSyncPending { root: \"[REDACTED]\", audit: "));
    assert!(text(pending.redacted()).ends_with(", authority: \"[HELD]\" }"));
    let (authority, progress) = pending.retry_parent_sync();
    let report: ParentSyncReport<Synced, Unsynced, Lost> = ParentSyncReport::Synced(Synced(authority.0));
    let outcome: PublicationParentSyncOutcome<Marker, Synced, Unsynced, Lost> = progress.conclude(report);
    match outcome {
        PublicationParentSyncOutcome::CleanAuditPending(owner) => {
            assert_eq!(owner.root(), ROOT);
            assert_expected(owner.audit());
            assert_eq!(owner.authority, Synced(7));
        },
        _ => panic!("expected clean-audit-pending owner"),
    }
}

#[test]
fn clean_audit_real_marker_free_candidate_reaches_published_clean() {
    match clean_pending().audit_clean(Ok(summary()), Ok(())) {
        CleanAuditOutcome::PublishedClean(owner) => {
            assert_eq!(owner.root(), ROOT);
            assert_expected(owner.audit());
            assert_eq!(owner.authority, Synced(7));
            assert!(!text(owner.redacted()).contains(ROOT));
        },
        _ => panic!("expected published-clean owner"),
    }
}

#[test]
fn clean_audit_error_with_exact_absence_is_retryable_then_clean() {
    for absence in [Ok(()), Err(AbsenceFailure::Indeterminate)] {
        let retry = match clean_pending().audit_clean(Err(TAF), absence) {
            CleanAuditOutcome::Retryable(owner) => owner,
            _ => panic!("expected retryable clean audit"),
        };
        match retry.audit_clean(Ok(summary()), Ok(())) {
            CleanAuditOutcome::PublishedClean(owner) => assert_expected(owner.audit()),
            _ => panic!("expected clean retry to publish"),
        }
    }
}

#[test]
fn clean_audit_error_with_replacement_is_terminal_and_preserves_replacement() {
    match clean_pending().audit_clean(Err(TAF), Err(AbsenceFailure::NamespaceConflict)) {
        CleanAuditOutcome::Terminal(owner) => {
            assert!(
                owner.failure()
                    == CleanAuditTerminalFailure::AuditFailedAndAuthorityLost {
                        audit: TAF,
                        authority: AbsenceFailure::NamespaceConflict,
                    }
            );
            assert_eq!(owner.failure().text(), "clean audit failed and retained authority changed");
            assert_eq!(owner.authority, Synced(7));
        },
        _ => panic!("expected replacement terminal owner"),
    }
}

#[test]
fn clean_audit_all_summary_mismatches_are_terminal() {
    for mismatch in mismatches() {
        for absence in [Ok(()), Err(AbsenceFailure::Indeterminate), Err(AbsenceFailure::AuthorityChanged)] {
            match clean_pending().audit_clean(Ok(summary_mismatch(mismatch)), absence) {
                CleanAuditOutcome::Terminal(owner) => {
                    assert!(owner.failure() == CleanAuditTerminalFailure::SummaryMismatch(mismatch));
                    assert_expected(&owner.audit);
                },
                _ => panic!("expected summary-mismatch terminal owner"),
            }
        }
    }
}

#[test]
fn clean_audit_and_post_unlink_collector_surfaces_are_frozen() {
    let owner = match clean_pending().audit_clean(Ok(summary()), Ok(())) {
        CleanAuditOutcome::PublishedClean(owner) => owner,
        _ => panic!("expected published-clean owner"),
    };
    assert_eq!(
        text(owner.redacted()),
        "PublishedClean { root: \"[REDACTED]\", audit: FreshMarkerCandidateAudit { context: \"[REDACTED]\", content_seal: \
         \"[REDACTED]\", worktree_files: 6, encrypted_markdown: 2, encrypted_assets: 1, git_objects: 9, root_commit_oid: \
         \"[REDACTED]\" }, authority: \"[HELD]\" }"
    );
}

/// A failed audit is judged by the absence after it; a passed one is compared first.
#[test]
fn clean_audit_transition_and_fresh_source_contract_are_frozen() {
    match clean_pending().audit_clean(Ok(summary()), Err(AbsenceFailure::Indeterminate)) {
        CleanAuditOutcome::Retryable(owner) => assert_eq!(owner.authority, Synced(7)),
        _ => panic!("expected retryable clean audit"),
    }
    for lost in [AbsenceFailure::NamespaceConflict, AbsenceFailure::AuthorityChanged] {
        match clean_pending().audit_clean(Ok(summary()), Err(lost)) {
            CleanAuditOutcome::Terminal(owner) => {
                assert!(owner.failure() == CleanAuditTerminalFailure::FinalAuthority(lost));
                assert_eq!(owner.failure().text(), "clean audit final authority changed");
            },
            _ => panic!("expected terminal owner"),
        }
    }
}

#[test]
fn shared_name_policy_is_frozen() {
    assert_eq!(IMPORT_STAGING_PREFIX, ".inex-import-staging-");
    let valid = format!("{IMPORT_STAGING_PREFIX}0123456789abcdef0123456789abcdef");
    assert_eq!(validate_staging_child_name(&valid), Ok(()));
    for invalid in [
        format!("{IMPORT_STAGING_PREFIX}0123456789abcdef0123456789abcde"),
        format!("{IMPORT_STAGING_PREFIX}0123456789abcdef0123456789abcdef0"),
        format!("{IMPORT_STAGING_PREFIX}0123456789abcdef0123456789abcdeF"),
        ".INEX-IMPORT-STAGING-0123456789abcdef0123456789abcdef".to_owned(),
    ] {
        assert_eq!(validate_staging_child_name(&invalid), Err(CandidatePublicationNameError::InvalidStagingName));
        assert_eq!(
            validated_staging_child_name_from_root(Some(&invalid)),
            Err(CandidatePublicationNameError::InvalidStagingName)
        );
    }
    assert_eq!(validated_staging_child_name_from_root(Some(&valid)), Ok(valid.clone()));
    assert_eq!(validated_staging_child_name_from_root(None), Err(CandidatePublicationNameError::InvalidStagingName));
    assert_eq!(require_unreserved_destination_child_name("notes", ".inex-import-staging-"), Ok(()));
    assert_eq!(
        require_unreserved_destination_child_name(".inex-import-staging-foreign", ".inex-import-staging-"),
        Err(CandidatePublicationNameError::ReservedDestinationName)
    );
}

fn parent(seed: u8) -> FilesystemDirectoryIdentity {
    FilesystemDirectoryIdentity { scheme: PublicationIdentityScheme::LinuxDevInodeV1, wire: [seed; 24] }
}

const STAGING: &str = ".inex-import-staging-0123456789abcdef0123456789abcdef";

fn marker_body() -> PublicationMarker<'static> {
    PublicationMarker {
        domain: DOMAIN,
        context: context(),
        candidate_seal: [0x5a; 32],
        staging_child_name: STAGING,
        destination_child_name: "notes",
        common_parent: parent(4),
    }
}

fn good_claim() -> ClaimSighting<'static> {
    ClaimSighting {
        marker: marker_body(),
        destination_key: "notes",
        reserved_key: IMPORT_STAGING_PREFIX,
        role_before: Ok(()),
        audit: Ok(summary()),
        role_after: Ok(()),
    }
}

fn claim(
    input_name: Option<&str>,
    child: &str,
    seen: ClaimSighting<'_>,
) -> Result<PublishedWithMarker<Marker>, FreshExistingClaimError<Marker, &'static str>> {
    let common_parent = parent(4);
    let input = FreshExistingClaimInput {
        destination_root: "/vaults/notes",
        root_name: input_name,
        common_parent_identity: &common_parent,
        destination_child_name: child,
    };
    claim_fresh_existing_candidate(input, Ok((Marker(7), seen)))
}

fn refused(seen: ClaimSighting<'_>) -> FreshExistingPostOpenFailure {
    match claim(Some("notes"), "notes", seen) {
        Err(FreshExistingClaimError::PostOpen(owner)) => {
            assert_eq!(owner.held_marker, Marker(7));
            owner.failure()
        },
        _ => panic!("expected a refusal that keeps the marker"),
    }
}

#[test]
fn fresh_existing_claim_retains_post_open_failure_then_builds_published_owner() {
    let mut seen = good_claim();
    seen.marker.destination_child_name = "elsewhere";
    assert!(refused(seen) == FreshExistingPostOpenFailure::DestinationMismatch);

    let owner = match claim(Some("notes"), "notes", good_claim()) {
        Ok(owner) => owner,
        Err(_) => panic!("expected a published owner"),
    };
    assert_eq!(owner.root(), "/vaults/notes");
    assert_eq!(owner.held_marker(), &Marker(7));
    assert_expected(owner.audit());
    assert!(!text(owner.redacted()).contains("/vaults/notes"));

    let common_parent = parent(4);
    let input = FreshExistingClaimInput {
        destination_root: "/vaults/notes",
        root_name: Some("notes"),
        common_parent_identity: &common_parent,
        destination_child_name: "notes",
    };
    let opened: Result<(Marker, ClaimSighting<'_>), &'static str> = Err("busy");
    let failed = claim_fresh_existing_candidate(input, opened);
    match failed {
        Err(error) => {
            assert_eq!(error.text(), "fresh existing candidate could not be opened");
            assert!(matches!(error, FreshExistingClaimError::Open("busy")));
        },
        Ok(_) => panic!("expected the failure to open"),
    }
}

/// Each check comes before the next: a claim that fails all later ones is refused by the first.
#[test]
fn fresh_api_surface_and_transition_order_are_frozen() {
    let kind = PublicationMarkerFailureKind::NamespaceConflict;
    let failing = || {
        let mut seen = good_claim();
        seen.marker.domain = "inex.repository-import.v2";
        seen.marker.staging_child_name = "staging";
        seen.marker.destination_child_name = "elsewhere";
        seen.destination_key = ".inex-import-staging-notes";
        seen.marker.common_parent = parent(5);
        seen.role_before = Err(kind);
        seen.audit = Err(TAF);
        seen.role_after = Err(PublicationMarkerFailureKind::AuthorityChanged);
        seen
    };
    let mut seen = failing();
    assert!(refused(failing()) == FreshExistingPostOpenFailure::DomainMismatch);
    seen.marker.domain = DOMAIN;
    let mut next = failing();
    next.marker.domain = DOMAIN;
    assert!(refused(seen) == FreshExistingPostOpenFailure::InvalidStagingName);
    next.marker.staging_child_name = STAGING;
    assert!(refused(next) == FreshExistingPostOpenFailure::DestinationMismatch);
    let later = |fixed: usize| {
        let mut seen = failing();
        seen.marker.domain = DOMAIN;
        seen.marker.staging_child_name = STAGING;
        seen.marker.destination_child_name = "notes";
        if fixed > 0 {
            seen.destination_key = "notes";
        }
        if fixed > 1 {
            seen.marker.common_parent = parent(4);
        }
        if fixed > 2 {
            seen.role_before = Ok(());
        }
        if fixed > 3 {
            seen.audit = Ok(summary());
        }
        seen
    };
    assert!(refused(later(0)) == FreshExistingPostOpenFailure::ReservedDestinationName);
    assert!(refused(later(1)) == FreshExistingPostOpenFailure::CommonParentMismatch);
    assert!(refused(later(2)) == FreshExistingPostOpenFailure::PublishedRole(kind));
    assert!(refused(later(3)) == FreshExistingPostOpenFailure::FreshAudit(TAF));
    assert!(
        refused(later(4)) == FreshExistingPostOpenFailure::PublishedRole(PublicationMarkerFailureKind::AuthorityChanged)
    );
    for root_name in [None, Some("other")] {
        assert!(matches!(
            claim(root_name, "notes", good_claim()),
            Err(FreshExistingClaimError::PostOpen(owner))
                if owner.failure() == FreshExistingPostOpenFailure::DestinationMismatch
        ));
    }
}

#[test]
fn staging_reappearance_after_audit_returns_terminal_held_owner() {
    let mut seen = good_claim();
    seen.role_after = Err(PublicationMarkerFailureKind::NamespaceConflict);
    let failure = refused(seen);
    assert!(failure == FreshExistingPostOpenFailure::PublishedRole(PublicationMarkerFailureKind::NamespaceConflict));
    assert_eq!(failure.text(), "fresh candidate publication role is invalid");
    assert_eq!(failure.label(), "FreshExistingPostOpenFailure::PublishedRole(..)");
}

#[test]
fn summaries_differ_in_the_first_field_that_changed() {
    for mismatch in mismatches() {
        assert_eq!(compare_candidate_summaries(&summary_mismatch(mismatch), &summary()), Err(mismatch));
        assert_eq!(compare_candidate_summaries(&summary(), &summary_mismatch(mismatch)), Err(mismatch));
    }
    let mut all = summary_mismatch(CandidateSummaryMismatch::GitObjectCount);
    all.root_commit_oid[0] ^= 1;
    assert_eq!(compare_candidate_summaries(&all, &summary()), Err(CandidateSummaryMismatch::RootCommit));
    let mut scheme = summary();
    scheme.context.scheme_wire_value = 2;
    assert_eq!(compare_candidate_summaries(&scheme, &summary()), Err(CandidateSummaryMismatch::Context));
}
