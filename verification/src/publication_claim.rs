//! The names that a publication may use, and the claim on a candidate that is already published.
//!
//! A claim is given only the place of the destination. Everything else is read from the marker
//! that lies there while its lock is held. Once the marker is open, every refusal keeps it.

use crate::bytes::starts_with;
use crate::errors::{IoErrorKind, RepositoryImportError};
use crate::fresh_audit::{FreshMarkerCandidateAudit, PublicationMarker};
use crate::hex::{all_lower_hex, is_all_lower_hex};
use crate::identity::FilesystemDirectoryIdentity;
use crate::seal_records::DOMAIN;
use crate::text::text_equal;
use vstd::prelude::*;
use vstd::slice::slice_subrange;
use vstd::string::*;
use vstd::utf8::encode_utf8;

verus! {

/// The start of the name of every staging directory of an import.
pub const IMPORT_STAGING_PREFIX: &'static str = ".inex-import-staging-";

/// Why a name cannot be used.
#[derive(Clone, Copy, Debug, PartialEq, Eq, Structural)]
pub enum CandidatePublicationNameError {
    InvalidStagingName,
    ReservedDestinationName,
}

/// A name is the staging prefix and thirty-two lowercase hexadecimal digits.
pub open spec fn staging_name(name: Seq<u8>) -> bool {
    let prefix = encode_utf8(IMPORT_STAGING_PREFIX@);
    &&& prefix.is_prefix_of(name)
    &&& name.len() == prefix.len() + 32
    &&& all_lower_hex(name.skip(prefix.len() as int))
}

/// Require the name of a staging directory.
pub fn validate_staging_child_name(name: &str) -> (r: Result<(), CandidatePublicationNameError>)
    ensures
        r == if staging_name(name.spec_bytes()) {
            Ok::<(), CandidatePublicationNameError>(())
        } else {
            Err(CandidatePublicationNameError::InvalidStagingName)
        },
{
    let bytes = name.as_bytes();
    let prefix = IMPORT_STAGING_PREFIX.as_bytes();
    if !starts_with(bytes, prefix) || bytes.len() - prefix.len() != 32 {
        return Err(CandidatePublicationNameError::InvalidStagingName);
    }
    let suffix = slice_subrange(bytes, prefix.len(), bytes.len());
    assert(suffix@ =~= bytes@.skip(prefix@.len() as int));
    if !is_all_lower_hex(suffix) {
        return Err(CandidatePublicationNameError::InvalidStagingName);
    }
    Ok(())
}

/// The name of a staging root, from the last component of its path where that is text.
pub fn validated_staging_child_name_from_root(file_name: Option<&str>) -> (r: Result<String, CandidatePublicationNameError>)
    ensures
        match file_name {
            Some(name) if staging_name(name.spec_bytes()) => r matches Ok(kept) && kept@ == name@,
            _ => r matches Err(error) && error == CandidatePublicationNameError::InvalidStagingName,
        },
{
    match file_name {
        None => Err(CandidatePublicationNameError::InvalidStagingName),
        Some(name) => {
            validate_staging_child_name(name)?;
            Ok(name.to_string())
        },
    }
}

/// Refuse a destination whose portable fold key starts with that of the staging prefix.
pub fn require_unreserved_destination_child_name(destination_key: &str, reserved_key: &str) -> (r: Result<
    (),
    CandidatePublicationNameError,
>)
    ensures
        r == if reserved_key.spec_bytes().is_prefix_of(destination_key.spec_bytes()) {
            Err(CandidatePublicationNameError::ReservedDestinationName)
        } else {
            Ok::<(), CandidatePublicationNameError>(())
        },
{
    if starts_with(destination_key.as_bytes(), reserved_key.as_bytes()) {
        Err(CandidatePublicationNameError::ReservedDestinationName)
    } else {
        Ok(())
    }
}

/// One failure of a marker that is held, without its source.
#[derive(Clone, Copy, Debug, PartialEq, Eq, Structural)]
pub enum PublicationMarkerFailureKind {
    InvalidInput,
    NamespaceConflict,
    AuthorityChanged,
    Io(IoErrorKind),
}

impl PublicationMarkerFailureKind {
    /// The failure in words.
    pub open spec fn message(self) -> Seq<char> {
        match self {
            PublicationMarkerFailureKind::InvalidInput => "publication marker input is invalid"@,
            PublicationMarkerFailureKind::NamespaceConflict => "publication marker namespace conflicts"@,
            PublicationMarkerFailureKind::AuthorityChanged => "publication marker authority changed"@,
            PublicationMarkerFailureKind::Io(_) => "publication marker I/O failed"@,
        }
    }

    /// The failure in words.
    pub fn text(&self) -> (text: &'static str)
        ensures
            text@ == self.message(),
    {
        match self {
            PublicationMarkerFailureKind::InvalidInput => "publication marker input is invalid",
            PublicationMarkerFailureKind::NamespaceConflict => "publication marker namespace conflicts",
            PublicationMarkerFailureKind::AuthorityChanged => "publication marker authority changed",
            PublicationMarkerFailureKind::Io(_) => "publication marker I/O failed",
        }
    }
}

/// Where a candidate that is already published should lie. There is nothing in it of the source,
/// of authentication, of the marker or of the summary to expect.
#[derive(Clone, Copy)]
pub struct FreshExistingClaimInput<'a> {
    pub destination_root: &'a str,
    /// The last component of the root, where that is text.
    pub root_name: Option<&'a str>,
    pub common_parent_identity: &'a FilesystemDirectoryIdentity,
    pub destination_child_name: &'a str,
}

/// Why a claim was refused after its marker was open.
#[derive(Clone, Copy, PartialEq, Eq, Structural)]
pub enum FreshExistingPostOpenFailure {
    DomainMismatch,
    InvalidStagingName,
    DestinationMismatch,
    ReservedDestinationName,
    CommonParentMismatch,
    PublishedRole(PublicationMarkerFailureKind),
    FreshAudit(RepositoryImportError),
}

impl FreshExistingPostOpenFailure {
    /// The failure in words.
    pub open spec fn message(self) -> Seq<char> {
        match self {
            FreshExistingPostOpenFailure::DomainMismatch => "fresh candidate marker domain is invalid"@,
            FreshExistingPostOpenFailure::InvalidStagingName => "fresh candidate staging name is invalid"@,
            FreshExistingPostOpenFailure::DestinationMismatch => "fresh candidate destination does not match"@,
            FreshExistingPostOpenFailure::ReservedDestinationName => "fresh candidate destination is reserved"@,
            FreshExistingPostOpenFailure::CommonParentMismatch => "fresh candidate common parent does not match"@,
            FreshExistingPostOpenFailure::PublishedRole(_) => "fresh candidate publication role is invalid"@,
            FreshExistingPostOpenFailure::FreshAudit(_) => "fresh candidate audit failed"@,
        }
    }

    /// The failure in words.
    pub fn text(&self) -> (text: &'static str)
        ensures
            text@ == self.message(),
    {
        match self {
            FreshExistingPostOpenFailure::DomainMismatch => "fresh candidate marker domain is invalid",
            FreshExistingPostOpenFailure::InvalidStagingName => "fresh candidate staging name is invalid",
            FreshExistingPostOpenFailure::DestinationMismatch => "fresh candidate destination does not match",
            FreshExistingPostOpenFailure::ReservedDestinationName => "fresh candidate destination is reserved",
            FreshExistingPostOpenFailure::CommonParentMismatch => "fresh candidate common parent does not match",
            FreshExistingPostOpenFailure::PublishedRole(_) => "fresh candidate publication role is invalid",
            FreshExistingPostOpenFailure::FreshAudit(_) => "fresh candidate audit failed",
        }
    }

    /// The failure in diagnostics, where its cause does not appear.
    pub open spec fn label_text(self) -> Seq<char> {
        match self {
            FreshExistingPostOpenFailure::DomainMismatch => "FreshExistingPostOpenFailure::DomainMismatch"@,
            FreshExistingPostOpenFailure::InvalidStagingName => "FreshExistingPostOpenFailure::InvalidStagingName"@,
            FreshExistingPostOpenFailure::DestinationMismatch => "FreshExistingPostOpenFailure::DestinationMismatch"@,
            FreshExistingPostOpenFailure::ReservedDestinationName => "FreshExistingPostOpenFailure::ReservedDestinationName"@,
            FreshExistingPostOpenFailure::CommonParentMismatch => "FreshExistingPostOpenFailure::CommonParentMismatch"@,
            FreshExistingPostOpenFailure::PublishedRole(_) => "FreshExistingPostOpenFailure::PublishedRole(..)"@,
            FreshExistingPostOpenFailure::FreshAudit(_) => "FreshExistingPostOpenFailure::FreshAudit(..)"@,
        }
    }

    /// The failure in diagnostics, where its cause does not appear.
    pub fn label(&self) -> (text: &'static str)
        ensures
            text@ == self.label_text(),
    {
        match self {
            FreshExistingPostOpenFailure::DomainMismatch => "FreshExistingPostOpenFailure::DomainMismatch",
            FreshExistingPostOpenFailure::InvalidStagingName => "FreshExistingPostOpenFailure::InvalidStagingName",
            FreshExistingPostOpenFailure::DestinationMismatch => "FreshExistingPostOpenFailure::DestinationMismatch",
            FreshExistingPostOpenFailure::ReservedDestinationName => "FreshExistingPostOpenFailure::ReservedDestinationName",
            FreshExistingPostOpenFailure::CommonParentMismatch => "FreshExistingPostOpenFailure::CommonParentMismatch",
            FreshExistingPostOpenFailure::PublishedRole(_) => "FreshExistingPostOpenFailure::PublishedRole(..)",
            FreshExistingPostOpenFailure::FreshAudit(_) => "FreshExistingPostOpenFailure::FreshAudit(..)",
        }
    }
}

/// The end of a claim that was refused after its marker was open. The marker, and the lock that
/// it owns, is held; there is no way forward from here.
#[must_use]
pub struct FailedHeldFreshExistingClaim<M> {
    pub failure: FreshExistingPostOpenFailure,
    pub held_marker: M,
}

impl<M> FailedHeldFreshExistingClaim<M> {
    /// Why the claim was refused.
    pub fn failure(&self) -> (failure: FreshExistingPostOpenFailure)
        ensures
            failure == self.failure,
    {
        self.failure
    }
}

/// Why there is no claim: the marker did not open, or the claim was refused after that.
pub enum FreshExistingClaimError<M, O> {
    Open(O),
    PostOpen(FailedHeldFreshExistingClaim<M>),
}

impl<M, O> FreshExistingClaimError<M, O> {
    /// The error in words.
    pub fn text(&self) -> (text: &'static str)
        ensures
            text@ == match self {
                FreshExistingClaimError::Open(_) => "fresh existing candidate could not be opened"@,
                FreshExistingClaimError::PostOpen(_) => "fresh existing candidate failed after opening"@,
            },
    {
        match self {
            FreshExistingClaimError::Open(_) => "fresh existing candidate could not be opened",
            FreshExistingClaimError::PostOpen(_) => "fresh existing candidate failed after opening",
        }
    }
}

/// A destination that exists, with its marker held. It is not copied.
#[must_use]
pub struct PublishedWithMarker<M> {
    pub root: String,
    pub audit: FreshMarkerCandidateAudit,
    pub held_marker: M,
}

/// What was seen after a marker opened, in the order in which it was seen.
pub struct ClaimSighting<'a> {
    pub marker: PublicationMarker<'a>,
    /// The portable fold key of the destination that the marker names.
    pub destination_key: &'a str,
    /// The portable fold key of the staging prefix.
    pub reserved_key: &'a str,
    /// The marker has the role of a published one, before the audit.
    pub role_before: Result<(), PublicationMarkerFailureKind>,
    pub audit: Result<FreshMarkerCandidateAudit, RepositoryImportError>,
    /// The marker has the role of a published one, after the audit.
    pub role_after: Result<(), PublicationMarkerFailureKind>,
}

/// Why a claim is refused after its marker opened, if it is.
pub open spec fn claim_failure(input: FreshExistingClaimInput, seen: ClaimSighting) -> Option<FreshExistingPostOpenFailure> {
    if seen.marker.domain@ != DOMAIN@ {
        Some(FreshExistingPostOpenFailure::DomainMismatch)
    } else if !staging_name(seen.marker.staging_child_name.spec_bytes()) {
        Some(FreshExistingPostOpenFailure::InvalidStagingName)
    } else if !(input.root_name matches Some(name) && name@ == input.destination_child_name@)
        || seen.marker.destination_child_name@ != input.destination_child_name@ {
        Some(FreshExistingPostOpenFailure::DestinationMismatch)
    } else if seen.reserved_key.spec_bytes().is_prefix_of(seen.destination_key.spec_bytes()) {
        Some(FreshExistingPostOpenFailure::ReservedDestinationName)
    } else if !seen.marker.common_parent.same(*input.common_parent_identity) {
        Some(FreshExistingPostOpenFailure::CommonParentMismatch)
    } else if seen.role_before is Err {
        Some(FreshExistingPostOpenFailure::PublishedRole(seen.role_before->Err_0))
    } else if seen.audit is Err {
        Some(FreshExistingPostOpenFailure::FreshAudit(seen.audit->Err_0))
    } else if seen.role_after is Err {
        Some(FreshExistingPostOpenFailure::PublishedRole(seen.role_after->Err_0))
    } else {
        None
    }
}

/// The first check that a claim fails, if any.
fn judge_claim(input: &FreshExistingClaimInput<'_>, seen: &ClaimSighting<'_>) -> (r: Option<FreshExistingPostOpenFailure>)
    ensures
        r == claim_failure(*input, *seen),
{
    if !text_equal(seen.marker.domain, DOMAIN) {
        return Some(FreshExistingPostOpenFailure::DomainMismatch);
    }
    match validate_staging_child_name(seen.marker.staging_child_name) {
        Ok(()) => {},
        Err(_) => {
            return Some(FreshExistingPostOpenFailure::InvalidStagingName);
        },
    }
    let root_name_matches = match input.root_name {
        Some(name) => text_equal(name, input.destination_child_name),
        None => false,
    };
    if !root_name_matches || !text_equal(seen.marker.destination_child_name, input.destination_child_name) {
        return Some(FreshExistingPostOpenFailure::DestinationMismatch);
    }
    match require_unreserved_destination_child_name(seen.destination_key, seen.reserved_key) {
        Ok(()) => {},
        Err(_) => {
            return Some(FreshExistingPostOpenFailure::ReservedDestinationName);
        },
    }
    if !seen.marker.common_parent.matches(input.common_parent_identity) {
        return Some(FreshExistingPostOpenFailure::CommonParentMismatch);
    }
    match seen.role_before {
        Ok(()) => {},
        Err(kind) => {
            return Some(FreshExistingPostOpenFailure::PublishedRole(kind));
        },
    }
    match &seen.audit {
        Ok(_) => {},
        Err(error) => {
            return Some(FreshExistingPostOpenFailure::FreshAudit(*error));
        },
    }
    match seen.role_after {
        Ok(()) => {},
        Err(kind) => {
            return Some(FreshExistingPostOpenFailure::PublishedRole(kind));
        },
    }
    None
}

/// Claim a candidate that is already published, from the marker that opened at its destination.
pub fn claim_fresh_existing_candidate<M, O>(input: FreshExistingClaimInput<'_>, opened: Result<(M, ClaimSighting<'_>), O>) -> (r:
    Result<PublishedWithMarker<M>, FreshExistingClaimError<M, O>>)
    ensures
        match opened {
            Err(error) => r == Err::<PublishedWithMarker<M>, FreshExistingClaimError<M, O>>(FreshExistingClaimError::Open(error)),
            Ok((held_marker, seen)) => match claim_failure(input, seen) {
                Some(failure) => r == Err::<PublishedWithMarker<M>, FreshExistingClaimError<M, O>>(
                    FreshExistingClaimError::PostOpen((FailedHeldFreshExistingClaim { failure, held_marker })),
                ),
                None => r matches Ok(published) && published.root@ == input.destination_root@ && published.audit
                    == seen.audit->Ok_0 && published.held_marker == held_marker,
            },
        },
{
    let (held_marker, seen) = match opened {
        Ok(opened) => opened,
        Err(error) => {
            return Err(FreshExistingClaimError::Open(error));
        },
    };
    match judge_claim(&input, &seen) {
        Some(failure) => {
            return Err(FreshExistingClaimError::PostOpen(FailedHeldFreshExistingClaim { failure, held_marker }));
        },
        None => {},
    }
    match seen.audit {
        Ok(audit) => Ok(PublishedWithMarker { root: input.destination_root.to_string(), audit, held_marker }),
        Err(error) => Err(
            FreshExistingClaimError::PostOpen(
                FailedHeldFreshExistingClaim { failure: FreshExistingPostOpenFailure::FreshAudit(error), held_marker },
            ),
        ),
    }
}

} // verus!
