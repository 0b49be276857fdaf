//! Filesystem identities as the values that the import compares and seals.

use crate::bytes::bytes_equal;
use crate::errors::CandidateSealError;
use vstd::prelude::*;

verus! {

/// How the identity of a filesystem object is written in a publication.
#[derive(Clone, Copy, Debug, PartialEq, Eq, Structural)]
pub enum PublicationIdentityScheme {
    /// Linux device and inode.
    LinuxDevInodeV1,
    /// Windows 128-bit file id.
    WindowsModernFileId128V1,
    /// Windows volume serial and file index.
    WindowsLegacyFileIndexV1,
}

/// The identity of a directory, as one scheme observed it.
#[derive(Clone, Copy)]
pub struct FilesystemDirectoryIdentity {
    pub scheme: PublicationIdentityScheme,
    pub wire: [u8; 24],
}

/// The identity of a regular file, as one scheme observed it.
#[derive(Clone, Copy)]
pub struct FilesystemFileIdentity {
    pub scheme: PublicationIdentityScheme,
    pub wire: [u8; 24],
}

impl FilesystemDirectoryIdentity {
    /// Both identities name the same directory.
    pub open spec fn same(self, other: FilesystemDirectoryIdentity) -> bool {
        self.scheme == other.scheme && self.wire@ == other.wire@
    }

    /// Whether both identities name the same directory.
    pub fn matches(&self, other: &FilesystemDirectoryIdentity) -> (r: bool)
        ensures
            r == self.same(*other),
    {
        self.scheme == other.scheme && bytes_equal(self.wire.as_slice(), other.wire.as_slice())
    }
}

impl FilesystemFileIdentity {
    /// Both identities name the same file.
    pub open spec fn same(self, other: FilesystemFileIdentity) -> bool {
        self.scheme == other.scheme && self.wire@ == other.wire@
    }

    /// Whether both identities name the same file.
    pub fn matches(&self, other: &FilesystemFileIdentity) -> (r: bool)
        ensures
            r == self.same(*other),
    {
        self.scheme == other.scheme && bytes_equal(self.wire.as_slice(), other.wire.as_slice())
    }
}

/// An identity bound to the scheme of one seal.
#[derive(Clone, Copy)]
pub struct SealIdentity {
    pub scheme: PublicationIdentityScheme,
    pub bytes: [u8; 24],
}

impl SealIdentity {
    /// Bind a directory identity to `scheme`.
    pub fn from_directory(
        identity: &FilesystemDirectoryIdentity,
        scheme: PublicationIdentityScheme,
    ) -> (r: Result<SealIdentity, CandidateSealError>)
        ensures
            r is Ok <==> identity.scheme == scheme,
            r matches Ok(sealed) ==> sealed.scheme == scheme && sealed.bytes == identity.wire,
            r matches Err(error) ==> error == CandidateSealError::InvalidContext,
    {
        if identity.scheme == scheme {
            Ok(SealIdentity { scheme, bytes: identity.wire })
        } else {
            Err(CandidateSealError::InvalidContext)
        }
    }

    /// Bind a file identity to `scheme`.
    pub fn from_file(identity: &FilesystemFileIdentity, scheme: PublicationIdentityScheme) -> (r:
        Result<SealIdentity, CandidateSealError>)
        ensures
            r is Ok <==> identity.scheme == scheme,
            r matches Ok(sealed) ==> sealed.scheme == scheme && sealed.bytes == identity.wire,
            r matches Err(error) ==> error == CandidateSealError::InvalidContext,
    {
        if identity.scheme == scheme {
            Ok(SealIdentity { scheme, bytes: identity.wire })
        } else {
            Err(CandidateSealError::InvalidContext)
        }
    }
}

/// Scheme-bound directory identity accepted by directory record roles only.
#[derive(Clone, Copy)]
pub struct CandidateDirectoryIdentity(pub SealIdentity);

/// Scheme-bound regular-file identity accepted by file record roles only.
#[derive(Clone, Copy)]
pub struct CandidateFileIdentity(pub SealIdentity);

impl CandidateDirectoryIdentity {
    /// Bind an observed directory to `scheme`.
    pub fn from_observed(
        identity: &FilesystemDirectoryIdentity,
        scheme: PublicationIdentityScheme,
    ) -> (r: Result<CandidateDirectoryIdentity, CandidateSealError>)
        ensures
            r is Ok <==> identity.scheme == scheme,
            r matches Ok(bound) ==> bound.0.scheme == scheme && bound.0.bytes == identity.wire,
            r matches Err(error) ==> error == CandidateSealError::InvalidContext,
    {
        match SealIdentity::from_directory(identity, scheme) {
            Ok(sealed) => Ok(CandidateDirectoryIdentity(sealed)),
            Err(error) => Err(error),
        }
    }
}

impl CandidateFileIdentity {
    /// Bind an observed file to `scheme`.
    pub fn from_observed(
        identity: &FilesystemFileIdentity,
        scheme: PublicationIdentityScheme,
    ) -> (r: Result<CandidateFileIdentity, CandidateSealError>)
        ensures
            r is Ok <==> identity.scheme == scheme,
            r matches Ok(bound) ==> bound.0.scheme == scheme && bound.0.bytes == identity.wire,
            r matches Err(error) ==> error == CandidateSealError::InvalidContext,
    {
        match SealIdentity::from_file(identity, scheme) {
            Ok(sealed) => Ok(CandidateFileIdentity(sealed)),
            Err(error) => Err(error),
        }
    }
}

} // verus!
