//! The role-typed records of a repository candidate seal, and the bytes that each stands for.

use crate::identity::{CandidateDirectoryIdentity, CandidateFileIdentity, PublicationIdentityScheme, SealIdentity};
use vstd::prelude::*;
use vstd::string::*;
use vstd::utf8::encode_utf8;

verus! {

pub const VERSION: u16 = 1;

/// The domain that a seal stream and a publication marker are bound to.
pub const DOMAIN: &'static str = "inex.repository-import.v1";

pub const MAX_PHYSICAL_RECORDS: usize = 1_000_000;

pub const MAX_TRACKED_RECORDS: usize = 100_003;

pub const MAX_OBJECT_RECORDS: usize = 1_000_000;

pub const MAX_GIT_CONTROL_RECORDS: usize = 1_000_000;

pub const MAX_PATH_BYTES: usize = 1_024;

/// Longest body of a file or an object, in bytes.
pub const MAX_BODY_BYTES: u64 = 71_303_168;

/// The Git mode of a regular file.
pub const REGULAR_MODE: u32 = 0o100_644;

/// Exact prefix inputs supplied by the generic publication claim.
#[derive(Clone, Copy)]
pub struct CandidateSealContext {
    pub scheme: PublicationIdentityScheme,
    /// The number that stands for the scheme in the stream.
    pub scheme_wire_value: u16,
    pub publication_id: [u8; 16],
}

#[derive(Clone, Copy)]
pub enum PhysicalRecordKind {
    Directory(CandidateDirectoryIdentity),
    File { identity: CandidateFileIdentity, size: u64, sha256: [u8; 32] },
}

#[derive(Clone, Copy)]
pub struct PhysicalRecord<'a> {
    pub path: &'a str,
    pub kind: PhysicalRecordKind,
}

#[derive(Clone, Copy, Debug, PartialEq, Eq, Structural)]
pub enum WorktreeClass {
    ManagedMetadata,
    MarkdownEnvelope,
    AssetEnvelope,
}

#[derive(Clone, Copy)]
pub struct WorktreeRecord<'a> {
    pub path: &'a str,
    pub class: WorktreeClass,
    pub identity: CandidateFileIdentity,
    pub size: u64,
    pub sha256: [u8; 32],
    pub blob_oid: [u8; 20],
}

#[derive(Clone, Copy)]
pub struct HeadRefsRecord {
    pub commit_oid: [u8; 20],
}

#[derive(Clone, Copy)]
pub struct IndexRecord<'a> {
    pub path: &'a str,
    pub blob_oid: [u8; 20],
}

#[derive(Clone, Copy)]
pub struct TreeRecord<'a> {
    pub path: &'a str,
    pub tree_oid: [u8; 20],
    pub raw_size: u64,
    pub raw_sha256: [u8; 32],
}

#[derive(Clone, Copy)]
pub struct RootCommitRecord {
    pub commit_oid: [u8; 20],
    pub tree_oid: [u8; 20],
    pub raw_size: u64,
    pub raw_sha256: [u8; 32],
}

#[derive(Clone, Copy, Debug, PartialEq, Eq, Structural)]
pub enum ObjectKind {
    Blob,
    Tree,
    Commit,
}

#[derive(Clone, Copy)]
pub struct ObjectRecord {
    pub oid: [u8; 20],
    pub kind: ObjectKind,
    pub raw_size: u64,
    pub raw_sha256: [u8; 32],
}

#[derive(Clone, Copy, Debug, PartialEq, Eq, Structural)]
pub enum GitControlRole {
    Head,
    Config,
    Index,
    MainRef,
    LooseObject,
    StructuralDirectory,
    EmptyHooks,
}

#[derive(Clone, Copy)]
pub enum GitControlRecordKind {
    Directory(CandidateDirectoryIdentity),
    File { identity: CandidateFileIdentity, size: u64, sha256: [u8; 32] },
}

#[derive(Clone, Copy)]
pub struct GitControlRecord<'a> {
    pub path: &'a str,
    pub role: GitControlRole,
    pub kind: GitControlRecordKind,
}

#[derive(Clone, Copy)]
pub struct PrivateBaselineRecord {
    pub identity: CandidateFileIdentity,
}

/// Borrowed, already audited role records for all nine v1 sections.
#[derive(Clone, Copy)]
pub struct CandidateSealManifest<'a> {
    pub physical: &'a [PhysicalRecord<'a>],
    pub worktree: &'a [WorktreeRecord<'a>],
    pub head_refs: HeadRefsRecord,
    pub index: &'a [IndexRecord<'a>],
    pub trees: &'a [TreeRecord<'a>],
    pub root_commit: RootCommitRecord,
    pub objects: &'a [ObjectRecord],
    pub git_control: &'a [GitControlRecord<'a>],
    pub private_baseline: PrivateBaselineRecord,
}

/// Two bytes, most significant first.
pub open spec fn be16(value: u16) -> Seq<u8> {
    seq![(value / 0x100) as u8, (value % 0x100) as u8]
}

/// Four bytes, most significant first.
pub open spec fn be32(value: u32) -> Seq<u8> {
    seq![
        (value / 0x100_0000) as u8,
        (value / 0x1_0000 % 0x100) as u8,
        (value / 0x100 % 0x100) as u8,
        (value % 0x100) as u8,
    ]
}

/// Eight bytes, most significant first.
pub open spec fn be64(value: u64) -> Seq<u8> {
    be32((value / 0x1_0000_0000) as u32) + be32((value % 0x1_0000_0000) as u32)
}

/// A payload behind its length.
pub open spec fn framed(payload: Seq<u8>) -> Seq<u8> {
    be32(payload.len() as u32) + payload
}

/// A path behind its length.
pub open spec fn path_bytes(path: Seq<char>) -> Seq<u8> {
    be16(encode_utf8(path).len() as u16) + encode_utf8(path)
}

/// A section: its tag, its record count, its records.
pub open spec fn section_bytes(tag: u8, count: nat, body: Seq<u8>) -> Seq<u8> {
    seq![tag] + be32(count as u32) + body
}

/// The tag, identity, size and digest of a directory.
pub open spec fn directory_bytes(identity: SealIdentity) -> Seq<u8> {
    seq![1u8] + identity.bytes@ + be64(0) + Seq::new(32, |i: int| 0u8)
}

/// The tag, identity, size and digest of a file.
pub open spec fn file_bytes(identity: SealIdentity, size: u64, sha256: Seq<u8>) -> Seq<u8> {
    seq![2u8] + identity.bytes@ + be64(size) + sha256
}

impl<'a> PhysicalRecord<'a> {
    /// The identity in the record.
    pub open spec fn seal_identity(self) -> SealIdentity {
        match self.kind {
            PhysicalRecordKind::Directory(identity) => identity.0,
            PhysicalRecordKind::File { identity, .. } => identity.0,
        }
    }

    /// The framed bytes of the record.
    pub open spec fn encoded(self) -> Seq<u8> {
        framed(
            path_bytes(self.path@) + match self.kind {
                PhysicalRecordKind::Directory(identity) => directory_bytes(identity.0),
                PhysicalRecordKind::File { identity, size, sha256 } => file_bytes(identity.0, size, sha256@),
            },
        )
    }
}

impl WorktreeClass {
    /// The number that stands for the class in the stream.
    pub open spec fn tag(self) -> u8 {
        match self {
            WorktreeClass::ManagedMetadata => 1,
            WorktreeClass::MarkdownEnvelope => 2,
            WorktreeClass::AssetEnvelope => 3,
        }
    }
}

impl ObjectKind {
    /// The number that stands for the kind in the stream.
    pub open spec fn tag(self) -> u8 {
        match self {
            ObjectKind::Blob => 1,
            ObjectKind::Tree => 2,
            ObjectKind::Commit => 3,
        }
    }
}

impl GitControlRole {
    /// The number that stands for the role in the stream.
    pub open spec fn tag(self) -> u8 {
        match self {
            GitControlRole::Head => 1,
            GitControlRole::Config => 2,
            GitControlRole::Index => 3,
            GitControlRole::MainRef => 4,
            GitControlRole::LooseObject => 5,
            GitControlRole::StructuralDirectory => 6,
            GitControlRole::EmptyHooks => 7,
        }
    }
}

impl<'a> WorktreeRecord<'a> {
    /// The framed bytes of the record.
    pub open spec fn encoded(self) -> Seq<u8> {
        framed(
            path_bytes(self.path@) + (seq![self.class.tag()] + be32(REGULAR_MODE) + self.identity.0.bytes@ + be64(
                self.size,
            ) + self.sha256@ + self.blob_oid@),
        )
    }
}

impl HeadRefsRecord {
    /// The framed bytes of the record: a symbolic `HEAD` on the one branch, that branch with
    /// its commit, and no other ref.
    pub open spec fn encoded(self) -> Seq<u8> {
        framed(
            seq![1u8] + path_bytes("refs/heads/main"@) + be32(1) + path_bytes("refs/heads/main"@) + self.commit_oid@
                + be32(0),
        )
    }
}

impl<'a> IndexRecord<'a> {
    /// The framed bytes of the record: path, mode, stage, flags and blob.
    pub open spec fn encoded(self) -> Seq<u8> {
        framed(path_bytes(self.path@) + (be32(REGULAR_MODE) + seq![0u8] + be32(0) + self.blob_oid@))
    }
}

impl<'a> TreeRecord<'a> {
    /// The framed bytes of the record.
    pub open spec fn encoded(self) -> Seq<u8> {
        framed(path_bytes(self.path@) + (self.tree_oid@ + be64(self.raw_size) + self.raw_sha256@))
    }
}

impl RootCommitRecord {
    /// The framed bytes of the record: commit, tree, no parents, size and digest.
    pub open spec fn encoded(self) -> Seq<u8> {
        framed(self.commit_oid@ + self.tree_oid@ + be32(0) + be64(self.raw_size) + self.raw_sha256@)
    }
}

impl ObjectRecord {
    /// The framed bytes of the record.
    pub open spec fn encoded(self) -> Seq<u8> {
        framed(self.oid@ + seq![self.kind.tag()] + be64(self.raw_size) + self.raw_sha256@)
    }

    /// Both records say the same.
    pub open spec fn same(self, other: ObjectRecord) -> bool {
        self.oid@ == other.oid@ && self.kind == other.kind && self.raw_size == other.raw_size && self.raw_sha256@
            == other.raw_sha256@
    }
}

impl<'a> GitControlRecord<'a> {
    /// The identity in the record.
    pub open spec fn seal_identity(self) -> SealIdentity {
        match self.kind {
            GitControlRecordKind::Directory(identity) => identity.0,
            GitControlRecordKind::File { identity, .. } => identity.0,
        }
    }

    /// The framed bytes of the record.
    pub open spec fn encoded(self) -> Seq<u8> {
        framed(
            path_bytes(self.path@) + (seq![self.role.tag()] + match self.kind {
                GitControlRecordKind::Directory(identity) => directory_bytes(identity.0),
                GitControlRecordKind::File { identity, size, sha256 } => file_bytes(identity.0, size, sha256@),
            }),
        )
    }
}

/// The digest of an empty body.
pub open spec fn empty_sha256() -> Seq<u8> {
    seq![
        0xe3u8, 0xb0u8, 0xc4u8, 0x42u8, 0x98u8, 0xfcu8, 0x1cu8, 0x14u8, 0x9au8, 0xfbu8, 0xf4u8, 0xc8u8, 0x99u8, 0x6fu8,
        0xb9u8, 0x24u8, 0x27u8, 0xaeu8, 0x41u8, 0xe4u8, 0x64u8, 0x9bu8, 0x93u8, 0x4cu8, 0xa4u8, 0x95u8, 0x99u8, 0x1bu8,
        0x78u8, 0x52u8, 0xb8u8, 0x55u8,
    ]
}

/// The digest of an empty body.
pub fn empty_body_sha256() -> (digest: [u8; 32])
    ensures
        digest@ == empty_sha256(),
{
    let digest: [u8; 32] = [
        0xe3, 0xb0, 0xc4, 0x42, 0x98, 0xfc, 0x1c, 0x14, 0x9a, 0xfb, 0xf4, 0xc8, 0x99, 0x6f, 0xb9, 0x24, 0x27, 0xae, 0x41,
        0xe4, 0x64, 0x9b, 0x93, 0x4c, 0xa4, 0x95, 0x99, 0x1b, 0x78, 0x52, 0xb8, 0x55,
    ];
    assert(digest@ =~= empty_sha256());
    digest
}

impl PrivateBaselineRecord {
    /// The framed bytes of the record: the empty mutation lock.
    pub open spec fn encoded(self) -> Seq<u8> {
        framed(path_bytes("mutation.lock"@) + file_bytes(self.identity.0, 0, empty_sha256()))
    }
}

/// The bytes before the first section: magic, version, scheme, domain and publication id.
pub open spec fn prefix_bytes(context: CandidateSealContext) -> Seq<u8> {
    encode_utf8("INEXCS1\0"@) + be16(VERSION) + be16(context.scheme_wire_value) + path_bytes(DOMAIN@)
        + context.publication_id@
}

/// The bytes behind the last section.
pub open spec fn terminator_bytes() -> Seq<u8> {
    seq![0xffu8, 0u8, 0u8, 0u8, 0u8]
}

} // verus!
