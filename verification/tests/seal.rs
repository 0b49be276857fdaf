use inex_git::errors::CandidateSealError;
use inex_git::identity::{
    CandidateDirectoryIdentity, CandidateFileIdentity, FilesystemDirectoryIdentity, FilesystemFileIdentity,
    PublicationIdentityScheme, SealIdentity,
};
use inex_git::seal::{encode_candidate_seal_v1, encode_stream, VecSink};
use inex_git::seal_records::{
    CandidateSealContext, CandidateSealManifest, GitControlRecord, GitControlRecordKind, GitControlRole, HeadRefsRecord,
    IndexRecord, ObjectKind, ObjectRecord, PhysicalRecord, PhysicalRecordKind, PrivateBaselineRecord, RootCommitRecord,
    TreeRecord, WorktreeClass, WorktreeRecord, DOMAIN, MAX_BODY_BYTES,
};
use sha2::{Digest, Sha256};

const TERMINATOR: [u8; 5] = [0xff, 0, 0, 0, 0];
const SCHEME: PublicationIdentityScheme = PublicationIdentityScheme::LinuxDevInodeV1;
const DIRECTORY_WIRE: [u8; 24] = [
    0x01, 0x02, 0x03, 0x04, 0x05, 0x06, 0x07, 0x11, 0x11, 0x17, 0x16, 0x15, 0x14, 0x13, 0x12, 0x11, 0x00, 0x00, 0x00, 0x00,
    0x00, 0x00, 0x00, 0x01,
];
const BLOB_A: [u8; 20] = [0x10; 20];
const BLOB_B: [u8; 20] = [0x20; 20];
const BLOB_C: [u8; 20] = [0x30; 20];
const TREE: [u8; 20] = [0x40; 20];
const COMMIT: [u8; 20] = [0x50; 20];

fn synthetic(scheme: PublicationIdentityScheme, discriminator: u8, seed: u8) -> SealIdentity {
    let bytes = match scheme {
        PublicationIdentityScheme::LinuxDevInodeV1 => [
            1, 2, 3, 4, 5, 6, 7, seed, seed, 0x17, 0x16, 0x15, 0x14, 0x13, 0x12, 0x11, 0, 0, 0, 0, 0, 0, 0, discriminator,
        ],
        PublicationIdentityScheme::WindowsModernFileId128V1 => [
            1,
            2,
            3,
            4,
            5,
            6,
            7,
            seed,
            seed.wrapping_add(1),
            0,
            0,
            0,
            0,
            0,
            0,
            0,
            0,
            0,
            0,
            0,
            0,
            0,
            0,
            seed.wrapping_add(2),
        ],
        PublicationIdentityScheme::WindowsLegacyFileIndexV1 => [
            0, 0, 0, 0, 1, 2, 3, seed, seed, 0x17, 0x16, 0x15, 0x14, 0x13, 0x12, 0x11, 0, 0, 0, 0, 0, 0, 0, discriminator,
        ],
    };
    SealIdentity { scheme, bytes }
}

fn file() -> CandidateFileIdentity {
    CandidateFileIdentity(synthetic(SCHEME, 2, 0x22))
}

fn directory() -> CandidateDirectoryIdentity {
    CandidateDirectoryIdentity(synthetic(SCHEME, 1, 0x11))
}

fn object(oid: [u8; 20], kind: ObjectKind, raw_size: u64, digest: u8) -> ObjectRecord {
    ObjectRecord { oid, kind, raw_size, raw_sha256: [digest; 32] }
}

fn worktree() -> Vec<WorktreeRecord<'static>> {
    [(".gitattributes", 1, 0xa1, BLOB_A), (".gitignore", 2, 0xa2, BLOB_B), ("vault.json", 3, 0xa3, BLOB_C)]
        .iter()
        .map(|(path, size, digest, blob_oid)| WorktreeRecord {
            path,
            class: WorktreeClass::ManagedMetadata,
            identity: file(),
            size: *size,
            sha256: [*digest; 32],
            blob_oid: *blob_oid,
        })
        .collect()
}

fn objects() -> Vec<ObjectRecord> {
    vec![
        object(BLOB_A, ObjectKind::Blob, 1, 0xa1),
        object(BLOB_B, ObjectKind::Blob, 2, 0xa2),
        object(BLOB_C, ObjectKind::Blob, 3, 0xa3),
        object(TREE, ObjectKind::Tree, 7, 0xb1),
        object(COMMIT, ObjectKind::Commit, 11, 0xc1),
    ]
}

fn fixture() -> CandidateSealManifest<'static> {
    CandidateSealManifest {
        physical: Box::leak(Box::new([PhysicalRecord { path: "", kind: PhysicalRecordKind::Directory(directory()) }])),
        worktree: Box::leak(worktree().into_boxed_slice()),
        head_refs: HeadRefsRecord { commit_oid: COMMIT },
        index: Box::leak(Box::new([
            IndexRecord { path: ".gitattributes", blob_oid: BLOB_A },
            IndexRecord { path: ".gitignore", blob_oid: BLOB_B },
            IndexRecord { path: "vault.json", blob_oid: BLOB_C },
        ])),
        trees: Box::leak(Box::new([TreeRecord { path: "", tree_oid: TREE, raw_size: 7, raw_sha256: [0xb1; 32] }])),
        root_commit: RootCommitRecord { commit_oid: COMMIT, tree_oid: TREE, raw_size: 11, raw_sha256: [0xc1; 32] },
        objects: Box::leak(objects().into_boxed_slice()),
        git_control: Box::leak(Box::new([
            GitControlRecord {
                path: "HEAD",
                role: GitControlRole::Head,
                kind: GitControlRecordKind::File { identity: file(), size: 21, sha256: [0xd1; 32] },
            },
            GitControlRecord {
                path: "objects",
                role: GitControlRole::StructuralDirectory,
                kind: GitControlRecordKind::Directory(directory()),
            },
        ])),
        private_baseline: PrivateBaselineRecord { identity: file() },
    }
}

fn context() -> CandidateSealContext {
    CandidateSealContext { scheme: SCHEME, scheme_wire_value: 1, publication_id: [0x77; 16] }
}

fn stream(manifest: CandidateSealManifest<'_>) -> Result<Vec<u8>, CandidateSealError> {
    let mut sink = VecSink(Vec::new());
    encode_stream(&mut sink, context(), manifest)?;
    Ok(sink.0)
}

fn u32_at(bytes: &[u8], offset: usize) -> u32 {
    u32::from_be_bytes(bytes[offset..offset + 4].try_into().expect("test offset has four bytes"))
}

#[test]
fn golden_stream_has_frozen_prefix_sections_terminator_and_digest() {
    let bytes = stream(fixture()).expect("canonical fixture encodes");
    assert_eq!(&bytes[..8], b"INEXCS1\0");
    assert_eq!(&bytes[8..14], &[0, 1, 0, 1, 0, 25]);
    assert_eq!(&bytes[14..39], DOMAIN.as_bytes());
    assert_eq!(&bytes[39..55], &[0x77; 16]);
    assert_eq!(directory().0.bytes, DIRECTORY_WIRE);
    assert_eq!(&bytes[67..91], &DIRECTORY_WIRE);
    assert_eq!(&bytes[bytes.len() - 5..], &TERMINATOR);
    let mut offset = 55;
    for expected_tag in 1_u8..=9 {
        assert_eq!(bytes[offset], expected_tag);
        let count = usize::try_from(u32_at(&bytes, offset + 1)).expect("count fits usize");
        offset += 5;
        for _ in 0..count {
            let record_length = usize::try_from(u32_at(&bytes, offset)).expect("record length fits usize");
            offset += 4 + record_length;
        }
    }
    assert_eq!(&bytes[offset..], &TERMINATOR);
    assert_eq!(
        <[u8; 32]>::from(Sha256::digest(&bytes)),
        encode_candidate_seal_v1(context(), fixture()).expect("fixture hashes")
    );
    assert_eq!(
        encode_candidate_seal_v1(context(), fixture()).expect("fixture hashes"),
        [
            0x2d, 0xc5, 0xf2, 0x49, 0xcb, 0x21, 0x5a, 0x17, 0x2b, 0xc3, 0x04, 0xc8, 0x9b, 0xfa, 0x25, 0x45, 0x7f, 0x8d,
            0x25, 0x49, 0x7b, 0x83, 0xc7, 0x81, 0x59, 0x06, 0x8e, 0x51, 0x8c, 0x8d, 0x82, 0x10,
        ]
    );
}

#[test]
fn rejects_zero_publication_id_mixed_scheme_and_record_drift() {
    let mut zero = context();
    zero.publication_id = [0; 16];
    assert_eq!(encode_candidate_seal_v1(zero, fixture()), Err(CandidateSealError::InvalidContext));

    let foreign =
        CandidateDirectoryIdentity(synthetic(PublicationIdentityScheme::WindowsLegacyFileIndexV1, 1, 9));
    let physical = [PhysicalRecord { path: "", kind: PhysicalRecordKind::Directory(foreign) }];
    let mut mixed = fixture();
    mixed.physical = &physical;
    assert_eq!(encode_candidate_seal_v1(context(), mixed), Err(CandidateSealError::InvalidContext));

    let bad_index = [IndexRecord { path: "vault.json", blob_oid: BLOB_C }];
    let mut drift = fixture();
    drift.index = &bad_index;
    assert_eq!(encode_candidate_seal_v1(context(), drift), Err(CandidateSealError::InvalidRecord));
}

#[test]
fn rejects_noncanonical_path_oid_role_and_body_boundaries() {
    let physical = [
        PhysicalRecord { path: "", kind: PhysicalRecordKind::Directory(directory()) },
        PhysicalRecord { path: "z", kind: PhysicalRecordKind::Directory(directory()) },
        PhysicalRecord { path: "a", kind: PhysicalRecordKind::Directory(directory()) },
    ];
    let mut manifest = fixture();
    manifest.physical = &physical;
    assert_eq!(encode_candidate_seal_v1(context(), manifest), Err(CandidateSealError::NonCanonicalOrder));

    let bad_role = [GitControlRecord {
        path: "config",
        role: GitControlRole::Head,
        kind: GitControlRecordKind::File { identity: file(), size: 1, sha256: [1; 32] },
    }];
    let mut manifest = fixture();
    manifest.git_control = &bad_role;
    assert_eq!(encode_candidate_seal_v1(context(), manifest), Err(CandidateSealError::InvalidRecord));

    let mut oversized = fixture().objects.to_vec();
    oversized[0].raw_size = MAX_BODY_BYTES + 1;
    let mut oversized_worktree = fixture().worktree.to_vec();
    oversized_worktree[0].size = MAX_BODY_BYTES + 1;
    let mut manifest = fixture();
    manifest.objects = &oversized;
    manifest.worktree = &oversized_worktree;
    assert_eq!(encode_candidate_seal_v1(context(), manifest), Err(CandidateSealError::ResourceLimit));
}

#[test]
fn framing_uses_big_endian_lengths_and_exact_record_sizes() {
    let bytes = stream(fixture()).expect("canonical fixture encodes");
    let section_one = 55;
    assert_eq!(&bytes[section_one..section_one + 5], &[1, 0, 0, 0, 1]);
    assert_eq!(&bytes[section_one + 5..section_one + 9], &67_u32.to_be_bytes());
    assert_eq!(&bytes[section_one + 9..section_one + 11], &[0, 0]);
    let section_two = section_one + 5 + 4 + 67;
    assert_eq!(&bytes[section_two..section_two + 5], &[2, 0, 0, 0, 3]);
    assert_eq!(&bytes[section_two + 5..section_two + 9], &(91_u32 + 14).to_be_bytes());
}

#[test]
fn role_specific_identity_constructors_accept_observed_types() {
    let scheme = PublicationIdentityScheme::WindowsModernFileId128V1;
    let wire = synthetic(scheme, 0, 5).bytes;
    let directory = FilesystemDirectoryIdentity { scheme, wire };
    let file = FilesystemFileIdentity { scheme, wire };
    let bound = CandidateDirectoryIdentity::from_observed(&directory, scheme).expect("directory binds");
    assert_eq!(bound.0.scheme, scheme);
    assert_eq!(bound.0.bytes, wire);
    let bound = CandidateFileIdentity::from_observed(&file, scheme).expect("file binds");
    assert_eq!(bound.0.scheme, scheme);
    assert_eq!(bound.0.bytes, wire);
    assert!(matches!(
        CandidateDirectoryIdentity::from_observed(&directory, SCHEME),
        Err(CandidateSealError::InvalidContext)
    ));
    assert!(matches!(CandidateFileIdentity::from_observed(&file, SCHEME), Err(CandidateSealError::InvalidContext)));
}

#[test]
fn every_field_of_a_record_shows_in_the_stream() {
    let golden = stream(fixture()).expect("fixture encodes");

    let other = [PhysicalRecord {
        path: "",
        kind: PhysicalRecordKind::Directory(CandidateDirectoryIdentity(synthetic(SCHEME, 1, 0x12))),
    }];
    let mut changed = fixture();
    changed.physical = &other;
    assert_ne!(stream(changed).expect("encodes"), golden);

    let mut baseline = fixture();
    baseline.private_baseline = PrivateBaselineRecord { identity: CandidateFileIdentity(synthetic(SCHEME, 2, 0x23)) };
    assert_ne!(stream(baseline).expect("encodes"), golden);

    let mut control = fixture().git_control.to_vec();
    control[0].kind = GitControlRecordKind::File { identity: file(), size: 22, sha256: [0xd1; 32] };
    let mut changed = fixture();
    changed.git_control = &control;
    assert_ne!(stream(changed).expect("encodes"), golden);

    let mut control = fixture().git_control.to_vec();
    control[0].kind = GitControlRecordKind::File { identity: file(), size: 21, sha256: [0xd2; 32] };
    let mut changed = fixture();
    changed.git_control = &control;
    assert_ne!(stream(changed).expect("encodes"), golden);

    let mut other_context = context();
    other_context.publication_id[15] = 0x78;
    assert_ne!(
        encode_candidate_seal_v1(other_context, fixture()).expect("encodes"),
        encode_candidate_seal_v1(context(), fixture()).expect("encodes")
    );
    assert_eq!(stream(fixture()).expect("encodes"), golden);
}

#[test]
fn a_seal_needs_all_three_metadata_files_and_listed_objects() {
    let mut two = worktree();
    two.truncate(2);
    let index = [
        IndexRecord { path: ".gitattributes", blob_oid: BLOB_A },
        IndexRecord { path: ".gitignore", blob_oid: BLOB_B },
    ];
    let mut manifest = fixture();
    manifest.worktree = &two;
    manifest.index = &index;
    assert_eq!(encode_candidate_seal_v1(context(), manifest), Err(CandidateSealError::InvalidRecord));

    let mut unlisted = objects();
    unlisted.remove(1);
    let mut manifest = fixture();
    manifest.objects = &unlisted;
    assert_eq!(encode_candidate_seal_v1(context(), manifest), Err(CandidateSealError::InvalidRecord));

    let mut unordered = objects();
    unordered.swap(0, 1);
    let mut manifest = fixture();
    manifest.objects = &unordered;
    assert_eq!(encode_candidate_seal_v1(context(), manifest), Err(CandidateSealError::NonCanonicalOrder));
}
