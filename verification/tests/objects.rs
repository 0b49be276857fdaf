use inex_git::errors::{CandidateSealError, IoErrorKind, RepositoryImportError};
use inex_git::git_control::main_ref_body;
use inex_git::git_object::{
    canonical_root_commit_bytes, object_kind_name, parse_canonical_root_commit, raw_sha256, typed_object_oid,
    StreamingObjectVerifier, MAX_RAW_OBJECT_BYTES,
};
use inex_git::hex::{decimal_i64, decimal_u64, decode_lower_hex_oid, is_canonical_i64, lower_hex_oid};
use inex_git::identity::{FilesystemFileIdentity, PublicationIdentityScheme};
use inex_git::object_batch::{
    read_batch_eof, read_batch_object_proof, BatchObjectReading, BatchReadError, TARGET_OBJECT_STREAM_CHUNK_BYTES,
};
use inex_git::object_proof::{prove_complete_object_set, ObjectSetProof, ProofRequest};
use inex_git::object_union::canonical_object_union;
use inex_git::seal_records::{ObjectKind, ObjectRecord};
use inex_git::target_config::{validate_target_config_output, HostPlatform, TargetConfigProfile};
use inex_git::target_objects::{
    expected_target_object_expectations, insert_target_object_expectation, target_blob_manifest, TargetObjectExpectation,
    TargetTrackedEntry,
};
use inex_git::target_tree::construct_canonical_target_trees;
use inex_git::text_map::TextMap;
use inex_git::tree_body::{
    decode_sha1_oid, serialize_canonical_tree, typed_git_object_oid, validate_target_object_stream_length,
    CanonicalTreeEntry, MAX_TARGET_OBJECT_BYTES,
};
use sha1::Sha1;
use sha2::{Digest, Sha256};

fn object(kind: ObjectKind, body: &[u8]) -> ObjectRecord {
    let raw_size = u64::try_from(body.len()).expect("test body length fits");
    ObjectRecord { oid: typed_object_oid(kind, raw_size, body), kind, raw_size, raw_sha256: raw_sha256(body) }
}

fn canonical_commit(tree_oid: [u8; 20], timestamp: &str) -> Vec<u8> {
    let tree = main_ref_body(tree_oid);
    let tree = std::str::from_utf8(&tree[..40]).expect("hex is utf8");
    format!(
        "tree {tree}\nauthor Inex Repository Import <inex-import@localhost.invalid> {timestamp} +0000\ncommitter Inex Repository Import <inex-import@localhost.invalid> {timestamp} +0000\n\nInitialize encrypted Inex vault\n"
    )
    .into_bytes()
}

fn sha256(bytes: &[u8]) -> [u8; 32] {
    Sha256::digest(bytes).into()
}

#[test]
fn canonical_commit_parser_accepts_i64_edges_and_rejects_noncanonical_forms() {
    let tree = object(ObjectKind::Tree, b"");
    for timestamp in [i64::MIN.to_string(), "0".to_owned(), i64::MAX.to_string()] {
        let body = canonical_commit(tree.oid, &timestamp);
        let parsed = parse_canonical_root_commit(&body).expect("canonical commit parses");
        assert_eq!(parsed.tree_oid(), tree.oid);
        assert_eq!(parsed.commit_oid(), object(ObjectKind::Commit, &body).oid);
        assert_eq!(parsed.raw_size(), body.len() as u64);
        assert_eq!(parsed.raw_sha256(), raw_sha256(&body));
    }

    for timestamp in ["00", "01", "-0", "+1", "9223372036854775808"] {
        assert_eq!(
            parse_canonical_root_commit(&canonical_commit(tree.oid, timestamp)).err(),
            Some(CandidateSealError::InvalidRecord)
        );
    }
    let mut parent = canonical_commit(tree.oid, "1");
    let insertion = parent.windows(7).position(|window| window == b"author ").expect("author exists");
    parent.splice(insertion..insertion, b"parent 1111111111111111111111111111111111111111\n".iter().copied());
    assert_eq!(parse_canonical_root_commit(&parent).err(), Some(CandidateSealError::InvalidRecord));
    let mut trailing = canonical_commit(tree.oid, "1");
    trailing.push(b'!');
    assert_eq!(parse_canonical_root_commit(&trailing).err(), Some(CandidateSealError::InvalidRecord));
}

#[test]
fn a_commit_that_is_written_is_read_back() {
    let tree = "4b825dc642cb6eb9a060e54bf8d69288fbee4904";
    for seconds in [i64::MIN, -1, 0, 1, 1_784_044_800, i64::MAX] {
        let body = canonical_root_commit_bytes(tree, seconds);
        assert_eq!(body.as_slice(), canonical_commit(decode_sha1_oid(tree).expect("decodes"), &seconds.to_string()));
        let parsed = parse_canonical_root_commit(body.as_slice()).expect("written commit parses");
        assert_eq!(lower_hex_oid(parsed.tree_oid()).as_slice(), tree.as_bytes());
        assert_eq!(decimal_i64(seconds), seconds.to_string().into_bytes());
        assert!(is_canonical_i64(seconds.to_string().as_bytes()));
    }
    assert_eq!(parse_canonical_root_commit(&[0; 513]).err(), Some(CandidateSealError::ResourceLimit));
    assert_eq!(decimal_u64(u64::MAX), b"18446744073709551615");
    assert_eq!(decimal_u64(0), b"0");
}

#[test]
fn streaming_verifier_is_chunk_boundary_independent_and_fail_closed() {
    let body = vec![0xa5; 68 * 1024 + 3];
    let expected = object(ObjectKind::Blob, &body);
    let mut verifier = StreamingObjectVerifier::new(expected).expect("verifier starts");
    for chunk in body.chunks(16 * 1024) {
        verifier.update(chunk).expect("chunk verifies");
    }
    verifier.finish().expect("exact stream verifies");

    let mut truncated = StreamingObjectVerifier::new(expected).expect("verifier starts");
    truncated.update(&body[..body.len() - 1]).expect("prefix accepted");
    assert_eq!(truncated.finish(), Err(CandidateSealError::InvalidRecord));

    let mut overrun = StreamingObjectVerifier::new(expected).expect("verifier starts");
    assert_eq!(overrun.update(&vec![0; body.len() + 1]), Err(CandidateSealError::InvalidRecord));

    let wrong_kind = ObjectRecord { kind: ObjectKind::Tree, ..expected };
    let mut verifier = StreamingObjectVerifier::new(wrong_kind).expect("verifier starts");
    verifier.update(&body).expect("body length matches");
    assert_eq!(verifier.finish(), Err(CandidateSealError::InvalidRecord));

    let mut wrong_raw_sha = expected;
    wrong_raw_sha.raw_sha256[0] ^= 0xff;
    let mut verifier = StreamingObjectVerifier::new(wrong_raw_sha).expect("verifier starts");
    verifier.update(&body).expect("body length matches");
    assert_eq!(verifier.finish(), Err(CandidateSealError::InvalidRecord));
}

#[test]
fn streaming_verifier_enforces_exact_raw_size_boundary_without_large_allocation() {
    let body = vec![0x5a; 4_096];
    let exact = object(ObjectKind::Blob, &body);
    let mut verifier = StreamingObjectVerifier::new_with_limit(exact, 4_096).expect("injected exact boundary starts");
    verifier.update(&body).expect("exact boundary streams");
    verifier.finish().expect("exact boundary verifies");

    let plus_one = ObjectRecord { raw_size: 4_097, ..exact };
    assert!(matches!(
        StreamingObjectVerifier::new_with_limit(plus_one, 4_096),
        Err(CandidateSealError::ResourceLimit)
    ));

    let exact_frozen_limit = ObjectRecord { raw_size: MAX_RAW_OBJECT_BYTES, ..exact };
    assert!(StreamingObjectVerifier::new(exact_frozen_limit).is_ok());
    let frozen_plus_one = ObjectRecord { raw_size: MAX_RAW_OBJECT_BYTES + 1, ..exact };
    assert!(matches!(StreamingObjectVerifier::new(frozen_plus_one), Err(CandidateSealError::ResourceLimit)));
}

#[test]
fn an_object_union_is_sorted_and_refuses_conflicts() {
    let blob = object(ObjectKind::Blob, b"ciphertext");
    let tree = object(ObjectKind::Tree, b"");
    let commit = parse_canonical_root_commit(&canonical_commit(tree.oid, "1")).expect("commit parses");
    let conflict = ObjectRecord { kind: ObjectKind::Tree, ..blob };
    assert_eq!(
        canonical_object_union(&[blob], &[conflict, tree], commit).err(),
        Some(CandidateSealError::InvalidRecord)
    );
    assert_eq!(canonical_object_union(&[blob], &[], commit).err(), Some(CandidateSealError::InvalidRecord));
    let union = canonical_object_union(&[blob, blob], &[tree], commit).ok().expect("union");
    assert_eq!(union.len(), 3);
    assert!(union.windows(2).all(|pair| pair[0].oid < pair[1].oid));
}

fn record(seed: u8) -> ObjectRecord {
    ObjectRecord { oid: [seed; 20], kind: ObjectKind::Blob, raw_size: u64::from(seed), raw_sha256: [seed; 32] }
}

#[test]
fn proof_state_requires_complete_sorted_unique_iteration_and_successful_finish() {
    let failed = RepositoryImportError::TargetAuditFailed;
    let records = vec![record(1), record(2), record(3)];
    let passed = vec![Ok(()), Ok(()), Ok(())];
    let completed = prove_complete_object_set(&records, &passed, Ok(())).ok().expect("complete batch proves");
    assert_eq!(completed.verified_objects, records.len());

    let mut proof = ObjectSetProof::begin(&records);
    let mut calls = Vec::new();
    loop {
        match proof.next_request().expect("request") {
            ProofRequest::Prove(expected) => {
                calls.push(expected.oid);
                proof.take_reply(Ok(())).expect("reply is accepted");
            },
            ProofRequest::Finish => break,
        }
    }
    assert_eq!(calls, vec![[1; 20], [2; 20], [3; 20]]);
    assert_eq!(proof.complete(Ok(())).ok().expect("completes").verified_objects, 3);

    for invalid in [vec![record(2), record(1), record(3)], vec![record(1), record(1), record(3)]] {
        assert_eq!(prove_complete_object_set(&invalid, &passed, Ok(())).err(), Some(failed));
    }
    assert_eq!(
        prove_complete_object_set(&records, &vec![Err(failed), Ok(()), Ok(())], Ok(())).err(),
        Some(failed)
    );
    assert_eq!(
        prove_complete_object_set(&records, &vec![Ok(()), Ok(()), Err(RepositoryImportError::MalformedGitOutput)], Ok(())).err(),
        Some(RepositoryImportError::MalformedGitOutput)
    );
    assert_eq!(prove_complete_object_set(&records, &passed, Err(failed)).err(), Some(failed));
}

fn transcript_record(body: &[u8]) -> ObjectRecord {
    let raw_size = u64::try_from(body.len()).expect("body length fits");
    let mut typed = Sha1::new();
    typed.update(b"blob ");
    typed.update(raw_size.to_string().as_bytes());
    typed.update([0]);
    typed.update(body);
    ObjectRecord { oid: typed.finalize().into(), kind: ObjectKind::Blob, raw_size, raw_sha256: sha256(body) }
}

fn transcript(record: ObjectRecord, body: &[u8]) -> Vec<u8> {
    let mut bytes = Vec::new();
    bytes.extend(lower_hex_oid(record.oid));
    bytes.extend(format!(" blob {}\n", record.raw_size).as_bytes());
    bytes.extend(body);
    bytes.push(b'\n');
    bytes
}

fn expectation_of(record: ObjectRecord) -> TargetObjectExpectation {
    TargetObjectExpectation {
        object_type: object_kind_name(record.kind),
        size: record.raw_size,
        sha256: record.raw_sha256,
    }
}

fn read_transcript(bytes: &[u8], record: ObjectRecord) -> Result<(), BatchReadError> {
    let encoded = lower_hex_oid(record.oid);
    let oid = std::str::from_utf8(&encoded).expect("lower hex is UTF-8");
    read_batch_object_proof(bytes, oid, &record.oid, expectation_of(record))?;
    let whole = transcript(record, &vec![0; record.raw_size as usize]).len();
    read_batch_eof(Ok(&bytes[whole..]))
}

#[test]
fn fixed_16k_stream_requires_exact_header_body_lf_and_final_eof() {
    let body = vec![0x5a; TARGET_OBJECT_STREAM_CHUNK_BYTES * 2 + 7];
    let record = transcript_record(&body);
    let exact = transcript(record, &body);
    read_transcript(&exact, record).expect("exact transcript proves and reaches EOF");

    let mut wrong_header = exact.clone();
    wrong_header[0] = b'f';
    assert!(read_transcript(&wrong_header, record).is_err());

    let mut wrong_body = exact.clone();
    let header_length = 40 + format!(" blob {}\n", record.raw_size).len();
    wrong_body[header_length + TARGET_OBJECT_STREAM_CHUNK_BYTES] ^= 1;
    assert!(read_transcript(&wrong_body, record).is_err());

    let mut missing_lf = exact.clone();
    missing_lf.pop();
    assert!(read_transcript(&missing_lf, record).is_err());

    let mut trailing = exact;
    trailing.push(b'!');
    assert!(read_transcript(&trailing, record).is_err());
}

/// A proof is read in chunks of a fixed size; it holds nothing of the process that it reads from.
#[test]
fn runtime_proof_contract_documents_process_group_boundary() {
    assert_eq!(TARGET_OBJECT_STREAM_CHUNK_BYTES, 16 * 1024);
    let body = vec![7; TARGET_OBJECT_STREAM_CHUNK_BYTES + 1];
    let record = transcript_record(&body);
    let encoded = lower_hex_oid(record.oid);
    let oid = std::str::from_utf8(&encoded).expect("lower hex is UTF-8");
    let whole = transcript(record, &body);
    for step in [1, 7, 4096, TARGET_OBJECT_STREAM_CHUNK_BYTES] {
        let mut reading = BatchObjectReading::begin(oid, record.oid, expectation_of(record)).ok().expect("begins");
        let mut position = 0;
        loop {
            let wanted = reading.wanted();
            assert!(wanted <= TARGET_OBJECT_STREAM_CHUNK_BYTES);
            let end = position + wanted.min(step);
            let finished = reading.take(Ok(&whole[position..end])).expect("chunk is accepted");
            position = end;
            if finished {
                break;
            }
        }
        assert_eq!(position, whole.len());
    }
    let mut reading = BatchObjectReading::begin(oid, record.oid, expectation_of(record)).ok().expect("begins");
    assert_eq!(
        reading.take(Err(IoErrorKind::BrokenPipe)),
        Err(BatchReadError::Io(IoErrorKind::BrokenPipe))
    );
    assert_eq!(reading.take(Ok(&[])), Err(BatchReadError::Mismatch));
    let (offset, remaining) = (reading.offset, reading.remaining);
    assert_eq!((offset, reading.finished), (0, false));
    assert_eq!(reading.take(Ok(b"#")), Err(BatchReadError::Mismatch));
    assert_eq!((reading.offset, reading.remaining, reading.finished), (offset, remaining, false));
    assert_eq!(reading.take(Ok(&whole[..3])), Ok(false));
    assert_eq!(reading.take(Err(IoErrorKind::BrokenPipe)), Err(BatchReadError::Io(IoErrorKind::BrokenPipe)));
    assert_eq!((reading.offset, reading.remaining, reading.finished), (3, remaining, false));
}

#[test]
fn batch_object_reader_requires_exact_header_body_separator_and_bounds() {
    let oid = "b6fc4c620b67d95f953a5c1c1230aaab5db5a1b0";
    let raw_oid = decode_sha1_oid(oid).expect("blob oid decodes");
    let expectation = TargetObjectExpectation { object_type: "blob", size: 5, sha256: sha256(b"hello") };
    let exact = format!("{oid} blob 5\nhello\n");
    read_batch_object_proof(exact.as_bytes(), oid, &raw_oid, expectation).expect("exact batch response passes");

    for response in [
        format!("{oid} blob 5\nhell"),
        format!("{oid} blob 5\njello\n"),
        format!("{oid} blob 5\nhello!\n"),
        format!("{oid}\tblob 05\nhello\n"),
    ] {
        assert!(matches!(
            read_batch_object_proof(response.as_bytes(), oid, &raw_oid, expectation),
            Err(BatchReadError::Mismatch)
        ));
    }
    let wrong_digest = TargetObjectExpectation { sha256: sha256(b"jello"), ..expectation };
    assert!(matches!(
        read_batch_object_proof(exact.as_bytes(), oid, &raw_oid, wrong_digest),
        Err(BatchReadError::Mismatch)
    ));
    let foreign_raw_oid = decode_sha1_oid("0123456789abcdef0123456789abcdef01234567").expect("foreign oid decodes");
    assert!(matches!(
        read_batch_object_proof(exact.as_bytes(), oid, &foreign_raw_oid, expectation),
        Err(BatchReadError::Mismatch)
    ));
    let oversized_expectation =
        TargetObjectExpectation { object_type: "blob", size: MAX_TARGET_OBJECT_BYTES as u64 + 1, sha256: sha256(b"") };
    let oversized = format!("{oid} blob {}\n", MAX_TARGET_OBJECT_BYTES as u64 + 1);
    assert!(matches!(
        read_batch_object_proof(oversized.as_bytes(), oid, &raw_oid, oversized_expectation),
        Err(BatchReadError::Mismatch)
    ));
    assert!(matches!(
        validate_target_object_stream_length(MAX_TARGET_OBJECT_BYTES as u64 + 1),
        Err(RepositoryImportError::ResourceLimit)
    ));
    assert!(matches!(read_batch_eof(Ok(b"unsolicited")), Err(BatchReadError::Mismatch)));
    assert_eq!(read_batch_eof(Ok(b"")), Ok(()));
}

#[test]
fn canonical_tree_sort_uses_git_directory_suffix_order() {
    let mut entries = vec![
        CanonicalTreeEntry {
            name: "foo".to_owned(),
            oid: "1111111111111111111111111111111111111111".to_owned(),
            directory: true,
        },
        CanonicalTreeEntry {
            name: "foo.bar".to_owned(),
            oid: "2222222222222222222222222222222222222222".to_owned(),
            directory: false,
        },
    ];
    let body = serialize_canonical_tree(&mut entries).expect("canonical tree serializes");
    assert!(body.as_slice().starts_with(b"100644 foo.bar\0"));
    assert!(body.as_slice().windows(b"40000 foo\0".len()).any(|part| part == b"40000 foo\0"));
}

#[test]
fn target_object_expectations_deduplicate_only_identical_proofs() {
    let oid = "b6fc4c620b67d95f953a5c1c1230aaab5db5a1b0";
    let expectation = TargetObjectExpectation { object_type: "blob", size: 5, sha256: sha256(b"hello") };
    let mut objects = TextMap::new();
    insert_target_object_expectation(&mut objects, oid, expectation).expect("first proof inserts");
    insert_target_object_expectation(&mut objects, oid, expectation).expect("identical duplicate deduplicates");
    assert_eq!(objects.len(), 1);

    let conflict = TargetObjectExpectation { sha256: sha256(b"jello"), ..expectation };
    assert!(matches!(
        insert_target_object_expectation(&mut objects, oid, conflict),
        Err(RepositoryImportError::TargetAuditFailed)
    ));
    let debug = String::from_utf8(expectation.redacted()).expect("diagnostics are text");
    assert_eq!(debug, "TargetObjectExpectation { object_type: \"blob\", size: 5, sha256: \"[REDACTED]\" }");
    assert!(!debug.contains("2cf24dba"));
}

#[test]
fn typed_object_sha1_matches_frozen_blob_tree_and_commit_fixtures() {
    assert_eq!(
        typed_git_object_oid("blob", b"").expect("empty blob hashes"),
        "e69de29bb2d1d6434b8b29ae775ad8c2e48c5391"
    );
    assert_eq!(
        typed_git_object_oid("blob", &[0, 1, 2, 255]).expect("binary blob hashes"),
        "f971a5e28b6c4cb237ca3c7349e33bb600dbc907"
    );
    assert_eq!(
        typed_git_object_oid("tree", b"").expect("empty tree hashes"),
        "4b825dc642cb6eb9a060e54bf8d69288fbee4904"
    );
    let mut tree = b"100644 note\0".to_vec();
    tree.extend_from_slice(
        &decode_sha1_oid("e69de29bb2d1d6434b8b29ae775ad8c2e48c5391").expect("fixture blob id decodes"),
    );
    assert_eq!(
        typed_git_object_oid("tree", tree.as_slice()).expect("one-entry tree hashes"),
        "ad186d8087e8c97da7ccbff56e12019024bb1e67"
    );
    let commit = canonical_root_commit_bytes("4b825dc642cb6eb9a060e54bf8d69288fbee4904", 1_784_044_800);
    assert_eq!(commit.len(), 240);
    assert_eq!(
        typed_git_object_oid("commit", commit.as_slice()).expect("root commit hashes"),
        "632c468f6cf24bef3dd7d5b79c8a66b6a8176c34"
    );
}

fn target_file(path: &str, body: &[u8]) -> TargetTrackedEntry {
    TargetTrackedEntry {
        relative_path: path.to_owned(),
        size: body.len() as u64,
        sha256: sha256(body),
        blob_oid: typed_git_object_oid("blob", body).expect("blob hashes"),
        identity: FilesystemFileIdentity { scheme: PublicationIdentityScheme::LinuxDevInodeV1, wire: [1; 24] },
    }
}

#[test]
fn target_tree_proof_handles_duplicate_blobs_nested_trees_and_raw_tamper() {
    let duplicate = b"the same opaque envelope";
    let entries = vec![
        target_file("left/dup.bin.asset.enc", duplicate),
        target_file("right/deep/dup.bin.asset.enc", duplicate),
        target_file("vault.json", b"authenticated metadata"),
    ];
    let manifest = target_blob_manifest(&entries).ok().expect("manifest");
    let trees = construct_canonical_target_trees(&manifest).ok().expect("trees");
    let keys: Vec<&str> = trees.entries.iter().map(|entry| entry.key.as_str()).collect();
    assert_eq!(keys, vec!["", "left", "right", "right/deep"]);
    let oid = |path: &str| trees.get(path).expect("tree").oid.clone();
    assert_eq!(oid("left"), oid("right/deep"));
    assert_ne!(oid(""), oid("right"));

    let commit = canonical_root_commit_bytes(&oid(""), 1_784_044_800);
    let commit_oid = typed_git_object_oid("commit", commit.as_slice()).expect("commit hashes");
    let objects = expected_target_object_expectations(&entries, &trees, &commit_oid, commit.as_slice()).ok().expect("objects");
    // Two blobs, three trees and the commit: the duplicates are one object each.
    assert_eq!(objects.len(), 6);
    assert_eq!(objects.get(&commit_oid).expect("commit").object_type, "commit");

    let mut tampered = commit;
    tampered.append(b"!");
    assert_eq!(
        expected_target_object_expectations(&entries, &trees, &commit_oid, tampered.as_slice()).err(),
        Some(RepositoryImportError::TargetAuditFailed)
    );
    let twice = vec![target_file("vault.json", b"a"), target_file("vault.json", b"b")];
    assert_eq!(target_blob_manifest(&twice).err(), Some(RepositoryImportError::TargetAuditFailed));
}

const DRIVER_NAME: &str = "Inex semantic merge";

fn profile(driver_command: &str) -> TargetConfigProfile<'_> {
    TargetConfigProfile { platform: HostPlatform::Unix, driver_name: DRIVER_NAME, driver_command: Some(driver_command) }
}

#[test]
fn config_output_parser_accepts_only_the_canonical_allowlist() {
    let driver = "'/opt/inex' merge-driver";
    let mut output = Vec::new();
    for (key, value) in [
        ("core.repositoryformatversion", "0"),
        ("core.filemode", "true"),
        ("core.bare", "false"),
        ("core.logallrefupdates", "true"),
        ("merge.inex.name", DRIVER_NAME),
        ("merge.inex.driver", driver),
    ] {
        output.extend_from_slice(key.as_bytes());
        output.push(b'\n');
        output.extend_from_slice(value.as_bytes());
        output.push(0);
    }
    validate_target_config_output(&output, &profile(driver)).expect("canonical config output validates");

    let mut duplicate = output.clone();
    duplicate.extend_from_slice(b"core.bare\nfalse\0");
    assert_eq!(
        validate_target_config_output(&duplicate, &profile(driver)),
        Err(CandidateSealError::InvalidRecord)
    );
    let mut unknown = output.clone();
    unknown.extend_from_slice(b"include.path\n/tmp/hostile\0");
    assert_eq!(
        validate_target_config_output(&unknown, &profile(driver)),
        Err(CandidateSealError::InvalidRecord)
    );
    assert_eq!(
        validate_target_config_output(&output[..output.len() - 1], &profile(driver)),
        Err(CandidateSealError::InvalidRecord)
    );
    assert_eq!(
        validate_target_config_output(&output, &profile("wrong driver")),
        Err(CandidateSealError::InvalidRecord)
    );
}

#[test]
fn object_ids_are_read_back_from_their_digits() {
    let oid = [0xa0, 1, 2, 3, 4, 5, 6, 7, 8, 9, 10, 11, 12, 13, 14, 15, 16, 17, 18, 0xff];
    let digits = lower_hex_oid(oid);
    assert_eq!(&digits, b"a0010203040506070809\x30a0b0c0d0e0f101112ff");
    assert_eq!(decode_lower_hex_oid(&digits).expect("digits decode"), oid);
    assert_eq!(decode_lower_hex_oid(&[b'0'; 40]).err(), Some(CandidateSealError::InvalidRecord));
    assert_eq!(decode_lower_hex_oid(&[b'A'; 40]).err(), Some(CandidateSealError::InvalidRecord));
    assert_eq!(decode_lower_hex_oid(&[b'a'; 39]).err(), Some(CandidateSealError::InvalidRecord));
    assert_eq!(decode_sha1_oid("xyz").err(), Some(RepositoryImportError::TargetAuditFailed));
}
