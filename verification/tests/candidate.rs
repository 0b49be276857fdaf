use inex_git::content_seal::{aggregate_candidate_content_seal_v1, aggregate_when};
use inex_git::control_scan::ControlTally;
use inex_git::control_snapshot::{
    capture_held_physical_snapshot, collect_fresh_target_main_ref, exact_file_id, release_held_value,
    with_held_target_config_snapshot, with_held_target_index_snapshot, HeldBodyReading, HeldChild,
    HeldDirectoryObservation, HeldFileObservation, HeldSnapshotReading, HeldSnapshotRecheck,
};
use inex_git::errors::{CandidateSealError, RepositoryGitOperation, RepositoryImportError};
use inex_git::fresh_audit::{audit_fresh_marker_candidate, FreshAuditClosing, FreshAuditSighting, PublicationMarker};
use inex_git::git_control::{main_ref_body, ControlSlot};
use inex_git::git_evidence::{
    are_views_bound, canonical_object_union_from_views, collect_fresh_git_evidence,
    collect_fresh_git_evidence_from_union, FreshGitManifest,
};
use inex_git::git_object::{
    parse_canonical_root_commit, raw_sha256, typed_object_oid, FreshRootCommitEvidence,
};
use inex_git::hex::lower_hex_oid;
use inex_git::identity::{FilesystemDirectoryIdentity, FilesystemFileIdentity, PublicationIdentityScheme};
use inex_git::initial_authority::{
    acquire_initial_candidate_authority, HeldRoot, InitialCandidateAuthorityError, InitialClosing, InitialSighting,
};
use inex_git::manifest::{
    collect_marker_free_physical_manifest, collect_marker_free_physical_manifest_with_limits, v1_limits,
    AuditedPhysicalKind, FoldedPath, MarkerFreePhysicalManifest, NamespaceKind, NamespaceSeal, PhysicalManifestLimits,
    PhysicalObservation, PhysicalRecordId, PrivateStateObservation,
};
use inex_git::namespace::HashedFile;
use inex_git::object_proof::{prove_fresh_runtime_objects, RunnerRootObservation, RuntimeBatchTranscript};
use inex_git::object_union::canonical_object_union;
use inex_git::physical_walk::{require_current_exact, CurrentSighting, SeenChild};
use inex_git::revalidation::{begin_current_walk, compare_record_path_to_child, match_directory, match_file};
use inex_git::seal::encode_candidate_seal_v1;
use inex_git::seal_records::{
    CandidateSealContext, CandidateSealManifest, GitControlRecordKind, GitControlRole, ObjectKind, ObjectRecord,
    WorktreeClass, DOMAIN,
};
use inex_git::target_audit::TargetRepository;
use inex_git::target_worktree::{TARGET_ATTRIBUTES, TARGET_IGNORE};
use inex_git::text_map::TextMap;
use inex_git::tree_walk::TreeEvent;
use inex_git::worktree_evidence::{
    FreshTrackedEntry, FreshTrackedManifest, FreshTreeEntry, FreshTreeManifest,
};
use inex_git::wiped::WipedBytes;

const SCHEME: PublicationIdentityScheme = PublicationIdentityScheme::LinuxDevInodeV1;
const TAF: RepositoryImportError = RepositoryImportError::TargetAuditFailed;

fn wire(device: u8, inode: u64, kind: u8) -> [u8; 24] {
    let mut bytes = [0; 24];
    bytes[7] = device;
    bytes[8..16].copy_from_slice(&inode.to_be_bytes());
    bytes[23] = kind;
    bytes
}

fn directory_identity(device: u8, inode: u64) -> FilesystemDirectoryIdentity {
    FilesystemDirectoryIdentity { scheme: SCHEME, wire: wire(device, inode, 1) }
}

fn file_identity(device: u8, inode: u64) -> FilesystemFileIdentity {
    FilesystemFileIdentity { scheme: SCHEME, wire: wire(device, inode, 2) }
}

/// A directory tree in memory: paths with the bodies of files, and directories without one.
#[derive(Clone)]
struct Tree {
    device: u8,
    entries: Vec<(String, Option<Vec<u8>>)>,
}

impl Tree {
    fn new(device: u8) -> Tree {
        let mut tree = Tree { device, entries: Vec::new() };
        tree.write(".vault-local/mutation.lock", b"");
        tree
    }

    fn make(&mut self, path: &str) {
        if let Some(cut) = path.rfind('/') {
            self.make(&path[..cut]);
        }
        if !self.entries.iter().any(|(known, _)| known == path) {
            self.entries.push((path.to_owned(), None));
        }
    }

    fn write(&mut self, path: &str, body: &[u8]) {
        if let Some(cut) = path.rfind('/') {
            self.make(&path[..cut]);
        }
        match self.entries.iter_mut().find(|(known, _)| known == path) {
            Some(entry) => entry.1 = Some(body.to_vec()),
            None => self.entries.push((path.to_owned(), Some(body.to_vec()))),
        }
    }

    fn seals(&self) -> Vec<NamespaceSeal> {
        let mut sorted = self.entries.clone();
        sorted.sort();
        sorted
            .iter()
            .enumerate()
            .map(|(inode, (path, body))| NamespaceSeal {
                relative_path: path.clone(),
                kind: match body {
                    None => NamespaceKind::Directory(directory_identity(self.device, inode as u64 + 2)),
                    Some(_) => NamespaceKind::File(file_identity(self.device, inode as u64 + 2)),
                },
                size: body.as_ref().map_or(0, |body| body.len() as u64),
                sha256: body.as_ref().map(|body| raw_sha256(body)),
            })
            .collect()
    }

    fn observe(&self) -> PhysicalObservation {
        let seals = self.seals();
        let root = directory_identity(self.device, 1);
        let folds = seals
            .iter()
            .map(|seal| FoldedPath {
                key: seal.relative_path.to_lowercase(),
                top_level_key: seal.relative_path.split('/').next().unwrap_or("").to_lowercase(),
            })
            .collect();
        let local = seals.iter().find_map(|seal| match (seal.relative_path.as_str(), seal.kind) {
            (".vault-local", NamespaceKind::Directory(identity)) => Some(identity),
            _ => None,
        });
        let private_entries = seals
            .iter()
            .filter(|seal| seal.relative_path.starts_with(".vault-local/"))
            .map(|seal| NamespaceSeal {
                relative_path: seal.relative_path[".vault-local/".len()..].to_owned(),
                kind: seal.kind,
                size: seal.size,
                sha256: seal.sha256,
            })
            .collect();
        PhysicalObservation {
            root_identity: root,
            seals,
            folds,
            private_key: ".vault-local".to_owned(),
            root_after_inventory: Some(root),
            private_state: PrivateStateObservation {
                root_before: Some(root),
                local_before: local,
                private_entries,
                root_after: Some(root),
                local_after: local,
            },
            directories_plain: true,
        }
    }

    fn manifest(&self) -> MarkerFreePhysicalManifest {
        collect_marker_free_physical_manifest(&self.observe()).ok().expect("physical manifest collects")
    }
}

fn object(kind: ObjectKind, body: &[u8]) -> ObjectRecord {
    let raw_size = body.len() as u64;
    ObjectRecord { oid: typed_object_oid(kind, raw_size, body), kind, raw_size, raw_sha256: raw_sha256(body) }
}

fn hex(oid: [u8; 20]) -> String {
    String::from_utf8(lower_hex_oid(oid).to_vec()).expect("digits are text")
}

fn canonical_commit(tree_oid: [u8; 20], timestamp: &str) -> Vec<u8> {
    let tree = hex(tree_oid);
    format!(
        "tree {tree}\nauthor Inex Repository Import <inex-import@localhost.invalid> {timestamp} +0000\ncommitter Inex Repository Import <inex-import@localhost.invalid> {timestamp} +0000\n\nInitialize encrypted Inex vault\n"
    )
    .into_bytes()
}

fn add_loose(tree: &mut Tree, record: ObjectRecord) {
    let digits = hex(record.oid);
    tree.write(&format!(".git/objects/{}/{}", &digits[..2], &digits[2..]), b"bounded compressed placeholder");
}

fn exact_fixture(device: u8, records: &[ObjectRecord], commit: FreshRootCommitEvidence) -> Tree {
    let mut tree = Tree::new(device);
    for directory in [
        ".git/objects/info",
        ".git/objects/pack",
        ".git/inex-empty-hooks",
        ".git/refs/heads",
        ".git/refs/tags",
    ] {
        tree.make(directory);
    }
    tree.write(".git/HEAD", b"ref: refs/heads/main\n");
    tree.write(".git/config", b"[core]\n\trepositoryformatversion = 0\n");
    tree.write(".git/index", b"DIRC placeholder");
    tree.write(".git/refs/heads/main", &main_ref_body(commit.commit_oid()));
    for record in records {
        add_loose(&mut tree, *record);
    }
    tree
}

fn evidence_from_records<'a>(
    physical: &'a MarkerFreePhysicalManifest,
    blobs: &[ObjectRecord],
    trees: &[ObjectRecord],
    commit: FreshRootCommitEvidence,
) -> Result<FreshGitManifest<'a>, CandidateSealError> {
    let union = canonical_object_union(blobs, trees, commit)?;
    collect_fresh_git_evidence_from_union(physical, &union, commit)
}

struct Parts {
    blob: ObjectRecord,
    tree: ObjectRecord,
    commit: FreshRootCommitEvidence,
}

fn parts() -> Parts {
    let tree = object(ObjectKind::Tree, b"");
    Parts {
        blob: object(ObjectKind::Blob, b"ciphertext"),
        tree,
        commit: parse_canonical_root_commit(&canonical_commit(tree.oid, "1784044800")).ok().expect("commit parses"),
    }
}

impl Parts {
    fn fixture(&self, device: u8) -> Tree {
        exact_fixture(device, &[self.blob, self.tree, self.commit.object_record()], self.commit)
    }

    fn error(&self, tree: &Tree) -> Option<CandidateSealError> {
        evidence_from_records(&tree.manifest(), &[self.blob], &[self.tree], self.commit).err()
    }
}

#[test]
fn exact_control_graph_projects_only_borrowed_paths() {
    let parts = parts();
    let physical = parts.fixture(1).manifest();
    let evidence = evidence_from_records(&physical, &[parts.blob, parts.blob], &[parts.tree], parts.commit)
        .ok()
        .expect("exact Git evidence collects");
    assert_eq!(evidence.objects.len(), 3);
    let text = String::from_utf8(evidence.redacted()).expect("diagnostics are text");
    assert!(text.starts_with("FreshGitManifest { physical: \"[BOUND MANIFEST]\", root_commit: \"[REDACTED]\", objects: 3"));
    assert!(evidence.objects.windows(2).all(|pair| pair[0].record.oid < pair[1].record.oid));
    let projection = evidence.project(SCHEME).ok().expect("evidence projects");
    assert_eq!(projection.head_refs.commit_oid, parts.commit.commit_oid());
    assert_eq!(projection.root_commit.tree_oid, parts.tree.oid);
    assert_eq!(projection.objects.len(), 3);
    assert_eq!(
        projection.git_control.iter().filter(|record| record.role == GitControlRole::StructuralDirectory).count(),
        6
    );
    assert!(projection
        .git_control
        .iter()
        .all(|record| !record.path.starts_with(".git/") && !record.path.starts_with('/')));
}

#[test]
fn bound_manifest_cannot_project_against_same_layout_different_identities() {
    let parts = parts();
    let first = parts.fixture(1).manifest();
    let second = parts.fixture(2).manifest();
    let bound = evidence_from_records(&first, &[parts.blob], &[parts.tree], parts.commit).ok().expect("binds");
    let projection = bound.project(SCHEME).ok().expect("bound evidence projects");
    let head = projection.git_control.iter().find(|record| record.path == "HEAD").expect("HEAD projects");
    let projected = match head.kind {
        GitControlRecordKind::File { identity, .. } => identity.0.bytes,
        GitControlRecordKind::Directory(_) => panic!("HEAD projects as file"),
    };
    let identity_of = |manifest: &MarkerFreePhysicalManifest| match manifest.find(".git/HEAD").expect("HEAD").kind {
        AuditedPhysicalKind::File { identity, .. } => identity.wire,
        AuditedPhysicalKind::Directory(_) => panic!("HEAD is file"),
    };
    assert_eq!(projected, identity_of(&first));
    assert_ne!(projected, identity_of(&second));
    assert!(bound.is_bound_to(&first));
    assert!(!bound.is_bound_to(&second));
}

#[test]
fn conflicting_oid_evidence_and_extra_control_state_are_rejected() {
    let parts = parts();
    let conflict = ObjectRecord { kind: ObjectKind::Tree, ..parts.blob };
    assert_eq!(
        canonical_object_union(&[parts.blob], &[conflict, parts.tree], parts.commit).err(),
        Some(CandidateSealError::InvalidRecord)
    );
    assert_eq!(
        canonical_object_union(&[parts.blob], &[], parts.commit).err(),
        Some(CandidateSealError::InvalidRecord)
    );
    let mut tree = parts.fixture(1);
    tree.make(".git/logs");
    assert_eq!(parts.error(&tree), Some(CandidateSealError::InvalidRecord));
}

#[test]
fn extra_unreachable_loose_object_and_nonempty_hooks_are_rejected() {
    let parts = parts();
    let mut tree = parts.fixture(1);
    add_loose(&mut tree, object(ObjectKind::Blob, b"unreachable"));
    assert_eq!(parts.error(&tree), Some(CandidateSealError::InvalidRecord));

    let mut tree = parts.fixture(1);
    tree.write(".git/inex-empty-hooks/pre-commit", b"exit 0\n");
    assert_eq!(parts.error(&tree), Some(CandidateSealError::InvalidRecord));
}

#[test]
fn pack_alternates_and_unknown_control_entries_are_rejected() {
    let parts = parts();
    for relative in [".git/objects/pack/pack-deadbeef.pack", ".git/objects/info/alternates", ".git/unknown-control"] {
        let mut tree = parts.fixture(1);
        tree.write(relative, b"forbidden\n");
        assert_eq!(parts.error(&tree), Some(CandidateSealError::InvalidRecord));
    }
}

#[test]
fn head_and_main_ref_are_bound_to_canonical_bytes() {
    let parts = parts();
    assert_eq!(parts.error(&parts.fixture(1)), None);
    let mut tree = parts.fixture(1);
    tree.write(".git/HEAD", b"ref: refs/heads/other\n");
    assert_eq!(parts.error(&tree), Some(CandidateSealError::InvalidRecord));

    let mut tree = parts.fixture(1);
    tree.write(".git/refs/heads/main", b"1111111111111111111111111111111111111111\n");
    assert_eq!(parts.error(&tree), Some(CandidateSealError::InvalidRecord));
}

/// A whole candidate: its tree, its tracked files with their classes, and its commit.
struct Candidate {
    tree: Tree,
    files: Vec<(&'static str, WorktreeClass, Vec<u8>)>,
    tree_object: ObjectRecord,
    commit_body: Vec<u8>,
    commit: FreshRootCommitEvidence,
}

fn candidate(device: u8) -> Candidate {
    let files: Vec<(&'static str, WorktreeClass, Vec<u8>)> = vec![
        (".gitattributes", WorktreeClass::ManagedMetadata, TARGET_ATTRIBUTES.as_bytes().to_vec()),
        (".gitignore", WorktreeClass::ManagedMetadata, TARGET_IGNORE.as_bytes().to_vec()),
        ("image.png.asset.enc", WorktreeClass::AssetEnvelope, vec![0, 1, 2, 0xff]),
        ("note.md.enc", WorktreeClass::MarkdownEnvelope, b"ciphertext".to_vec()),
        ("vault.json", WorktreeClass::ManagedMetadata, b"{}\n".to_vec()),
    ];
    let mut body = Vec::new();
    for (path, _, bytes) in &files {
        body.extend_from_slice(b"100644 ");
        body.extend_from_slice(path.as_bytes());
        body.push(0);
        body.extend_from_slice(&object(ObjectKind::Blob, bytes).oid);
    }
    let tree_object = object(ObjectKind::Tree, &body);
    let commit_body = canonical_commit(tree_object.oid, "0");
    let commit = parse_canonical_root_commit(&commit_body).ok().expect("canonical root commit parses");
    let mut records: Vec<ObjectRecord> =
        files.iter().map(|(_, _, bytes)| object(ObjectKind::Blob, bytes)).collect();
    records.push(tree_object);
    records.push(commit.object_record());
    let mut tree = exact_fixture(device, &records, commit);
    for (path, _, bytes) in &files {
        tree.write(path, bytes);
    }
    Candidate { tree, files, tree_object, commit_body, commit }
}

impl Candidate {
    fn files<'a>(&self, physical: &'a MarkerFreePhysicalManifest) -> FreshTrackedManifest<'a> {
        FreshTrackedManifest {
            physical,
            entries: self
                .files
                .iter()
                .map(|(path, class, bytes)| FreshTrackedEntry {
                    file: physical.find(path).expect("file is listed").id,
                    class: *class,
                    blob_oid: object(ObjectKind::Blob, bytes).oid,
                })
                .collect(),
        }
    }

    fn trees<'a>(&self, physical: &'a MarkerFreePhysicalManifest) -> FreshTreeManifest<'a> {
        FreshTreeManifest {
            physical,
            entries: vec![FreshTreeEntry {
                directory: physical.find("").expect("root is listed").id,
                tree_oid: self.tree_object.oid,
                raw_size: self.tree_object.raw_size,
                raw_sha256: self.tree_object.raw_sha256,
            }],
        }
    }

    fn git<'a>(&self, physical: &'a MarkerFreePhysicalManifest) -> FreshGitManifest<'a> {
        collect_fresh_git_evidence(physical, &self.files(physical), &self.trees(physical), self.commit)
            .ok()
            .expect("Git evidence collects")
    }

    fn seal(&self, physical: &MarkerFreePhysicalManifest) -> [u8; 32] {
        aggregate_candidate_content_seal_v1(
            context(),
            physical,
            &self.files(physical),
            &self.trees(physical),
            &self.git(physical),
        )
        .ok()
        .expect("aggregate hashes")
        .into_digest()
    }
}

fn context() -> CandidateSealContext {
    CandidateSealContext { scheme: SCHEME, scheme_wire_value: 1, publication_id: [0x71; 16] }
}

#[test]
fn one_shot_projection_matches_private_golden_encoder() {
    let candidate = candidate(1);
    let physical = candidate.tree.manifest();
    let actual = candidate.seal(&physical);
    let files = candidate.files(&physical);
    let trees = candidate.trees(&physical);
    let git = candidate.git(&physical);
    let projection = physical.project(SCHEME).ok().expect("physical projects");
    let (worktree, index) = files.project(SCHEME).ok().expect("files project");
    let tree_records = trees.project().ok().expect("trees project");
    let git_projection = git.project_for_seal(SCHEME, &files, &trees).ok().expect("Git projects");
    let expected = encode_candidate_seal_v1(
        context(),
        CandidateSealManifest {
            physical: &projection.physical,
            worktree: &worktree,
            head_refs: git_projection.head_refs,
            index: &index,
            trees: &tree_records,
            root_commit: git_projection.root_commit,
            objects: &git_projection.objects,
            git_control: &git_projection.git_control,
            private_baseline: projection.private_baseline,
        },
    )
    .expect("private golden projection hashes");
    assert_eq!(actual, expected);
    assert_ne!(expected, [0; 32]);
}

#[test]
fn same_layout_different_manifest_mix_is_rejected_by_pointer_identity() {
    let first = candidate(1);
    let second = candidate(2);
    let first_physical = first.tree.manifest();
    let second_physical = second.tree.manifest();
    assert_eq!(
        aggregate_candidate_content_seal_v1(
            context(),
            &first_physical,
            &second.files(&second_physical),
            &second.trees(&second_physical),
            &second.git(&second_physical),
        )
        .err(),
        Some(CandidateSealError::InvalidRecord)
    );
    assert_ne!(first.seal(&first_physical), second.seal(&second_physical));
}

/// Two manifests of one tree say the same, and still what stands on one is no good for the other.
#[test]
fn manifests_that_say_the_same_are_told_apart() {
    let candidate = candidate(1);
    let (first, second) = (candidate.tree.manifest(), candidate.tree.manifest());
    let (files, trees, git) = (candidate.files(&first), candidate.trees(&first), candidate.git(&first));
    let foreign = candidate.git(&second);
    assert!(files.is_bound_to(&first) && trees.is_bound_to(&first) && git.is_bound_to(&first));
    assert!(!files.is_bound_to(&second) && !trees.is_bound_to(&second) && !git.is_bound_to(&second));
    assert!(are_views_bound(&first, &files, &trees));
    assert!(!are_views_bound(&second, &files, &trees));

    let invalid = Some(CandidateSealError::InvalidRecord);
    assert!(canonical_object_union_from_views(&first, &files, &trees, candidate.commit).is_ok());
    assert_eq!(canonical_object_union_from_views(&second, &files, &trees, candidate.commit).err(), invalid);
    assert_eq!(collect_fresh_git_evidence(&second, &files, &trees, candidate.commit).err(), invalid);
    assert_eq!(git.require_exact_content_objects(&files, &trees), Ok(()));
    assert_eq!(foreign.require_exact_content_objects(&files, &trees).err(), invalid);
    assert_eq!(foreign.project_for_seal(SCHEME, &files, &trees).err(), invalid);
    assert_eq!(prove_fresh_runtime_objects(&foreign, &files, &trees, &transcript(&second, 7)).err(), Some(TAF));
    let seal = |physical, git| aggregate_candidate_content_seal_v1(context(), physical, &files, &trees, git);
    assert!(seal(&first, &git).is_ok());
    assert_eq!(seal(&first, &foreign).err(), invalid);
    assert_eq!(seal(&second, &foreign).err(), invalid);
    assert_eq!(aggregate_when(false, context(), &first, &files, &trees, &git).err(), invalid);
}

/// A part of the control directory is counted once; a second one changes nothing.
#[test]
fn a_refused_part_of_the_control_directory_leaves_the_tally() {
    let mut tally = ControlTally::new();
    let slots = || {
        [ControlSlot::Head, ControlSlot::Index, ControlSlot::Scaffold(3), ControlSlot::Hooks, ControlSlot::Fanout(0xab)]
    };
    for slot in slots() {
        assert_eq!(tally.mark(slot), Ok(()));
    }
    let before = (tally.fixed_files, tally.structural_directories, tally.hooks, tally.fanout.clone(), tally.loose_objects);
    for slot in slots() {
        assert_eq!(tally.mark(slot), Err(CandidateSealError::InvalidRecord));
    }
    let after = (tally.fixed_files, tally.structural_directories, tally.hooks, tally.fanout.clone(), tally.loose_objects);
    assert_eq!(before, after);
    assert_eq!(tally.mark(ControlSlot::Config), Ok(()));
}

#[test]
fn forged_git_object_union_is_rejected_against_opaque_content_views() {
    let candidate = candidate(1);
    let physical = candidate.tree.manifest();
    let mut git = candidate.git(&physical);
    git.objects[0].record.raw_sha256[0] ^= 0xff;
    assert_eq!(
        aggregate_candidate_content_seal_v1(
            context(),
            &physical,
            &candidate.files(&physical),
            &candidate.trees(&physical),
            &git,
        )
        .err(),
        Some(CandidateSealError::InvalidRecord)
    );
}

#[test]
fn content_seal_debug_never_reveals_digest_or_paths() {
    let candidate = candidate(1);
    let physical = candidate.tree.manifest();
    let seal = aggregate_candidate_content_seal_v1(
        context(),
        &physical,
        &candidate.files(&physical),
        &candidate.trees(&physical),
        &candidate.git(&physical),
    )
    .ok()
    .expect("aggregate hashes");
    let digest: String = seal.into_digest().iter().map(|byte| format!("{byte:02x}")).collect();
    let debug = seal.redacted();
    assert_eq!(debug, "CandidateContentSeal(\"[REDACTED]\")");
    assert!(!debug.contains(&digest));
    assert!(!debug.contains("note.md.enc"));
}

fn runner_root(physical: &MarkerFreePhysicalManifest) -> RunnerRootObservation {
    RunnerRootObservation { target: true, identity: Some(physical.root_identity), binding_holds: true }
}

fn transcript(physical: &MarkerFreePhysicalManifest, objects: usize) -> RuntimeBatchTranscript {
    RuntimeBatchTranscript {
        root_before: runner_root(physical),
        started: Ok(()),
        replies: vec![Ok(()); objects],
        finish: Ok(()),
        root_after: runner_root(physical),
    }
}

/// The proof is bound to its manifest, shows only its count, and has no copy: `into_count` takes it.
#[test]
fn proof_debug_is_redacted_and_not_cloneable_by_contract() {
    let candidate = candidate(1);
    let physical = candidate.tree.manifest();
    let git = candidate.git(&physical);
    let files = candidate.files(&physical);
    let trees = candidate.trees(&physical);
    let proof = prove_fresh_runtime_objects(&git, &files, &trees, &transcript(&physical, 7)).ok().expect("proof");
    let debug = String::from_utf8(proof.redacted()).expect("diagnostics are text");
    assert_eq!(debug, "FreshRuntimeObjectProof { git: \"[BOUND MANIFEST]\", verified_objects: 7, .. }");
    assert!(proof.is_bound_to(&physical));
    assert_eq!(proof.checked_object_count(), Ok(7));

    let foreign = candidate.tree.manifest();
    assert!(!proof.is_bound_to(&foreign));
    let mut moved = transcript(&physical, 7);
    moved.root_after.binding_holds = false;
    assert_eq!(prove_fresh_runtime_objects(&git, &files, &trees, &moved).err(), Some(TAF));
    let short = transcript(&physical, 6);
    assert_eq!(prove_fresh_runtime_objects(&git, &files, &trees, &short).err(), Some(TAF));
}

fn marker(seal: [u8; 32]) -> PublicationMarker<'static> {
    PublicationMarker {
        domain: DOMAIN,
        context: context(),
        candidate_seal: seal,
        staging_child_name: ".inex-import-staging-0123456789abcdef0123456789abcdef",
        destination_child_name: "notes",
        common_parent: directory_identity(1, 99),
    }
}

fn sighting<'a>(candidate: &Candidate, physical: &'a MarkerFreePhysicalManifest) -> FreshAuditSighting<'a> {
    FreshAuditSighting {
        root: Ok(()),
        marker_current: true,
        physical: Ok(physical),
        runner: Ok(()),
        root_commit: Ok(candidate.commit),
        files: Ok(candidate.files(physical).entries),
        trees: Ok(candidate.trees(physical).entries),
        closing: FreshAuditClosing {
            transcript: transcript(physical, 7),
            counts: Ok((5, 1, 1)),
            current_exact: Ok(()),
        },
    }
}

#[test]
fn real_fresh_audit_returns_exact_fixed_summary_and_redacts_debug() {
    let candidate = candidate(1);
    let physical = candidate.tree.manifest();
    let seal = candidate.seal(&physical);
    let audit = audit_fresh_marker_candidate(&marker(seal), sighting(&candidate, &physical)).ok().expect("passes");
    assert_eq!(audit.content_seal(), seal);
    assert_eq!(audit.context().publication_id, [0x71; 16]);
    assert_eq!(audit.worktree_files(), 5);
    assert_eq!(audit.encrypted_markdown(), 1);
    assert_eq!(audit.encrypted_assets(), 1);
    assert_eq!(audit.git_objects(), 7);
    assert_eq!(audit.root_commit_oid(), candidate.commit.commit_oid());
    let debug = String::from_utf8(audit.redacted()).expect("diagnostics are text");
    assert!(debug.contains("worktree_files: 5, encrypted_markdown: 1, encrypted_assets: 1, git_objects: 7"));
    assert!(!debug.contains(&hex(candidate.commit.commit_oid())));
}

#[test]
fn final_exact_rejects_equal_length_post_aggregate_rewrite_and_keeps_marker() {
    let candidate = candidate(1);
    let physical = candidate.tree.manifest();
    let mut seen = sighting(&candidate, &physical);
    seen.closing.current_exact = Err(TAF);
    assert_eq!(audit_fresh_marker_candidate(&marker(candidate.seal(&physical)), seen).err(), Some(TAF));
}

#[test]
fn wrong_domain_returns_before_runner_construction() {
    let candidate = candidate(1);
    let physical = candidate.tree.manifest();
    let mut foreign = marker(candidate.seal(&physical));
    foreign.domain = "inex.other.v1";
    let mut seen = sighting(&candidate, &physical);
    seen.runner = Err(RepositoryImportError::GitExecutableUnavailable);
    assert_eq!(audit_fresh_marker_candidate(&foreign, seen).err(), Some(TAF));
    let mut seen = sighting(&candidate, &physical);
    seen.marker_current = false;
    assert_eq!(audit_fresh_marker_candidate(&marker(candidate.seal(&physical)), seen).err(), Some(TAF));
}

#[test]
fn wrong_and_non_32_byte_seals_fail_without_removing_marker() {
    let candidate = candidate(1);
    let physical = candidate.tree.manifest();
    let mut wrong = candidate.seal(&physical);
    wrong[31] ^= 1;
    for seal in [wrong, [0; 32]] {
        assert_eq!(audit_fresh_marker_candidate(&marker(seal), sighting(&candidate, &physical)).err(), Some(TAF));
    }
}

#[test]
fn changed_publication_id_with_old_seal_fails_without_removing_marker() {
    let candidate = candidate(1);
    let physical = candidate.tree.manifest();
    let mut changed = marker(candidate.seal(&physical));
    changed.context.publication_id = [0x72; 16];
    assert_eq!(audit_fresh_marker_candidate(&changed, sighting(&candidate, &physical)).err(), Some(TAF));
}

#[test]
fn missing_executable_and_config_failure_are_preserved() {
    let candidate = candidate(1);
    let physical = candidate.tree.manifest();
    let seal = candidate.seal(&physical);
    for error in [RepositoryImportError::GitExecutableUnavailable, RepositoryImportError::UnsafeTarget] {
        let mut seen = sighting(&candidate, &physical);
        seen.runner = Err(error);
        assert_eq!(audit_fresh_marker_candidate(&marker(seal), seen).err(), Some(error));
    }
    let failed = RepositoryImportError::GitCommandFailed { operation: RepositoryGitOperation::AuditTarget };
    let mut seen = sighting(&candidate, &physical);
    seen.root_commit = Err(failed);
    assert_eq!(audit_fresh_marker_candidate(&marker(seal), seen).err(), Some(failed));
    let mut seen = sighting(&candidate, &physical);
    seen.files = Err(CandidateSealError::ResourceLimit);
    assert_eq!(
        audit_fresh_marker_candidate(&marker(seal), seen).err(),
        Some(RepositoryImportError::ResourceLimit)
    );
}

#[test]
fn runtime_object_command_failure_is_preserved() {
    let candidate = candidate(1);
    let physical = candidate.tree.manifest();
    let seal = candidate.seal(&physical);
    let failed = RepositoryImportError::GitCommandFailed { operation: RepositoryGitOperation::AuditTarget };
    let mut seen = sighting(&candidate, &physical);
    seen.closing.transcript.finish = Err(failed);
    assert_eq!(audit_fresh_marker_candidate(&marker(seal), seen).err(), Some(failed));
    let mut seen = sighting(&candidate, &physical);
    seen.closing.transcript.started = Err(failed);
    assert_eq!(audit_fresh_marker_candidate(&marker(seal), seen).err(), Some(failed));
}

/// A summary has a fixed size: two context numbers, two digests, an id and four counts.
#[test]
fn production_api_is_narrow_fixed_size_and_non_clone() {
    let candidate = candidate(1);
    let physical = candidate.tree.manifest();
    let seal = candidate.seal(&physical);
    let small = audit_fresh_marker_candidate(&marker(seal), sighting(&candidate, &physical)).ok().expect("passes");
    assert!(std::mem::size_of_val(&small) <= 96);
}

#[derive(Debug, Clone, Copy, PartialEq)]
enum LockFailure {
    Busy,
    Unsupported,
    UnsafeLock,
    IdentityMismatch,
}

struct Root;
#[derive(Debug, PartialEq)]
struct Lock(u8);

fn target(candidate: &Candidate) -> TargetRepository {
    TargetRepository {
        root_identity: directory_identity(candidate.tree.device, 1),
        root_commit_oid: hex(candidate.commit.commit_oid()),
        root_tree_oid: hex(candidate.tree_object.oid),
        entries: Vec::new(),
        tree_oids: TextMap::new(),
        object_ids: TextMap::new(),
        git_control: Vec::new(),
        private_control: Vec::new(),
        commit_bytes: WipedBytes::new(candidate.commit_body.clone()),
    }
}

fn initial<'a>(
    candidate: &Candidate,
    physical: &'a MarkerFreePhysicalManifest,
) -> InitialSighting<'a, Root, Lock, LockFailure> {
    InitialSighting {
        root: Ok("/staging/candidate".to_owned()),
        physical: Ok(physical),
        held_root: Some(HeldRoot { handle: Root, identity: physical.root_identity }),
        sole_stream_before: true,
        sole_stream_under_lock: true,
        lock: Ok(Lock(3)),
        lock_current: Ok(()),
        exact_under_lock: Ok(()),
        git_found: true,
        runner: Ok(()),
        files: Ok(candidate.files(physical).entries),
        trees: Ok(candidate.trees(physical).entries),
        closing: InitialClosing {
            vault: Ok(()),
            profile: Ok(()),
            transcript: transcript(physical, 7),
            sole_stream_at_end: true,
            lock_current_at_end: Ok(()),
            exact_at_end: Ok(()),
        },
    }
}

fn refused(
    target: &TargetRepository,
    seen: InitialSighting<'_, Root, Lock, LockFailure>,
) -> InitialCandidateAuthorityError<LockFailure> {
    acquire_initial_candidate_authority(target, context(), seen).err().expect("no authority")
}

#[test]
fn real_runtime_authority_holds_exact_lock_until_drop_and_is_redacted() {
    let candidate = candidate(1);
    let physical = candidate.tree.manifest();
    let authority =
        acquire_initial_candidate_authority(&target(&candidate), context(), initial(&candidate, &physical))
            .ok()
            .expect("authority");
    assert_eq!(authority.root, "/staging/candidate");
    assert_eq!(authority.mutation_lock, Lock(3));
    assert_eq!(authority.content_seal.into_digest(), candidate.seal(&physical));
    assert_eq!(authority.root_commit.commit_oid(), candidate.commit.commit_oid());
    assert_eq!(authority.content_seal.redacted(), "CandidateContentSeal(\"[REDACTED]\")");
    assert!(authority.redacted().contains("mutation_lock: \"[HELD]\""));
    assert!(!authority.redacted().contains("/staging"));
}

#[test]
fn failures_of_the_initial_authority_have_scrubbed_texts() {
    let lock = InitialCandidateAuthorityError::Lock(LockFailure::Busy);
    assert_eq!(lock.message(), "initial repository candidate mutation lock failed");
    let candidate: InitialCandidateAuthorityError<LockFailure> =
        InitialCandidateAuthorityError::Candidate(CandidateSealError::InvalidContext);
    assert_eq!(candidate.message(), "repository candidate-seal context is invalid");
    let repository: InitialCandidateAuthorityError<LockFailure> = InitialCandidateAuthorityError::Repository(TAF);
    assert_eq!(repository.message(), "the target Git repository failed its independent audit");
}

#[test]
fn wrong_target_root_vault_root_and_profile_never_produce_authority() {
    let candidate = candidate(1);
    let physical = candidate.tree.manifest();
    let mut foreign = target(&candidate);
    foreign.root_identity = directory_identity(2, 1);
    assert!(matches!(
        refused(&foreign, initial(&candidate, &physical)),
        InitialCandidateAuthorityError::Candidate(CandidateSealError::InvalidContext)
    ));
    let mut seen = initial(&candidate, &physical);
    seen.held_root = Some(HeldRoot { handle: Root, identity: directory_identity(2, 1) });
    assert!(matches!(
        refused(&target(&candidate), seen),
        InitialCandidateAuthorityError::Candidate(CandidateSealError::InvalidContext)
    ));
    let mut seen = initial(&candidate, &physical);
    seen.closing.vault = Err(InitialCandidateAuthorityError::Candidate(CandidateSealError::InvalidContext));
    assert!(matches!(
        refused(&target(&candidate), seen),
        InitialCandidateAuthorityError::Candidate(CandidateSealError::InvalidContext)
    ));
    let mut seen = initial(&candidate, &physical);
    seen.closing.profile = Err(InitialCandidateAuthorityError::Candidate(CandidateSealError::InvalidRecord));
    assert!(matches!(
        refused(&target(&candidate), seen),
        InitialCandidateAuthorityError::Candidate(CandidateSealError::InvalidRecord)
    ));
}

#[test]
fn wrong_target_commit_manifest_is_rejected_inside_lock_scope() {
    let candidate = candidate(1);
    let physical = candidate.tree.manifest();
    let mut changed = target(&candidate);
    changed.root_commit_oid = "1111111111111111111111111111111111111111".to_owned();
    assert!(matches!(
        refused(&changed, initial(&candidate, &physical)),
        InitialCandidateAuthorityError::Candidate(CandidateSealError::InvalidRecord)
    ));
    let mut malformed = target(&candidate);
    malformed.root_commit_oid = "not an id".to_owned();
    assert!(matches!(
        refused(&malformed, initial(&candidate, &physical)),
        InitialCandidateAuthorityError::Repository(TAF)
    ));
    let mut trailing = target(&candidate);
    trailing.commit_bytes.append(b"\n");
    assert!(matches!(
        refused(&trailing, initial(&candidate, &physical)),
        InitialCandidateAuthorityError::Candidate(CandidateSealError::InvalidRecord)
    ));
}

#[test]
fn already_busy_lock_is_returned_without_mutation() {
    let candidate = candidate(1);
    let physical = candidate.tree.manifest();
    for failure in [
        LockFailure::Busy,
        LockFailure::Unsupported,
        LockFailure::UnsafeLock,
        LockFailure::IdentityMismatch,
    ] {
        let mut seen = initial(&candidate, &physical);
        seen.lock = Err(failure);
        assert!(matches!(
            refused(&target(&candidate), seen),
            InitialCandidateAuthorityError::Lock(kept) if kept == failure
        ));
        let mut seen = initial(&candidate, &physical);
        seen.closing.lock_current_at_end = Err(failure);
        assert!(matches!(
            refused(&target(&candidate), seen),
            InitialCandidateAuthorityError::Lock(kept) if kept == failure
        ));
    }
}

#[test]
fn persistent_post_runtime_tamper_is_rejected_by_final_physical_exact() {
    let candidate = candidate(1);
    let physical = candidate.tree.manifest();
    let mut seen = initial(&candidate, &physical);
    seen.closing.exact_at_end = Err(TAF);
    assert!(matches!(refused(&target(&candidate), seen), InitialCandidateAuthorityError::Repository(TAF)));
    let mut seen = initial(&candidate, &physical);
    seen.closing.sole_stream_at_end = false;
    assert!(matches!(refused(&target(&candidate), seen), InitialCandidateAuthorityError::Repository(TAF)));
}

#[test]
fn existing_marker_is_rejected_before_lock_and_left_byte_exact() {
    let candidate = candidate(1);
    let mut marked = candidate.tree.clone();
    marked.write(".vault-local/import-publish.v1", b"marker");
    assert_eq!(collect_marker_free_physical_manifest(&marked.observe()).err(), Some(TAF));
    let physical = candidate.tree.manifest();
    let mut seen = initial(&candidate, &physical);
    seen.physical = Err(TAF);
    seen.lock = Err(LockFailure::Busy);
    assert!(matches!(refused(&target(&candidate), seen), InitialCandidateAuthorityError::Repository(TAF)));
}

#[test]
fn production_constructor_matches_tested_implementation() {
    let candidate = candidate(1);
    let physical = candidate.tree.manifest();
    let mut seen = initial(&candidate, &physical);
    seen.git_found = false;
    assert!(matches!(
        refused(&target(&candidate), seen),
        InitialCandidateAuthorityError::Repository(RepositoryImportError::GitExecutableUnavailable)
    ));
    // The order of the checks: what is seen first decides.
    let mut seen = initial(&candidate, &physical);
    seen.root = Err(RepositoryImportError::UnsafeTarget);
    seen.lock = Err(LockFailure::Busy);
    seen.closing.exact_at_end = Err(TAF);
    assert!(matches!(
        refused(&target(&candidate), seen),
        InitialCandidateAuthorityError::Repository(RepositoryImportError::UnsafeTarget)
    ));
}

fn record_id(physical: &MarkerFreePhysicalManifest, path: &str) -> PhysicalRecordId {
    physical.find(path).expect("fixture record exists").id
}

fn held_directory(physical: &MarkerFreePhysicalManifest, path: &str) -> HeldDirectoryObservation {
    match physical.find(path).expect("directory is listed").kind {
        AuditedPhysicalKind::Directory(identity) => HeldDirectoryObservation { identity, streams_clean: true },
        AuditedPhysicalKind::File { .. } => panic!("a directory"),
    }
}

fn held_file(physical: &MarkerFreePhysicalManifest, path: &str) -> HeldFileObservation {
    match physical.find(path).expect("file is listed").kind {
        AuditedPhysicalKind::File { identity, size, .. } => {
            HeldFileObservation { identity: Some(identity), length: Some(size), streams_clean: true }
        },
        AuditedPhysicalKind::Directory(_) => panic!("a file"),
    }
}

fn ancestors(path: &str) -> Vec<&str> {
    path.match_indices('/').map(|(cut, _)| &path[..cut]).collect()
}

fn snapshot_reading(physical: &MarkerFreePhysicalManifest, path: &str, body: &[u8]) -> HeldSnapshotReading {
    let mut children: Vec<HeldChild> =
        ancestors(path).iter().map(|parent| HeldChild::Directory(held_directory(physical, parent))).collect();
    children.push(HeldChild::File);
    HeldSnapshotReading {
        root: held_directory(physical, ""),
        children,
        reading: HeldBodyReading {
            before: held_file(physical, path),
            body: WipedBytes::new(body.to_vec()),
            more: false,
            after: held_file(physical, path),
        },
    }
}

fn snapshot_recheck(physical: &MarkerFreePhysicalManifest, path: &str) -> HeldSnapshotRecheck {
    HeldSnapshotRecheck {
        file: held_file(physical, path),
        ancestors: ancestors(path).iter().map(|parent| held_directory(physical, parent)).collect(),
        root: held_directory(physical, ""),
    }
}

const INDEX: &str = ".git/index";
const CONFIG: &str = ".git/config";
const MAIN: &str = ".git/refs/heads/main";
const MAIN_REF: &[u8; 41] = b"aaaaaaaaaaaaaaaaaaaaaaaaaaaaaaaaaaaaaaaa\n";

fn control_fixture(device: u8, index: &[u8], main: &[u8]) -> Tree {
    let mut tree = Tree::new(device);
    tree.write(INDEX, index);
    tree.write(CONFIG, b"config");
    tree.write(MAIN, main);
    tree
}

#[test]
fn exact_index_and_config_snapshots_borrow_bytes_and_redact_debug() {
    let body = b"DIRC\0private-index-body";
    let physical = control_fixture(1, body, MAIN_REF).manifest();
    let seen = snapshot_reading(&physical, INDEX, body);
    let (_, snapshot) = with_held_target_index_snapshot(&physical, &seen).ok().expect("exact held index succeeds");
    assert!(snapshot.is_bound_to(&physical));
    assert_eq!(snapshot.role(), GitControlRole::Index);
    assert_eq!(snapshot.bytes(), body);
    let seen = snapshot_reading(&physical, CONFIG, b"config");
    let (_, snapshot) = with_held_target_config_snapshot(&physical, &seen).ok().expect("exact held config succeeds");
    assert_eq!(snapshot.role(), GitControlRole::Config);
    assert_eq!(snapshot.bytes(), b"config");
}

#[test]
fn fresh_target_main_ref_accepts_only_the_exact_branded_record() {
    let physical = control_fixture(1, b"index", MAIN_REF).manifest();
    let main_ref = collect_fresh_target_main_ref(
        &physical,
        &snapshot_reading(&physical, MAIN, MAIN_REF),
        &snapshot_recheck(&physical, MAIN),
    )
    .ok()
    .expect("canonical fresh-target main ref collects");
    assert!(main_ref.is_bound_to(&physical));
    assert_eq!(main_ref.record, record_id(&physical, MAIN));
    assert_eq!(main_ref.commit_oid(), [0xaa; 20]);
    let debug = main_ref.redacted();
    assert!(debug.contains("FreshTargetMainRef"));
    assert!(debug.contains("[REDACTED]"));
    assert!(!debug.contains("aaaaaaaa"));
    assert!(!debug.contains("170"));
}

#[test]
fn fresh_target_main_ref_rejects_noncanonical_bodies_and_kind() {
    for body in [
        b"0000000000000000000000000000000000000000\n".as_slice(),
        b"AAAAAAAAAAAAAAAAAAAAAAAAAAAAAAAAAAAAAAAA\n".as_slice(),
        b"gaaaaaaaaaaaaaaaaaaaaaaaaaaaaaaaaaaaaaaa\n".as_slice(),
        b"aaaaaaaaaaaaaaaaaaaaaaaaaaaaaaaaaaaaaaa\n".as_slice(),
        b"aaaaaaaaaaaaaaaaaaaaaaaaaaaaaaaaaaaaaaaaa\n".as_slice(),
        b"aaaaaaaaaaaaaaaaaaaaaaaaaaaaaaaaaaaaaaaa\r\n".as_slice(),
        b"aaaaaaaaaaaaaaaaaaaaaaaaaaaaaaaaaaaaaaaa\n!".as_slice(),
        b"aaaaaaaaaaaaaaaaaaaaaaaaaaaaaaaaaaaaaaaa".as_slice(),
    ] {
        let physical = control_fixture(1, b"index", body).manifest();
        assert!(collect_fresh_target_main_ref(
            &physical,
            &snapshot_reading(&physical, MAIN, body),
            &snapshot_recheck(&physical, MAIN),
        )
        .is_err());
    }
    let mut tree = Tree::new(1);
    tree.make(MAIN);
    let physical = tree.manifest();
    assert_eq!(exact_file_id(&physical, MAIN).err(), Some(CandidateSealError::InvalidRecord));
}

#[test]
fn fresh_target_main_ref_rejects_pre_collection_hash_and_identity_drift() {
    let physical = control_fixture(1, b"index", MAIN_REF).manifest();
    let rewritten = snapshot_reading(&physical, MAIN, b"bbbbbbbbbbbbbbbbbbbbbbbbbbbbbbbbbbbbbbbb\n");
    let recheck = snapshot_recheck(&physical, MAIN);
    assert_eq!(
        collect_fresh_target_main_ref(&physical, &rewritten, &recheck).err(),
        Some(CandidateSealError::InvalidRecord)
    );
    let mut replaced = snapshot_reading(&physical, MAIN, MAIN_REF);
    replaced.reading.before.identity = Some(file_identity(1, 999));
    assert_eq!(
        collect_fresh_target_main_ref(&physical, &replaced, &recheck).err(),
        Some(CandidateSealError::InvalidRecord)
    );
}

#[test]
fn fresh_target_main_ref_brand_is_manifest_allocation_specific() {
    let first = control_fixture(1, b"index", MAIN_REF).manifest();
    let second = control_fixture(2, b"index", MAIN_REF).manifest();
    let main_ref = collect_fresh_target_main_ref(
        &first,
        &snapshot_reading(&first, MAIN, MAIN_REF),
        &snapshot_recheck(&first, MAIN),
    )
    .ok()
    .expect("first branded main ref collects");
    assert!(main_ref.is_bound_to(&first));
    assert!(!main_ref.is_bound_to(&second));
    assert_eq!(
        collect_fresh_target_main_ref(
            &first,
            &snapshot_reading(&second, MAIN, MAIN_REF),
            &snapshot_recheck(&second, MAIN),
        )
        .err(),
        Some(CandidateSealError::InvalidRecord)
    );
}

#[test]
fn fresh_target_main_ref_rejects_callback_namespace_drift() {
    let physical = control_fixture(1, b"index", MAIN_REF).manifest();
    let seen = snapshot_reading(&physical, MAIN, MAIN_REF);
    let mut replaced = snapshot_recheck(&physical, MAIN);
    replaced.file.identity = Some(file_identity(1, 999));
    assert_eq!(
        collect_fresh_target_main_ref(&physical, &seen, &replaced).err(),
        Some(CandidateSealError::InvalidRecord)
    );
    let mut rebound = snapshot_recheck(&physical, MAIN);
    rebound.ancestors[1].identity = directory_identity(1, 999);
    assert_eq!(
        collect_fresh_target_main_ref(&physical, &seen, &rebound).err(),
        Some(CandidateSealError::InvalidRecord)
    );
}

#[test]
fn exact_limit_succeeds_and_one_byte_over_fails_closed() {
    let physical = control_fixture(1, b"12345", MAIN_REF).manifest();
    let id = record_id(&physical, INDEX);
    let seen = snapshot_reading(&physical, INDEX, b"12345");
    let state = capture_held_physical_snapshot(&physical, id, 5, &seen)
        .ok()
        .expect("exact maximum is accepted and EOF is proved");
    let bound = release_held_value(&physical, &state, &snapshot_recheck(&physical, INDEX), Ok(()))
        .ok()
        .expect("the snapshot holds still");
    assert!(bound.is_bound_to(&physical));
    assert_eq!(
        capture_held_physical_snapshot(&physical, id, 4, &seen).err(),
        Some(CandidateSealError::ResourceLimit)
    );
}

#[test]
fn extra_probe_rejects_append_after_exact_read() {
    let physical = control_fixture(1, b"12345", MAIN_REF).manifest();
    let id = record_id(&physical, INDEX);
    let mut seen = snapshot_reading(&physical, INDEX, b"12345");
    seen.reading.more = true;
    assert_eq!(
        capture_held_physical_snapshot(&physical, id, 5, &seen).err(),
        Some(CandidateSealError::InvalidRecord)
    );
}

#[test]
fn missing_role_path_and_directory_kind_are_rejected() {
    let mut tree = Tree::new(1);
    tree.write(CONFIG, b"config");
    let physical = tree.manifest();
    let seen = snapshot_reading(&physical, CONFIG, b"config");
    assert_eq!(
        with_held_target_index_snapshot(&physical, &seen).err(),
        Some(CandidateSealError::InvalidRecord)
    );
    let git = record_id(&physical, ".git");
    assert_eq!(
        capture_held_physical_snapshot(&physical, git, 5, &seen).err(),
        Some(CandidateSealError::InvalidRecord)
    );
    let beyond = PhysicalRecordId(physical.records.len());
    assert_eq!(
        capture_held_physical_snapshot(&physical, beyond, 5, &seen).err(),
        Some(CandidateSealError::InvalidRecord)
    );
}

#[test]
fn same_layout_snapshots_reject_a_different_manifest_brand() {
    let first = control_fixture(1, b"12345", MAIN_REF).manifest();
    let second = control_fixture(1, b"12345", MAIN_REF).manifest();
    let seen = snapshot_reading(&first, INDEX, b"12345");
    let state = capture_held_physical_snapshot(&first, record_id(&first, INDEX), 5, &seen).ok().expect("captures");
    let bound = release_held_value(&first, &state, &snapshot_recheck(&first, INDEX), Ok(7)).ok().expect("releases");
    assert!(!bound.is_bound_to(&second));
    assert_eq!(bound.into_inner(&second).err(), Some(CandidateSealError::InvalidRecord));
    let bound = release_held_value(&first, &state, &snapshot_recheck(&first, INDEX), Ok(7)).ok().expect("releases");
    assert_eq!(bound.into_inner(&first), Ok(7));
}

/// Every handle of a snapshot is checked for other streams: the root, each ancestor and the file, before
/// and after.
#[test]
fn held_snapshot_source_keeps_handle_only_ads_checks() {
    let physical = control_fixture(1, b"index", MAIN_REF).manifest();
    let recheck = snapshot_recheck(&physical, MAIN);
    let collect = |seen: &HeldSnapshotReading, recheck: &HeldSnapshotRecheck| {
        collect_fresh_target_main_ref(&physical, seen, recheck).err()
    };
    let refused = Some(CandidateSealError::InvalidRecord);
    assert_eq!(collect(&snapshot_reading(&physical, MAIN, MAIN_REF), &recheck), None);

    let mut seen = snapshot_reading(&physical, MAIN, MAIN_REF);
    seen.root.streams_clean = false;
    assert_eq!(collect(&seen, &recheck), refused);
    for k in 0..3 {
        let mut seen = snapshot_reading(&physical, MAIN, MAIN_REF);
        if let HeldChild::Directory(directory) = &mut seen.children[k] {
            directory.streams_clean = false;
        }
        assert_eq!(collect(&seen, &recheck), refused);
    }
    let mut seen = snapshot_reading(&physical, MAIN, MAIN_REF);
    seen.reading.before.streams_clean = false;
    assert_eq!(collect(&seen, &recheck), refused);
    let mut seen = snapshot_reading(&physical, MAIN, MAIN_REF);
    seen.reading.after.streams_clean = false;
    assert_eq!(collect(&seen, &recheck), refused);

    let seen = snapshot_reading(&physical, MAIN, MAIN_REF);
    let mut after = snapshot_recheck(&physical, MAIN);
    after.file.streams_clean = false;
    assert_eq!(collect(&seen, &after), refused);
    let mut after = snapshot_recheck(&physical, MAIN);
    after.ancestors[2].streams_clean = false;
    assert_eq!(collect(&seen, &after), refused);
    let mut after = snapshot_recheck(&physical, MAIN);
    after.root.streams_clean = false;
    assert_eq!(collect(&seen, &after), refused);
}

/// Walk a tree against a manifest, as a fresh look at it would.
fn revalidate(manifest: &MarkerFreePhysicalManifest, tree: &Tree) -> Result<(), RepositoryImportError> {
    let mut walk = begin_current_walk(manifest, &directory_identity(tree.device, 1))?;
    let seals = tree.seals();
    let mut ids: Vec<(String, PhysicalRecordId)> = vec![(String::new(), record_id(manifest, ""))];
    walk.enter_directory(manifest, ids[0].1, 0)?;
    for seal in &seals {
        let (parent, name) = match seal.relative_path.rfind('/') {
            Some(cut) => (&seal.relative_path[..cut], &seal.relative_path[cut + 1..]),
            None => ("", seal.relative_path.as_str()),
        };
        let parent_id = ids.iter().find(|(path, _)| path == parent).expect("parents come first").1;
        let id = walk.visit_child(manifest, parent_id, name)?;
        match seal.kind {
            NamespaceKind::Directory(identity) => {
                match_directory(manifest, id, &identity)?;
                walk.enter_directory(manifest, id, seal.relative_path.matches('/').count() + 1)?;
                ids.push((seal.relative_path.clone(), id));
            },
            NamespaceKind::File(identity) => {
                match_file(manifest, id, &identity, seal.size, &seal.sha256.expect("files have digests"))?;
            },
        }
    }
    walk.require_current_exact(manifest)
}

#[test]
fn exact_revalidation_accepts_unchanged_and_rejects_post_baseline_addition() {
    let candidate = candidate(1);
    let manifest = candidate.tree.manifest();
    assert_eq!(revalidate(&manifest, &candidate.tree), Ok(()));
    let mut added = candidate.tree.clone();
    added.write("zzz.md.enc", b"late");
    assert_eq!(revalidate(&manifest, &added), Err(TAF));
}

#[test]
fn exact_revalidation_rejects_post_baseline_deletion() {
    let candidate = candidate(1);
    let manifest = candidate.tree.manifest();
    let mut deleted = candidate.tree.clone();
    deleted.entries.retain(|(path, _)| path != "vault.json");
    assert_eq!(revalidate(&manifest, &deleted), Err(TAF));
}

#[test]
fn exact_revalidation_rejects_same_inode_body_change() {
    let candidate = candidate(1);
    let manifest = candidate.tree.manifest();
    let mut changed = candidate.tree.clone();
    changed.write("note.md.enc", b"CIPHERTEXT");
    assert_eq!(revalidate(&manifest, &changed), Err(TAF));
}

#[test]
fn exact_revalidation_rejects_directory_identity_change() {
    let candidate = candidate(1);
    let manifest = candidate.tree.manifest();
    let mut moved = candidate.tree.clone();
    moved.device = 2;
    assert_eq!(revalidate(&manifest, &moved), Err(TAF));
}

#[test]
fn a_record_is_compared_with_the_path_of_a_child() {
    expect_order("d00/d01/d02", std::cmp::Ordering::Equal);
    expect_order("d00/d01/d01", std::cmp::Ordering::Less);
    expect_order("d00/d01", std::cmp::Ordering::Less);
    expect_order("d00/d01/d02/x", std::cmp::Ordering::Greater);
    expect_order("d00/d010", std::cmp::Ordering::Greater);
    assert_eq!(compare_record_path_to_child("d00", "", "d00"), std::cmp::Ordering::Equal);
}

fn expect_order(record_path: &str, expected: std::cmp::Ordering) {
    assert_eq!(compare_record_path_to_child(record_path, "d00/d01", "d02"), expected);
}

#[test]
fn a_child_is_visited_once() {
    let candidate = candidate(1);
    let manifest = candidate.tree.manifest();
    let mut walk =
        begin_current_walk(&manifest, &directory_identity(1, 1)).ok().expect("the root is the same");
    let root = record_id(&manifest, "");
    assert_eq!(walk.visit_child(&manifest, root, "vault.json"), Ok(record_id(&manifest, "vault.json")));
    assert_eq!(walk.require_current_exact(&manifest), Err(TAF));
    assert_eq!(walk.visit_child(&manifest, root, "vault.json").err(), Some(TAF));
    let mut walk =
        begin_current_walk(&manifest, &directory_identity(1, 1)).ok().expect("the root is the same");
    assert_eq!(walk.visit_child(&manifest, root, "unknown").err(), Some(TAF));
}

/// The events of a walk over a directory of a tree and everything below it.
fn walk_directory(seals: &[NamespaceSeal], directory: &str, events: &mut Vec<TreeEvent<SeenChild>>) {
    let prefix = if directory.is_empty() { String::new() } else { format!("{directory}/") };
    for seal in seals {
        let name = match seal.relative_path.strip_prefix(prefix.as_str()) {
            Some(name) if !name.contains('/') => name,
            _ => continue,
        };
        match seal.kind {
            NamespaceKind::Directory(identity) => {
                let child = SeenChild::Directory { identity, plain: true };
                events.push(TreeEvent::Child { name: Some(name.to_owned()), child });
                walk_directory(seals, &seal.relative_path, events);
            },
            NamespaceKind::File(identity) => {
                let sha256 = seal.sha256.expect("files have digests");
                let hashed = Ok(HashedFile { identity, size: seal.size, sha256 });
                let child = SeenChild::File { plain: true, hashed };
                events.push(TreeEvent::Child { name: Some(name.to_owned()), child });
            },
        }
    }
    events.push(TreeEvent::Leave { holds: true });
}

fn current(tree: &Tree) -> CurrentSighting {
    let mut events = Vec::new();
    walk_directory(&tree.seals(), "", &mut events);
    CurrentSighting { root: Ok(directory_identity(tree.device, 1)), root_plain: true, events }
}

/// Put something else in the place of what stood under a name.
fn replace_child(seen: &mut CurrentSighting, wanted: &str, other: SeenChild) {
    let event = seen
        .events
        .iter_mut()
        .find(|event| matches!(event, TreeEvent::Child { name: Some(name), .. } if name == wanted))
        .expect("the name is met");
    *event = TreeEvent::Child { name: Some(wanted.to_owned()), child: other };
}

#[test]
fn a_whole_walk_accepts_exactly_the_tree_of_the_manifest() {
    let candidate = candidate(1);
    let manifest = candidate.tree.manifest();
    assert_eq!(require_current_exact(&manifest, &current(&candidate.tree)), Ok(()));

    let mut added = candidate.tree.clone();
    added.write("zzz.md.enc", b"late");
    assert_eq!(require_current_exact(&manifest, &current(&added)), Err(TAF));
    let mut deleted = candidate.tree.clone();
    deleted.entries.retain(|(path, _)| path != "vault.json");
    assert_eq!(require_current_exact(&manifest, &current(&deleted)), Err(TAF));
    let mut moved = candidate.tree.clone();
    moved.device = 2;
    assert_eq!(require_current_exact(&manifest, &current(&moved)), Err(TAF));
}

#[test]
fn a_whole_walk_tells_what_it_met_first() {
    let candidate = candidate(1);
    let manifest = candidate.tree.manifest();
    let judge = |seen: &CurrentSighting| require_current_exact(&manifest, seen);
    let fresh = || current(&candidate.tree);

    let mut seen = fresh();
    seen.root = Err(RepositoryImportError::UnsafeTarget);
    assert_eq!(judge(&seen), Err(RepositoryImportError::UnsafeTarget));
    let mut seen = fresh();
    seen.root_plain = false;
    assert_eq!(judge(&seen), Err(TAF));

    let mut seen = fresh();
    replace_child(&mut seen, "vault.json", SeenChild::Refused);
    assert_eq!(judge(&seen), Err(TAF));
    let mut seen = fresh();
    replace_child(&mut seen, "vault.json", SeenChild::Directory { identity: directory_identity(1, 1), plain: true });
    assert_eq!(judge(&seen), Err(TAF));
    let mut seen = fresh();
    let late = RepositoryImportError::ResourceLimit;
    replace_child(&mut seen, "vault.json", SeenChild::File { plain: true, hashed: Err(late) });
    assert_eq!(judge(&seen), Err(late));
    let mut seen = fresh();
    replace_child(&mut seen, "vault.json", SeenChild::File { plain: false, hashed: Err(late) });
    assert_eq!(judge(&seen), Err(TAF));

    let mut seen = fresh();
    let again = current(&candidate.tree).events.remove(0);
    seen.events.insert(0, again);
    assert_eq!(judge(&seen), Err(TAF));
    let mut seen = fresh();
    seen.events.insert(0, TreeEvent::Child { name: None, child: SeenChild::Refused });
    assert_eq!(judge(&seen), Err(TAF));

    let mut seen = fresh();
    seen.events.pop();
    assert_eq!(judge(&seen), Err(TAF));
    let mut seen = fresh();
    seen.events.push(TreeEvent::Leave { holds: true });
    assert_eq!(judge(&seen), Err(TAF));
    let mut seen = fresh();
    seen.events.pop();
    seen.events.push(TreeEvent::Leave { holds: false });
    assert_eq!(judge(&seen), Err(TAF));
}

#[test]
fn canonical_real_target_is_complete_sorted_projectable_and_redacted() {
    let candidate = candidate(1);
    let manifest = candidate.tree.manifest();
    assert_eq!(manifest.records.len(), candidate.tree.entries.len() + 1);
    assert!(manifest.records.windows(2).all(|pair| pair[0].path.as_bytes() < pair[1].path.as_bytes()));
    assert_eq!(manifest.records[0].path, "");
    let projection = manifest.project(SCHEME).ok().expect("projects");
    assert_eq!(projection.physical.len(), manifest.records.len());
    assert_eq!(manifest.project(PublicationIdentityScheme::WindowsLegacyFileIndexV1).err(), Some(CandidateSealError::InvalidContext));
    let directories = candidate.tree.entries.iter().filter(|(_, body)| body.is_none()).count() + 1;
    assert_eq!(manifest.directory_count(), directories);
    let bytes: usize = candidate.tree.entries.iter().map(|(path, _)| path.len()).sum();
    assert_eq!(manifest.retained_path_bytes(), bytes);
    let text = String::from_utf8(manifest.redacted()).expect("diagnostics are text");
    assert!(text.ends_with(&format!("records: {} }}", manifest.records.len())));
    assert!(!text.contains("vault.json"));
}

#[test]
fn injected_limits_accept_exact_boundaries_and_reject_one_less() {
    let mut tree = Tree::new(1);
    tree.write("notes/a.md.enc", b"12345");
    let observation = tree.observe();
    let collect = |limits: PhysicalManifestLimits| {
        collect_marker_free_physical_manifest_with_limits(&observation, limits).err()
    };
    let exact = PhysicalManifestLimits {
        records: tree.entries.len() + 1,
        path_bytes: ".vault-local/mutation.lock".len(),
        depth: v1_limits().depth,
        path_budget: tree.entries.iter().map(|(path, _)| path.len()).sum(),
        file_bytes: 5,
    };
    assert_eq!(collect(exact), None);
    let limit = Some(RepositoryImportError::ResourceLimit);
    assert_eq!(collect(PhysicalManifestLimits { records: exact.records - 1, ..exact }), limit);
    assert_eq!(collect(PhysicalManifestLimits { path_bytes: exact.path_bytes - 1, ..exact }), limit);
    assert_eq!(collect(PhysicalManifestLimits { path_budget: exact.path_budget - 1, ..exact }), limit);
    assert_eq!(collect(PhysicalManifestLimits { file_bytes: 4, ..exact }), limit);
}

#[test]
fn every_marker_alias_and_extra_private_entry_fails_without_modification() {
    for extra in [".vault-local/import-publish.v2", ".vault-local/other", ".Vault-Local/mutation.lock"] {
        let mut tree = Tree::new(1);
        tree.write(extra, b"x");
        assert_eq!(collect_marker_free_physical_manifest(&tree.observe()).err(), Some(TAF));
    }
}

#[test]
fn lock_must_exist_empty_non_link_and_single_link() {
    let mut full = Tree::new(1);
    full.write(".vault-local/mutation.lock", b"x");
    assert_eq!(collect_marker_free_physical_manifest(&full.observe()).err(), Some(TAF));

    let mut missing = Tree { device: 1, entries: Vec::new() };
    missing.make(".vault-local");
    assert_eq!(collect_marker_free_physical_manifest(&missing.observe()).err(), Some(TAF));

    let mut directory = Tree { device: 1, entries: Vec::new() };
    directory.make(".vault-local/mutation.lock");
    assert_eq!(collect_marker_free_physical_manifest(&directory.observe()).err(), Some(TAF));

    let mut streams = Tree::new(1).observe();
    streams.directories_plain = false;
    assert_eq!(collect_marker_free_physical_manifest(&streams).err(), Some(TAF));
}
