use inex_git::batch_session::{
    conclude_prove, finish_step, join_stderr, kill_and_wait_step, prepare_request, prove_expected_target_objects,
    prove_step, shutdown_batch_child, BatchSighting, BatchStart, BatchStep, BatchTurn, DiagnosticsOutcome, FinishRun,
    ProofRun, TargetObjectBatch, TerminationSighting, TerminationStep,
};
use inex_git::errors::{IoErrorKind, RawIndexError, RepositoryGitOperation, RepositoryImportError, RepositoryIoOperation};
use inex_git::git_object::{raw_sha256, typed_object_oid};
use inex_git::git_runner::{
    batch_arguments, command_environment, command_step, conclude_command, conclude_unstarted, isolated_stdin_config,
    prefix_arguments, read_output_bounded, run_inner, verify_runtime_bindings, CommandConversation, CommandPlan,
    CommandRun, CommandSighting, CommandStep, GitIdentityEnvironment, HooksSighting, InputOutcome, ReadOutputError, RunnerProfile,
    GIT_TIMEOUT_MILLISECONDS, MAX_CONFIG_BYTES,
};
use inex_git::held_reading::HeldFile;
use inex_git::hex::lower_hex_oid;
use inex_git::identity::{FilesystemDirectoryIdentity, FilesystemFileIdentity, PublicationIdentityScheme};
use inex_git::manifest::{NamespaceKind, NamespaceSeal};
use inex_git::namespace::PathPart;
use inex_git::object_batch::BatchReadError;
use inex_git::path_parents::expected_target_tree_directories;
use inex_git::seal_records::ObjectKind;
use inex_git::source_checks::CommandOutput;
use inex_git::target_audit::{
    audit_repository_import_target, audit_repository_import_target_for_publication,
    durably_audit_repository_import_target, sync_step, AuditClosing, AuditOpening, SyncPlace, SyncStep, TargetAudit,
    TargetRepository, WorktreeRecheck,
};
use inex_git::target_config::{HostPlatform, TargetConfigProfile};
use inex_git::target_construction::{
    accept_staging, commit_date, conclude_init, configure_arguments, fresh_template_name, init_arguments,
    opening_settings, update_ref_arguments, ConstructionClosing, Presence, StagingSighting, TARGET_TEMPLATE_PREFIX,
};
use inex_git::target_control::{
    exact_loose_target_object_ids, require_private_manifest_with_marker, require_target_index_control_binding,
    target_raw_index_evidence_from_held, validate_target_private_control, TargetRawIndexEvidence, TargetRawIndexSummary,
};
use inex_git::target_making::{initialize_and_audit_target, MetadataStep, TargetMaking, TargetReading};
use inex_git::target_objects::{insert_target_object_expectation, TargetObjectExpectation, TargetTrackedEntry};
use inex_git::target_semantics::{validate_target_config, SemanticsAnswers, SemanticsQuery};
use inex_git::target_tree::construct_canonical_target_trees;
use inex_git::target_worktree::{
    normalize_target_paths, prove_target_worktree_allowlist, MetadataSighting, TargetChild, TargetPathFacts, WorktreeWalk,
    TARGET_ATTRIBUTES, TARGET_IGNORE,
};
use inex_git::text_map::TextMap;
use inex_git::tree_path::{target_tree_depth, target_tree_parent_and_name};
use inex_git::wiped::WipedBytes;

type ImportError = RepositoryImportError;

const TAF: ImportError = ImportError::TargetAuditFailed;
const DRIVER: &str = "inex merge driver";
const COMMAND: &str = "/usr/bin/inex merge %O %A %B";
const TIME: i64 = 1_784_044_800;

fn wire(inode: u64, kind: u8) -> [u8; 24] {
    let mut bytes = [0; 24];
    bytes[7] = 1;
    bytes[8..16].copy_from_slice(&inode.to_be_bytes());
    bytes[23] = kind;
    bytes
}

fn directory_identity(inode: u64) -> FilesystemDirectoryIdentity {
    FilesystemDirectoryIdentity { scheme: PublicationIdentityScheme::LinuxDevInodeV1, wire: wire(inode, 1) }
}

fn file_identity(inode: u64) -> FilesystemFileIdentity {
    FilesystemFileIdentity { scheme: PublicationIdentityScheme::LinuxDevInodeV1, wire: wire(inode, 2) }
}

fn hex(oid: [u8; 20]) -> String {
    String::from_utf8(lower_hex_oid(oid).to_vec()).expect("digits are text")
}

fn oid(kind: ObjectKind, body: &[u8]) -> [u8; 20] {
    typed_object_oid(kind, body.len() as u64, body)
}

fn output(bytes: &[u8]) -> CommandOutput {
    Ok(WipedBytes::new(bytes.to_vec()))
}

fn plain(output: CommandOutput) -> Result<Vec<u8>, ImportError> {
    output.map(|bytes| bytes.as_slice().to_vec())
}

fn line(text: &str) -> CommandOutput {
    output(format!("{text}\n").as_bytes())
}

fn profile() -> TargetConfigProfile<'static> {
    TargetConfigProfile { platform: HostPlatform::Unix, driver_name: DRIVER, driver_command: Some(COMMAND) }
}

/// The files of the target, in the order of their names.
fn files() -> Vec<(&'static str, Vec<u8>)> {
    vec![
        (".gitattributes", TARGET_ATTRIBUTES.as_bytes().to_vec()),
        (".gitignore", TARGET_IGNORE.as_bytes().to_vec()),
        ("img/p.png.asset.enc", vec![0, 1, 2, 0xff]),
        ("note.md.enc", b"ciphertext".to_vec()),
        ("vault.json", b"{}\n".to_vec()),
    ]
}

fn tree_entry(body: &mut Vec<u8>, mode: &str, name: &str, id: [u8; 20]) {
    body.extend_from_slice(mode.as_bytes());
    body.push(b' ');
    body.extend_from_slice(name.as_bytes());
    body.push(0);
    body.extend_from_slice(&id);
}

fn blob(path: &str) -> [u8; 20] {
    let (_, body) = files().into_iter().find(|(known, _)| *known == path).expect("a file of the target");
    oid(ObjectKind::Blob, &body)
}

fn image_tree() -> Vec<u8> {
    let mut body = Vec::new();
    tree_entry(&mut body, "100644", "p.png.asset.enc", blob("img/p.png.asset.enc"));
    body
}

fn root_tree() -> Vec<u8> {
    let mut body = Vec::new();
    tree_entry(&mut body, "100644", ".gitattributes", blob(".gitattributes"));
    tree_entry(&mut body, "100644", ".gitignore", blob(".gitignore"));
    tree_entry(&mut body, "40000", "img", oid(ObjectKind::Tree, &image_tree()));
    tree_entry(&mut body, "100644", "note.md.enc", blob("note.md.enc"));
    tree_entry(&mut body, "100644", "vault.json", blob("vault.json"));
    body
}

fn commit() -> Vec<u8> {
    let tree = hex(oid(ObjectKind::Tree, &root_tree()));
    format!(
        "tree {tree}\nauthor Inex Repository Import <inex-import@localhost.invalid> {TIME} +0000\ncommitter Inex Repository Import <inex-import@localhost.invalid> {TIME} +0000\n\nInitialize encrypted Inex vault\n"
    )
    .into_bytes()
}

fn commit_oid() -> String {
    hex(oid(ObjectKind::Commit, &commit()))
}

fn object_oids() -> Vec<String> {
    let mut oids: Vec<String> = files().iter().map(|(_, body)| hex(oid(ObjectKind::Blob, body))).collect();
    oids.push(hex(oid(ObjectKind::Tree, &image_tree())));
    oids.push(hex(oid(ObjectKind::Tree, &root_tree())));
    oids.push(commit_oid());
    oids.sort();
    oids
}

fn file_seal(path: &str, inode: u64, body: &[u8]) -> NamespaceSeal {
    NamespaceSeal {
        relative_path: path.to_owned(),
        kind: NamespaceKind::File(file_identity(inode)),
        size: body.len() as u64,
        sha256: Some(raw_sha256(body)),
    }
}

fn directory_seal(path: &str, inode: u64) -> NamespaceSeal {
    NamespaceSeal {
        relative_path: path.to_owned(),
        kind: NamespaceKind::Directory(directory_identity(inode)),
        size: 0,
        sha256: None,
    }
}

const INDEX: &[u8] = b"DIRC placeholder";

fn git_control() -> Vec<NamespaceSeal> {
    let mut seals = vec![
        file_seal("HEAD", 40, b"ref: refs/heads/main\n"),
        file_seal("config", 41, b"[core]\n"),
        file_seal("index", 42, INDEX),
        directory_seal("inex-empty-hooks", 43),
        directory_seal("objects", 44),
        directory_seal("objects/info", 45),
        directory_seal("objects/pack", 46),
        directory_seal("refs", 47),
        directory_seal("refs/heads", 48),
        file_seal("refs/heads/main", 49, format!("{}\n", commit_oid()).as_bytes()),
        directory_seal("refs/tags", 50),
    ];
    for (inode, id) in object_oids().iter().enumerate() {
        let fan = format!("objects/{}", &id[..2]);
        if !seals.iter().any(|seal| seal.relative_path == fan) {
            seals.push(directory_seal(&fan, 60 + inode as u64));
        }
        seals.push(file_seal(&format!("{fan}/{}", &id[2..]), 80 + inode as u64, b"loose"));
    }
    seals
}

fn private_control() -> Vec<NamespaceSeal> {
    vec![file_seal("mutation.lock", 30, b"")]
}

fn walk(with_git: bool) -> WorktreeWalk {
    let mut walk = WorktreeWalk::begin(with_git);
    assert_eq!(walk.enter_directory(0, true, true), Ok(()));
    let mut entries: Vec<(&str, &str, TargetChild)> = vec![
        ("", ".vault-local", TargetChild::Directory { binding_holds: true }),
        ("", "img", TargetChild::Directory { binding_holds: true }),
        ("", ".gitattributes", TargetChild::File { binding_holds: true }),
        ("", ".gitignore", TargetChild::File { binding_holds: true }),
        ("", "note.md.enc", TargetChild::File { binding_holds: true }),
        ("", "vault.json", TargetChild::File { binding_holds: true }),
        ("img", "p.png.asset.enc", TargetChild::File { binding_holds: true }),
    ];
    if with_git {
        entries.push(("", ".git", TargetChild::Directory { binding_holds: true }));
    }
    for (parent, name, child) in entries {
        let path = walk.account_child(parent, Some(name)).ok().expect("a plain name");
        assert_eq!(walk.record_child(parent, name, path, child), Ok(name == "img"));
    }
    walk
}

fn bodies() -> Vec<Result<HeldFile, ImportError>> {
    files()
        .into_iter()
        .enumerate()
        .map(|(inode, (_, bytes))| Ok(HeldFile { bytes: WipedBytes::new(bytes), identity: file_identity(10 + inode as u64) }))
        .collect()
}

fn index_evidence() -> TargetRawIndexEvidence {
    target_raw_index_evidence_from_held(
        &HeldFile { bytes: WipedBytes::new(INDEX.to_vec()), identity: file_identity(42) },
        Ok(TargetRawIndexSummary {
            version: 2,
            oids: files().iter().map(|(_, body)| oid(ObjectKind::Blob, body)).collect(),
        }),
    )
    .ok()
    .expect("the index is evidence")
}

fn config() -> Vec<u8> {
    format!(
        "core.repositoryformatversion\n0\0core.filemode\ntrue\0core.bare\nfalse\0core.logallrefupdates\ntrue\0merge.inex.name\n{DRIVER}\0merge.inex.driver\n{COMMAND}\0"
    )
    .into_bytes()
}

fn answers() -> SemanticsAnswers {
    SemanticsAnswers {
        object_format: line("sha1"),
        head: line(&commit_oid()),
        head_file: output(b"ref: refs/heads/main\n"),
        refs: output(b"refs/heads/main\n"),
        logs_present: false,
        config: output(&config()),
    }
}

fn audit() -> TargetAudit {
    TargetAudit {
        opening: AuditOpening {
            root: Ok(()),
            root_identity: Some(directory_identity(1)),
            walk: Ok(walk(true)),
            runner: Ok(()),
            raw_index: Ok(index_evidence()),
            git_control: Ok(git_control()),
            answers: answers(),
            bodies: bodies(),
        },
        objects: vec![Ok(()); object_oids().len()],
        conversation: Ok(()),
        closing: AuditClosing {
            git_control: Ok(git_control()),
            private_control: Ok(private_control()),
            worktree: WorktreeRecheck {
                identity_before: Some(directory_identity(1)),
                walk: Ok(walk(true)),
                bodies: bodies(),
                identity_after: Some(directory_identity(1)),
            },
        },
    }
}

fn path_facts(path: &'static str) -> TargetPathFacts<'static> {
    TargetPathFacts {
        parts: path.split('/').map(|part| PathPart::Normal(Some(part))).collect(),
        document: path.ends_with(".md.enc"),
        asset: path.ends_with(".asset.enc"),
    }
}

fn making() -> TargetMaking<'static> {
    TargetMaking {
        staging: StagingSighting {
            executable_found: true,
            root: Ok(()),
            root_identity: Some(directory_identity(1)),
            one_filesystem: true,
            control: Presence::Absent,
        },
        attributes: MetadataStep { seen: MetadataSighting::Absent, written: Ok(()) },
        ignore: MetadataStep {
            seen: MetadataSighting::File(Ok(TARGET_IGNORE.as_bytes())),
            written: Err(IoErrorKind::Other),
        },
        paths: vec![path_facts("vault.json"), path_facts("note.md.enc"), path_facts("img/p.png.asset.enc")],
        walk: Ok(walk(false)),
        template_made: Ok(()),
        private_synced: true,
        init: Ok(()),
        template_removed: Ok(()),
        hooks_made: Ok(()),
        control_synced: true,
        runner: Ok(()),
        version: Ok(()),
        driver_found: true,
        configured: Ok(()),
        readings: files()
            .iter()
            .enumerate()
            .map(|(inode, (_, body))| TargetReading {
                held: Ok(HeldFile { bytes: WipedBytes::new(body.clone()), identity: file_identity(10 + inode as u64) }),
                hashed: line(&hex(oid(ObjectKind::Blob, body))),
            })
            .collect(),
        index_filled: Ok(()),
        tree_written: line(&hex(oid(ObjectKind::Tree, &root_tree()))),
        import_time_utc_seconds: TIME,
        commit_written: line(&commit_oid()),
        branch_made: Ok(()),
        log_configured: Ok(()),
        closing: ConstructionClosing {
            control_before: Ok(git_control()),
            objects: vec![Ok(()); object_oids().len()],
            conversation: Ok(()),
            control_after: Ok(git_control()),
            private_control: Ok(private_control()),
        },
        first_audit: audit(),
        synced: true,
        second_audit: audit(),
    }
}

fn made() -> TargetRepository {
    initialize_and_audit_target(making(), &profile()).ok().expect("the target is made")
}

fn refused(change: fn(&mut TargetMaking<'static>)) -> Option<ImportError> {
    let mut seen = making();
    change(&mut seen);
    initialize_and_audit_target(seen, &profile()).err()
}

fn audited(change: fn(&mut TargetAudit)) -> Result<(), ImportError> {
    let mut seen = audit();
    change(&mut seen);
    audit_repository_import_target(&seen, &made(), &profile())
}

#[test]
fn a_made_target_has_one_parentless_root() {
    let target = made();
    assert_eq!(target.root_commit_oid(), commit_oid());
    assert_eq!(target.root_tree_oid, hex(oid(ObjectKind::Tree, &root_tree())));
    assert_eq!(target.commit_bytes.as_slice(), commit());
    assert_eq!(
        target.tracked_paths(),
        vec![".gitattributes", ".gitignore", "img/p.png.asset.enc", "note.md.enc", "vault.json"]
    );
    assert_eq!(target.tree_oids.get("img").map(String::as_str), Some(hex(oid(ObjectKind::Tree, &image_tree())).as_str()));
    assert_eq!(target.object_ids.len(), object_oids().len());
    for id in object_oids() {
        assert!(target.object_ids.contains(&id));
    }
    assert_eq!(target.object_ids.get(&commit_oid()).map(|object| object.object_type.as_str()), Some("commit"));
}

#[test]
fn making_a_target_stops_at_the_first_failure() {
    let io = |kind| Some(ImportError::Io { operation: RepositoryIoOperation::WriteTarget, kind });
    assert_eq!(refused(|m| m.staging.executable_found = false), Some(ImportError::GitExecutableUnavailable));
    assert_eq!(refused(|m| m.staging.control = Presence::Other), Some(ImportError::UnsafeTarget));
    assert_eq!(refused(|m| m.attributes.written = Err(IoErrorKind::StorageFull)), io(IoErrorKind::StorageFull));
    assert_eq!(
        refused(|m| m.ignore.seen = MetadataSighting::File(Ok(b"*\n"))),
        Some(ImportError::UnsafeTarget)
    );
    assert_eq!(refused(|m| m.paths = vec![path_facts("note.md.enc")]), Some(ImportError::UnsafeTarget));
    assert_eq!(refused(|m| m.paths.push(path_facts("extra.md.enc"))), Some(TAF));
    assert_eq!(refused(|m| m.private_synced = false), Some(ImportError::DurabilityNotConfirmed));
    assert_eq!(refused(|m| m.template_removed = Err(IoErrorKind::NotFound)), io(IoErrorKind::NotFound));
    assert_eq!(
        refused(|m| m.version = Err(ImportError::UnsupportedGitVersion)),
        Some(ImportError::UnsupportedGitVersion)
    );
    assert_eq!(refused(|m| m.driver_found = false), Some(ImportError::UnsafeTarget));
    assert_eq!(refused(|m| m.readings[3].hashed = line("not an id")), Some(ImportError::MalformedGitOutput));
    assert!(refused(|m| m.tree_written = line(&"1".repeat(40))).is_some());
    assert!(refused(|m| m.commit_written = line(&"1".repeat(40))).is_some());
    assert!(refused(|m| m.import_time_utc_seconds = TIME + 1).is_some());
    assert_eq!(refused(|m| m.closing.control_after = Ok(private_control())), Some(TAF));
    assert_eq!(refused(|m| m.closing.objects[2] = Err(TAF)), Some(TAF));
    assert_eq!(refused(|m| m.synced = false), Some(ImportError::DurabilityNotConfirmed));
    assert_eq!(refused(|m| m.second_audit.conversation = Err(TAF)), Some(TAF));
}

#[test]
fn an_audit_finds_every_kind_of_drift() {
    assert_eq!(audited(|_| {}), Ok(()));
    assert_eq!(audited(|a| a.opening.root_identity = Some(directory_identity(9))), Err(TAF));
    assert_eq!(audited(|a| a.opening.walk = Ok(WorktreeWalk::begin(true))), Err(TAF));
    assert_eq!(
        audited(|a| a.opening.runner = Err(ImportError::GitExecutableUnavailable)),
        Err(ImportError::GitExecutableUnavailable)
    );
    assert_eq!(
        audited(|a| {
            if let Ok(index) = &mut a.opening.raw_index {
                index.summary.oids.swap(0, 1);
            }
        }),
        Err(TAF)
    );
    assert_eq!(
        audited(|a| {
            if let Ok(seals) = &mut a.opening.git_control {
                seals.push(file_seal("objects/aa/11111111111111111111111111111111111111", 99, b"loose"));
            }
        }),
        Err(TAF)
    );
    assert_eq!(audited(|a| a.opening.answers.object_format = line("sha256")), Err(TAF));
    assert_eq!(audited(|a| a.opening.answers.refs = output(b"refs/heads/main\nrefs/heads/x\n")), Err(TAF));
    assert_eq!(audited(|a| a.opening.answers.logs_present = true), Err(TAF));
    assert_eq!(
        audited(|a| a.opening.bodies[3] = Ok(HeldFile { bytes: WipedBytes::new(b"CIPHERTEXT".to_vec()), identity: file_identity(13) })),
        Err(TAF)
    );
    assert_eq!(audited(|a| a.objects[0] = Err(TAF)), Err(TAF));
    assert_eq!(audited(|a| a.objects.truncate(3)), Err(TAF));
    assert_eq!(
        audited(|a| a.closing.worktree.bodies[4] = Ok(HeldFile { bytes: WipedBytes::new(b"{}\n".to_vec()), identity: file_identity(99) })),
        Err(TAF)
    );
    assert_eq!(audited(|a| a.closing.worktree.identity_after = None), Err(TAF));
}

#[test]
fn a_marker_is_allowed_only_where_it_is_expected() {
    let target = made();
    let mut seen = audit();
    seen.closing.private_control = Ok(vec![file_seal("import-publish.v1", 31, &[7; 16]), private_control().remove(0)]);
    assert_eq!(audit_repository_import_target(&seen, &target, &profile()), Err(TAF));
    assert_eq!(
        audit_repository_import_target_for_publication(&seen, &target, &profile(), "import-publish.v1"),
        Ok(())
    );
    assert_eq!(audit_repository_import_target(&audit(), &target, &profile()), Ok(()));
    assert_eq!(
        audit_repository_import_target_for_publication(&audit(), &target, &profile(), "import-publish.v1"),
        Err(TAF)
    );
    let short = vec![file_seal("import-publish.v1", 31, &[7; 15]), private_control().remove(0)];
    assert_eq!(require_private_manifest_with_marker(&short, &private_control(), "import-publish.v1"), Err(TAF));
}

#[test]
fn a_durable_audit_is_two_audits_around_a_sync() {
    assert_eq!(durably_audit_repository_import_target(Ok(()), true, Ok(())), Ok(()));
    assert_eq!(durably_audit_repository_import_target(Err(TAF), false, Ok(())), Err(TAF));
    assert_eq!(
        durably_audit_repository_import_target(Ok(()), false, Err(TAF)),
        Err(ImportError::DurabilityNotConfirmed)
    );
    assert_eq!(durably_audit_repository_import_target(Ok(()), true, Err(TAF)), Err(TAF));
    assert_eq!(sync_step(SyncPlace::Directory), Ok(SyncStep::Descend));
    assert_eq!(sync_step(SyncPlace::File { sole: true }), Ok(SyncStep::SyncFile));
    assert!(sync_step(SyncPlace::File { sole: false }).is_err());
    assert!(sync_step(SyncPlace::Other).is_err());
}

#[test]
fn target_paths_are_sorted_name_by_name() {
    let paths = normalize_target_paths(&vec![
        path_facts("vault.json"),
        path_facts("a.md.enc"),
        path_facts("a/b.md.enc"),
        path_facts("a.md.enc"),
    ])
    .ok()
    .expect("the paths are acceptable");
    let texts: Vec<&str> = paths.iter().map(|path| path.text.as_str()).collect();
    assert_eq!(texts, vec![".gitattributes", ".gitignore", "a/b.md.enc", "a.md.enc", "vault.json"]);
    let mut outside = path_facts("a.md.enc");
    outside.parts.insert(0, PathPart::Other);
    assert_eq!(normalize_target_paths(&vec![path_facts("vault.json"), outside]).err(), Some(ImportError::UnsafeTarget));
    assert_eq!(
        normalize_target_paths(&vec![path_facts("vault.json"), path_facts("plain.md")]).err(),
        Some(ImportError::UnsafeTarget)
    );
}

#[test]
fn a_worktree_holds_only_what_is_allowed() {
    let paths = normalize_target_paths(&making().paths).ok().expect("the paths are acceptable");
    assert_eq!(prove_target_worktree_allowlist(&walk(false), &paths), Ok(()));
    let mut extra = walk(false);
    let path = extra.account_child("", Some("empty")).ok().expect("a plain name");
    assert_eq!(extra.record_child("", "empty", path, TargetChild::Directory { binding_holds: true }), Ok(true));
    assert_eq!(prove_target_worktree_allowlist(&extra, &paths), Err(TAF));
    let mut other = WorktreeWalk::begin(false);
    let path = other.account_child("", Some("fifo")).ok().expect("a plain name");
    assert_eq!(other.record_child("", "fifo", path, TargetChild::Other), Err(TAF));
    assert_eq!(other.account_child("", None).err(), Some(TAF));
}

#[test]
fn target_raw_index_is_bound_to_its_control_file() {
    let evidence = index_evidence();
    assert_eq!(require_target_index_control_binding(&evidence.control, &git_control()), Ok(()));
    let mut doubled = git_control();
    doubled.push(file_seal("index", 42, INDEX));
    assert_eq!(require_target_index_control_binding(&evidence.control, &doubled), Err(TAF));
    let mut moved = git_control();
    moved[2] = file_seal("index", 99, INDEX);
    assert_eq!(require_target_index_control_binding(&evidence.control, &moved), Err(TAF));
    let held = HeldFile { bytes: WipedBytes::new(INDEX.to_vec()), identity: file_identity(42) };
    for (failure, error) in [
        (RawIndexError::Malformed, TAF),
        (RawIndexError::Unsupported, TAF),
        (RawIndexError::ResourceLimit, ImportError::ResourceLimit),
    ] {
        assert_eq!(target_raw_index_evidence_from_held(&held, Err(failure)).err(), Some(error));
    }
}

#[test]
fn loose_objects_are_read_from_their_paths() {
    let ids = exact_loose_target_object_ids(&git_control()).ok().expect("all objects are loose");
    assert_eq!(ids.len(), object_oids().len());
    assert!(ids.contains(&commit_oid()));
    let mut packed = git_control();
    packed.push(file_seal("objects/pack/pack-1.pack", 99, b"PACK"));
    assert_eq!(exact_loose_target_object_ids(&packed).err(), Some(TAF));
}

#[test]
fn the_configuration_of_a_target_is_exact() {
    assert_eq!(validate_target_config(&config(), &profile()), Ok(()));
    let mut doubled = config();
    doubled.extend_from_slice(b"core.bare\nfalse\0");
    assert_eq!(validate_target_config(&doubled, &profile()), Err(TAF));
    let mut unknown = config();
    unknown.extend_from_slice(b"user.name\nAda\0");
    assert_eq!(validate_target_config(&unknown, &profile()), Err(TAF));
    let windows = TargetConfigProfile { platform: HostPlatform::Windows, ..profile() };
    assert_eq!(validate_target_config(&config(), &windows), Err(TAF));
    let settings = opening_settings(&profile()).expect("a driver is installed");
    assert_eq!(
        settings,
        vec![
            ("core.logAllRefUpdates", "false".to_owned()),
            ("merge.inex.name", DRIVER.to_owned()),
            ("merge.inex.driver", COMMAND.to_owned()),
        ]
    );
    // Without a driver a target is not made, and an audit fails at its configuration, not before.
    let driverless = TargetConfigProfile { driver_command: None, ..profile() };
    assert_eq!(opening_settings(&driverless).err(), Some(ImportError::UnsafeTarget));
    assert_eq!(audit_repository_import_target(&audit(), &made(), &driverless), Err(TAF));
    let mut seen = audit();
    seen.opening.answers.refs = Err(ImportError::ResourceLimit);
    assert_eq!(audit_repository_import_target(&seen, &made(), &driverless), Err(ImportError::ResourceLimit));
    let mut private = private_control();
    assert_eq!(validate_target_private_control(&private), Ok(()));
    private[0].sha256 = Some([0; 32]);
    assert_eq!(validate_target_private_control(&private), Err(TAF));
    assert!(SemanticsQuery::Config.maximum_output() >= MAX_CONFIG_BYTES);
}

#[test]
fn canonical_trees_are_built_from_the_leaves_up() {
    let mut blobs = TextMap::new();
    for (path, body) in files() {
        assert!(blobs.insert_new(path.to_owned(), (hex(oid(ObjectKind::Blob, &body)), body.len() as u64)));
    }
    let trees = construct_canonical_target_trees(&blobs).ok().expect("the trees are built");
    assert_eq!(trees.len(), 2);
    let root = trees.get("").expect("the root");
    assert_eq!(root.oid, hex(oid(ObjectKind::Tree, &root_tree())));
    assert_eq!(root.size, root_tree().len() as u64);
    assert_eq!(root.sha256, raw_sha256(&root_tree()));
    assert_eq!(trees.get("img").map(|tree| tree.sha256), Some(raw_sha256(&image_tree())));
    assert_eq!(target_tree_parent_and_name("img/p.png.asset.enc"), Ok(("img", "p.png.asset.enc")));
    assert_eq!(target_tree_parent_and_name("vault.json"), Ok(("", "vault.json")));
    assert_eq!(target_tree_depth(""), 0);
    assert_eq!(target_tree_depth("a/b"), 2);
}

fn keyed(paths: &[&str]) -> TextMap<(String, u64)> {
    let mut blobs = TextMap::new();
    for path in paths {
        assert!(blobs.insert_new((*path).to_owned(), (hex(oid(ObjectKind::Blob, b"x")), 1)));
    }
    blobs
}

fn directories_above(paths: &[&str]) -> Result<Vec<String>, ImportError> {
    expected_target_tree_directories(&keyed(paths)).map(|found| found.entries.into_iter().map(|entry| entry.key).collect())
}

#[test]
fn the_directories_above_a_path_are_joined_from_its_components() {
    for alone in ["..", ".", "", "a", "./", "a/.", "a//", "/", "/.", "//"] {
        assert_eq!(directories_above(&[alone]), Ok(vec![String::new()]), "{alone:?}");
    }
    let root_and = |others: &[&str]| {
        Ok([""].iter().chain(others).map(|text| (*text).to_owned()).collect::<Vec<String>>())
    };
    assert_eq!(directories_above(&["a//b"]), root_and(&["a"]));
    assert_eq!(directories_above(&["a/./b/c"]), root_and(&["a", "a/b"]));
    assert_eq!(directories_above(&["a/.."]), root_and(&["a"]));
    assert_eq!(directories_above(&["a/b", "x/y/z"]), root_and(&["a", "x", "x/y"]));
    for refused in ["/a", "/..", "./a", "../a", "a/../b", "/a/b"] {
        assert_eq!(directories_above(&["a/b", refused]), Err(TAF), "{refused:?}");
    }
}

#[test]
fn a_path_has_its_place_in_a_tree_by_its_last_slash() {
    let refused = |paths: &[&str]| construct_canonical_target_trees(&keyed(paths)).err();
    for (path, name) in [("..", ".."), (".", "."), ("/.", ".")] {
        let trees = construct_canonical_target_trees(&keyed(&[path])).ok().expect("one tree");
        let mut body = Vec::new();
        tree_entry(&mut body, "100644", name, oid(ObjectKind::Blob, b"x"));
        assert_eq!(trees.len(), 1);
        assert_eq!(trees.get("").map(|tree| tree.sha256), Some(raw_sha256(&body)));
    }
    let trees = construct_canonical_target_trees(&keyed(&["a/.", "a/b"])).ok().expect("two trees");
    let mut body = Vec::new();
    tree_entry(&mut body, "100644", ".", oid(ObjectKind::Blob, b"x"));
    tree_entry(&mut body, "100644", "b", oid(ObjectKind::Blob, b"x"));
    assert_eq!(trees.get("a").map(|tree| tree.sha256), Some(raw_sha256(&body)));
    for path in ["", "a/", "a//b", "a/.", "a/./b", "/a", "../a", "a\0"] {
        assert_eq!(refused(&[path]), Some(TAF), "{path:?}");
    }
    assert_eq!(refused(&["a\0b/c"]), Some(TAF));
    assert_eq!(refused(&["a", "a/b"]), Some(TAF));
    assert_eq!(refused(&[".", "/."]), Some(TAF));
}

#[test]
fn an_allowed_file_is_found_under_its_joined_path() {
    let entry = |path: &str| TargetTrackedEntry {
        relative_path: path.to_owned(),
        size: 1,
        sha256: raw_sha256(b"x"),
        blob_oid: hex(oid(ObjectKind::Blob, b"x")),
        identity: file_identity(9),
    };
    let mut walk = WorktreeWalk::begin(false);
    let directory = walk.account_child("", Some("a")).ok().expect("a plain name");
    assert_eq!(walk.record_child("", "a", directory, TargetChild::Directory { binding_holds: true }), Ok(true));
    let file = walk.account_child("a", Some("b")).ok().expect("a plain name");
    assert_eq!(walk.record_child("a", "b", file, TargetChild::File { binding_holds: true }), Ok(false));
    assert_eq!(prove_target_worktree_allowlist(&walk, &vec![entry("a/b")]), Ok(()));
    assert_eq!(prove_target_worktree_allowlist(&walk, &vec![entry("a//b"), entry("..")]), Ok(()));
    assert_eq!(prove_target_worktree_allowlist(&walk, &vec![entry("a/b"), entry("../c")]), Err(TAF));
    assert_eq!(prove_target_worktree_allowlist(&walk, &vec![entry("a/b"), entry("c")]), Err(TAF));
}

#[test]
fn one_object_has_one_expectation() {
    let mut objects = TextMap::new();
    let first = TargetObjectExpectation { object_type: "blob", size: 3, sha256: raw_sha256(b"abc") };
    let other = TargetObjectExpectation { object_type: "tree", ..first };
    let id = hex(oid(ObjectKind::Blob, b"abc"));
    assert_eq!(insert_target_object_expectation(&mut objects, &id, first), Ok(()));
    assert_eq!(insert_target_object_expectation(&mut objects, &id, first), Ok(()));
    assert_eq!(objects.len(), 1);
    assert_eq!(insert_target_object_expectation(&mut objects, &id, other), Err(TAF));
    assert_eq!(prove_expected_target_objects(&objects, &vec![Ok(())]), Ok(()));
    assert_eq!(prove_expected_target_objects(&objects, &vec![]), Err(TAF));
    assert_eq!(prepare_request(&id, first), Ok(oid(ObjectKind::Blob, b"abc")));
    assert!(prepare_request("HEAD", first).is_err());
}

#[test]
fn template_names_are_fresh() {
    let first = fresh_template_name();
    let second = fresh_template_name();
    assert_ne!(first, second);
    let id = first.strip_prefix(TARGET_TEMPLATE_PREFIX).expect("the prefix");
    assert_eq!(id.len(), 32);
    assert!(id.bytes().all(|byte| byte.is_ascii_digit() || (b'a'..=b'f').contains(&byte)));
    assert_eq!(id.as_bytes()[12], b'4');
}

#[test]
fn commands_that_make_a_target_are_fixed() {
    assert_eq!(
        init_arguments("/t"),
        vec!["init", "--quiet", "--object-format=sha1", "--initial-branch=main", "--template=/t", "."]
    );
    assert_eq!(configure_arguments("a.b", "c"), vec!["config", "--local", "--replace-all", "a.b", "c"]);
    assert_eq!(update_ref_arguments("1")[0], "update-ref");
    assert_eq!(commit_date(0), "0 +0000");
    assert_eq!(commit_date(-12), "-12 +0000");
    assert_eq!(conclude_init(Err(TAF), Err(IoErrorKind::Other)), Err(TAF));
    let mut staging = making().staging;
    assert!(accept_staging(&staging).is_ok());
    staging.one_filesystem = false;
    assert_eq!(accept_staging(&staging).err(), Some(ImportError::UnsafeTarget));
}

fn runner() -> RunnerProfile {
    RunnerProfile { target: true, hooks_held: true, platform: HostPlatform::Unix }
}

#[test]
fn every_command_runs_isolated() {
    let prefix = prefix_arguments(runner());
    assert!(prefix.contains(&"core.hooksPath=.git/inex-empty-hooks"));
    let batch = batch_arguments(runner(), GIT_TIMEOUT_MILLISECONDS).ok().expect("the arguments");
    assert_eq!(&batch[batch.len() - 2..], &["cat-file", "--batch"]);
    assert!(batch_arguments(runner(), 0).is_err());
    let plan = CommandPlan {
        prefix: true,
        repository_environment: true,
        isolate_repository_discovery: false,
        identity: Some(GitIdentityEnvironment {
            author_name: "a",
            author_email: "b",
            author_date: "c",
            committer_name: "d",
            committer_email: "e",
            committer_date: "f",
        }),
    };
    let environment = command_environment(runner(), "/target", &plan).ok().expect("the environment");
    let value = |name: &str| environment.iter().find(|variable| variable.name == name).map(|variable| variable.value.as_str());
    assert_eq!(value("GIT_CONFIG_NOSYSTEM"), Some("1"));
    assert_eq!(value("GIT_CONFIG_GLOBAL"), Some("/dev/null"));
    assert_eq!(value("GIT_AUTHOR_DATE"), Some("c"));
    assert_eq!(value("GIT_COMMITTER_NAME"), Some("d"));
    let config = isolated_stdin_config(b"[core]\n", 16).ok().expect("the arguments");
    assert!(config.contains(&"config"));
}

#[test]
fn a_command_ends_in_one_of_four_ways() {
    let seen = CommandSighting { output_too_large: false, ended: Ok(None), deadline_passed: false };
    assert_eq!(command_step(seen), CommandStep::Wait);
    assert_eq!(command_step(CommandSighting { ended: Ok(Some(true)), ..seen }), CommandStep::Ended { success: true });
    assert_eq!(command_step(CommandSighting { deadline_passed: true, ..seen }), CommandStep::Kill { timed_out: true });
    assert_eq!(
        command_step(CommandSighting { output_too_large: true, ..seen }),
        CommandStep::Kill { timed_out: false }
    );
    assert!(matches!(
        command_step(CommandSighting { ended: Err(IoErrorKind::Other), ..seen }),
        CommandStep::Fail(ImportError::Io { operation: RepositoryIoOperation::CommunicateGit, .. })
    ));
}

#[test]
fn what_a_command_gives_depends_on_the_whole_conversation() {
    let operation = RepositoryGitOperation::AuditTarget;
    let said = || CommandConversation {
        read: Ok(()),
        output: WipedBytes::new(b"ok\n".to_vec()),
        input: InputOutcome::Written,
        success: true,
        timed_out: false,
    };
    assert_eq!(plain(conclude_command(Ok(()), Ok(said()), operation)), Ok(b"ok\n".to_vec()));
    assert_eq!(plain(conclude_command(Err(TAF), Ok(said()), operation)), Err(TAF));
    assert_eq!(
        plain(conclude_command(Ok(()), Ok(CommandConversation { success: false, ..said() }), operation)),
        Err(ImportError::GitCommandFailed { operation })
    );
    assert_eq!(
        plain(conclude_command(
            Ok(()),
            Ok(CommandConversation { read: Err(ReadOutputError::TooLarge), ..said() }),
            operation
        )),
        Err(ImportError::ResourceLimit)
    );
    assert!(conclude_command(Ok(()), Ok(CommandConversation { timed_out: true, ..said() }), operation).is_err());
    assert!(matches!(
        conclude_unstarted(Ok(()), IoErrorKind::NotFound),
        ImportError::Io { operation: RepositoryIoOperation::SpawnGit, kind: IoErrorKind::NotFound }
    ));
    let mut output = WipedBytes::new(Vec::new());
    assert!(matches!(read_output_bounded(&mut output, 4, Ok(b"abcd")), Ok(true)));
    assert!(matches!(read_output_bounded(&mut output, 4, Ok(b"e")), Err(ReadOutputError::TooLarge)));
    assert!(matches!(read_output_bounded(&mut output, 4, Ok(b"")), Ok(false)));
    assert!(matches!(
        read_output_bounded(&mut output, 4, Err(IoErrorKind::Other)),
        Err(ReadOutputError::Io(IoErrorKind::Other))
    ));
    assert_eq!(output.as_slice(), b"abcd");
}

#[test]
fn runtime_bindings_hold_before_and_after() {
    let hooks = HooksSighting { binding_before: true, empty: Some(true), binding_after: true };
    assert_eq!(verify_runtime_bindings(None, Some(hooks)), Ok(()));
    assert_eq!(verify_runtime_bindings(None, None), Ok(()));
    assert_eq!(verify_runtime_bindings(Some(Err(ImportError::SourceChanged)), None), Err(ImportError::SourceChanged));
    let filled = HooksSighting { binding_before: true, empty: Some(false), binding_after: true };
    assert_eq!(verify_runtime_bindings(None, Some(filled)), Err(TAF));
}

#[test]
fn a_batch_is_stopped_on_the_first_trouble() {
    let seen = BatchSighting {
        diagnostics_too_large: false,
        reading_failed: false,
        ended: Ok(None),
        response_whole: false,
        deadline_passed: false,
    };
    assert_eq!(prove_step(seen), BatchStep::Wait);
    assert_eq!(prove_step(BatchSighting { response_whole: true, ..seen }), BatchStep::Answered);
    assert!(matches!(prove_step(BatchSighting { deadline_passed: true, ..seen }), BatchStep::Stop(_)));
    assert_eq!(
        prove_step(BatchSighting { diagnostics_too_large: true, ..seen }),
        BatchStep::Stop(ImportError::ResourceLimit)
    );
    assert_eq!(
        finish_step(BatchSighting { ended: Ok(Some(true)), ..seen }),
        BatchStep::Ended { success: true }
    );
    let ending = TerminationSighting { ended: Ok(None), killed: false, deadline_passed: false };
    assert_eq!(kill_and_wait_step(ending), TerminationStep::Kill);
    assert_eq!(kill_and_wait_step(TerminationSighting { killed: true, ..ending }), TerminationStep::Wait);
    assert_eq!(
        kill_and_wait_step(TerminationSighting { ended: Ok(Some(false)), killed: true, deadline_passed: true }),
        TerminationStep::Ended { success: false }
    );
    assert!(matches!(
        kill_and_wait_step(TerminationSighting { killed: true, deadline_passed: true, ..ending }),
        TerminationStep::Fail(_)
    ));
    assert_eq!(shutdown_batch_child(Ok(false), TAF), (TAF, true));
    assert_eq!(join_stderr(true, DiagnosticsOutcome::Read(Ok(()))), Ok(()));
    assert!(join_stderr(true, DiagnosticsOutcome::Lost).is_err());
    let turn = BatchTurn { read: Ok(()), control_error: None, reaped: false };
    assert_eq!(conclude_prove(&turn, Ok(()), Ok(())), Ok(()));
    assert_eq!(conclude_prove(&turn, Ok(()), Err(TAF)), Err(TAF));
    let stopped = BatchTurn { read: Ok(()), control_error: Some(ImportError::ResourceLimit), reaped: true };
    assert_eq!(conclude_prove(&stopped, Ok(()), Ok(())), Err(ImportError::ResourceLimit));
}

#[test]
fn diagnostics_of_a_target_hide_its_ids() {
    let text = String::from_utf8(made().redacted()).expect("diagnostics are text");
    assert_eq!(
        text,
        "TargetRepository { root: \"[REDACTED]\", root_commit: \"[REDACTED]\", root_tree: \"[REDACTED]\", tracked_entries: 5, objects: 8, .. }"
    );
    let text = String::from_utf8(index_evidence().redacted()).expect("diagnostics are text");
    assert_eq!(text, "TargetRawIndexEvidence { version: 2, entry_count: 5, control: \"[REDACTED]\", .. }");
}

fn command_plan(repository_environment: bool, isolate_repository_discovery: bool) -> CommandPlan<'static> {
    CommandPlan { prefix: true, repository_environment, isolate_repository_discovery, identity: None }
}

fn good_run() -> CommandRun {
    CommandRun {
        bindings_before: Ok(()),
        started: Ok(()),
        output_piped: true,
        last: CommandSighting { output_too_large: false, ended: Ok(Some(true)), deadline_passed: false },
        killed: Ok(false),
        read: Some(Ok(())),
        output: WipedBytes::new(b"output".to_vec()),
        input: InputOutcome::Written,
        bindings_after: Ok(()),
    }
}

fn communication(kind: IoErrorKind) -> ImportError {
    ImportError::Io { operation: RepositoryIoOperation::CommunicateGit, kind }
}

#[test]
fn a_whole_command_gives_its_output_only_if_nothing_went_wrong() {
    let operation = RepositoryGitOperation::ReadSourceObject;
    let failed = ImportError::GitCommandFailed { operation };
    let run = |run: CommandRun| plain(run_inner(&command_plan(true, false), run, operation));
    assert_eq!(run(good_run()), Ok(b"output".to_vec()));
    assert_eq!(run(CommandRun { input: InputOutcome::NoInput, ..good_run() }), Ok(b"output".to_vec()));
    assert_eq!(plain(run_inner(&command_plan(true, true), good_run(), operation)), Err(ImportError::UnsafeTarget));

    let changed = ImportError::SourceChanged;
    assert_eq!(run(CommandRun { bindings_before: Err(changed), ..good_run() }), Err(changed));
    assert_eq!(run(CommandRun { bindings_after: Err(changed), ..good_run() }), Err(changed));
    let unstarted = || CommandRun { started: Err(IoErrorKind::NotFound), ..good_run() };
    assert_eq!(
        run(unstarted()),
        Err(ImportError::Io { operation: RepositoryIoOperation::SpawnGit, kind: IoErrorKind::NotFound }),
    );
    assert_eq!(run(CommandRun { bindings_after: Err(changed), ..unstarted() }), Err(changed));
    let unpiped = CommandRun { output_piped: false, bindings_after: Err(changed), ..good_run() };
    assert_eq!(run(unpiped), Err(communication(IoErrorKind::BrokenPipe)));

    let late = CommandSighting { output_too_large: false, ended: Ok(None), deadline_passed: true };
    assert_eq!(run(CommandRun { last: late, killed: Ok(true), ..good_run() }), Err(failed));
    let stuck = CommandRun { last: late, killed: Err(IoErrorKind::Other), ..good_run() };
    assert_eq!(run(stuck), Err(communication(IoErrorKind::Other)));
    let large = CommandSighting { output_too_large: true, ended: Ok(None), deadline_passed: true };
    let flooded = CommandRun { last: large, read: Some(Err(ReadOutputError::TooLarge)), ..good_run() };
    assert_eq!(run(flooded), Err(ImportError::ResourceLimit));
    let unseen = CommandSighting { ended: Err(IoErrorKind::PermissionDenied), ..good_run().last };
    let blind = CommandRun { last: unseen, ..good_run() };
    assert_eq!(run(blind), Err(communication(IoErrorKind::PermissionDenied)));
    assert_eq!(run(CommandRun { read: None, ..good_run() }), Err(communication(IoErrorKind::Other)));
    let cut = CommandRun { read: Some(Err(ReadOutputError::Io(IoErrorKind::BrokenPipe))), ..good_run() };
    assert_eq!(run(cut), Err(communication(IoErrorKind::BrokenPipe)));
    let unwritten = CommandRun { input: InputOutcome::Failed(IoErrorKind::BrokenPipe), ..good_run() };
    assert_eq!(run(unwritten), Err(communication(IoErrorKind::BrokenPipe)));
    assert_eq!(run(CommandRun { input: InputOutcome::Lost, ..good_run() }), Err(communication(IoErrorKind::Other)));
    let refused = CommandSighting { ended: Ok(Some(false)), ..good_run().last };
    assert_eq!(run(CommandRun { last: refused, ..good_run() }), Err(failed));
}

fn answered() -> ProofRun {
    ProofRun {
        bindings_before: Ok(()),
        sent: Ok(()),
        last: BatchSighting {
            diagnostics_too_large: false,
            reading_failed: false,
            ended: Ok(None),
            response_whole: true,
            deadline_passed: false,
        },
        stopped: Ok(false),
        read: Some(Ok(())),
        bindings_after: Ok(()),
        terminated: true,
        diagnostics: DiagnosticsOutcome::Read(Ok(())),
        bindings_at_end: Ok(()),
    }
}

fn ended_well() -> FinishRun {
    FinishRun {
        bindings_before: Ok(()),
        last: BatchSighting { ended: Ok(Some(true)), response_whole: false, ..answered().last },
        stopped: Ok(false),
        read: Some(Ok(())),
        bindings_after: Ok(()),
        diagnostics: DiagnosticsOutcome::Read(Ok(())),
        bindings_at_end: Ok(()),
    }
}

fn conversation() -> TargetObjectBatch {
    let profile = RunnerProfile { target: true, hooks_held: true, platform: HostPlatform::Unix };
    let start = BatchStart { bindings_before: Ok(()), started: Ok(()), bindings_after: Ok(()), piped: true };
    TargetObjectBatch::begin(profile, GIT_TIMEOUT_MILLISECONDS, start).ok().expect("begins")
}

const PROVED: &str = "2e65efe2a145dda7ee51d1741299f848e5bf752e";

fn expected_object() -> TargetObjectExpectation {
    TargetObjectExpectation { object_type: "blob", size: 1, sha256: [7; 32] }
}

#[test]
fn a_conversation_begins_only_on_a_target_that_holds_still() {
    let profile = RunnerProfile { target: true, hooks_held: true, platform: HostPlatform::Unix };
    let start = BatchStart { bindings_before: Ok(()), started: Ok(()), bindings_after: Ok(()), piped: true };
    let refusal = |profile: RunnerProfile, timeout: u64, start: BatchStart| {
        TargetObjectBatch::begin(profile, timeout, start).err()
    };
    assert_eq!(refusal(profile, 1, start), None);
    assert_eq!(refusal(profile, 0, start), Some(TAF));
    assert_eq!(refusal(RunnerProfile { target: false, ..profile }, 1, start), Some(TAF));
    let changed = Err(ImportError::SourceChanged);
    assert_eq!(refusal(profile, 0, BatchStart { bindings_before: changed, ..start }), changed.err());
    let unstarted = BatchStart { started: Err(IoErrorKind::NotFound), ..start };
    assert_eq!(
        refusal(profile, 1, unstarted),
        Some(ImportError::Io { operation: RepositoryIoOperation::SpawnGit, kind: IoErrorKind::NotFound }),
    );
    assert_eq!(refusal(profile, 1, BatchStart { bindings_after: changed, ..unstarted }), changed.err());
    assert_eq!(refusal(profile, 1, BatchStart { bindings_after: changed, piped: false, ..start }), changed.err());
    let broken = Some(communication(IoErrorKind::BrokenPipe));
    assert_eq!(refusal(profile, 1, BatchStart { piped: false, ..start }), broken);
}

#[test]
fn a_conversation_goes_on_only_after_a_proved_object() {
    let mut batch = conversation();
    assert_eq!(batch.prove(PROVED, expected_object(), answered()), Ok(()));
    assert!(batch.open && !batch.finished);
    let unknown = TargetObjectExpectation { object_type: "note", ..expected_object() };
    assert_eq!(batch.prove(PROVED, unknown, answered()), Err(TAF));
    assert_eq!(batch.prove("2e65", expected_object(), answered()), Err(TAF));
    assert!(batch.open);

    let mismatch = ProofRun { read: Some(Err(BatchReadError::Mismatch)), ..answered() };
    assert_eq!(batch.prove(PROVED, expected_object(), mismatch), Err(TAF));
    assert!(!batch.open && batch.finished);
    assert_eq!(batch.prove(PROVED, expected_object(), answered()), Err(TAF));

    let failed = ImportError::GitCommandFailed { operation: RepositoryGitOperation::AuditTarget };
    let late = BatchSighting { response_whole: false, deadline_passed: true, ..answered().last };
    let mut batch = conversation();
    let run = ProofRun { last: late, read: Some(Err(BatchReadError::Mismatch)), ..answered() };
    assert_eq!(batch.prove(PROVED, expected_object(), run), Err(failed));
    assert!(!batch.open && batch.finished);
    let mut batch = conversation();
    assert_eq!(batch.prove(PROVED, expected_object(), ProofRun { stopped: Err(TAF), ..run }), Err(TAF));
    assert!(!batch.open && !batch.finished);

    let mut batch = conversation();
    let run = ProofRun { sent: Err(IoErrorKind::BrokenPipe), ..answered() };
    assert_eq!(batch.prove(PROVED, expected_object(), run), Err(communication(IoErrorKind::BrokenPipe)));
    assert!(!batch.open && batch.finished);
    let mut batch = conversation();
    let run = ProofRun { read: None, ..answered() };
    assert_eq!(batch.prove(PROVED, expected_object(), run), Err(communication(IoErrorKind::Other)));
    let mut batch = conversation();
    let run = ProofRun { last: BatchSighting { ended: Ok(Some(true)), ..answered().last }, ..answered() };
    assert_eq!(batch.prove(PROVED, expected_object(), run), Err(failed));
    let mut batch = conversation();
    let run = ProofRun { bindings_at_end: Err(ImportError::SourceChanged), ..answered() };
    assert_eq!(batch.prove(PROVED, expected_object(), run), Err(ImportError::SourceChanged));
    let mut batch = conversation();
    let flooded = BatchSighting { diagnostics_too_large: true, ..answered().last };
    let run = ProofRun { last: flooded, ..answered() };
    assert_eq!(batch.prove(PROVED, expected_object(), run), Err(ImportError::ResourceLimit));
}

#[test]
fn a_conversation_ends_well_only_by_the_success_of_git() {
    let failed = ImportError::GitCommandFailed { operation: RepositoryGitOperation::AuditTarget };
    let finish = |run: FinishRun| conversation().finish(run);
    assert_eq!(finish(ended_well()), Ok(()));
    let refused = BatchSighting { ended: Ok(Some(false)), ..ended_well().last };
    assert_eq!(finish(FinishRun { last: refused, ..ended_well() }), Err(failed));
    let late = BatchSighting { ended: Ok(None), deadline_passed: true, ..ended_well().last };
    assert_eq!(finish(FinishRun { last: late, stopped: Ok(true), ..ended_well() }), Err(failed));
    assert_eq!(finish(FinishRun { last: late, stopped: Err(TAF), ..ended_well() }), Err(TAF));
    let more = FinishRun { read: Some(Err(BatchReadError::Mismatch)), ..ended_well() };
    assert_eq!(finish(more), Err(TAF));
    assert_eq!(finish(FinishRun { read: None, ..ended_well() }), Err(communication(IoErrorKind::Other)));
    let noisy = DiagnosticsOutcome::Read(Err(ReadOutputError::TooLarge));
    assert_eq!(finish(FinishRun { diagnostics: noisy, ..ended_well() }), Err(ImportError::ResourceLimit));
    let lost = FinishRun { diagnostics: DiagnosticsOutcome::Lost, ..ended_well() };
    assert_eq!(finish(lost), Err(communication(IoErrorKind::Other)));
    let changed = Err(ImportError::SourceChanged);
    assert_eq!(finish(FinishRun { bindings_before: changed, ..ended_well() }), changed);
    assert_eq!(finish(FinishRun { bindings_after: changed, ..ended_well() }), changed);
    assert_eq!(finish(FinishRun { bindings_at_end: changed, ..ended_well() }), changed);
}
