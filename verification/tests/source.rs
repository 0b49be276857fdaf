use inex_git::errors::{IoErrorKind, RawIndexError, RepositoryGitOperation, RepositoryImportError, RepositoryIoOperation};
use inex_git::git_object::{raw_sha256, typed_object_oid};
use inex_git::git_output::{is_possible_lfs_pointer, nul_records, one_line, parse_unsigned, validate_relative_path_shape};
use inex_git::held_reading::{
    canonical_normal_directory, lexical_absolute_path, read_bound_regular_file, read_secure_relative_file,
    secure_relative_directory_identity, validate_directory_ancestor_chain, BoundReading, DirectoryReading, HeldFile,
    LexicalPart, OpenedKind, PlaceKind, RelativeReading,
};
use inex_git::hex::lower_hex_oid;
use inex_git::identity::{FilesystemDirectoryIdentity, FilesystemFileIdentity, PublicationIdentityScheme};
use inex_git::inventory_walk::{
    inventory_namespace, inventory_source_worktree, walk_target_worktree, NamespaceSighting, SealedChild, SourceEntry,
    SourceSighting, TargetEntry, TargetSighting,
};
use inex_git::manifest::{NamespaceKind, NamespaceSeal};
use inex_git::namespace::{
    advance_bounded_stream_observation, require_same_filesystem, slash_path, DirectorySeal, FileHashing, FileSighting,
    HashedFile, NamespaceChild, NamespaceInventory, NamespacePolicy, PathPart, SourceChild, SourceInventory, SourceStep,
};
use inex_git::path_parents::slash_path_text;
use inex_git::portable_path::{is_windows_device_basename, validate_component, validate_path};
use inex_git::portable_source::{canonical_portable_source_paths, SourceDirectoryFacts, SourcePathFacts};
use inex_git::repository_commands::{SourceCommand, TargetCommand};
use inex_git::seal_records::ObjectKind;
use inex_git::source_checks::{require_normal_index_tags, validate_source_config, CommandOutput};
use inex_git::source_content::{attribute_query, reject_forbidden_source_control, reject_source_attributes};
use inex_git::source_endpoints::{is_same_location, EndpointAnswers, EndpointQuery};
use inex_git::source_plan::{accept_head, accept_index, body_limit, BodyLimits};
use inex_git::source_planning::{plan_source_repository, SourceReading, SourceReview, SourceSurvey};
use inex_git::source_snapshot::{BindingCapture, BindingSighting, SourceSnapshot};
use inex_git::source_tree::{
    parse_source_index, parse_source_tree, raw_index_semantic_map, RawIndex, RawIndexEntry,
};
use inex_git::target_worktree::TargetChild;
use inex_git::text_map::TextMap;
use inex_git::tree_walk::TreeEvent;
use inex_git::wiped::WipedBytes;

type ImportError = RepositoryImportError;

fn wire(inode: u64, kind: u8) -> [u8; 24] {
    let mut bytes = [0; 24];
    bytes[7] = 1;
    bytes[8..16].copy_from_slice(&inode.to_be_bytes());
    bytes[23] = kind;
    bytes
}

fn directory_identity(inode: u64) -> FilesystemDirectoryIdentity {
    FilesystemDirectoryIdentity { scheme: PublicationIdentityScheme::LinuxDevInodeV1, wire: wire(inode, 1) }
}

fn file_identity(inode: u64) -> FilesystemFileIdentity {
    FilesystemFileIdentity { scheme: PublicationIdentityScheme::LinuxDevInodeV1, wire: wire(inode, 2) }
}

fn oid_of(body: &[u8]) -> [u8; 20] {
    typed_object_oid(ObjectKind::Blob, body.len() as u64, body)
}

fn hex(oid: [u8; 20]) -> String {
    String::from_utf8(lower_hex_oid(oid).to_vec()).expect("digits are text")
}

const HEAD_OID: &str = "1111111111111111111111111111111111111111";

/// A source in memory: its tracked files in order of path.
#[derive(Clone)]
struct Source {
    files: Vec<(&'static str, &'static str, Vec<u8>)>,
}

fn source() -> Source {
    Source {
        files: vec![
            ("a.md", "a.md", b"# A\n".to_vec()),
            ("images/dot.png", "images/dot.png", vec![0x89, 0x50, 0x00, 0xff]),
            ("notes/e\u{301}.md", "notes/\u{e9}.md", b"decomposed\n".to_vec()),
        ],
    }
}

impl Source {
    fn tree_listing(&self) -> Vec<u8> {
        let mut output = Vec::new();
        for (path, _, body) in &self.files {
            output.extend_from_slice(
                format!("100644 blob {} {:>7}\t{path}", hex(oid_of(body)), body.len()).as_bytes(),
            );
            output.push(0);
        }
        output
    }

    fn index_listing(&self) -> Vec<u8> {
        let mut output = Vec::new();
        for (path, _, body) in &self.files {
            output.extend_from_slice(format!("100644 {} 0\t{path}", hex(oid_of(body))).as_bytes());
            output.push(0);
        }
        output
    }

    fn tags(&self) -> Vec<u8> {
        let mut output = Vec::new();
        for (path, _, _) in &self.files {
            output.extend_from_slice(format!("H {path}").as_bytes());
            output.push(0);
        }
        output
    }

    fn attributes(&self, value: &str) -> Vec<u8> {
        let mut output = Vec::new();
        for (path, _, _) in &self.files {
            for name in ["filter", "working-tree-encoding", "ident"] {
                output.extend_from_slice(format!("{path}\0{name}\0{value}\0").as_bytes());
            }
        }
        output
    }

    fn raw_index(&self) -> RawIndex {
        RawIndex {
            entries: self
                .files
                .iter()
                .map(|(path, _, body)| RawIndexEntry { path: path.as_bytes().to_vec(), oid: oid_of(body) })
                .collect(),
        }
    }

    fn worktree(&self) -> (TextMap<()>, Vec<DirectorySeal>) {
        let mut files = TextMap::new();
        for (path, _, _) in &self.files {
            assert!(files.insert_new((*path).to_owned(), ()));
        }
        let directories = vec![
            DirectorySeal { relative_path: "images".to_owned(), identity: directory_identity(20) },
            DirectorySeal { relative_path: "notes".to_owned(), identity: directory_identity(21) },
        ];
        (files, directories)
    }

    fn facts(&self) -> Vec<SourcePathFacts> {
        self.files
            .iter()
            .map(|(path, canonical, _)| SourcePathFacts {
                path: (*path).to_owned(),
                acceptable: true,
                canonical: (*canonical).to_owned(),
                logical_key: canonical.to_lowercase(),
                physical_key: format!("{}.enc", canonical.to_lowercase()),
                directories: match canonical.rfind('/') {
                    Some(cut) => vec![SourceDirectoryFacts {
                        text: path[..path.rfind('/').expect("a parent")].to_owned(),
                        key: canonical[..cut].to_lowercase(),
                    }],
                    None => Vec::new(),
                },
            })
            .collect()
    }

    fn readings(&self) -> Vec<SourceReading> {
        self.files
            .iter()
            .enumerate()
            .map(|(inode, (_, _, body))| SourceReading {
                held: Ok(HeldFile { bytes: WipedBytes::new(body.clone()), identity: file_identity(30 + inode as u64) }),
                hash: line(&hex(oid_of(body))),
                raw: output(body),
            })
            .collect()
    }

    fn survey(&self) -> SourceSurvey {
        SourceSurvey {
            root: Ok("/src".to_owned()),
            root_identity: Ok(directory_identity(1)),
            git_identity: Some(directory_identity(2)),
            root_device: Some(7),
            git_device: Some(7),
            control: Ok(control()),
            config: Ok(config_file()),
            capture: BindingCapture {
                root: Some(directory_identity(1)),
                git: Ok(directory_identity(2)),
                index: Ok(index_file()),
                raw_index: Ok(self.raw_index()),
                objects: Ok(directory_identity(3)),
                config: Ok(config_file()),
                head: Ok(head_file()),
            },
            settings: output(b"core.bare\nfalse\0core.filemode\ntrue\0"),
            version: Ok(()),
            endpoints: endpoints(),
            head: line(HEAD_OID),
            tree: output(&self.tree_listing()),
            index: output(&self.index_listing()),
            tags: output(&self.tags()),
            monitor_tags: output(&self.tags()),
            attributes: output(&self.attributes("unspecified")),
            worktree: Ok(self.worktree()),
        }
    }

    fn plan(&self, survey: SourceSurvey, review: SourceReview) -> Result<SourceSnapshot, ImportError> {
        plan_source_repository("/usr/bin/git".to_owned(), survey, &self.facts(), &self.readings(), review)
    }
}

fn control() -> Vec<NamespaceSeal> {
    vec![
        NamespaceSeal {
            relative_path: "HEAD".to_owned(),
            kind: NamespaceKind::File(file_identity(4)),
            size: 21,
            sha256: Some(raw_sha256(b"ref: refs/heads/main\n")),
        },
        NamespaceSeal {
            relative_path: "objects".to_owned(),
            kind: NamespaceKind::Directory(directory_identity(3)),
            size: 0,
            sha256: None,
        },
    ]
}

fn config_file() -> HeldFile {
    HeldFile { bytes: WipedBytes::new(b"[core]\n\tbare = false\n".to_vec()), identity: file_identity(5) }
}

fn head_file() -> HeldFile {
    HeldFile { bytes: WipedBytes::new(b"ref: refs/heads/main\n".to_vec()), identity: file_identity(4) }
}

fn index_file() -> HeldFile {
    HeldFile { bytes: WipedBytes::new(b"DIRC".to_vec()), identity: file_identity(6) }
}

fn output(bytes: &[u8]) -> CommandOutput {
    Ok(WipedBytes::new(bytes.to_vec()))
}

fn plain(output: CommandOutput) -> Result<Vec<u8>, ImportError> {
    output.map(|bytes| bytes.as_slice().to_vec())
}

/// What is held comes back, and what is appended stands behind it.
#[test]
fn held_bytes_are_given_back() {
    let mut held = WipedBytes::new(b"abc".to_vec());
    assert_eq!((held.as_slice(), held.len()), (b"abc".as_slice(), 3));
    held.append(b"");
    held.append(b"de");
    assert_eq!((held.as_slice(), held.len()), (b"abcde".as_slice(), 5));
    assert_eq!(WipedBytes::new(Vec::new()).len(), 0);
}

fn line(text: &str) -> CommandOutput {
    output(format!("{text}\n").as_bytes())
}

fn endpoints() -> EndpointAnswers {
    EndpointAnswers {
        object_format: line("sha1"),
        inside_work_tree: line("true"),
        prefix: line(""),
        top_level: line("/src"),
        git_directory: line("/src/.git"),
        common_directory: line("/src/.git"),
        index_path: line("/src/.git/index"),
        objects_path: line("/src/.git/objects"),
        split_index: line("false"),
        sparse_index: line("false"),
        shared_index: output(b""),
        top_level_canonical: Some("/src".to_owned()),
        git_directory_canonical: Some("/src/.git".to_owned()),
        common_directory_canonical: Some("/src/.git/".to_owned()),
    }
}

fn review() -> SourceReview {
    SourceReview {
        control: Ok(control()),
        root_identity: Some(directory_identity(1)),
        git_identity: Some(directory_identity(2)),
        config: Ok(config_file()),
    }
}

fn planned(source: &Source) -> SourceSnapshot {
    source.plan(source.survey(), review()).ok().expect("the source is planned")
}

#[test]
fn a_plan_binds_head_index_namespace_and_raw_bytes() {
    let source = source();
    let snapshot = planned(&source);
    assert_eq!(snapshot.root(), "/src");
    assert_eq!(snapshot.head_oid(), HEAD_OID);
    assert_eq!(snapshot.directory_count(), 2);
    assert_eq!(snapshot.git_executable, "/usr/bin/git");
    assert_eq!(snapshot.config_sha256, raw_sha256(config_file().bytes.as_slice()));
    assert_eq!(snapshot.tree_sha256, raw_sha256(&source.tree_listing()));
    assert_eq!(snapshot.index_sha256, raw_sha256(&source.index_listing()));
    assert!(snapshot.contains_directory_identity(&directory_identity(1)));
    assert!(snapshot.contains_directory_identity(&directory_identity(21)));
    assert!(!snapshot.contains_directory_identity(&directory_identity(99)));
    let entries = snapshot.entries();
    assert_eq!(entries.len(), 3);
    assert_eq!(entries[1].relative_path(), "images/dot.png");
    assert_eq!(entries[1].blob_oid(), hex(oid_of(&[0x89, 0x50, 0x00, 0xff])));
    assert_eq!(entries[1].size(), 4);
    assert_eq!(entries[1].sha256(), raw_sha256(&[0x89, 0x50, 0x00, 0xff]));
    assert!(!entries[1].is_markdown());
    assert!(entries[0].is_markdown());
}

#[test]
fn a_plan_counts_the_names_that_normalization_changed() {
    let source = source();
    let snapshot = planned(&source);
    assert_eq!(snapshot.normalized_path_entry_count(), 1);
    let entry = &snapshot.entries()[2];
    assert_eq!(entry.relative_path(), "notes/\u{e9}.md");
    assert_eq!(entry.source_relative_path, "notes/e\u{301}.md");
}

#[test]
fn a_plan_is_refused_when_the_source_changes_under_it() {
    let source = source();
    let changed = Some(ImportError::SourceChanged);
    let mut seen = review();
    seen.root_identity = Some(directory_identity(9));
    assert_eq!(source.plan(source.survey(), seen).err(), changed);
    let mut seen = review();
    seen.git_identity = None;
    assert_eq!(source.plan(source.survey(), seen).err(), changed);
    let mut seen = review();
    seen.config = Ok(HeldFile { bytes: WipedBytes::new(b"[core]\n\tbare = true\n".to_vec()), identity: file_identity(5) });
    assert_eq!(source.plan(source.survey(), seen).err(), changed);
    let mut seen = review();
    seen.control = Ok(control().into_iter().take(1).collect());
    assert_eq!(source.plan(source.survey(), seen).err(), changed);
}

#[test]
fn a_plan_is_refused_for_dirty_bytes_and_pointers() {
    let source = source();
    let mut readings = source.readings();
    readings[0].held = Ok(HeldFile { bytes: WipedBytes::new(b"# B\n".to_vec()), identity: file_identity(30) });
    let dirty = plan_source_repository(
        "/usr/bin/git".to_owned(),
        source.survey(),
        &source.facts(),
        &readings,
        review(),
    );
    assert_eq!(dirty.err(), Some(ImportError::SourceChanged));

    let mut pointer = source.clone();
    pointer.files[0].2 = b"version https://git-lfs.github.com/spec/v1\noid sha256:00\nsize 4\n".to_vec();
    assert_eq!(pointer.plan(pointer.survey(), review()).err(), Some(ImportError::LfsPointerUnsupported));

    let mut binary = source.clone();
    binary.files[0].2 = vec![0xff, 0xfe];
    assert_eq!(binary.plan(binary.survey(), review()).err(), Some(ImportError::UnsafeSourceEntry));
}

#[test]
fn what_is_seen_first_of_a_source_decides() {
    let source = source();
    let refused = |change: fn(&mut SourceSurvey)| {
        let mut survey = source.survey();
        change(&mut survey);
        source.plan(survey, review()).err()
    };
    assert_eq!(refused(|survey| survey.git_identity = None), Some(ImportError::UnsupportedSourceRepository));
    assert_eq!(refused(|survey| survey.git_device = Some(8)), Some(ImportError::UnsafeSourceControl));
    assert_eq!(
        refused(|survey| survey.root_identity = Err(IoErrorKind::NotFound)),
        Some(ImportError::Io { operation: RepositoryIoOperation::InspectRoot, kind: IoErrorKind::NotFound })
    );
    assert_eq!(
        refused(|survey| survey.capture.git = Ok(directory_identity(9))),
        Some(ImportError::UnsafeSourceControl)
    );
    for (failure, error) in [
        (RawIndexError::Malformed, ImportError::UnsafeSourceControl),
        (RawIndexError::Unsupported, ImportError::UnsafeSourceEntry),
        (RawIndexError::ResourceLimit, ImportError::ResourceLimit),
    ] {
        let mut survey = source.survey();
        survey.capture.raw_index = Err(failure);
        assert_eq!(source.plan(survey, review()).err(), Some(error));
    }
    assert_eq!(
        refused(|survey| survey.capture.config = Ok(head_file())),
        Some(ImportError::SourceChanged)
    );
    assert_eq!(
        refused(|survey| survey.settings = output(b"core.worktree\n/elsewhere\0")),
        Some(ImportError::UnsafeSourceControl)
    );
    assert_eq!(
        refused(|survey| survey.version = Err(ImportError::UnsupportedGitVersion)),
        Some(ImportError::UnsupportedGitVersion)
    );
    assert_eq!(
        refused(|survey| survey.endpoints.object_format = line("sha256")),
        Some(ImportError::UnsupportedSourceRepository)
    );
    assert_eq!(refused(|survey| survey.head = line("HEAD")), Some(ImportError::MalformedGitOutput));
    assert_eq!(
        refused(|survey| survey.tags = output(b"S a.md\0")),
        Some(ImportError::UnsafeSourceEntry)
    );
    assert_eq!(
        refused(|survey| survey.attributes = output(&source_attributes("lfs"))),
        Some(ImportError::ContentFilterUnsupported)
    );
    assert_eq!(
        refused(|survey| {
            survey.git_identity = None;
            survey.version = Err(ImportError::UnsupportedGitVersion);
        }),
        Some(ImportError::UnsupportedSourceRepository)
    );
}

fn source_attributes(value: &str) -> Vec<u8> {
    source().attributes(value)
}

#[test]
fn an_untracked_file_changes_the_source() {
    let source = source();
    let mut survey = source.survey();
    let (mut files, directories) = source.worktree();
    assert!(files.insert_new("untracked.txt".to_owned(), ()));
    survey.worktree = Ok((files, directories));
    let refused = source.plan(survey, review());
    assert_eq!(refused.as_ref().err(), Some(&ImportError::UnsafeSourceEntry));
    assert_eq!(planned(&source).revalidate(&refused), Err(ImportError::SourceChanged));
}

#[test]
fn names_that_normalize_to_one_name_are_refused() {
    let mut source = source();
    source.files.push(("notes/\u{e9}.md", "notes/\u{e9}.md", b"composed\n".to_vec()));
    assert_eq!(canonical_portable_source_paths(&source.facts()).err(), Some(ImportError::UnsafeSourceEntry));
    assert_eq!(source.plan(source.survey(), review()).err(), Some(ImportError::UnsafeSourceEntry));
}

#[test]
fn directories_with_one_key_are_one_directory() {
    let facts = |path: &str, directory: &str| SourcePathFacts {
        path: path.to_owned(),
        acceptable: true,
        canonical: path.to_owned(),
        logical_key: path.to_lowercase(),
        physical_key: format!("{}.enc", path.to_lowercase()),
        directories: vec![SourceDirectoryFacts { text: directory.to_owned(), key: directory.to_lowercase() }],
    };
    let same = vec![facts("notes/a.md", "notes"), facts("notes/b.md", "notes")];
    let canonical = canonical_portable_source_paths(&same).ok().expect("one directory");
    assert_eq!(canonical.get("notes/b.md").map(String::as_str), Some("notes/b.md"));
    let cased = vec![facts("notes/a.md", "notes"), facts("Notes/b.md", "Notes")];
    assert_eq!(canonical_portable_source_paths(&cased).err(), Some(ImportError::UnsafeSourceEntry));
    let taken = vec![facts("a", "x"), facts("b/a.enc/c", "a.enc")];
    assert_eq!(canonical_portable_source_paths(&taken).err(), Some(ImportError::UnsafeSourceEntry));
}

#[test]
fn reading_an_entry_proves_its_bytes_again() {
    let source = source();
    let snapshot = planned(&source);
    let entry = &snapshot.entries()[0];
    let reading = &source.readings()[0];
    let held = || Ok(HeldFile { bytes: WipedBytes::new(b"# A\n".to_vec()), identity: file_identity(30) });
    assert_eq!(plain(snapshot.read_entry(entry, held(), &reading.hash, &reading.raw)), Ok(b"# A\n".to_vec()));
    assert_eq!(
        plain(snapshot.read_entry(
            entry,
            Ok(HeldFile { bytes: WipedBytes::new(b"# A\n".to_vec()), identity: file_identity(99) }),
            &reading.hash,
            &reading.raw,
        )),
        Err(ImportError::SourceChanged)
    );
    assert_eq!(
        plain(snapshot.read_entry(entry, held(), &line(HEAD_OID), &reading.raw)),
        Err(ImportError::SourceChanged)
    );
    let mut foreign = source.clone();
    foreign.files[0].2 = b"# C\n".to_vec();
    let other = planned(&foreign);
    assert_eq!(
        plain(snapshot.read_entry(&other.entries()[0], held(), &reading.hash, &reading.raw)),
        Err(ImportError::SourceChanged)
    );
}

#[test]
fn revalidation_compares_with_a_new_plan() {
    let source = source();
    let snapshot = planned(&source);
    assert_eq!(snapshot.revalidate(&Ok(planned(&source))), Ok(()));
    let mut changed = source.clone();
    changed.files[0].2 = b"# D\n".to_vec();
    assert_eq!(snapshot.revalidate(&Ok(planned(&changed))), Err(ImportError::SourceChanged));
    for changed in [
        ImportError::UnsupportedSourceRepository,
        ImportError::UnsafeSourceControl,
        ImportError::UnsafeSourceEntry,
        ImportError::SourceChanged,
        ImportError::ContentFilterUnsupported,
        ImportError::LfsPointerUnsupported,
        ImportError::MalformedGitOutput,
    ] {
        assert_eq!(snapshot.revalidate(&Err(changed)), Err(ImportError::SourceChanged));
    }
    for failed in [
        ImportError::GitExecutableUnavailable,
        ImportError::UnsupportedGitVersion,
        ImportError::GitCommandFailed { operation: RepositoryGitOperation::DiscoverSource },
        ImportError::Io { operation: RepositoryIoOperation::ReadFile, kind: IoErrorKind::NotFound },
        ImportError::ResourceLimit,
    ] {
        assert_eq!(snapshot.revalidate(&Err(failed)), Err(failed));
    }
}

#[test]
fn an_unchanged_source_gives_back_every_body() {
    let source = source();
    let snapshot = planned(&source);
    assert_eq!(snapshot.entries().len(), source.files.len());
    for ((entry, reading), (_, _, body)) in snapshot.entries().iter().zip(source.readings()).zip(&source.files) {
        assert_eq!(plain(snapshot.read_entry(entry, reading.held, &reading.hash, &reading.raw)).as_ref(), Ok(body));
    }
}

#[test]
fn a_command_binding_notices_each_change() {
    let source = source();
    let binding = planned(&source).command_binding;
    let seen = || BindingSighting {
        root: Some(directory_identity(1)),
        git: Ok(directory_identity(2)),
        objects: Ok(directory_identity(3)),
        config: Ok(config_file()),
        head: Ok(head_file()),
        index: Ok(index_file()),
    };
    assert_eq!(binding.verify_light(&seen()), Ok(()));
    let mut moved = seen();
    moved.objects = Ok(directory_identity(8));
    assert_eq!(binding.verify_light(&moved), Err(ImportError::SourceChanged));
    let mut rewritten = seen();
    rewritten.head = Ok(HeldFile { bytes: WipedBytes::new(b"ref: refs/heads/next\n".to_vec()), identity: file_identity(4) });
    assert_eq!(binding.verify_light(&rewritten), Err(ImportError::SourceChanged));
}

#[test]
fn tree_listings_name_regular_blobs_only() {
    let source = source();
    let tree = parse_source_tree(&source.tree_listing()).ok().expect("the listing parses");
    assert_eq!(tree.len(), 3);
    assert_eq!(tree.get("a.md").map(|entry| entry.size), Some(4));
    let oid = hex(oid_of(b""));
    for (record, error) in [
        (format!("100755 blob {oid} 0\trun.sh\0"), ImportError::UnsafeSourceEntry),
        (format!("120000 blob {oid} 0\tlink\0"), ImportError::UnsafeSourceEntry),
        (format!("160000 commit {oid} -\tmodule\0"), ImportError::UnsafeSourceEntry),
        (format!("100644 blob {oid} 0\t../up\0"), ImportError::UnsafeSourceEntry),
        (format!("100644 blob {oid} 0\t/rooted\0"), ImportError::UnsafeSourceEntry),
        (format!("100644 blob {oid} -1\ta\0"), ImportError::MalformedGitOutput),
        (format!("100644 blob {}0 0\ta\0", &oid[1..39]), ImportError::MalformedGitOutput),
        (format!("100644 blob {oid} 0 a\0"), ImportError::MalformedGitOutput),
        (format!("100644 blob {oid} 0\ta"), ImportError::MalformedGitOutput),
        (format!("100644 blob {oid} 0\ta\0100644 blob {oid} 0\ta\0"), ImportError::ResourceLimit),
    ] {
        assert_eq!(parse_source_tree(record.as_bytes()).err(), Some(error), "{record}");
    }
    assert_eq!(parse_source_tree(b"").ok().map(|tree| tree.len()), Some(0));
}

#[test]
fn index_listings_name_the_merged_stage_only() {
    let oid = hex(oid_of(b"x"));
    let index = parse_source_index(format!("100644 {oid} 0\ta b.md\0").as_bytes()).ok().expect("parses");
    assert_eq!(index.get("a b.md").map(String::as_str), Some(oid.as_str()));
    for record in [format!("100644 {oid} 1\ta\0"), format!("100755 {oid} 0\ta\0")] {
        assert_eq!(parse_source_index(record.as_bytes()).err(), Some(ImportError::UnsafeSourceEntry));
    }
}

#[test]
fn the_index_must_be_the_tree() {
    let source = source();
    let tree = parse_source_tree(&source.tree_listing()).ok().expect("the listing parses");
    assert_eq!(accept_index(&tree, &output(&source.index_listing()), &source.raw_index()), Ok(()));
    let mut staged = source.clone();
    staged.files[0].2 = b"staged\n".to_vec();
    assert_eq!(
        accept_index(&tree, &output(&staged.index_listing()), &staged.raw_index()),
        Err(ImportError::SourceChanged)
    );
    assert_eq!(
        accept_index(&tree, &output(&source.index_listing()), &staged.raw_index()),
        Err(ImportError::SourceChanged)
    );
    let map = raw_index_semantic_map(&source.raw_index()).ok().expect("the raw index is listable");
    assert_eq!(map.len(), 3);
    assert_eq!(accept_head(&Err(ImportError::ResourceLimit)).err(), Some(ImportError::ResourceLimit));
}

#[test]
fn tags_and_attributes_are_read_per_path() {
    let source = source();
    let tree = parse_source_tree(&source.tree_listing()).ok().expect("the listing parses");
    assert_eq!(require_normal_index_tags(&source.tags(), &tree), Ok(()));
    assert_eq!(require_normal_index_tags(b"h a.md\0", &tree), Err(ImportError::UnsafeSourceEntry));
    assert_eq!(require_normal_index_tags(b"H a.md\0H a.md\0", &tree), Err(ImportError::MalformedGitOutput));
    assert_eq!(require_normal_index_tags(b"H a.md\0", &tree), Err(ImportError::SourceChanged));
    assert_eq!(attribute_query(&tree), "a.md\0images/dot.png\0notes/e\u{301}.md\0".as_bytes());
    assert_eq!(reject_source_attributes(&source.attributes("unset"), 3), Ok(()));
    assert_eq!(
        reject_source_attributes(&source.attributes("set"), 3),
        Err(ImportError::ContentFilterUnsupported)
    );
    assert_eq!(
        reject_source_attributes(&source.attributes("unset"), 2),
        Err(ImportError::MalformedGitOutput)
    );
}

#[test]
fn a_source_configuration_stays_inside_the_repository() {
    assert_eq!(validate_source_config(b"core.bare\nfalse\0user.name\nAda\0"), Ok(()));
    for config in [
        b"core.worktree\n/x\0".as_slice(),
        b"Core.AttributesFile\n/x\0".as_slice(),
        b"include.path\n/x\0".as_slice(),
        b"includeif.gitdir:/x.path\n/x\0".as_slice(),
        b"remote.origin.promisor\nfalse\0".as_slice(),
        b"extensions.partialclone\norigin\0".as_slice(),
        b"core.splitindex\nTRUE\0".as_slice(),
        b"index.sparse\nfalse\0index.sparse\nfalse\0".as_slice(),
        b"novalue\0".as_slice(),
    ] {
        assert_eq!(validate_source_config(config), Err(ImportError::UnsafeSourceControl));
    }
    assert_eq!(validate_source_config(b"core.bare\nfalse"), Err(ImportError::MalformedGitOutput));
}

#[test]
fn forbidden_control_files_are_found() {
    let seal = |path: &str| NamespaceSeal {
        relative_path: path.to_owned(),
        kind: NamespaceKind::File(file_identity(1)),
        size: 0,
        sha256: Some(raw_sha256(b"")),
    };
    assert_eq!(reject_forbidden_source_control(&control()), Ok(()));
    for path in [
        "commondir",
        "objects/info/alternates",
        "info/sparse-checkout",
        "SharedIndex.0123",
        "objects/pack/pack-1.promisor",
    ] {
        assert_eq!(
            reject_forbidden_source_control(&[seal("HEAD"), seal(path)]),
            Err(ImportError::UnsafeSourceControl),
            "{path}"
        );
    }
}

#[test]
fn endpoints_are_locations_and_not_texts() {
    assert!(is_same_location(b"/a/b", b"/a//b/"));
    assert!(is_same_location(b"/a/./b", b"/a/b"));
    assert!(!is_same_location(b"/a/b", b"a/b"));
    assert!(!is_same_location(b"/a/b", b"/a/b/c"));
    assert_eq!(EndpointQuery::ObjectFormat.arguments()[0], "rev-parse");
    assert!(EndpointQuery::SplitIndex.maximum_output() < EndpointQuery::TopLevel.maximum_output());
}

#[test]
fn outputs_are_lines_or_records() {
    assert_eq!(one_line(b"main\n"), Ok("main"));
    assert_eq!(one_line(b"main\r\n"), Ok("main"));
    assert_eq!(one_line(b"a\nb\n"), Err(ImportError::MalformedGitOutput));
    assert_eq!(one_line(&[0xff, 0x0a]), Err(ImportError::MalformedGitOutput));
    assert_eq!(nul_records(b"a\0b\0"), Ok(vec![b"a".as_slice(), b"b".as_slice()]));
    assert_eq!(nul_records(b""), Ok(Vec::new()));
    assert_eq!(nul_records(b"a"), Err(ImportError::MalformedGitOutput));
    assert_eq!(parse_unsigned(b"+07"), Some(7));
    assert_eq!(parse_unsigned(b"18446744073709551615"), Some(u64::MAX));
    assert_eq!(parse_unsigned(b"18446744073709551616"), None);
    assert_eq!(parse_unsigned(b""), None);
    assert!(is_possible_lfs_pointer(b"version https://git-lfs.github.com/spec/v1\r\noid"));
    assert!(!is_possible_lfs_pointer(b"version https://git-lfs.github.com/spec/v2\n"));
}

#[test]
fn relative_paths_have_plain_parts() {
    for path in ["a/b.md", "a//b", "a/./b", "a/"] {
        assert_eq!(validate_relative_path_shape(path), Ok(()), "{path}");
    }
    for path in ["", "/a", "./a", "..", "a/../b", "a\\b", "a\0b"] {
        assert_eq!(validate_relative_path_shape(path), Err(ImportError::UnsafeSourceEntry), "{path}");
    }
    let deep = vec!["d"; 129].join("/");
    assert!(validate_relative_path_shape(&deep).is_err());
}

#[test]
fn portable_components_are_normalized_and_free_of_device_names() {
    assert_eq!(validate_component("\u{e9}.md".as_bytes()), Ok(()));
    assert_eq!(validate_path("notes/\u{e9}.md", false, 64), Ok(()));
    assert!(validate_path("notes/e\u{301}.md", false, 64).is_err());
    for component in ["CON", "con.txt", "COM1", "com\u{b2}.md", "a.", "a ", " a", "a:b", "a\u{85}b", "a\u{7f}", "abc~1.md", "..", ""] {
        assert!(validate_component(component.as_bytes()).is_err(), "{component}");
    }
    assert!(is_windows_device_basename(b"lpt9"));
    assert!(!is_windows_device_basename(b"lpt10"));
    assert_eq!(validate_path("", true, 10), Ok(()));
    assert!(validate_path("", false, 10).is_err());
    assert!(validate_path("abcdefghijk", false, 10).is_err());
    assert_eq!(validate_path("abcdefghij", false, 10), Ok(()));
}

#[test]
fn paths_are_joined_from_plain_names() {
    assert_eq!(slash_path(&[PathPart::Normal(Some("a")), PathPart::Normal(Some("b"))]), Some("a/b".to_owned()));
    let joined = slash_path(&[PathPart::Normal(Some("a")), PathPart::Normal(Some("b c")), PathPart::Normal(Some("d.md"))])
        .expect("plain names");
    let again: Vec<PathPart<'_>> = joined.split('/').map(|name| PathPart::Normal(Some(name))).collect();
    assert_eq!(slash_path(&again), Some("a/b c/d.md".to_owned()));
    assert_eq!(slash_path(&[PathPart::Normal(None)]), None);
    assert_eq!(slash_path(&[PathPart::Other]), None);
    for (path, form) in [("a/b", "a/b"), ("a//b/", "a/b"), ("a/./b", "a/b"), ("a", "a"), ("", "")] {
        assert_eq!(slash_path_text(path).as_deref(), Some(form), "{path}");
        assert_eq!(slash_path_text(form).as_deref(), Some(form), "{form}");
    }
    for path in ["/", "/a", "..", "a/..", "a/../b", ".", "./a"] {
        assert_eq!(slash_path_text(path), None, "{path}");
    }
    let absolute = lexical_absolute_path(
        &[LexicalPart::Root, LexicalPart::Name("a"), LexicalPart::Current, LexicalPart::Name("b"), LexicalPart::Parent],
        ImportError::UnsafeTarget,
    )
    .ok()
    .expect("the path stays below the root");
    assert!(absolute.rooted);
    assert_eq!(absolute.names, vec!["a"]);
    assert_eq!(
        lexical_absolute_path(&[LexicalPart::Root, LexicalPart::Parent], ImportError::UnsafeTarget).err(),
        Some(ImportError::UnsafeTarget)
    );
}

#[test]
fn directories_are_plain_all_the_way_up() {
    let places = [PlaceKind::Directory, PlaceKind::Directory];
    assert_eq!(validate_directory_ancestor_chain(&places, ImportError::UnsafeTarget), Ok(()));
    assert_eq!(
        validate_directory_ancestor_chain(&[PlaceKind::Directory, PlaceKind::Other], ImportError::UnsafeTarget),
        Err(ImportError::UnsafeTarget)
    );
    assert_eq!(
        canonical_normal_directory(
            &places,
            PlaceKind::Directory,
            Err(IoErrorKind::PermissionDenied),
            ImportError::UnsafeTarget,
        ),
        Err(ImportError::Io { operation: RepositoryIoOperation::InspectRoot, kind: IoErrorKind::PermissionDenied })
    );
    assert_eq!(
        canonical_normal_directory(&places, PlaceKind::Directory, Ok(PlaceKind::Directory), ImportError::UnsafeTarget),
        Ok(())
    );
}

fn file_sighting(length: u64, inode: u64) -> FileSighting {
    FileSighting { length: Some(length), binding_holds: true, identity: Some(file_identity(inode)) }
}

#[test]
fn a_relative_file_is_read_through_held_directories() {
    let parts = [PathPart::Normal(Some("notes")), PathPart::Normal(Some("a.md"))];
    let reading = || RelativeReading {
        root_opened: true,
        opened: vec![OpenedKind::Directory, OpenedKind::File],
        before: file_sighting(3, 5),
        body: WipedBytes::new(b"abc".to_vec()),
        more: false,
        after: file_sighting(3, 5),
        directories_hold: true,
    };
    let read = |reading: RelativeReading, maximum: u64| {
        read_secure_relative_file(&parts, reading, maximum, ImportError::UnsafeSourceEntry)
    };
    let held = read(reading(), 3).ok().expect("the file is read");
    assert_eq!(held.bytes.as_slice(), b"abc");
    assert_eq!(read(reading(), 2).err(), Some(ImportError::UnsafeSourceEntry));
    let mut linked = reading();
    linked.opened[0] = OpenedKind::Refused;
    assert_eq!(read(linked, 3).err(), Some(ImportError::UnsafeSourceEntry));
    let mut replaced = reading();
    replaced.after = file_sighting(3, 6);
    assert_eq!(read(replaced, 3).err(), Some(ImportError::UnsafeSourceEntry));
    let mut longer = reading();
    longer.more = true;
    assert!(read(longer, 3).is_err());
    let directories = DirectoryReading {
        root_opened: true,
        opened: vec![OpenedKind::Directory],
        identity: Some(directory_identity(9)),
        directories_hold: true,
    };
    let identity = secure_relative_directory_identity(&parts[..1], &directories, ImportError::UnsafeTarget)
        .ok()
        .expect("the directory is held");
    assert!(identity.matches(&directory_identity(9)));
}

#[test]
fn a_bound_file_is_the_same_before_and_after() {
    let reading = || BoundReading {
        length: Some(3),
        opened: Ok(()),
        sole_before: true,
        sole_stream: true,
        identity: Some(file_identity(5)),
        bytes: Ok(WipedBytes::new(b"abc".to_vec())),
        sole_after: true,
        identity_after: Some(file_identity(5)),
    };
    let held = read_bound_regular_file(reading(), 3, ImportError::UnsafeTarget).ok().expect("the file is read");
    assert_eq!(held.bytes.as_slice(), b"abc");
    let mut moved = reading();
    moved.identity_after = Some(file_identity(6));
    assert_eq!(read_bound_regular_file(moved, 3, ImportError::UnsafeTarget).err(), Some(ImportError::UnsafeTarget));
    let mut unopened = reading();
    unopened.opened = Err(IoErrorKind::NotFound);
    assert_eq!(
        read_bound_regular_file(unopened, 3, ImportError::UnsafeTarget).err(),
        Some(ImportError::Io { operation: RepositoryIoOperation::ReadFile, kind: IoErrorKind::NotFound })
    );
}

#[test]
fn a_hashed_file_may_not_grow_or_shrink() {
    let begin = || FileHashing::begin(NamespacePolicy::TargetGit, Some(8), file_sighting(6, 5)).ok().expect("begins");
    let mut hashing = begin();
    assert_eq!(hashing.take(b"abc"), Ok(()));
    assert_eq!(hashing.take(b"def"), Ok(()));
    let hashed = hashing.finish(file_sighting(6, 5)).ok().expect("finishes");
    assert_eq!(hashed.sha256, raw_sha256(b"abcdef"));
    assert_eq!(hashed.size, 6);
    let mut grown = begin();
    assert_eq!(grown.take(b"abcdefghi"), Err(ImportError::ResourceLimit));
    assert_eq!(grown.observed, 0);
    assert_eq!(grown.take(b"abcdef"), Ok(()));
    assert_eq!(grown.finish(file_sighting(6, 5)).ok().expect("finishes").sha256, raw_sha256(b"abcdef"));
    let mut short = begin();
    assert_eq!(short.take(b"abc"), Ok(()));
    assert_eq!(short.finish(file_sighting(6, 5)).err(), Some(ImportError::TargetAuditFailed));
    let mut observed: u64 = 7;
    assert_eq!(advance_bounded_stream_observation(&mut observed, 1, Some(8)), Ok(()));
    assert_eq!(observed, 8);
    assert_eq!(advance_bounded_stream_observation(&mut observed, 1, Some(8)), Err(ImportError::ResourceLimit));
}

#[test]
fn a_namespace_is_listed_in_order() {
    let mut inventory = NamespaceInventory::begin(NamespacePolicy::SourceControl);
    assert_eq!(inventory.enter_directory(0, true), Ok(()));
    assert_eq!(inventory.enter_directory(129, true), Err(ImportError::ResourceLimit));
    assert_eq!(inventory.leave_directory(false), Err(ImportError::UnsafeSourceControl));
    for name in ["objects", "HEAD"] {
        let path = inventory.account_child("", Some(name)).ok().expect("a plain name");
        assert_eq!(inventory.record_child(path, NamespaceChild::Directory(directory_identity(3))), Ok(()));
    }
    let seals = inventory.finish(true).ok().expect("the directory holds");
    assert_eq!(seals.iter().map(|seal| seal.relative_path.as_str()).collect::<Vec<_>>(), vec!["HEAD", "objects"]);

    let mut refused = NamespaceInventory::begin(NamespacePolicy::SourceControl);
    assert_eq!(refused.account_child("", None).err(), Some(ImportError::UnsafeSourceControl));
    let unbound = NamespaceInventory::begin(NamespacePolicy::TargetPrivate);
    assert_eq!(unbound.finish(false).err(), Some(ImportError::TargetAuditFailed));
}

#[test]
fn a_source_inventory_passes_over_its_own_git_directory() {
    let mut inventory = SourceInventory::begin(directory_identity(2));
    assert_eq!(inventory.enter_directory(0, true, Ok(())), Ok(()));
    assert_eq!(
        inventory.enter_directory(0, true, Err(IoErrorKind::PermissionDenied)),
        Err(ImportError::Io {
            operation: RepositoryIoOperation::InspectNamespace,
            kind: IoErrorKind::PermissionDenied,
        })
    );
    let mut linked = SourceInventory::begin(directory_identity(2));
    assert_eq!(
        linked.record_child("", ".git", ".git".to_owned(), SourceChild::Other).err(),
        Some(ImportError::UnsafeSourceControl)
    );
    assert_eq!(
        linked.record_child("", "fifo", "fifo".to_owned(), SourceChild::Other).err(),
        Some(ImportError::UnsafeSourceEntry)
    );
    let git = inventory.account_child("", Some(".git")).ok().expect("a plain name");
    let step = inventory.record_child(
        "",
        ".git",
        git,
        SourceChild::Directory { identity: directory_identity(2), binding_holds: true },
    );
    assert!(matches!(step, Ok(SourceStep::PassOver)));
    let notes = inventory.account_child("", Some("notes")).ok().expect("a plain name");
    let step = inventory.record_child(
        "",
        "notes",
        notes,
        SourceChild::Directory { identity: directory_identity(3), binding_holds: true },
    );
    assert!(matches!(step, Ok(SourceStep::Descend)));
    let file = inventory.account_child("notes", Some("a.md")).ok().expect("a plain name");
    assert_eq!(file, "notes/a.md");
    let step = inventory.record_child("notes", "a.md", file, SourceChild::File { binding_holds: true });
    assert!(matches!(step, Ok(SourceStep::Listed)));
    assert_eq!(inventory.leave_directory(true), Ok(()));
    let (files, directories) = inventory.finish();
    assert!(files.contains("notes/a.md"));
    assert_eq!(files.len(), 1);
    assert_eq!(directories.len(), 1);
    assert_eq!(directories[0].relative_path, "notes");
}

#[test]
fn one_filesystem_is_required() {
    assert_eq!(require_same_filesystem(Some(1), Some(1), ImportError::UnsafeTarget), Ok(()));
    assert_eq!(require_same_filesystem(Some(1), Some(2), ImportError::UnsafeTarget), Err(ImportError::UnsafeTarget));
    assert_eq!(require_same_filesystem(None, None, ImportError::UnsafeTarget), Err(ImportError::UnsafeTarget));
}

#[test]
fn commands_name_their_operation() {
    assert_eq!(SourceCommand::Head.operation(), RepositoryGitOperation::DiscoverSource);
    let arguments = SourceCommand::Tree { commit: HEAD_OID }.arguments();
    assert!(arguments.contains(&"ls-tree") && arguments.contains(&HEAD_OID));
    assert_eq!(SourceCommand::ReadBlob { oid: HEAD_OID, size: 12 }.maximum_output(), 13);
    assert_eq!(TargetCommand::WriteTree.arguments(), vec!["write-tree"]);
    assert_eq!(TargetCommand::WriteTree.operation(), RepositoryGitOperation::ConstructTarget);
    assert_eq!(body_limit(BodyLimits { document: 3, asset: 9 }, true), 3);
    assert_eq!(body_limit(BodyLimits { document: 3, asset: 9 }, false), 9);
}

#[test]
fn diagnostics_of_a_snapshot_hide_its_paths() {
    let snapshot = planned(&source());
    let text = String::from_utf8(snapshot.redacted()).expect("diagnostics are text");
    assert_eq!(text, "SourceSnapshot { root: \"[REDACTED]\", entries: 3, directories: 2, normalized_path_entries: 1, .. }");
    let text = String::from_utf8(snapshot.entries()[0].redacted()).expect("diagnostics are text");
    assert_eq!(text, "SourceSnapshotEntry { path: \"[REDACTED]\", size: 4, markdown: true, .. }");
    assert_eq!(snapshot.command_binding.redacted(), "SourceCommandBinding { root: [REDACTED], .. }");
    let text = String::from_utf8(snapshot.command_binding.head.redacted()).expect("diagnostics are text");
    assert_eq!(text, "BoundControlFile { path: \"[REDACTED]\", size: 21, .. }");
}

fn met<C>(name: &str, child: C) -> TreeEvent<C> {
    TreeEvent::Child { name: Some(name.to_owned()), child }
}

fn left<C>() -> TreeEvent<C> {
    TreeEvent::Leave { holds: true }
}

fn sealed_file(inode: u64) -> SealedChild {
    SealedChild::File(Ok(HashedFile { identity: file_identity(inode), size: inode, sha256: [7; 32] }))
}

fn namespace_sighting() -> NamespaceSighting {
    NamespaceSighting {
        root_opened: true,
        root_holds: true,
        events: vec![
            met("refs", SealedChild::Directory { identity: directory_identity(2), holds: true }),
            met("main", sealed_file(3)),
            left(),
            met("HEAD", sealed_file(4)),
            left(),
        ],
    }
}

#[test]
fn a_whole_namespace_is_listed_in_the_order_of_its_paths() {
    let policy = NamespacePolicy::SourceControl;
    let seals = inventory_namespace(policy, &namespace_sighting()).ok().expect("lists");
    let paths: Vec<&str> = seals.iter().map(|seal| seal.relative_path.as_str()).collect();
    assert_eq!(paths, vec!["HEAD", "refs", "refs/main"]);
    assert_eq!(seals[0].size, 4);
    assert!(seals[1].sha256.is_none() && seals[1].size == 0);
    assert!(matches!(seals[1].kind, NamespaceKind::Directory(identity) if identity.matches(&directory_identity(2))));
    assert!(matches!(seals[2].kind, NamespaceKind::File(identity) if identity.matches(&file_identity(3))));
    assert_eq!(seals[2].sha256, Some([7; 32]));
}

#[test]
fn a_namespace_with_a_gap_is_not_listed() {
    let policy = NamespacePolicy::TargetGit;
    let refusal = |seen: NamespaceSighting| inventory_namespace(policy, &seen).err();
    let failed = Some(ImportError::TargetAuditFailed);
    assert_eq!(refusal(NamespaceSighting { root_opened: false, ..namespace_sighting() }), failed);
    assert_eq!(refusal(NamespaceSighting { root_holds: false, ..namespace_sighting() }), failed);
    let mut seen = namespace_sighting();
    seen.events.pop();
    assert_eq!(refusal(seen), failed);
    let mut seen = namespace_sighting();
    seen.events.push(left());
    assert_eq!(refusal(seen), failed);
    let mut seen = namespace_sighting();
    seen.events[2] = TreeEvent::Leave { holds: false };
    assert_eq!(refusal(seen), failed);
    let mut seen = namespace_sighting();
    seen.events[0] = met("refs", SealedChild::Directory { identity: directory_identity(2), holds: false });
    assert_eq!(refusal(seen), failed);
    let mut seen = namespace_sighting();
    seen.events[1] = TreeEvent::Child { name: None, child: sealed_file(3) };
    assert_eq!(refusal(seen), failed);
    let mut seen = namespace_sighting();
    seen.events[1] = met("main", SealedChild::Refused);
    assert_eq!(refusal(seen), failed);
    let mut seen = namespace_sighting();
    seen.events[3] = met("HEAD", SealedChild::File(Err(ImportError::ResourceLimit)));
    assert_eq!(refusal(seen), Some(ImportError::ResourceLimit));
    let mut deep = namespace_sighting();
    deep.events.clear();
    for _ in 0..129 {
        deep.events.push(met("d", SealedChild::Directory { identity: directory_identity(2), holds: true }));
    }
    assert_eq!(refusal(deep), Some(ImportError::ResourceLimit));
}

fn source_directory(inode: u64) -> SourceEntry {
    let seen = SourceChild::Directory { identity: directory_identity(inode), binding_holds: true };
    SourceEntry { seen, listed: Ok(()) }
}

fn source_file() -> SourceEntry {
    SourceEntry { seen: SourceChild::File { binding_holds: true }, listed: Ok(()) }
}

fn source_sighting() -> SourceSighting {
    SourceSighting {
        root_opened: true,
        root_holds: true,
        root_listed: Ok(()),
        events: vec![
            met(".git", source_directory(9)),
            met("notes", source_directory(3)),
            met(".git", source_directory(4)),
            left(),
            met("b.md", source_file()),
            left(),
            met("a.md", source_file()),
            left(),
        ],
    }
}

#[test]
fn a_whole_source_is_listed_without_its_control_directory() {
    let (files, directories) =
        inventory_source_worktree(directory_identity(9), &source_sighting()).ok().expect("lists");
    assert_eq!(files.len(), 2);
    assert!(files.contains("a.md") && files.contains("notes/b.md"));
    let paths: Vec<&str> = directories.iter().map(|seal| seal.relative_path.as_str()).collect();
    assert_eq!(paths, vec!["notes", "notes/.git"]);
    assert!(directories[0].identity.matches(&directory_identity(3)));
    assert!(directories[1].identity.matches(&directory_identity(4)));
}

#[test]
fn a_source_that_moves_is_not_listed() {
    let refusal = |seen: SourceSighting| inventory_source_worktree(directory_identity(9), &seen).err();
    let changed = Some(ImportError::SourceChanged);
    let unlisted = |kind: IoErrorKind| Some(ImportError::Io { operation: RepositoryIoOperation::InspectNamespace, kind });
    assert_eq!(refusal(source_sighting()), None);
    assert_eq!(
        refusal(SourceSighting { root_opened: false, ..source_sighting() }),
        Some(ImportError::UnsupportedSourceRepository),
    );
    assert_eq!(refusal(SourceSighting { root_holds: false, ..source_sighting() }), changed);
    let unread = SourceSighting { root_listed: Err(IoErrorKind::PermissionDenied), ..source_sighting() };
    assert_eq!(refusal(unread), unlisted(IoErrorKind::PermissionDenied));
    assert_eq!(inventory_source_worktree(directory_identity(8), &source_sighting()).err(), changed);
    let with = |index: usize, event: TreeEvent<SourceEntry>| {
        let mut seen = source_sighting();
        seen.events[index] = event;
        refusal(seen)
    };
    let unsafe_entry = Some(ImportError::UnsafeSourceEntry);
    assert_eq!(with(0, met(".git", source_file())), Some(ImportError::UnsafeSourceControl));
    assert_eq!(with(4, met("b.md", SourceEntry { seen: SourceChild::Other, listed: Ok(()) })), unsafe_entry);
    assert_eq!(with(4, TreeEvent::Child { name: None, child: source_file() }), unsafe_entry);
    let moved = SourceEntry { seen: SourceChild::File { binding_holds: false }, listed: Ok(()) };
    assert_eq!(with(4, met("b.md", moved)), changed);
    let closed = SourceEntry { listed: Err(IoErrorKind::Other), ..source_directory(3) };
    assert_eq!(with(1, met("notes", closed)), unlisted(IoErrorKind::Other));
    assert_eq!(with(5, TreeEvent::Leave { holds: false }), changed);
    let mut open = source_sighting();
    open.events.pop();
    assert_eq!(refusal(open), changed);
}

fn target_directory() -> TargetEntry {
    TargetEntry { seen: TargetChild::Directory { binding_holds: true }, readable: true }
}

fn target_file() -> TargetEntry {
    TargetEntry { seen: TargetChild::File { binding_holds: true }, readable: true }
}

fn target_sighting() -> TargetSighting {
    TargetSighting {
        root_opened: true,
        root_holds: true,
        events: vec![
            met(".git", target_directory()),
            met(".vault-local", target_directory()),
            met("notes", target_directory()),
            met("a.md.enc", target_file()),
            left(),
            met("vault.json", target_file()),
            left(),
        ],
    }
}

#[test]
fn a_whole_target_is_listed_without_its_control_directories() {
    let walk = walk_target_worktree(true, &target_sighting()).ok().expect("lists");
    assert_eq!((walk.files.len(), walk.directories.len()), (2, 1));
    assert!(walk.files.contains("vault.json") && walk.files.contains("notes/a.md.enc"));
    assert!(walk.directories.contains("notes"));

    let failed = Some(ImportError::TargetAuditFailed);
    assert_eq!(walk_target_worktree(false, &target_sighting()).err(), failed);
    let refusal = |seen: TargetSighting| walk_target_worktree(true, &seen).err();
    assert_eq!(refusal(TargetSighting { root_opened: false, ..target_sighting() }), failed);
    assert_eq!(refusal(TargetSighting { root_holds: false, ..target_sighting() }), failed);
    let with = |index: usize, event: TreeEvent<TargetEntry>| {
        let mut seen = target_sighting();
        seen.events[index] = event;
        refusal(seen)
    };
    assert_eq!(with(1, met(".vault-local", target_file())), failed);
    assert_eq!(with(3, met("a.md.enc", TargetEntry { seen: TargetChild::Other, readable: true })), failed);
    assert_eq!(with(2, met("notes", TargetEntry { readable: false, ..target_directory() })), failed);
    assert_eq!(with(4, TreeEvent::Leave { holds: false }), failed);
    let mut open = target_sighting();
    open.events.pop();
    assert_eq!(refusal(open), failed);
}

#[test]
fn failed_operations_print_the_class_of_the_failure() {
    for (kind, class) in [
        (IoErrorKind::NotFound, std::io::ErrorKind::NotFound),
        (IoErrorKind::NotADirectory, std::io::ErrorKind::NotADirectory),
        (IoErrorKind::IsADirectory, std::io::ErrorKind::IsADirectory),
        (IoErrorKind::DirectoryNotEmpty, std::io::ErrorKind::DirectoryNotEmpty),
        (IoErrorKind::ReadOnlyFilesystem, std::io::ErrorKind::ReadOnlyFilesystem),
        (IoErrorKind::StorageFull, std::io::ErrorKind::StorageFull),
        (IoErrorKind::UnexpectedEof, std::io::ErrorKind::UnexpectedEof),
        (IoErrorKind::Other, std::io::ErrorKind::Other),
    ] {
        let operation = RepositoryIoOperation::ReadFile;
        assert_eq!(
            ImportError::Io { operation, kind }.message(),
            format!("repository import I/O failed during {}: {class:?}", operation.label())
        );
    }
}
