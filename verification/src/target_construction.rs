//! How a target is made: each step is decided here, and Git is run elsewhere.

use crate::batch_session::{first_failure, prove_expected_target_objects};
use crate::digest::{sha256_digest, sha256_of};
use crate::errors::{io_error, io_failure, IoErrorKind, RepositoryImportError, RepositoryIoOperation};
use crate::git_object::{append, canonical_commit, canonical_root_commit_bytes, typed_oid, UTC_SUFFIX};
use crate::git_output::{is_one_line, one_line, require_sha1_oid, sha1_text, without_line_end, TAB};
use crate::held_reading::HeldFile;
use crate::hex::{all_digits, all_lower_hex, canonical_i64, decimal_i64, hex_text, signed_text, signed_text_is_canonical, MINUS};
use crate::identity::FilesystemDirectoryIdentity;
use crate::manifest::NamespaceSeal;
use crate::seal_records::ObjectKind;
use crate::source_checks::CommandOutput;
use crate::source_snapshot::{namespaces_same, same_namespace};
use crate::target_audit::{
    all_wishes, blobs_of, manifest_is_blobs, objects_as_recorded, same_blobs_same_trees, trees_as_recorded, wished,
    TargetRepository,
};
use crate::target_config::{HostPlatform, TargetConfigProfile};
use crate::target_control::{
    control_as_expected, descriptors_of, loose_as_expected, private_as_expected, require_exact_loose_target_objects,
    target_object_descriptors, validate_target_git_control, validate_target_private_control,
};
use crate::target_objects::{
    blob_wishes, canonical_target_tree_oids, commit_wish, expectations_error, expected_target_object_expectations, meets,
    oids_of_trees, paths_differ, target_blob_manifest, tree_wishes, wishes_held, ObjectDescriptor, TargetObjectExpectation,
    TargetTrackedEntry, Wish,
};
use crate::target_tree::{
    are_canonical_trees, construct_canonical_target_trees, directory_error, fails_first, usable_blobs, CanonicalTreeObject,
    TargetTrees,
};
use crate::text::{ascii_is_utf8, encoding_is_injective, text_equal, utf8_text};
use crate::text_map::TextMap;
use crate::tree_body::{typed_git_object_oid, MAX_TARGET_OBJECT_BYTES};
use crate::tree_path::holds_path;
use uuid::Uuid;
use crate::wiped::WipedBytes;
use vstd::prelude::*;
use vstd::string::*;
use vstd::utf8::{encode_utf8, is_ascii_chars_encode_utf8};

verus! {

/// What stands where the control directory of a target will be.
#[derive(Clone, Copy, Debug, PartialEq, Eq, Structural)]
pub enum Presence {
    Absent,
    /// Something is there, or it could not be seen.
    Other,
}

/// What was seen of the place where a target will be made.
pub struct StagingSighting {
    pub executable_found: bool,
    /// The root is an ordinary directory under its own path.
    pub root: Result<(), RepositoryImportError>,
    pub root_identity: Option<FilesystemDirectoryIdentity>,
    /// The private directory is on the filesystem of the root.
    pub one_filesystem: bool,
    pub control: Presence,
}

/// Why nothing is made there, if nothing is.
pub open spec fn staging_error(seen: StagingSighting) -> Option<RepositoryImportError> {
    if !seen.executable_found {
        Some(RepositoryImportError::GitExecutableUnavailable)
    } else {
        match seen.root {
            Err(error) => Some(error),
            Ok(()) => if seen.root_identity is None || !seen.one_filesystem || seen.control != Presence::Absent {
                Some(RepositoryImportError::UnsafeTarget)
            } else {
                None
            },
        }
    }
}

/// Accept the place where a target will be made, and remember the identity of its root.
pub fn accept_staging(seen: &StagingSighting) -> (r: Result<FilesystemDirectoryIdentity, RepositoryImportError>)
    ensures
        match staging_error(*seen) {
            Some(error) => r matches Err(e) && e == error,
            None => r matches Ok(identity) && Some(identity) == seen.root_identity,
        },
{
    if !seen.executable_found {
        return Err(RepositoryImportError::GitExecutableUnavailable);
    }
    seen.root?;
    match seen.root_identity {
        Some(identity) => {
            if !seen.one_filesystem || seen.control != Presence::Absent {
                return Err(RepositoryImportError::UnsafeTarget);
            }
            Ok(identity)
        },
        None => Err(RepositoryImportError::UnsafeTarget),
    }
}

/// How the name of the empty template directory begins.
pub const TARGET_TEMPLATE_PREFIX: &'static str = "repository-import-empty-template-";

/// A random identifier: 32 lowercase hexadecimal digits, with the version and the variant in their
/// places.
pub open spec fn random_id(text: Seq<u8>) -> bool {
    text.len() == 32 && all_lower_hex(text) && text[12] == 0x34 && (text[16] == 0x38 || text[16] == 0x39 || text[16] == 0x61
        || text[16] == 0x62)
}

/// `uuid::Uuid::new_v4` in the form of `Uuid::simple`: a random identifier of version 4, as 32
/// lowercase hexadecimal digits without hyphens. Which one it is is left open. The crate panics on a
/// machine that has no source of random numbers.
#[verifier::external_body]
fn fresh_id() -> (text: String)
    ensures
        random_id(encode_utf8(text@)),
{
    Uuid::new_v4().simple().to_string()
}

/// The name of a template directory.
pub fn template_name(id: &str) -> (name: String)
    ensures
        name@ == TARGET_TEMPLATE_PREFIX@ + id@,
{
    let mut name = TARGET_TEMPLATE_PREFIX.to_owned();
    name.append(id);
    name
}

/// A name is that of a template directory with a random identifier.
pub open spec fn is_template_name(name: Seq<char>, id: Seq<char>) -> bool {
    name == TARGET_TEMPLATE_PREFIX@ + id && random_id(encode_utf8(id))
}

/// A fresh name for a template directory.
pub fn fresh_template_name() -> (name: String)
    ensures
        exists|id: Seq<char>| #[trigger] is_template_name(name@, id),
{
    let id = fresh_id();
    let name = template_name(id.as_str());
    assert(is_template_name(name@, id@));
    name
}

/// The texts of a list.
pub open spec fn owned_texts(list: Seq<String>) -> Seq<Seq<char>> {
    list.map_values(|text: String| text@)
}

/// The arguments that make an empty repository with SHA-1 objects and the branch main.
pub fn init_arguments(template: &str) -> (arguments: Vec<String>)
    ensures
        owned_texts(arguments@) == seq![
            "init"@,
            "--quiet"@,
            "--object-format=sha1"@,
            "--initial-branch=main"@,
            "--template="@ + template@,
            "."@,
        ],
{
    let mut option = "--template=".to_owned();
    option.append(template);
    let arguments: Vec<String> = vec![
        "init".to_owned(),
        "--quiet".to_owned(),
        "--object-format=sha1".to_owned(),
        "--initial-branch=main".to_owned(),
        option,
        ".".to_owned(),
    ];
    assert(owned_texts(arguments@) =~= seq![
        "init"@,
        "--quiet"@,
        "--object-format=sha1"@,
        "--initial-branch=main"@,
        "--template="@ + template@,
        "."@,
    ]);
    arguments
}

/// What comes of making an empty repository: Git comes first, then the removal of the template.
pub fn conclude_init(init: Result<(), RepositoryImportError>, removal: Result<(), IoErrorKind>) -> (r: Result<
    (),
    RepositoryImportError,
>)
    ensures
        r == match init {
            Err(error) => Err::<(), RepositoryImportError>(error),
            Ok(()) => match removal {
                Err(kind) => Err(io_failure(RepositoryIoOperation::WriteTarget, kind)),
                Ok(()) => Ok(()),
            },
        },
{
    init?;
    match removal {
        Ok(()) => Ok(()),
        Err(kind) => Err(io_error(RepositoryIoOperation::WriteTarget, kind)),
    }
}

/// The arguments that set one key of the configuration of a target.
pub fn configure_arguments(key: &str, value: &str) -> (arguments: Vec<String>)
    ensures
        owned_texts(arguments@) == seq!["config"@, "--local"@, "--replace-all"@, key@, value@],
{
    let arguments: Vec<String> = vec![
        "config".to_owned(),
        "--local".to_owned(),
        "--replace-all".to_owned(),
        key.to_owned(),
        value.to_owned(),
    ];
    assert(owned_texts(arguments@) =~= seq!["config"@, "--local"@, "--replace-all"@, key@, value@]);
    arguments
}

/// The settings of a target while it is made: reference logs stay off until the commit is there.
pub open spec fn opening_settings_of(profile: TargetConfigProfile<'_>, driver_command: Seq<char>) -> Seq<
    (Seq<char>, Seq<char>),
> {
    seq![
        ("core.logAllRefUpdates"@, "false"@),
        ("merge.inex.name"@, profile.driver_name@),
        ("merge.inex.driver"@, driver_command),
    ] + (if profile.platform == HostPlatform::Windows {
        seq![("core.longPaths"@, "true"@)]
    } else {
        Seq::empty()
    })
}

/// The keys and values of settings.
pub open spec fn setting_texts(list: Seq<(&'static str, String)>) -> Seq<(Seq<char>, Seq<char>)> {
    list.map_values(|setting: (&'static str, String)| (setting.0@, setting.1@))
}

/// The settings of a target while it is made. Without an installed driver there are none.
pub fn opening_settings(profile: &TargetConfigProfile<'_>) -> (r: Result<Vec<(&'static str, String)>, RepositoryImportError>)
    ensures
        match profile.driver_command {
            None => r matches Err(error) && error == RepositoryImportError::UnsafeTarget,
            Some(command) => r matches Ok(settings) && setting_texts(settings@) == opening_settings_of(*profile, command@),
        },
{
    let driver_command = match profile.driver_command {
        Some(command) => command,
        None => {
            return Err(RepositoryImportError::UnsafeTarget);
        },
    };
    let mut settings: Vec<(&'static str, String)> = vec![
        ("core.logAllRefUpdates", "false".to_owned()),
        ("merge.inex.name", profile.driver_name.to_owned()),
        ("merge.inex.driver", driver_command.to_owned()),
    ];
    if profile.platform == HostPlatform::Windows {
        settings.push(("core.longPaths", "true".to_owned()));
    }
    assert(setting_texts(settings@) =~= opening_settings_of(*profile, driver_command@));
    Ok(settings)
}

/// Why an answer is not the text of an object id, if it is not.
pub open spec fn oid_answer_error(output: CommandOutput) -> Option<RepositoryImportError> {
    match output {
        Err(error) => Some(error),
        Ok(bytes) => if !is_one_line(bytes@) || !sha1_text(without_line_end(bytes@)) {
            Some(RepositoryImportError::MalformedGitOutput)
        } else {
            None
        },
    }
}

/// The object id that Git answered with.
pub fn accept_oid(output: &CommandOutput) -> (r: Result<String, RepositoryImportError>)
    ensures
        match oid_answer_error(*output) {
            Some(error) => r matches Err(e) && e == error,
            None => r matches Ok(oid) && encode_utf8(oid@) == without_line_end(output->Ok_0@),
        },
{
    match output {
        Err(error) => Err(*error),
        Ok(bytes) => {
            let line = one_line(bytes.as_slice())?;
            require_sha1_oid(line)?;
            Ok(line.to_owned())
        },
    }
}

/// One file as the index of a target lists it.
pub open spec fn index_record(entry: TargetTrackedEntry) -> Seq<u8> {
    encode_utf8("100644 "@) + encode_utf8(entry.blob_oid@) + seq![TAB] + encode_utf8(entry.relative_path@) + seq![0u8]
}

/// The first `n` files as the index of a target lists them.
pub open spec fn index_records(entries: Seq<TargetTrackedEntry>, n: int) -> Seq<u8>
    decreases n,
{
    if n <= 0 {
        Seq::empty()
    } else {
        index_records(entries, n - 1) + index_record(entries[n - 1])
    }
}

/// The files of a target that is being made.
pub struct TargetConstruction {
    pub entries: Vec<TargetTrackedEntry>,
    pub index_input: Vec<u8>,
}

/// Why a file is not added, if it is not.
pub open spec fn add_file_error(reading: Result<HeldFile, RepositoryImportError>, hashed: CommandOutput) -> Option<
    RepositoryImportError,
> {
    match reading {
        Err(error) => Some(error),
        Ok(held) => if oid_answer_error(hashed) is Some {
            oid_answer_error(hashed)
        } else if held.bytes@.len() > MAX_TARGET_OBJECT_BYTES {
            Some(RepositoryImportError::ResourceLimit)
        } else if without_line_end(hashed->Ok_0@) != hex_text(
            typed_oid(ObjectKind::Blob, held.bytes@.len() as u64, held.bytes@),
        ) {
            Some(RepositoryImportError::TargetAuditFailed)
        } else {
            None
        },
    }
}

/// An entry is that of a file that was read.
pub open spec fn entry_of(entry: TargetTrackedEntry, path: Seq<char>, held: HeldFile) -> bool {
    &&& entry.relative_path@ == path
    &&& entry.size == held.bytes@.len()
    &&& entry.sha256@ == sha256_of(held.bytes@)
    &&& encode_utf8(entry.blob_oid@) == hex_text(typed_oid(ObjectKind::Blob, held.bytes@.len() as u64, held.bytes@))
    &&& entry.identity == held.identity
}

impl TargetConstruction {
    /// The index lists the files.
    pub open spec fn wf(self) -> bool {
        self.index_input@ == index_records(self.entries@, self.entries@.len() as int)
    }

    /// No files yet.
    pub fn begin() -> (construction: TargetConstruction)
        ensures
            construction.wf(),
            construction.entries@.len() == 0,
    {
        TargetConstruction { entries: Vec::new(), index_input: Vec::new() }
    }

    /// Add a file, from what was read of it and from the id that Git gave its blob.
    pub fn add_file(&mut self, path: &str, reading: &Result<HeldFile, RepositoryImportError>, hashed: &CommandOutput) -> (r:
        Result<(), RepositoryImportError>)
        requires
            old(self).wf(),
        ensures
            final(self).wf(),
            match add_file_error(*reading, *hashed) {
                Some(error) => r matches Err(e) && e == error && *final(self) == *old(self),
                None => r is Ok && final(self).entries@.len() == old(self).entries@.len() + 1
                    && final(self).entries@.drop_last() == old(self).entries@ && entry_of(
                    final(self).entries@.last(),
                    path@,
                    reading->Ok_0,
                ),
            },
    {
        proof {
            reveal_strlit("blob");
            reveal_strlit("tree");
            reveal_strlit("commit");
        }
        let held = match reading {
            Ok(held) => held,
            Err(error) => {
                return Err(*error);
            },
        };
        let oid = accept_oid(hashed)?;
        let expected = typed_git_object_oid("blob", held.bytes.as_slice())?;
        proof {
            encoding_is_injective(oid@, expected@);
        }
        if !text_equal(oid.as_str(), expected.as_str()) {
            return Err(RepositoryImportError::TargetAuditFailed);
        }
        let ghost before = self.entries@;
        append(&mut self.index_input, "100644 ".as_bytes());
        append(&mut self.index_input, oid.as_str().as_bytes());
        self.index_input.push(TAB);
        append(&mut self.index_input, path.as_bytes());
        self.index_input.push(0);
        let entry = TargetTrackedEntry {
            relative_path: path.to_owned(),
            size: held.bytes.len() as u64,
            sha256: sha256_digest(held.bytes.as_slice()),
            blob_oid: oid,
            identity: held.identity,
        };
        let ghost added = entry;
        self.entries.push(entry);
        proof {
            assert(self.entries@.drop_last() =~= before);
            earlier_records(before, added, before.len() as int);
            assert(self.index_input@ =~= index_records(before, before.len() as int) + index_record(added));
        }
        Ok(())
    }
}

proof fn earlier_records(entries: Seq<TargetTrackedEntry>, added: TargetTrackedEntry, n: int)
    requires
        0 <= n <= entries.len(),
    ensures
        index_records(entries.push(added), n) == index_records(entries, n),
    decreases n,
{
    if n > 0 {
        earlier_records(entries, added, n - 1);
    }
}

/// What comes of the trees of files.
pub open spec fn trees_verdict(
    r: Result<TextMap<CanonicalTreeObject>, RepositoryImportError>,
    entries: Seq<TargetTrackedEntry>,
) -> bool {
    let blobs = blobs_of(entries);
    if !paths_differ(entries) || !usable_blobs(blobs) {
        r matches Err(error) && error == RepositoryImportError::TargetAuditFailed
    } else {
        match r {
            Ok(trees) => trees.wf() && are_canonical_trees(blobs, trees@) && trees@.dom().contains(""@) && forall|
                directory: Seq<char>,
            | #[trigger]
                holds_path(blobs.dom(), directory) ==> directory_error(blobs.dom(), directory) is None,
            Err(error) => exists|directory: Seq<char>| #[trigger]
                fails_first(blobs.dom(), directory) && directory_error(blobs.dom(), directory) == Some(error),
        }
    }
}

/// The trees of the files that were added.
pub fn plan_trees(construction: &TargetConstruction) -> (r: Result<TextMap<CanonicalTreeObject>, RepositoryImportError>)
    ensures
        trees_verdict(r, construction.entries@),
{
    let manifest = target_blob_manifest(&construction.entries)?;
    proof {
        manifest_is_blobs(manifest@, construction.entries@);
        same_blobs_same_trees(manifest@, blobs_of(construction.entries@), Map::empty());
    }
    let trees = construct_canonical_target_trees(&manifest)?;
    proof {
        same_blobs_same_trees(manifest@, blobs_of(construction.entries@), trees@);
        reveal_strlit("");
        is_ascii_chars_encode_utf8(""@);
        assert(holds_path(manifest@.dom(), ""@));
        assert(trees@.dom().contains(""@));
    }
    Ok(trees)
}

/// Why the root tree that Git wrote is refused, if it is.
pub open spec fn root_tree_error(trees: TargetTrees, written: CommandOutput) -> Option<RepositoryImportError> {
    if oid_answer_error(written) is Some {
        oid_answer_error(written)
    } else if !trees.dom().contains(""@) || without_line_end(written->Ok_0@) != encode_utf8(trees[""@].oid@) {
        Some(RepositoryImportError::TargetAuditFailed)
    } else {
        None
    }
}

/// Accept the root tree that Git wrote, which must be the canonical one.
pub fn accept_root_tree(trees: &TextMap<CanonicalTreeObject>, written: &CommandOutput) -> (r: Result<
    String,
    RepositoryImportError,
>)
    requires
        trees.wf(),
    ensures
        match root_tree_error(trees@, *written) {
            Some(error) => r matches Err(e) && e == error,
            None => r matches Ok(oid) && oid@ == trees@[""@].oid@,
        },
{
    let oid = accept_oid(written)?;
    match trees.get("") {
        None => Err(RepositoryImportError::TargetAuditFailed),
        Some(root) => {
            proof {
                encoding_is_injective(oid@, root.oid@);
            }
            if text_equal(oid.as_str(), root.oid.as_str()) {
                Ok(oid)
            } else {
                Err(RepositoryImportError::TargetAuditFailed)
            }
        },
    }
}

/// Who commits.
pub const IMPORT_NAME: &'static str = "Inex Repository Import";

/// Where who commits can be reached.
pub const IMPORT_EMAIL: &'static str = "inex-import@localhost.invalid";

/// When the commit is made, as Git takes it.
pub fn commit_date(import_time_utc_seconds: i64) -> (date: String)
    ensures
        encode_utf8(date@) == signed_text(import_time_utc_seconds as int) + encode_utf8(UTC_SUFFIX@),
{
    let mut bytes = decimal_i64(import_time_utc_seconds);
    append(&mut bytes, UTC_SUFFIX.as_bytes());
    proof {
        reveal_strlit(" +0000");
        is_ascii_chars_encode_utf8(UTC_SUFFIX@);
        signed_text_is_canonical(import_time_utc_seconds);
        let stamp = signed_text(import_time_utc_seconds as int);
        assert forall|i: int| 0 <= i < bytes@.len() implies #[trigger] bytes@[i] < 0x80 by {
            if i < stamp.len() {
                assert(bytes@[i] == stamp[i]);
                canonical_digits(stamp, i);
            } else {
                assert(bytes@[i] == encode_utf8(UTC_SUFFIX@)[i - stamp.len()]);
            }
        }
        ascii_is_utf8(bytes@);
    }
    match utf8_text(bytes.as_slice()) {
        Some(text) => text.to_owned(),
        None => String::new(),
    }
}

/// Every byte of a number is a digit or a sign.
proof fn canonical_digits(stamp: Seq<u8>, i: int)
    requires
        canonical_i64(stamp),
        0 <= i < stamp.len(),
    ensures
        stamp[i] < 0x80,
{
    if stamp[0] == MINUS && i > 0 {
        assert(all_digits(stamp.subrange(1, stamp.len() as int)));
        assert(stamp[i] == stamp.subrange(1, stamp.len() as int)[i - 1]);
    }
}

/// Why the commit that Git wrote is refused, if it is.
pub open spec fn commit_error(written: CommandOutput, body: Seq<u8>) -> Option<RepositoryImportError> {
    if oid_answer_error(written) is Some {
        oid_answer_error(written)
    } else if body.len() > MAX_TARGET_OBJECT_BYTES {
        Some(RepositoryImportError::ResourceLimit)
    } else if without_line_end(written->Ok_0@) != hex_text(typed_oid(ObjectKind::Commit, body.len() as u64, body)) {
        Some(RepositoryImportError::TargetAuditFailed)
    } else {
        None
    }
}

/// What comes of the commit that Git wrote.
pub open spec fn commit_verdict(r: Result<(String, WipedBytes), RepositoryImportError>, written: CommandOutput, body: Seq<u8>) -> bool {
    match commit_error(written, body) {
        Some(failure) => r matches Err(error) && error == failure,
        None => r matches Ok((oid, bytes)) && bytes@ == body && encode_utf8(oid@) == hex_text(
            typed_oid(ObjectKind::Commit, body.len() as u64, body),
        ),
    }
}

/// Accept the commit that Git wrote, which must be the canonical commit of the root tree. Its bytes
/// come with it.
pub fn accept_commit(root_tree_oid: &str, import_time_utc_seconds: i64, written: &CommandOutput) -> (r: Result<
    (String, WipedBytes),
    RepositoryImportError,
>)
    ensures
        commit_verdict(
            r,
            *written,
            canonical_commit(root_tree_oid.spec_bytes(), signed_text(import_time_utc_seconds as int)),
        ),
{
    proof {
        reveal_strlit("blob");
        reveal_strlit("tree");
        reveal_strlit("commit");
    }
    let oid = accept_oid(written)?;
    let bytes = canonical_root_commit_bytes(root_tree_oid, import_time_utc_seconds);
    let observed = typed_git_object_oid("commit", bytes.as_slice())?;
    proof {
        encoding_is_injective(oid@, observed@);
    }
    if !text_equal(observed.as_str(), oid.as_str()) {
        return Err(RepositoryImportError::TargetAuditFailed);
    }
    Ok((oid, bytes))
}

/// The id that stands for no object, in lowercase hexadecimal.
pub const ZERO_OID_TEXT: &'static str = "0000000000000000000000000000000000000000";

/// The arguments that make the branch, which must not be there yet.
pub fn update_ref_arguments(root_commit_oid: &str) -> (arguments: Vec<String>)
    ensures
        owned_texts(arguments@) == seq!["update-ref"@, "refs/heads/main"@, root_commit_oid@, ZERO_OID_TEXT@],
{
    let arguments: Vec<String> = vec![
        "update-ref".to_owned(),
        "refs/heads/main".to_owned(),
        root_commit_oid.to_owned(),
        ZERO_OID_TEXT.to_owned(),
    ];
    assert(owned_texts(arguments@) =~= seq!["update-ref"@, "refs/heads/main"@, root_commit_oid@, ZERO_OID_TEXT@]);
    arguments
}

/// What a target was made of.
pub struct TargetParts {
    pub root_identity: FilesystemDirectoryIdentity,
    pub construction: TargetConstruction,
    pub trees: TextMap<CanonicalTreeObject>,
    pub root_tree_oid: String,
    pub root_commit_oid: String,
    pub commit_bytes: WipedBytes,
}

/// What was observed of a target once it was made.
pub struct ConstructionClosing {
    pub control_before: Result<Vec<NamespaceSeal>, RepositoryImportError>,
    /// The verdict on each object, up to the first failure.
    pub objects: Vec<Result<(), RepositoryImportError>>,
    pub conversation: Result<(), RepositoryImportError>,
    pub control_after: Result<Vec<NamespaceSeal>, RepositoryImportError>,
    pub private_control: Result<Vec<NamespaceSeal>, RepositoryImportError>,
}

/// All that is expected of the objects of a target that was made.
pub open spec fn parts_wishes(parts: TargetParts) -> Seq<Wish> {
    (blob_wishes(parts.construction.entries@) + tree_wishes(parts.trees.entries@)).push(
        commit_wish(parts.root_commit_oid@, parts.commit_bytes@),
    )
}

/// The ids of the objects that are expected.
pub open spec fn wished_ids(parts: TargetParts) -> Set<Seq<char>> {
    Set::new(|oid: Seq<char>| wished(parts_wishes(parts), oid))
}

/// `count` objects are expected.
pub open spec fn closing_failure(parts: TargetParts, closing: ConstructionClosing, count: nat) -> Option<RepositoryImportError> {
    match closing.control_before {
        Err(error) => Some(error),
        Ok(before) => if !loose_as_expected(before@, wished_ids(parts)) || !control_as_expected(before@, wished_ids(parts)) {
            Some(RepositoryImportError::TargetAuditFailed)
        } else {
            match first_failure(closing.objects@, 0) {
                Err(error) => Some(error),
                Ok(()) => if closing.objects@.len() != count {
                    Some(RepositoryImportError::TargetAuditFailed)
                } else {
                    match closing.conversation {
                        Err(error) => Some(error),
                        Ok(()) => match closing.control_after {
                            Err(error) => Some(error),
                            Ok(after) => if !namespaces_same(after@, before@) {
                                Some(RepositoryImportError::TargetAuditFailed)
                            } else {
                                match closing.private_control {
                                    Err(error) => Some(error),
                                    Ok(private) => if !control_as_expected(after@, wished_ids(parts))
                                        || !private_as_expected(private@) {
                                        Some(RepositoryImportError::TargetAuditFailed)
                                    } else {
                                        None
                                    },
                                }
                            },
                        },
                    }
                },
            }
        },
    }
}

/// A target is what its parts make it.
pub open spec fn made_of(target: TargetRepository, parts: TargetParts, closing: ConstructionClosing) -> bool {
    &&& target.wf()
    &&& target.root_identity == parts.root_identity
    &&& target.root_commit_oid == parts.root_commit_oid
    &&& target.root_tree_oid == parts.root_tree_oid
    &&& target.entries == parts.construction.entries
    &&& target.commit_bytes == parts.commit_bytes
    &&& oids_of_trees(target.tree_oids@, parts.trees@)
    &&& objects_as_recorded(target.object_ids@, parts_wishes(parts))
    &&& Ok::<Vec<NamespaceSeal>, RepositoryImportError>(target.git_control) == closing.control_after
    &&& Ok::<Vec<NamespaceSeal>, RepositoryImportError>(target.private_control) == closing.private_control
}

/// What comes of a target that was made, if `count` objects are expected of it.
pub open spec fn made_verdict(
    r: Result<TargetRepository, RepositoryImportError>,
    parts: TargetParts,
    closing: ConstructionClosing,
    count: nat,
) -> bool {
    match closing_failure(parts, closing, count) {
        Some(failure) => r matches Err(error) && error == failure,
        None => r matches Ok(target) && made_of(target, parts, closing),
    }
}

/// Conclude the making of a target: its objects, its control directory and its private directory must
/// be exactly what they should be.
pub fn conclude_target(parts: TargetParts, closing: ConstructionClosing) -> (r: Result<TargetRepository, RepositoryImportError>)
    requires
        parts.trees.wf(),
    ensures
        match expectations_error(
            parts.construction.entries@,
            parts.trees.entries@,
            parts.root_commit_oid@,
            parts.commit_bytes@,
        ) {
            Some(failure) => r matches Err(error) && error == failure,
            None => exists|objects: TextMap<TargetObjectExpectation>| #[trigger]
                wishes_held(objects@, parts_wishes(parts)) && objects.wf() && made_verdict(
                    r,
                    parts,
                    closing,
                    objects.entries@.len(),
                ),
        },
{
    let ghost all = parts;
    let ghost seen = closing;
    let objects = expected_target_object_expectations(
        &parts.construction.entries,
        &parts.trees,
        parts.root_commit_oid.as_str(),
        parts.commit_bytes.as_slice(),
    )?;
    let ghost wishes = parts_wishes(all);
    let object_ids = target_object_descriptors(&objects);
    proof {
        described_is_recorded(objects@, object_ids@, wishes);
        assert(wished_ids(all) =~= objects@.dom()) by {
            assert forall|oid: Seq<char>| #[trigger] objects@.dom().contains(oid) == wished(wishes, oid) by {}
        }
    }
    let r = finish_target(parts, closing, &objects, object_ids);
    assert(wishes_held(objects@, parts_wishes(all)));
    r
}

proof fn described_is_recorded(
    objects: Map<Seq<char>, TargetObjectExpectation>,
    descriptors: Map<Seq<char>, ObjectDescriptor>,
    wishes: Seq<Wish>,
)
    requires
        wishes_held(objects, wishes),
        descriptors_of(descriptors, objects),
    ensures
        objects_as_recorded(descriptors, wishes),
{
    assert forall|oid: Seq<char>| #[trigger] descriptors.dom().contains(oid) <==> wished(wishes, oid) by {
        assert(objects.dom().contains(oid) <==> wished(wishes, oid));
    }
    assert forall|i: int| 0 <= i < wishes.len() implies descriptors[(#[trigger] wishes[i]).oid].object_type@
        == wishes[i].object_type && descriptors[wishes[i].oid].size == wishes[i].size by {
        assert(meets(objects[wishes[i].oid], wishes[i]));
        assert(objects.dom().contains(wishes[i].oid));
    }
}

fn finish_target(
    parts: TargetParts,
    closing: ConstructionClosing,
    objects: &TextMap<TargetObjectExpectation>,
    object_ids: TextMap<ObjectDescriptor>,
) -> (r: Result<TargetRepository, RepositoryImportError>)
    requires
        parts.trees.wf(),
        objects.wf(),
        object_ids.wf(),
        objects@.dom() == wished_ids(parts),
        object_ids@.dom() == objects@.dom(),
        objects_as_recorded(object_ids@, parts_wishes(parts)),
    ensures
        made_verdict(r, parts, closing, objects.entries@.len()),
{
    let before = closing.control_before?;
    require_exact_loose_target_objects(&before, objects)?;
    validate_target_git_control(&before, &object_ids)?;
    prove_expected_target_objects(objects, &closing.objects)?;
    closing.conversation?;
    let git_control = closing.control_after?;
    if !same_namespace(git_control.as_slice(), before.as_slice()) {
        return Err(RepositoryImportError::TargetAuditFailed);
    }
    let private_control = closing.private_control?;
    validate_target_git_control(&git_control, &object_ids)?;
    validate_target_private_control(&private_control)?;
    let tree_oids = canonical_target_tree_oids(&parts.trees);
    Ok(
        TargetRepository {
            root_identity: parts.root_identity,
            root_commit_oid: parts.root_commit_oid,
            root_tree_oid: parts.root_tree_oid,
            entries: parts.construction.entries,
            tree_oids,
            object_ids,
            git_control,
            private_control,
            commit_bytes: parts.commit_bytes,
        },
    )
}

/// A target that was made from the canonical trees of its files, with their root tree, holds what its
/// audit looks for: its trees, its objects and its control directory are as recorded.
pub proof fn made_target_is_consistent(target: TargetRepository, parts: TargetParts, closing: ConstructionClosing, count: nat)
    requires
        made_of(target, parts, closing),
        closing_failure(parts, closing, count) is None,
        parts.trees@.dom().contains(""@),
        parts.root_tree_oid@ == parts.trees@[""@].oid@,
    ensures
        trees_as_recorded(target, parts.trees@),
        objects_as_recorded(target.object_ids@, all_wishes(target, parts.trees.entries@)),
        control_as_expected(target.git_control@, target.object_ids@.dom()),
        private_as_expected(target.private_control@),
{
    assert(parts_wishes(parts) == all_wishes(target, parts.trees.entries@));
    assert(wished_ids(parts) =~= target.object_ids@.dom()) by {
        assert forall|oid: Seq<char>| #[trigger] target.object_ids@.dom().contains(oid) == wished(parts_wishes(parts), oid) by {}
    }
    assert forall|path: Seq<char>| #[trigger] parts.trees@.dom().contains(path) implies target.tree_oids@[path]@
        == parts.trees@[path].oid@ by {}
}

} // verus!
