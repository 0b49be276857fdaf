//! When a target is made: what is found before, what is written, and what must be found afterwards.

use crate::batch_session::first_failure;
use crate::bytes::{lex_less, parts_below};
use crate::digest::sha256_of;
use crate::errors::{RepositoryImportError, RepositoryIoOperation};
use crate::git_object::{canonical_commit, typed_oid};
use crate::git_output::{is_one_line, nul_pieces, nul_terminated, sha1_text, without_line_end};
use crate::held_reading::HeldFile;
use crate::hex::{all_lower_hex, hex_text, lower_hex_byte, signed_text};
use crate::namespace::PathPart;
use crate::seal_records::ObjectKind;
use crate::sorting::Keyed;
use crate::source_checks::CommandOutput;
use crate::source_laws::suffixes_come_last;
use crate::source_snapshot::namespaces_same;
use crate::target_audit::TargetRepository;
use crate::target_config::{HostPlatform, TargetConfigProfile};
use crate::target_construction::{
    add_file_error, closing_failure, commit_error, entry_of, is_template_name, made_of, oid_answer_error,
    opening_settings_of, parts_wishes, random_id, root_tree_error, staging_error, wished_ids, ConstructionClosing,
    Presence, StagingSighting, TargetConstruction, TargetParts, IMPORT_EMAIL, IMPORT_NAME, ZERO_OID_TEXT,
};
use crate::target_control::{control_as_expected, loose_as_expected, private_as_expected};
use crate::target_making::{
    assembled, durably_concluded, entries_of, files_error, initialized, metadata_error, normalized, opening_error,
    setup_error, written_error, MetadataStep, TargetMaking, TargetReading,
};
use crate::target_objects::{TargetTrackedEntry, Wish};
use crate::target_semantics::{answers_error, config_as_expected, SemanticsAnswers, SemanticsQuery};
use crate::target_tree::{CanonicalTreeObject, TargetTrees};
use crate::target_worktree::{
    allowed_paths, component_key, control_name, found_as_allowed, target_paths, tracked_as_held, MetadataSighting,
    TargetPath, TargetPathFacts, MAX_TARGET_ENTRIES, MAX_WALKED_ENTRIES, TARGET_ATTRIBUTES, TARGET_IGNORE,
};
use crate::text_map::TextMap;
use vstd::prelude::*;
use vstd::string::*;
use vstd::utf8::encode_utf8;

verus! {

/// A target is begun exactly where Git is found, its root is an ordinary directory that could be opened, the
/// private directory is on its filesystem, and there is no control directory yet.
pub proof fn targets_are_begun(seen: StagingSighting)
    ensures
        staging_error(seen) is None <==> {
            &&& seen.executable_found
            &&& seen.root is Ok
            &&& seen.root_identity is Some
            &&& seen.one_filesystem
            &&& seen.control == Presence::Absent
        },
        !seen.executable_found ==> staging_error(seen) == Some(RepositoryImportError::GitExecutableUnavailable),
        seen.executable_found && seen.root is Ok && seen.control != Presence::Absent ==> staging_error(seen) == Some(
            RepositoryImportError::UnsafeTarget,
        ),
{
}

/// A managed file is right exactly where it was not there and was written, or is there with exactly its
/// content.
pub proof fn managed_files_are_exact(step: MetadataStep, expected: Seq<char>)
    ensures
        metadata_error(step, expected) is None <==> match step.seen {
            MetadataSighting::Absent => step.written is Ok,
            MetadataSighting::File(Ok(bytes)) => bytes@ == encode_utf8(expected),
            _ => false,
        },
        (step.seen matches MetadataSighting::File(Ok(bytes)) && bytes@ != encode_utf8(expected) ==> metadata_error(step, expected)
            == Some(RepositoryImportError::UnsafeTarget)),
        step.seen is Other ==> metadata_error(step, expected) == Some(RepositoryImportError::UnsafeTarget),
        step.seen is Absent ==> (step.written matches Err(kind) ==> metadata_error(step, expected) == Some(
            RepositoryImportError::Io { operation: RepositoryIoOperation::WriteTarget, kind },
        )),
{
}

/// The two managed files that are written: texts are merged by the driver and are no texts to Git, everything
/// else is binary, and the private directory is not tracked. A target has at most 100003 files.
pub proof fn managed_files()
    ensures
        TARGET_ATTRIBUTES@ == "*.md.enc -text -diff merge=inex\n*.asset.enc binary\n"@,
        TARGET_IGNORE@ == "/.vault-local/\n"@,
        MAX_TARGET_ENTRIES == 100_000 + 3,
        MAX_WALKED_ENTRIES == 2 * 100_000,
        IMPORT_NAME@ == "Inex Repository Import"@,
        IMPORT_EMAIL@ == "inex-import@localhost.invalid"@,
        ZERO_OID_TEXT@ == "0000000000000000000000000000000000000000"@,
{
}

/// Before anything is made, the root and both managed files must be right.
pub proof fn openings_of_a_target(making: TargetMaking<'_>)
    ensures
        opening_error(making) is None <==> {
            &&& staging_error(making.staging) is None
            &&& metadata_error(making.attributes, "*.md.enc -text -diff merge=inex\n*.asset.enc binary\n"@) is None
            &&& metadata_error(making.ignore, "/.vault-local/\n"@) is None
        },
{
}

/// A template is named by the fixed words and a random id: 32 digits of a version 4 identifier.
pub proof fn names_of_templates(name: Seq<char>, id: Seq<char>)
    ensures
        is_template_name(name, id) <==> name == "repository-import-empty-template-"@ + id && {
            let text = encode_utf8(id);
            &&& text.len() == 32
            &&& forall|i: int| 0 <= i < 32 ==> 0x30 <= #[trigger] text[i] <= 0x39 || 0x61 <= text[i] <= 0x66
            &&& text[12] == 0x34
            &&& text[16] == 0x38 || text[16] == 0x39 || text[16] == 0x61 || text[16] == 0x62
        },
{
    let text = encode_utf8(id);
    if random_id(text) {
        assert forall|i: int| 0 <= i < 32 implies 0x30 <= #[trigger] text[i] <= 0x39 || 0x61 <= text[i] <= 0x66 by {
            assert(lower_hex_byte(text[i]));
        }
    }
    if text.len() == 32 && (forall|i: int| 0 <= i < 32 ==> 0x30 <= #[trigger] text[i] <= 0x39 || 0x61 <= text[i] <= 0x66) {
        assert(all_lower_hex(text));
    }
}

/// While a target is made, references are not logged, the merge driver is named and set, and on Windows paths
/// may be long; nothing else is set.
pub proof fn settings_while_made(profile: TargetConfigProfile<'_>, driver_command: Seq<char>)
    ensures
        opening_settings_of(profile, driver_command).len() == if profile.platform == HostPlatform::Windows {
            4int
        } else {
            3
        },
        opening_settings_of(profile, driver_command)[0] == ("core.logAllRefUpdates"@, "false"@),
        opening_settings_of(profile, driver_command)[1] == ("merge.inex.name"@, profile.driver_name@),
        opening_settings_of(profile, driver_command)[2] == ("merge.inex.driver"@, driver_command),
        profile.platform == HostPlatform::Windows ==> opening_settings_of(profile, driver_command)[3] == (
            "core.longPaths"@,
            "true"@,
        ),
{
}

/// An id is taken from an answer exactly where it is one line of forty digits.
pub proof fn answered_ids(output: CommandOutput)
    ensures
        oid_answer_error(output) is None <==> output is Ok && is_one_line(output->Ok_0@) && sha1_text(without_line_end(output->Ok_0@)),
        output is Ok && oid_answer_error(output) is Some ==> oid_answer_error(output) == Some(
            RepositoryImportError::MalformedGitOutput,
        ),
{
}

/// A file is added exactly where it was read, is at most 68 MiB long, and Git answered with the id of its
/// body. What is recorded of it is its path, its length, its digest, that id, and its identity.
pub proof fn files_are_added(reading: Result<HeldFile, RepositoryImportError>, hashed: CommandOutput)
    ensures
        add_file_error(reading, hashed) is None <==> {
            &&& reading is Ok
            &&& oid_answer_error(hashed) is None
            &&& reading->Ok_0.bytes@.len() <= 68 * 1024 * 1024
            &&& without_line_end(hashed->Ok_0@) == hex_text(
                typed_oid(ObjectKind::Blob, reading->Ok_0.bytes@.len() as u64, reading->Ok_0.bytes@),
            )
        },
        reading is Ok && oid_answer_error(hashed) is None && reading->Ok_0.bytes@.len() > 68 * 1024 * 1024 ==> add_file_error(
            reading,
            hashed,
        ) == Some(RepositoryImportError::ResourceLimit),
{
}

/// What is recorded of a file that was added.
pub proof fn added_files_are_recorded(entry: TargetTrackedEntry, path: Seq<char>, held: HeldFile)
    ensures
        entry_of(entry, path, held) <==> {
            &&& entry.relative_path@ == path
            &&& entry.size == held.bytes@.len()
            &&& entry.sha256@ == sha256_of(held.bytes@)
            &&& encode_utf8(entry.blob_oid@) == hex_text(typed_oid(ObjectKind::Blob, held.bytes@.len() as u64, held.bytes@))
            &&& entry.identity == held.identity
        },
{
}

/// A file of a target is found as recorded exactly where its path, length, digest and identity are.
pub proof fn files_are_found_as_recorded(expected: TargetTrackedEntry, path: Seq<char>, held: HeldFile)
    ensures
        tracked_as_held(expected, path, held) <==> {
            &&& expected.relative_path@ == path
            &&& expected.size == held.bytes@.len()
            &&& expected.sha256@ == sha256_of(held.bytes@)
            &&& expected.identity.scheme == held.identity.scheme && expected.identity.wire@ == held.identity.wire@
        },
        entry_of(expected, path, held) ==> tracked_as_held(expected, path, held),
{
}

/// A tree that Git wrote is taken exactly where its id is that of the root tree; a commit exactly where its
/// id is that of the commit that was expected.
pub proof fn written_objects_are_expected(trees: TargetTrees, written: CommandOutput, body: Seq<u8>)
    ensures
        root_tree_error(trees, written) is None <==> oid_answer_error(written) is None && trees.dom().contains(""@)
            && without_line_end(written->Ok_0@) == encode_utf8(trees[""@].oid@),
        commit_error(written, body) is None <==> oid_answer_error(written) is None && body.len() <= 68 * 1024 * 1024
            && without_line_end(written->Ok_0@) == hex_text(typed_oid(ObjectKind::Commit, body.len() as u64, body)),
{
}

/// The repository of a target is set up exactly where the worktree is found as it is allowed, and every step
/// from the template to the configuration went well.
pub proof fn repositories_are_set_up(making: TargetMaking<'_>, paths: Seq<TargetPath>)
    ensures
        setup_error(making, paths) is None <==> {
            &&& making.walk is Ok
            &&& found_as_allowed(making.walk->Ok_0, allowed_paths(paths, paths.len() as int))
            &&& making.template_made is Ok
            &&& making.private_synced
            &&& making.init is Ok
            &&& making.template_removed is Ok
            &&& making.hooks_made is Ok
            &&& making.control_synced
            &&& making.runner is Ok
            &&& making.version is Ok
            &&& making.driver_found
            &&& making.configured is Ok
        },
{
}

/// All files are added exactly where each path was read and added.
pub proof fn all_files_are_added(count: nat, readings: Seq<TargetReading>, from: int)
    requires
        0 <= from,
    ensures
        files_error(count, readings, from) is None <==> forall|i: int|
            from <= i < count ==> i < readings.len() && add_file_error((#[trigger] readings[i]).held, readings[i].hashed) is None,
    decreases count - from,
{
    if from < count {
        all_files_are_added(count, readings, from + 1);
        if files_error(count, readings, from) is Some && (forall|i: int|
            from <= i < count ==> i < readings.len() && add_file_error((#[trigger] readings[i]).held, readings[i].hashed) is None) {
            let first = readings[from];
            assert(files_error(count, readings, from + 1) is None);
        }
    }
}

/// What was written is taken exactly where the index was filled, the tree and the commit are those that were
/// expected, the branch was made, and the log was configured.
pub proof fn written_is_taken(making: TargetMaking<'_>, trees: TargetTrees)
    ensures
        written_error(making, trees) is None <==> {
            &&& making.index_filled is Ok
            &&& root_tree_error(trees, making.tree_written) is None
            &&& commit_error(making.commit_written, crate::target_making::commit_body(making, trees[""@].oid@)) is None
            &&& making.branch_made is Ok
            &&& making.log_configured is Ok
        },
{
}

proof fn no_failure(verdicts: Seq<Result<(), RepositoryImportError>>, from: int)
    requires
        0 <= from,
    ensures
        first_failure(verdicts, from) is Ok <==> forall|i: int| from <= i < verdicts.len() ==> (#[trigger] verdicts[i]) is Ok,
    decreases verdicts.len() - from,
{
    if from < verdicts.len() {
        no_failure(verdicts, from + 1);
    }
}

/// A target that was made is taken exactly where its control directory holds what belongs there before and
/// after, and nothing changed between, every object was proved and the conversation ended well, and the
/// private directory holds what belongs there.
pub proof fn made_targets_are_taken(parts: TargetParts, closing: ConstructionClosing, count: nat)
    ensures
        closing_failure(parts, closing, count) is None <==> {
            &&& closing.control_before is Ok
            &&& loose_as_expected(closing.control_before->Ok_0@, wished_ids(parts))
            &&& control_as_expected(closing.control_before->Ok_0@, wished_ids(parts))
            &&& closing.objects@.len() == count
            &&& forall|i: int| 0 <= i < closing.objects@.len() ==> (#[trigger] closing.objects@[i]) is Ok
            &&& closing.conversation is Ok
            &&& closing.control_after is Ok
            &&& namespaces_same(closing.control_after->Ok_0@, closing.control_before->Ok_0@)
            &&& control_as_expected(closing.control_after->Ok_0@, wished_ids(parts))
            &&& closing.private_control is Ok
            &&& private_as_expected(closing.private_control->Ok_0@)
        },
{
    no_failure(closing.objects@, 0);
}

/// The objects of a target are the blobs of its files, its trees, and its commit, each with its length and
/// digest.
pub proof fn objects_of_a_target(parts: TargetParts, i: int)
    ensures
        parts_wishes(parts).len() == parts.construction.entries@.len() + parts.trees.entries@.len() + 1,
        0 <= i < parts.construction.entries@.len() ==> parts_wishes(parts)[i] == (Wish {
            oid: parts.construction.entries@[i].blob_oid@,
            object_type: "blob"@,
            size: parts.construction.entries@[i].size,
            sha256: parts.construction.entries@[i].sha256@,
        }),
        0 <= i < parts.trees.entries@.len() ==> parts_wishes(parts)[parts.construction.entries@.len() + i] == (Wish {
            oid: parts.trees.entries@[i].value.oid@,
            object_type: "tree"@,
            size: parts.trees.entries@[i].value.size,
            sha256: parts.trees.entries@[i].value.sha256@,
        }),
        parts_wishes(parts).last() == (Wish {
            oid: parts.root_commit_oid@,
            object_type: "commit"@,
            size: parts.commit_bytes@.len() as u64,
            sha256: sha256_of(parts.commit_bytes@),
        }),
{
}

/// A target that was made is what it was made of: its root, its commit, its tree, its files, and what its two
/// control directories held at the end.
pub proof fn made_targets_are_what_they_are_made_of(target: TargetRepository, parts: TargetParts, closing: ConstructionClosing)
    requires
        made_of(target, parts, closing),
    ensures
        target.root_identity == parts.root_identity,
        target.root_commit_oid == parts.root_commit_oid,
        target.root_tree_oid == parts.root_tree_oid,
        target.entries == parts.construction.entries,
        target.commit_bytes == parts.commit_bytes,
        closing.control_after is Ok && target.git_control == closing.control_after->Ok_0,
        closing.private_control is Ok && target.private_control == closing.private_control->Ok_0,
{
}

/// A target is handed out only after both audits passed and it was synced between them; and it is the one
/// that was made.
pub proof fn handed_out_targets(
    r: Result<TargetRepository, RepositoryImportError>,
    made: TargetRepository,
    first_audit: crate::target_audit::TargetAudit,
    synced: bool,
    second_audit: crate::target_audit::TargetAudit,
    profile: TargetConfigProfile<'_>,
)
    requires
        durably_concluded(r, made, first_audit, synced, second_audit, profile),
    ensures
        (r matches Ok(target) ==> target == made && synced && crate::target_making::audited_as(Ok(()), first_audit, made, profile)
            && crate::target_making::audited_as(Ok(()), second_audit, made, profile)),
        !synced ==> r is Err,
{
}

/// A path may be asked for exactly where all its parts are names, and it is a managed file at the top, or
/// ends in `.md.enc` and is a document, or ends in `.asset.enc` and is an asset.
pub proof fn paths_that_may_be_asked_for(path: TargetPathFacts<'_>)
    ensures
        path.acceptable() <==> {
            let text = path.text();
            &&& forall|i: int| 0 <= i < path.parts@.len() ==> (#[trigger] path.parts@[i] matches PathPart::Normal(Some(_)))
            &&& if text == "vault.json"@ || text == ".gitattributes"@ || text == ".gitignore"@ {
                path.parts@.len() == 1
            } else if exists|front: Seq<u8>| encode_utf8(text) == #[trigger] (front + encode_utf8(".md.enc"@)) {
                path.document
            } else {
                path.asset && exists|front: Seq<u8>| encode_utf8(text) == #[trigger] (front + encode_utf8(".asset.enc"@))
            }
        },
{
    suffixes_come_last(encode_utf8(path.text()), encode_utf8(".md.enc"@));
    suffixes_come_last(encode_utf8(path.text()), encode_utf8(".asset.enc"@));
}

/// The paths of a target are those that were asked for and the two managed files that are written.
pub proof fn paths_of_a_target(paths: Seq<TargetPathFacts<'_>>, text: Seq<char>)
    ensures
        target_paths(paths).contains(text) <==> text == ".gitattributes"@ || text == ".gitignore"@ || exists|i: int|
            0 <= i < paths.len() && (#[trigger] paths[i]).text() == text,
{
}

/// What stands at the top of a worktree and is not walked: the private directory and the control directory.
pub proof fn what_is_not_walked(parent: Seq<char>, name: Seq<char>)
    ensures
        control_name(parent, name) <==> encode_utf8(parent).len() == 0 && (name == ".vault-local"@ || name == ".git"@),
{
}

proof fn component_keys(common: Seq<u8>, byte: u8, rest: Seq<u8>)
    ensures
        forall|i: int| 0 <= i < 2 * common.len() ==> #[trigger] component_key(common + seq![byte] + rest)[i] == component_key(common)[i],
        component_key(common + seq![byte] + rest)[2 * common.len() as int] == (if byte == 0x2f {
            0u8
        } else {
            1u8
        }),
        component_key(common + seq![byte] + rest)[2 * common.len() as int + 1] == byte,
        component_key(common + seq![byte] + rest).len() == 2 * (common.len() + 1 + rest.len()),
{
    let path = common + seq![byte] + rest;
    let n = common.len() as int;
    assert(path[n] == byte);
    assert((2 * n) / 2 == n && (2 * n) % 2 == 0);
    assert((2 * n + 1) / 2 == n && (2 * n + 1) % 2 == 1);
    assert forall|i: int| 0 <= i < 2 * common.len() implies #[trigger] component_key(path)[i] == component_key(common)[i] by {
        assert(path[i / 2] == common[i / 2]);
    }
}

/// Paths of a target are sorted name by name: where two agree up to a place, the one whose name ends there
/// comes first, and else the one with the smaller byte.
pub proof fn paths_are_sorted_by_names(common: Seq<u8>, first: u8, second: u8, rest: Seq<u8>, other: Seq<u8>)
    requires
        first != second,
        first == 0x2f || (second != 0x2f && first < second),
    ensures
        lex_less(component_key(common + seq![first] + rest), component_key(common + seq![second] + other)),
        lex_less(component_key(common), component_key(common + seq![second] + other)),
{
    component_keys(common, first, rest);
    component_keys(common, second, other);
    let a = component_key(common + seq![first] + rest);
    let b = component_key(common + seq![second] + other);
    let n = 2 * common.len() as int;
    if first == 0x2f {
        assert(parts_below(a, b, n)) by {
            assert forall|i: int| 0 <= i < n implies a[i] == b[i] by {
                assert(a[i] == component_key(common)[i]);
                assert(b[i] == component_key(common)[i]);
            }
        }
    } else {
        assert(parts_below(a, b, n + 1)) by {
            assert forall|i: int| 0 <= i < n + 1 implies a[i] == b[i] by {
                if i < n {
                    assert(a[i] == component_key(common)[i]);
                    assert(b[i] == component_key(common)[i]);
                }
            }
        }
    }
    assert(parts_below(component_key(common), b, n));
}

/// What a target is asked: the format of its ids, its head, its references, and its own configuration.
pub proof fn what_a_made_target_is_asked()
    ensures
        SemanticsQuery::ObjectFormat.argument_texts() == seq!["rev-parse"@, "--show-object-format"@],
        SemanticsQuery::Head.argument_texts() == seq!["rev-parse"@, "--verify"@, "HEAD^{commit}"@],
        SemanticsQuery::Refs.argument_texts() == seq!["for-each-ref"@, "--format=%(refname)"@],
        SemanticsQuery::Config.argument_texts() == seq!["config"@, "--local"@, "--null"@, "--list"@],
{
}

/// A target answers as expected exactly where its ids are those of SHA-1, its head is its commit, `HEAD`
/// names the branch main, that branch is its only reference, nothing is logged, and its configuration is as
/// expected.
pub proof fn targets_answer_as_expected(answers: SemanticsAnswers, root_commit_oid: Seq<char>, profile: TargetConfigProfile<'_>)
    ensures
        answers_error(answers, root_commit_oid, profile) is None <==> {
            &&& answers.object_format is Ok && is_one_line(answers.object_format->Ok_0@)
            &&& without_line_end(answers.object_format->Ok_0@) == encode_utf8("sha1"@)
            &&& answers.head is Ok && is_one_line(answers.head->Ok_0@)
            &&& without_line_end(answers.head->Ok_0@) == encode_utf8(root_commit_oid)
            &&& answers.head_file is Ok && answers.head_file->Ok_0@ == encode_utf8("ref: refs/heads/main\n"@)
            &&& answers.refs is Ok && answers.refs->Ok_0@ == encode_utf8("refs/heads/main\n"@)
            &&& !answers.logs_present
            &&& answers.config is Ok && nul_terminated(answers.config->Ok_0@)
            &&& config_as_expected(nul_pieces(answers.config->Ok_0@), profile)
        },
{
}

/// The paths of a target are listed exactly where each may be asked for, the vault is among them, and there
/// are not too many; they are then sorted, without a repetition, and all there.
pub proof fn paths_are_listed(r: Result<Vec<TargetPath>, RepositoryImportError>, paths: Seq<TargetPathFacts<'_>>)
    requires
        normalized(r, paths),
    ensures
        r is Ok ==> {
            &&& forall|i: int| 0 <= i < paths.len() ==> (#[trigger] paths[i]).acceptable()
            &&& exists|i: int| 0 <= i < paths.len() && (#[trigger] paths[i]).text() == "vault.json"@
            &&& r->Ok_0@.len() <= 100_003
            &&& forall|i: int, j: int|
                0 <= i < j < r->Ok_0@.len() ==> lex_less((#[trigger] r->Ok_0@[i]).key(), (#[trigger] r->Ok_0@[j]).key())
            &&& forall|i: int| 0 <= i < r->Ok_0@.len() ==> target_paths(paths).contains((#[trigger] r->Ok_0@[i]).text@)
            &&& forall|text: Seq<char>| #[trigger]
                target_paths(paths).contains(text) ==> exists|i: int| 0 <= i < r->Ok_0@.len() && (#[trigger] r->Ok_0@[i]).text@ == text
        },
        (exists|i: int| 0 <= i < paths.len() && !(#[trigger] paths[i]).acceptable()) ==> r == Err::<Vec<TargetPath>, _>(
            RepositoryImportError::UnsafeTarget,
        ),
{
    reveal_strlit("vault.json");
    reveal_strlit(".gitattributes");
    reveal_strlit(".gitignore");
    if r is Ok {
        assert("vault.json"@[0] == 'v' && ".gitattributes"@[0] == '.' && ".gitignore"@[0] == '.');
        paths_of_a_target(paths, "vault.json"@);
        let listed = r->Ok_0@;
        assert(crate::target_worktree::paths_ascend(listed));
        assert(crate::target_worktree::lists_texts(listed, target_paths(paths)));
    }
}

/// What a target is made of: the root that was opened, the files that were added, their trees with the tree
/// of the root, and the commit of that tree at the time of the import.
pub proof fn parts_of_a_target(
    parts: TargetParts,
    making: TargetMaking<'_>,
    construction: TargetConstruction,
    trees: TextMap<CanonicalTreeObject>,
)
    requires
        assembled(parts, making, construction, trees),
    ensures
        making.staging.root_identity == Some(parts.root_identity),
        parts.construction == construction,
        parts.trees == trees,
        parts.root_tree_oid@ == trees@[""@].oid@,
        parts.commit_bytes@ == canonical_commit(
            encode_utf8(parts.root_tree_oid@),
            signed_text(making.import_time_utc_seconds as int),
        ),
        encode_utf8(parts.root_commit_oid@) == hex_text(
            typed_oid(ObjectKind::Commit, parts.commit_bytes@.len() as u64, parts.commit_bytes@),
        ),
{
}

/// The files of a target that is made are its paths, in their order, each with the body that was read for it.
pub proof fn files_of_a_target(entries: Seq<TargetTrackedEntry>, paths: Seq<TargetPath>, readings: Seq<TargetReading>, n: int, i: int)
    requires
        entries_of(entries, paths, readings, n),
        0 <= i < n,
    ensures
        entries.len() == n,
        entries[i].relative_path@ == paths[i].text@,
        entries[i].size == readings[i].held->Ok_0.bytes@.len(),
        entries[i].sha256@ == sha256_of(readings[i].held->Ok_0.bytes@),
        entries[i].identity == readings[i].held->Ok_0.identity,
{
    assert(crate::target_making::entry_at(entries[i], paths, readings, i));
}

/// The making of a target stops at what was wrong first: before the paths, what was found at the opening.
pub proof fn makings_stop_at_the_opening(
    r: Result<TargetRepository, RepositoryImportError>,
    making: TargetMaking<'_>,
    profile: TargetConfigProfile<'_>,
)
    requires
        initialized(r, making, profile),
        opening_error(making) is Some,
    ensures
        r == Err::<TargetRepository, _>(opening_error(making)->Some_0),
{
}

} // verus!
