//! The making of a target: one judgement over every step, in the order in which they are taken.

use crate::errors::{io_error, io_failure, IoErrorKind, RepositoryImportError, RepositoryIoOperation};
use crate::git_object::{canonical_commit, typed_oid};
use crate::held_reading::HeldFile;
use crate::hex::{hex_text, signed_text};
use crate::identity::FilesystemDirectoryIdentity;
use crate::seal_records::ObjectKind;
use crate::source_checks::CommandOutput;
use crate::target_audit::{
    audit_repository_import_target, durably_audit_repository_import_target, is_audit_verdict, TargetAudit, TargetRepository,
};
use crate::target_config::TargetConfigProfile;
use crate::target_construction::{
    accept_commit, accept_root_tree, accept_staging, add_file_error, commit_error, conclude_init, conclude_target, entry_of,
    made_verdict, parts_wishes, plan_trees, root_tree_error, staging_error, trees_verdict, ConstructionClosing,
    StagingSighting, TargetConstruction, TargetParts,
};
use crate::target_objects::{expectations_error, wishes_held, TargetObjectExpectation, TargetTrackedEntry};
use crate::target_tree::{CanonicalTreeObject, TargetTrees};
use crate::target_worktree::{
    all_acceptable, allowed_paths, ensure_exact_target_file, found_as_allowed, lists_texts, normalize_target_paths,
    paths_ascend, prove_target_worktree_allowlist, target_paths, MetadataAction, MetadataSighting, TargetPath,
    TargetPathFacts, WorktreeWalk, MAX_TARGET_ENTRIES, TARGET_ATTRIBUTES, TARGET_IGNORE, VAULT_METADATA_FILE,
};
use crate::text_map::TextMap;
use crate::wiped::WipedBytes;
use vstd::prelude::*;
use vstd::string::*;
use vstd::utf8::encode_utf8;

verus! {

/// What was seen at the place of a metadata file, and what came of writing it where there was none.
pub struct MetadataStep<'a> {
    pub seen: MetadataSighting<'a>,
    pub written: Result<(), IoErrorKind>,
}

/// What was read of one file, and the id that Git gave its blob.
pub struct TargetReading {
    pub held: Result<HeldFile, RepositoryImportError>,
    pub hashed: CommandOutput,
}

/// What was seen and what was done while a target was made, in that order.
pub struct TargetMaking<'a> {
    pub staging: StagingSighting,
    pub attributes: MetadataStep<'a>,
    pub ignore: MetadataStep<'a>,
    pub paths: Vec<TargetPathFacts<'a>>,
    pub walk: Result<WorktreeWalk, RepositoryImportError>,
    pub template_made: Result<(), IoErrorKind>,
    pub private_synced: bool,
    pub init: Result<(), RepositoryImportError>,
    pub template_removed: Result<(), IoErrorKind>,
    pub hooks_made: Result<(), IoErrorKind>,
    pub control_synced: bool,
    pub runner: Result<(), RepositoryImportError>,
    /// The version of Git is one that can be used.
    pub version: Result<(), RepositoryImportError>,
    /// The merge driver is installed.
    pub driver_found: bool,
    /// The settings that a target opens with.
    pub configured: Result<(), RepositoryImportError>,
    /// One reading for each path, in their order.
    pub readings: Vec<TargetReading>,
    pub index_filled: Result<(), RepositoryImportError>,
    pub tree_written: CommandOutput,
    pub import_time_utc_seconds: i64,
    pub commit_written: CommandOutput,
    pub branch_made: Result<(), RepositoryImportError>,
    /// The log of refs is on again.
    pub log_configured: Result<(), RepositoryImportError>,
    pub closing: ConstructionClosing,
    pub first_audit: TargetAudit,
    pub synced: bool,
    pub second_audit: TargetAudit,
}

impl<'a> TargetMaking<'a> {
    /// What the walks found is kept in order.
    pub open spec fn wf(self) -> bool {
        &&& self.walk matches Ok(found) ==> found.wf()
        &&& self.first_audit.opening.walk matches Ok(found) ==> found.wf()
        &&& self.first_audit.closing.worktree.walk matches Ok(found) ==> found.wf()
        &&& self.second_audit.opening.walk matches Ok(found) ==> found.wf()
        &&& self.second_audit.closing.worktree.walk matches Ok(found) ==> found.wf()
    }
}

/// Why a metadata file is refused, if it is.
pub open spec fn metadata_error(step: MetadataStep, expected: Seq<char>) -> Option<RepositoryImportError> {
    match step.seen {
        MetadataSighting::Absent => match step.written {
            Ok(()) => None,
            Err(kind) => Some(io_failure(RepositoryIoOperation::WriteTarget, kind)),
        },
        MetadataSighting::File(Ok(bytes)) => if bytes@ == encode_utf8(expected) {
            None
        } else {
            Some(RepositoryImportError::UnsafeTarget)
        },
        MetadataSighting::File(Err(failure)) => Some(failure),
        MetadataSighting::Other => Some(RepositoryImportError::UnsafeTarget),
    }
}

/// Paths are the ones that a target tracks, once each and in order.
pub open spec fn normalized(r: Result<Vec<TargetPath>, RepositoryImportError>, paths: Seq<TargetPathFacts>) -> bool {
    if !all_acceptable(paths) || !target_paths(paths).contains(VAULT_METADATA_FILE@) {
        r matches Err(error) && error == RepositoryImportError::UnsafeTarget
    } else {
        match r {
            Ok(listed) => listed@.len() <= MAX_TARGET_ENTRIES && paths_ascend(listed@) && lists_texts(
                listed@,
                target_paths(paths),
            ),
            Err(error) => error == RepositoryImportError::ResourceLimit && target_paths(paths).finite() && target_paths(
                paths,
            ).len() > MAX_TARGET_ENTRIES,
        }
    }
}

/// Why a target is not begun before its paths are known, if it is not.
pub open spec fn opening_error(making: TargetMaking) -> Option<RepositoryImportError> {
    if staging_error(making.staging) is Some {
        staging_error(making.staging)
    } else if metadata_error(making.attributes, TARGET_ATTRIBUTES@) is Some {
        metadata_error(making.attributes, TARGET_ATTRIBUTES@)
    } else {
        metadata_error(making.ignore, TARGET_IGNORE@)
    }
}

/// Why an empty repository for given paths is not ready, if it is not.
pub open spec fn setup_error(making: TargetMaking, paths: Seq<TargetPath>) -> Option<RepositoryImportError> {
    if making.walk is Err {
        Some(making.walk->Err_0)
    } else if !found_as_allowed(making.walk->Ok_0, allowed_paths(paths, paths.len() as int)) {
        Some(RepositoryImportError::TargetAuditFailed)
    } else if making.template_made is Err {
        Some(io_failure(RepositoryIoOperation::WriteTarget, making.template_made->Err_0))
    } else if !making.private_synced {
        Some(RepositoryImportError::DurabilityNotConfirmed)
    } else if making.init is Err {
        Some(making.init->Err_0)
    } else if making.template_removed is Err {
        Some(io_failure(RepositoryIoOperation::WriteTarget, making.template_removed->Err_0))
    } else if making.hooks_made is Err {
        Some(io_failure(RepositoryIoOperation::WriteTarget, making.hooks_made->Err_0))
    } else if !making.control_synced {
        Some(RepositoryImportError::DurabilityNotConfirmed)
    } else if making.runner is Err {
        Some(making.runner->Err_0)
    } else if making.version is Err {
        Some(making.version->Err_0)
    } else if !making.driver_found {
        Some(RepositoryImportError::UnsafeTarget)
    } else if making.configured is Err {
        Some(making.configured->Err_0)
    } else {
        None
    }
}

fn judge_metadata(step: &MetadataStep<'_>, expected: &str) -> (r: Result<(), RepositoryImportError>)
    ensures
        match metadata_error(*step, expected@) {
            Some(error) => r matches Err(e) && e == error,
            None => r is Ok,
        },
{
    let seen = match &step.seen {
        MetadataSighting::Absent => MetadataSighting::Absent,
        MetadataSighting::File(reading) => MetadataSighting::File(*reading),
        MetadataSighting::Other => MetadataSighting::Other,
    };
    match ensure_exact_target_file(seen, expected.as_bytes())? {
        MetadataAction::Keep => Ok(()),
        MetadataAction::Create => match step.written {
            Ok(()) => Ok(()),
            Err(kind) => Err(io_error(RepositoryIoOperation::WriteTarget, kind)),
        },
    }
}

fn judge_opening(making: &TargetMaking<'_>) -> (r: Result<FilesystemDirectoryIdentity, RepositoryImportError>)
    ensures
        match opening_error(*making) {
            Some(error) => r matches Err(e) && e == error,
            None => r matches Ok(identity) && Some(identity) == making.staging.root_identity,
        },
{
    let identity = accept_staging(&making.staging)?;
    judge_metadata(&making.attributes, TARGET_ATTRIBUTES)?;
    judge_metadata(&making.ignore, TARGET_IGNORE)?;
    Ok(identity)
}

fn judge_setup(making: &TargetMaking<'_>, paths: &Vec<TargetPath>) -> (r: Result<(), RepositoryImportError>)
    requires
        making.wf(),
    ensures
        match setup_error(*making, paths@) {
            Some(error) => r matches Err(e) && e == error,
            None => r is Ok,
        },
{
    match &making.walk {
        Ok(walk) => {
            prove_target_worktree_allowlist(walk, paths)?;
        },
        Err(error) => {
            return Err(*error);
        },
    }
    match making.template_made {
        Ok(()) => {},
        Err(kind) => {
            return Err(io_error(RepositoryIoOperation::WriteTarget, kind));
        },
    }
    if !making.private_synced {
        return Err(RepositoryImportError::DurabilityNotConfirmed);
    }
    conclude_init(making.init, making.template_removed)?;
    match making.hooks_made {
        Ok(()) => {},
        Err(kind) => {
            return Err(io_error(RepositoryIoOperation::WriteTarget, kind));
        },
    }
    if !making.control_synced {
        return Err(RepositoryImportError::DurabilityNotConfirmed);
    }
    making.runner?;
    making.version?;
    if !making.driver_found {
        return Err(RepositoryImportError::UnsafeTarget);
    }
    making.configured
}

/// The first refusal among the files from `i` on. A file that was not read is refused.
pub open spec fn files_error(count: nat, readings: Seq<TargetReading>, i: int) -> Option<RepositoryImportError>
    decreases count - i,
{
    if i >= count {
        None
    } else if i >= readings.len() {
        Some(RepositoryImportError::UnsafeTarget)
    } else if add_file_error(readings[i].held, readings[i].hashed) is Some {
        add_file_error(readings[i].held, readings[i].hashed)
    } else {
        files_error(count, readings, i + 1)
    }
}

/// The first `n` entries are those of the first `n` files.
pub open spec fn entries_of(entries: Seq<TargetTrackedEntry>, paths: Seq<TargetPath>, readings: Seq<TargetReading>, n: int) -> bool {
    &&& entries.len() == n
    &&& forall|i: int| 0 <= i < n ==> entry_at(#[trigger] entries[i], paths, readings, i)
}

/// An entry is that of file `i`.
pub open spec fn entry_at(entry: TargetTrackedEntry, paths: Seq<TargetPath>, readings: Seq<TargetReading>, i: int) -> bool {
    entry_of(entry, paths[i].text@, readings[i].held->Ok_0)
}

/// Add the files of a target one after the other.
pub fn add_target_files(paths: &Vec<TargetPath>, readings: &Vec<TargetReading>) -> (r: Result<
    TargetConstruction,
    RepositoryImportError,
>)
    ensures
        match files_error(paths@.len(), readings@, 0) {
            Some(error) => r matches Err(e) && e == error,
            None => r matches Ok(construction) && construction.wf() && entries_of(
                construction.entries@,
                paths@,
                readings@,
                paths@.len() as int,
            ),
        },
{
    let mut construction = TargetConstruction::begin();
    let mut i: usize = 0;
    while i < paths.len()
        invariant
            i <= paths@.len(),
            construction.wf(),
            entries_of(construction.entries@, paths@, readings@, i as int),
            files_error(paths@.len(), readings@, 0) == files_error(paths@.len(), readings@, i as int),
        decreases paths@.len() - i,
    {
        if i >= readings.len() {
            return Err(RepositoryImportError::UnsafeTarget);
        }
        let ghost before = construction.entries@;
        construction.add_file(paths[i].text.as_str(), &readings[i].held, &readings[i].hashed)?;
        proof {
            assert forall|k: int| 0 <= k < i + 1 implies entry_at(#[trigger] construction.entries@[k], paths@, readings@, k) by {
                if k < i {
                    assert(construction.entries@[k] == construction.entries@.drop_last()[k]);
                    assert(entry_at(before[k], paths@, readings@, k));
                }
            }
        }
        i = i + 1;
    }
    Ok(construction)
}

/// The bytes of the commit of a target whose root tree has a given id.
pub open spec fn commit_body(making: TargetMaking, root_tree_oid: Seq<char>) -> Seq<u8> {
    canonical_commit(encode_utf8(root_tree_oid), signed_text(making.import_time_utc_seconds as int))
}

/// Why what Git wrote is refused, if it is.
pub open spec fn written_error(making: TargetMaking, trees: TargetTrees) -> Option<RepositoryImportError> {
    if making.index_filled is Err {
        Some(making.index_filled->Err_0)
    } else if root_tree_error(trees, making.tree_written) is Some {
        root_tree_error(trees, making.tree_written)
    } else if commit_error(making.commit_written, commit_body(making, trees[""@].oid@)) is Some {
        commit_error(making.commit_written, commit_body(making, trees[""@].oid@))
    } else if making.branch_made is Err {
        Some(making.branch_made->Err_0)
    } else if making.log_configured is Err {
        Some(making.log_configured->Err_0)
    } else {
        None
    }
}

/// Parts are those of a target with given files and trees.
pub open spec fn assembled(parts: TargetParts, making: TargetMaking, construction: TargetConstruction, trees: TextMap<CanonicalTreeObject>) -> bool {
    &&& Some(parts.root_identity) == making.staging.root_identity
    &&& parts.construction == construction
    &&& parts.trees == trees
    &&& parts.root_tree_oid@ == trees@[""@].oid@
    &&& parts.commit_bytes@ == commit_body(making, trees@[""@].oid@)
    &&& encode_utf8(parts.root_commit_oid@) == hex_text(
        typed_oid(
            ObjectKind::Commit,
            parts.commit_bytes@.len() as u64,
            parts.commit_bytes@,
        ),
    )
}

/// A target is what its parts and the look at it give.
pub open spec fn target_concluded(made: Result<TargetRepository, RepositoryImportError>, parts: TargetParts, closing: ConstructionClosing) -> bool {
    match expectations_error(parts.construction.entries@, parts.trees.entries@, parts.root_commit_oid@, parts.commit_bytes@) {
        Some(failure) => made matches Err(error) && error == failure,
        None => exists|objects: TextMap<TargetObjectExpectation>| #[trigger]
            wishes_held(objects@, parts_wishes(parts)) && objects.wf() && made_verdict(
                made,
                parts,
                closing,
                objects.entries@.len(),
            ),
    }
}

/// A verdict is the one of an audit without a marker.
pub open spec fn audited_as(
    verdict: Result<(), RepositoryImportError>,
    audit: TargetAudit,
    target: TargetRepository,
    profile: TargetConfigProfile<'_>,
) -> bool {
    exists|opened: Result<TextMap<TargetObjectExpectation>, RepositoryImportError>| #[trigger]
        is_audit_verdict(verdict, opened, audit, target, profile, None)
}

/// A result is what the durable audit of a target that was made gives.
pub open spec fn durably_concluded(
    r: Result<TargetRepository, RepositoryImportError>,
    made: TargetRepository,
    first_audit: TargetAudit,
    synced: bool,
    second_audit: TargetAudit,
    profile: TargetConfigProfile<'_>,
) -> bool {
    exists|first: Result<(), RepositoryImportError>, second: Result<(), RepositoryImportError>|
        {
            &&& #[trigger] audited_as(first, first_audit, made, profile)
            &&& #[trigger] audited_as(second, second_audit, made, profile)
            &&& match first {
                Err(error) => r matches Err(e) && e == error,
                Ok(()) => if !synced {
                    r matches Err(e) && e == RepositoryImportError::DurabilityNotConfirmed
                } else {
                    match second {
                        Err(error) => r matches Err(e) && e == error,
                        Ok(()) => r matches Ok(target) && target == made,
                    }
                },
            }
        }
}

/// A result is what the parts of a target give.
pub open spec fn parts_concluded(
    r: Result<TargetRepository, RepositoryImportError>,
    parts: TargetParts,
    making: TargetMaking,
    profile: TargetConfigProfile<'_>,
) -> bool {
    exists|made: Result<TargetRepository, RepositoryImportError>|
        {
            &&& #[trigger] target_concluded(made, parts, making.closing)
            &&& match made {
                Err(error) => r matches Err(e) && e == error,
                Ok(target) => durably_concluded(r, target, making.first_audit, making.synced, making.second_audit, profile),
            }
        }
}

/// A result is what the files of a target give.
pub open spec fn files_concluded(
    r: Result<TargetRepository, RepositoryImportError>,
    construction: TargetConstruction,
    making: TargetMaking,
    profile: TargetConfigProfile<'_>,
) -> bool {
    exists|trees: Result<TextMap<CanonicalTreeObject>, RepositoryImportError>|
        {
            &&& #[trigger] trees_verdict(trees, construction.entries@)
            &&& match trees {
                Err(error) => r matches Err(e) && e == error,
                Ok(map) => match written_error(making, map@) {
                    Some(error) => r matches Err(e) && e == error,
                    None => exists|parts: TargetParts| #[trigger]
                        assembled(parts, making, construction, map) && parts_concluded(r, parts, making, profile),
                },
            }
        }
}

/// A result is what the making of a target with given paths gives.
pub open spec fn paths_concluded(
    r: Result<TargetRepository, RepositoryImportError>,
    paths: Vec<TargetPath>,
    making: TargetMaking,
    profile: TargetConfigProfile<'_>,
) -> bool {
    match setup_error(making, paths@) {
        Some(error) => r matches Err(e) && e == error,
        None => match files_error(paths@.len(), making.readings@, 0) {
            Some(error) => r matches Err(e) && e == error,
            None => exists|construction: TargetConstruction|
                {
                    &&& #[trigger] construction.wf()
                    &&& entries_of(construction.entries@, paths@, making.readings@, paths@.len() as int)
                    &&& files_concluded(r, construction, making, profile)
                },
        },
    }
}

/// A result is what everything that was seen and done gives.
pub open spec fn initialized(
    r: Result<TargetRepository, RepositoryImportError>,
    making: TargetMaking,
    profile: TargetConfigProfile<'_>,
) -> bool {
    match opening_error(making) {
        Some(error) => r matches Err(e) && e == error,
        None => exists|paths: Result<Vec<TargetPath>, RepositoryImportError>|
            {
                &&& #[trigger] normalized(paths, making.paths@)
                &&& match paths {
                    Err(error) => r matches Err(e) && e == error,
                    Ok(listed) => paths_concluded(r, listed, making, profile),
                }
            },
    }
}

/// Audit a target that was made, sync it, and audit it again.
fn conclude_durably(
    made: TargetRepository,
    first_audit: &TargetAudit,
    synced: bool,
    second_audit: &TargetAudit,
    profile: &TargetConfigProfile<'_>,
) -> (r: Result<TargetRepository, RepositoryImportError>)
    requires
        made.wf(),
        first_audit.opening.walk matches Ok(found) ==> found.wf(),
        first_audit.closing.worktree.walk matches Ok(found) ==> found.wf(),
        second_audit.opening.walk matches Ok(found) ==> found.wf(),
        second_audit.closing.worktree.walk matches Ok(found) ==> found.wf(),
    ensures
        durably_concluded(r, made, *first_audit, synced, *second_audit, *profile),
{
    let first = audit_repository_import_target(first_audit, &made, profile);
    let second = audit_repository_import_target(second_audit, &made, profile);
    assert(audited_as(first, *first_audit, made, *profile));
    assert(audited_as(second, *second_audit, made, *profile));
    durably_audit_repository_import_target(first, synced, second)?;
    Ok(made)
}

/// What Git wrote for given trees: the ids of the root tree and of the commit, and the bytes of the
/// commit.
struct WrittenObjects {
    root_tree_oid: String,
    root_commit_oid: String,
    commit_bytes: WipedBytes,
}

fn judge_written(making: &TargetMaking<'_>, trees: &TextMap<CanonicalTreeObject>) -> (r: Result<
    WrittenObjects,
    RepositoryImportError,
>)
    requires
        trees.wf(),
    ensures
        match written_error(*making, trees@) {
            Some(error) => r matches Err(e) && e == error,
            None => r matches Ok(written) && {
                &&& written.root_tree_oid@ == trees@[""@].oid@
                &&& written.commit_bytes@ == commit_body(*making, trees@[""@].oid@)
                &&& encode_utf8(written.root_commit_oid@) == hex_text(
                    typed_oid(
                        ObjectKind::Commit,
                        written.commit_bytes@.len() as u64,
                        written.commit_bytes@,
                    ),
                )
            },
        },
{
    making.index_filled?;
    let root_tree_oid = accept_root_tree(trees, &making.tree_written)?;
    let (root_commit_oid, commit_bytes) = accept_commit(
        root_tree_oid.as_str(),
        making.import_time_utc_seconds,
        &making.commit_written,
    )?;
    making.branch_made?;
    making.log_configured?;
    Ok(WrittenObjects { root_tree_oid, root_commit_oid, commit_bytes })
}

/// Judge what Git wrote for the files of a target, and conclude the target.
fn conclude_files(
    root_identity: FilesystemDirectoryIdentity,
    construction: TargetConstruction,
    making: TargetMaking<'_>,
    profile: &TargetConfigProfile<'_>,
) -> (r: Result<TargetRepository, RepositoryImportError>)
    requires
        making.wf(),
        Some(root_identity) == making.staging.root_identity,
    ensures
        files_concluded(r, construction, making, *profile),
{
    let planning = plan_trees(&construction);
    assert(trees_verdict(planning, construction.entries@));
    let trees = match planning {
        Ok(trees) => trees,
        Err(error) => {
            return Err(error);
        },
    };
    let written = judge_written(&making, &trees)?;
    let parts = TargetParts {
        root_identity,
        construction,
        trees,
        root_tree_oid: written.root_tree_oid,
        root_commit_oid: written.root_commit_oid,
        commit_bytes: written.commit_bytes,
    };
    assert(assembled(parts, making, construction, trees));
    let ghost all = parts;
    let conclusion = conclude_target(parts, making.closing);
    assert(target_concluded(conclusion, all, making.closing));
    let r = match conclusion {
        Err(error) => Err(error),
        Ok(target) => conclude_durably(target, &making.first_audit, making.synced, &making.second_audit, profile),
    };
    assert(parts_concluded(r, all, making, *profile));
    r
}

/// Make a target: judge every step that was taken, and keep the target if it passes two audits with a
/// sync between them.
pub fn initialize_and_audit_target(making: TargetMaking<'_>, profile: &TargetConfigProfile<'_>) -> (r: Result<
    TargetRepository,
    RepositoryImportError,
>)
    requires
        making.wf(),
    ensures
        initialized(r, making, *profile),
{
    let root_identity = judge_opening(&making)?;
    let normalization = normalize_target_paths(&making.paths);
    assert(normalized(normalization, making.paths@));
    let paths = match normalization {
        Ok(paths) => paths,
        Err(error) => {
            return Err(error);
        },
    };
    judge_setup(&making, &paths)?;
    let construction = add_target_files(&paths, &making.readings)?;
    assert(construction.wf());
    conclude_files(root_identity, construction, making, profile)
}

/// A target that was made passed an audit, was synced, and passed an audit again.
pub proof fn made_target_was_audited(target: TargetRepository, making: TargetMaking, profile: TargetConfigProfile<'_>)
    requires
        initialized(Ok::<TargetRepository, RepositoryImportError>(target), making, profile),
    ensures
        opening_error(making) is None,
        audited_as(Ok(()), making.first_audit, target, profile),
        making.synced,
        audited_as(Ok(()), making.second_audit, target, profile),
{
    let r = Ok::<TargetRepository, RepositoryImportError>(target);
    let paths = choose|paths: Result<Vec<TargetPath>, RepositoryImportError>|
        {
            &&& #[trigger] normalized(paths, making.paths@)
            &&& match paths {
                Err(error) => r matches Err(e) && e == error,
                Ok(listed) => paths_concluded(r, listed, making, profile),
            }
        };
    let listed = paths->Ok_0;
    let construction = choose|construction: TargetConstruction|
        {
            &&& #[trigger] construction.wf()
            &&& entries_of(construction.entries@, listed@, making.readings@, listed@.len() as int)
            &&& files_concluded(r, construction, making, profile)
        };
    let trees = choose|trees: Result<TextMap<CanonicalTreeObject>, RepositoryImportError>|
        {
            &&& #[trigger] trees_verdict(trees, construction.entries@)
            &&& match trees {
                Err(error) => r matches Err(e) && e == error,
                Ok(map) => match written_error(making, map@) {
                    Some(error) => r matches Err(e) && e == error,
                    None => exists|parts: TargetParts| #[trigger]
                        assembled(parts, making, construction, map) && parts_concluded(r, parts, making, profile),
                },
            }
        };
    let parts = choose|parts: TargetParts| #[trigger]
        assembled(parts, making, construction, trees->Ok_0) && parts_concluded(r, parts, making, profile);
    let made = choose|made: Result<TargetRepository, RepositoryImportError>|
        {
            &&& #[trigger] target_concluded(made, parts, making.closing)
            &&& match made {
                Err(error) => r matches Err(e) && e == error,
                Ok(whole) => durably_concluded(
                    r,
                    whole,
                    making.first_audit,
                    making.synced,
                    making.second_audit,
                    profile,
                ),
            }
        };
    assert(durably_concluded(r, made->Ok_0, making.first_audit, making.synced, making.second_audit, profile));
}

} // verus!
