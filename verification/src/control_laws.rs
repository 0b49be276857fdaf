//! What the control directory of a candidate holds, how its files are read, and when the authority over a
//! candidate is granted.

use crate::bytes::lex_less;
use crate::content_seal::CandidateContentSeal;
use crate::control_scan::{in_slot, met, object_set_error, record_slot, scan_error, ControlVisitor};
use crate::control_snapshot::{
    capture_error, control_capture_error, directory_holds, file_at, file_holds, main_ref_error, main_ref_shape,
    reading_holds, snapshot_holds, walk_binds, HeldBodyReading, HeldDirectoryObservation, HeldFileObservation,
    HeldSnapshotReading, HeldSnapshotRecheck, HeldSnapshotState, MAX_TARGET_CONFIG_BYTES, MAX_TARGET_INDEX_BYTES,
    TARGET_CONFIG_PATH, TARGET_INDEX_PATH, TARGET_MAIN_REF_BYTES, TARGET_MAIN_REF_PATH,
};
use crate::digest::sha256_of;
use crate::errors::CandidateSealError;
use crate::git_control::{
    below_git, file_with_body, fixed_slot, git_relative, loose_path, main_ref_text, slot_of, ControlSlot,
};
use crate::git_evidence::FreshGitManifest;
use crate::git_object::{object_record_error, FreshRootCommitEvidence, MAX_RAW_OBJECT_BYTES};
use crate::git_output::sha1_text;
use crate::hex::{all_lower_hex, hex_bytes, hex_text, lower_hex_byte, zero_oid};
use crate::identity::{FilesystemDirectoryIdentity, FilesystemFileIdentity};
use crate::initial_authority::{
    commit_error, evidence_error, granted, lock_error, InitialCandidateAuthority, InitialCandidateAuthorityError,
    InitialClosing, InitialSighting,
};
use crate::manifest::{AuditedPhysicalKind, AuditedPhysicalRecord, MarkerFreePhysicalManifest, PhysicalRecordId};
use crate::object_proof::runtime_proof_error;
use crate::seal_records::{CandidateSealContext, GitControlRole, ObjectRecord};
use crate::source_laws::prefixes_come_first;
use crate::target_audit::TargetRepository;
use crate::worktree_evidence::{FreshTrackedManifest, FreshTreeManifest};
use vstd::prelude::*;
use vstd::string::*;
use vstd::utf8::{encode_utf8, is_ascii_chars_encode_utf8};

verus! {

/// What stands in the control directory has a path that begins with `.git/`; the rest is its place there.
pub proof fn places_in_the_control_directory(path: Seq<u8>, rest: Seq<u8>)
    ensures
        below_git(path) <==> exists|behind: Seq<u8>| path == #[trigger] (encode_utf8(".git/"@) + behind),
        git_relative(encode_utf8(".git/"@) + rest) == rest,
        below_git(path) ==> path == encode_utf8(".git/"@) + git_relative(path),
{
    reveal_strlit(".git/");
    is_ascii_chars_encode_utf8(".git/"@);
    prefixes_come_first(path, encode_utf8(".git/"@));
    assert(git_relative(encode_utf8(".git/"@) + rest) =~= rest);
    if below_git(path) {
        assert(path =~= encode_utf8(".git/"@) + git_relative(path));
    }
}

/// A file has a body where its size is the length of the body and its digest is that of the body.
pub proof fn bodies_of_files(kind: AuditedPhysicalKind, body: Seq<u8>)
    ensures
        file_with_body(kind, body) <==> (kind matches AuditedPhysicalKind::File { size, sha256, .. } && size == body.len()
            && sha256@ == sha256_of(body)),
{
}

/// What fills a place in the control directory: `HEAD` names the branch main, the branch holds the commit,
/// the configuration and the index are files, the structural directories and the hooks are directories, a
/// loose object is one of those that are expected.
pub proof fn places_are_filled(relative: Seq<u8>, kind: AuditedPhysicalKind, objects: Seq<ObjectRecord>, commit: Seq<u8>)
    ensures
        slot_of(relative, kind, objects, commit) == Some(ControlSlot::Head) ==> relative == encode_utf8("HEAD"@) && file_with_body(
            kind,
            encode_utf8("ref: refs/heads/main\n"@),
        ),
        slot_of(relative, kind, objects, commit) == Some(ControlSlot::Config) ==> relative == encode_utf8("config"@) && kind is File,
        slot_of(relative, kind, objects, commit) == Some(ControlSlot::Index) ==> relative == encode_utf8("index"@) && kind is File,
        slot_of(relative, kind, objects, commit) == Some(ControlSlot::MainRef) ==> relative == encode_utf8("refs/heads/main"@)
            && file_with_body(kind, hex_text(commit) + seq![0x0au8]),
        slot_of(relative, kind, objects, commit) == Some(ControlSlot::Hooks) ==> relative == encode_utf8("inex-empty-hooks"@)
            && kind is Directory,
        (slot_of(relative, kind, objects, commit) matches Some(ControlSlot::Scaffold(number)) ==> kind is Directory),
        (slot_of(relative, kind, objects, commit) matches Some(ControlSlot::Fanout(byte)) ==> kind is Directory && relative.len() == 10),
        (slot_of(relative, kind, objects, commit) matches Some(ControlSlot::Loose(object)) ==> kind is File && relative.len() == 49
            && objects.contains(object)),
{
    reveal(fixed_slot);
    assert(main_ref_text(commit) =~= hex_text(commit) + seq![0x0au8]);
    if let Some(ControlSlot::Loose(object)) = slot_of(relative, kind, objects, commit) {
        let oid = hex_bytes(crate::git_control::loose_digits(relative));
        let i = choose|i: int| crate::git_control::object_at_is(objects, oid, i);
        assert(objects[i] == object);
    }
}

/// `HEAD` stands in its place exactly where it names the branch main, and the branch where it names the
/// commit.
pub proof fn heads_name_the_branch(kind: AuditedPhysicalKind, objects: Seq<ObjectRecord>, commit: Seq<u8>)
    ensures
        slot_of(encode_utf8("HEAD"@), kind, objects, commit) == if file_with_body(kind, encode_utf8("ref: refs/heads/main\n"@)) {
            Some(ControlSlot::Head)
        } else {
            None
        },
        slot_of(encode_utf8("refs/heads/main"@), kind, objects, commit) == if file_with_body(kind, hex_text(commit) + seq![0x0au8]) {
            Some(ControlSlot::MainRef)
        } else {
            None
        },
        slot_of(encode_utf8("config"@), kind, objects, commit) == if kind is File {
            Some(ControlSlot::Config)
        } else {
            None
        },
        slot_of(encode_utf8("index"@), kind, objects, commit) == if kind is File {
            Some(ControlSlot::Index)
        } else {
            None
        },
{
    reveal(fixed_slot);
    reveal_strlit("HEAD");
    reveal_strlit("config");
    reveal_strlit("index");
    reveal_strlit("refs/heads/main");
    is_ascii_chars_encode_utf8("HEAD"@);
    is_ascii_chars_encode_utf8("config"@);
    is_ascii_chars_encode_utf8("index"@);
    is_ascii_chars_encode_utf8("refs/heads/main"@);
    assert(main_ref_text(commit) =~= hex_text(commit) + seq![0x0au8]);
}

/// The roles of what fills the places.
pub proof fn roles_of_the_places(byte: u8, number: u8, object: ObjectRecord)
    ensures
        ControlSlot::Head.role() == GitControlRole::Head,
        ControlSlot::Config.role() == GitControlRole::Config,
        ControlSlot::Index.role() == GitControlRole::Index,
        ControlSlot::MainRef.role() == GitControlRole::MainRef,
        ControlSlot::Scaffold(number).role() == GitControlRole::StructuralDirectory,
        ControlSlot::Hooks.role() == GitControlRole::EmptyHooks,
        ControlSlot::Fanout(byte).role() == GitControlRole::LooseObject,
        ControlSlot::Loose(object).role() == GitControlRole::LooseObject,
        ControlSlot::Loose(object).object() == Some(object),
        ControlSlot::Fanout(byte).object() is None && ControlSlot::Scaffold(number).object() is None && ControlSlot::Index.object() is None,
{
}

/// A loose object stands at `objects/`, two digits of its id, a slash, and the other digits.
pub proof fn loose_objects_stand_at_their_digits(oid: Seq<u8>)
    requires
        oid.len() == 20,
    ensures
        loose_path(oid).len() == 49,
        loose_path(oid).subrange(0, 8) == encode_utf8("objects/"@),
        loose_path(oid)[10] == 0x2f,
        loose_path(oid).subrange(8, 10) + loose_path(oid).subrange(11, 49) == hex_text(oid),
        hex_text(oid).len() == 40,
{
    reveal_strlit("objects/");
    is_ascii_chars_encode_utf8("objects/"@);
    let path = loose_path(oid);
    assert(path.subrange(0, 8) =~= encode_utf8("objects/"@));
    assert(path.subrange(8, 10) + path.subrange(11, 49) =~= hex_text(oid));
}

proof fn a_met_place_is_filled(
    records: Seq<AuditedPhysicalRecord>,
    objects: Seq<ObjectRecord>,
    commit: Seq<u8>,
    slot: ControlSlot,
) -> (i: int)
    requires
        met(records, objects, commit, slot, records.len() as int),
    ensures
        0 <= i < records.len(),
        slot_of(git_relative(encode_utf8(records[i].path@)), records[i].kind, objects, commit) == Some(slot),
        encode_utf8(records[i].path@) == encode_utf8(".git/"@) + git_relative(encode_utf8(records[i].path@)),
{
    let i = choose|i: int| 0 <= i < records.len() && in_slot(records, objects, commit, slot, i);
    reveal(record_slot);
    places_in_the_control_directory(encode_utf8(records[i].path@), Seq::empty());
    i
}

/// A file stands at a place of the control directory.
pub open spec fn file_stands(records: Seq<AuditedPhysicalRecord>, place: Seq<char>) -> bool {
    exists|i: int|
        0 <= i < records.len() && encode_utf8((#[trigger] records[i]).path@) == encode_utf8(".git/"@) + encode_utf8(place)
            && records[i].kind is File
}

/// A file with a body stands at a place of the control directory.
pub open spec fn body_stands(records: Seq<AuditedPhysicalRecord>, place: Seq<char>, body: Seq<u8>) -> bool {
    exists|i: int|
        0 <= i < records.len() && encode_utf8((#[trigger] records[i]).path@) == encode_utf8(".git/"@) + encode_utf8(place)
            && file_with_body(records[i].kind, body)
}

/// A control directory that was accepted has a head that names the branch main, that branch with the commit
/// in it, a configuration, an index, and the empty hooks directory.
pub proof fn accepted_control_directories<V: ControlVisitor>(
    records: Seq<AuditedPhysicalRecord>,
    objects: Seq<ObjectRecord>,
    commit: Seq<u8>,
    visitor: V,
)
    requires
        scan_error(records, objects, commit, visitor) is None,
    ensures
        objects.len() <= 1_000_000,
        body_stands(records, "HEAD"@, encode_utf8("ref: refs/heads/main\n"@)),
        body_stands(records, "refs/heads/main"@, hex_text(commit) + seq![0x0au8]),
        file_stands(records, "config"@),
        file_stands(records, "index"@),
        exists|i: int|
            0 <= i < records.len() && encode_utf8((#[trigger] records[i]).path@) == encode_utf8(".git/"@) + encode_utf8(
                "inex-empty-hooks"@,
            ) && records[i].kind is Directory,
        exists|i: int| 0 <= i < records.len() && (#[trigger] records[i]).path@ == ".git"@ && records[i].kind is Directory,
{
    let head = a_met_place_is_filled(records, objects, commit, ControlSlot::Head);
    places_are_filled(git_relative(encode_utf8(records[head].path@)), records[head].kind, objects, commit);
    let branch = a_met_place_is_filled(records, objects, commit, ControlSlot::MainRef);
    places_are_filled(git_relative(encode_utf8(records[branch].path@)), records[branch].kind, objects, commit);
    let config = a_met_place_is_filled(records, objects, commit, ControlSlot::Config);
    places_are_filled(git_relative(encode_utf8(records[config].path@)), records[config].kind, objects, commit);
    let index = a_met_place_is_filled(records, objects, commit, ControlSlot::Index);
    places_are_filled(git_relative(encode_utf8(records[index].path@)), records[index].kind, objects, commit);
    let hooks = a_met_place_is_filled(records, objects, commit, ControlSlot::Hooks);
    places_are_filled(git_relative(encode_utf8(records[hooks].path@)), records[hooks].kind, objects, commit);
    assert(encode_utf8(records[head].path@) == encode_utf8(".git/"@) + encode_utf8("HEAD"@));
    assert(encode_utf8(records[branch].path@) == encode_utf8(".git/"@) + encode_utf8("refs/heads/main"@));
    assert(encode_utf8(records[config].path@) == encode_utf8(".git/"@) + encode_utf8("config"@));
    assert(encode_utf8(records[index].path@) == encode_utf8(".git/"@) + encode_utf8("index"@));
    assert(encode_utf8(records[hooks].path@) == encode_utf8(".git/"@) + encode_utf8("inex-empty-hooks"@));
}

/// Expected objects pass exactly where each is right and their ids ascend.
pub proof fn expected_objects(objects: Seq<ObjectRecord>, from: int)
    requires
        0 <= from,
    ensures
        object_set_error(objects, from) is None <==> {
            &&& forall|i: int|
                from <= i < objects.len() ==> object_record_error(#[trigger] objects[i], MAX_RAW_OBJECT_BYTES) is None
            &&& forall|i: int, j: int|
                0 <= i && from <= j && j == i + 1 && j < objects.len() ==> lex_less(
                    (#[trigger] objects[i]).oid@,
                    (#[trigger] objects[j]).oid@,
                )
        },
    decreases objects.len() - from,
{
    if from < objects.len() {
        expected_objects(objects, from + 1);
        if from > 0 {
            assert(objects[from - 1].oid@ == objects[from - 1].oid@);
        }
    }
}

/// The branch file is forty digits in small letters, not all zero, and a newline.
pub proof fn branch_files(body: Seq<u8>)
    ensures
        main_ref_shape(body) <==> {
            &&& body.len() == 41
            &&& body[40] == 0x0a
            &&& forall|i: int| 0 <= i < 40 ==> 0x30 <= #[trigger] body[i] <= 0x39 || 0x61 <= body[i] <= 0x66
            &&& !zero_oid(hex_bytes(body.subrange(0, 40)))
        },
{
    if body.len() == 41 {
        let digits = body.subrange(0, 40);
        if all_lower_hex(digits) {
            assert forall|i: int| 0 <= i < 40 implies 0x30 <= #[trigger] body[i] <= 0x39 || 0x61 <= body[i] <= 0x66 by {
                assert(lower_hex_byte(digits[i]));
            }
        }
        if forall|i: int| 0 <= i < 40 ==> 0x30 <= #[trigger] body[i] <= 0x39 || 0x61 <= body[i] <= 0x66 {
            assert forall|i: int| 0 <= i < digits.len() implies lower_hex_byte(#[trigger] digits[i]) by {
                assert(digits[i] == body[i]);
            }
        }
    }
}

/// Where the three control files are, and how long they may be: the index 68 MiB, the configuration 1 MiB,
/// and the branch 41 bytes.
pub proof fn control_files_are_bounded()
    ensures
        TARGET_INDEX_PATH@ == ".git/index"@,
        TARGET_CONFIG_PATH@ == ".git/config"@,
        TARGET_MAIN_REF_PATH@ == ".git/refs/heads/main"@,
        MAX_TARGET_INDEX_BYTES == 68 * 1024 * 1024,
        MAX_TARGET_CONFIG_BYTES == 1024 * 1024,
        TARGET_MAIN_REF_BYTES == 41,
{
}

/// A file is held where it is the one that was recorded, has its length, and has no other stream; a directory
/// where it is the one that was recorded and has no other stream.
pub proof fn held_files(
    file: HeldFileObservation,
    identity: FilesystemFileIdentity,
    size: u64,
    directory: HeldDirectoryObservation,
    recorded: FilesystemDirectoryIdentity,
)
    ensures
        file_holds(file, identity, size) <==> {
            &&& file.streams_clean
            &&& file.identity is Some && file.identity->Some_0.scheme == identity.scheme && file.identity->Some_0.wire@ == identity.wire@
            &&& file.length == Some(size)
        },
        directory_holds(directory, recorded) <==> directory.streams_clean && directory.identity.scheme == recorded.scheme
            && directory.identity.wire@ == recorded.wire@,
{
}

/// A body was read as recorded exactly where the file was held before and after, the body has the recorded
/// length and digest, and nothing stood behind it.
pub proof fn bodies_are_read_as_recorded(reading: HeldBodyReading, identity: FilesystemFileIdentity, size: u64, sha256: Seq<u8>)
    ensures
        reading_holds(reading, identity, size, sha256) <==> {
            &&& file_holds(reading.before, identity, size)
            &&& file_holds(reading.after, identity, size)
            &&& reading.body@.len() == size
            &&& sha256_of(reading.body@) == sha256
            &&& !reading.more
        },
{
}

/// A file of the manifest is captured exactly where the root is held, the record is of a file with a path,
/// the file is not too large, each directory on the way to it is the recorded one, and its body is read as
/// recorded. A file that is too large is told as a limit.
pub proof fn files_are_captured(physical: MarkerFreePhysicalManifest, id: PhysicalRecordId, maximum: u64, seen: HeldSnapshotReading)
    requires
        id.0 < physical.records@.len(),
    ensures
        capture_error(physical, id, maximum, seen) is None <==> {
            let record = physical.records@[id.0 as int];
            &&& directory_holds(seen.root, physical.root_identity)
            &&& encode_utf8(record.path@).len() > 0
            &&& record.kind matches AuditedPhysicalKind::File { identity, size, sha256 } && size <= maximum && reading_holds(
                seen.reading,
                identity,
                size,
                sha256@,
            )
            &&& exists|ancestors: Seq<PhysicalRecordId>| #[trigger]
                walk_binds(physical.records@, encode_utf8(record.path@), seen.children@, ancestors, 0, 0)
        },
        directory_holds(seen.root, physical.root_identity) && encode_utf8(physical.records@[id.0 as int].path@).len() > 0 ==> (
        physical.records@[id.0 as int].kind matches AuditedPhysicalKind::File { size, .. } && size > maximum ==> capture_error(
            physical,
            id,
            maximum,
            seen,
        ) == Some(CandidateSealError::ResourceLimit)),
{
}

/// A control file that the manifest does not list is not captured.
pub proof fn unlisted_files_are_not_captured(
    physical: MarkerFreePhysicalManifest,
    path: Seq<char>,
    maximum: u64,
    seen: HeldSnapshotReading,
)
    requires
        forall|i: int| 0 <= i < physical.records@.len() ==> (#[trigger] physical.records@[i]).path@ != path,
    ensures
        control_capture_error(physical, path, maximum, seen) == Some(CandidateSealError::InvalidRecord),
{
    if exists|i: int| file_at(physical.records@, path, i) {
        let i = choose|i: int| file_at(physical.records@, path, i);
        assert(physical.records@[i].path@ == path);
    }
}

/// What was captured still holds only where the file is held as recorded, every directory above it is, and
/// the root is.
pub proof fn captured_files_still_hold(physical: MarkerFreePhysicalManifest, state: HeldSnapshotState, seen: HeldSnapshotRecheck)
    requires
        snapshot_holds(physical, state, seen),
    ensures
        state.physical.0 < physical.records@.len(),
        physical.records@[state.physical.0 as int].kind matches AuditedPhysicalKind::File { identity, size, .. } && file_holds(
            seen.file,
            identity,
            size,
        ),
        directory_holds(seen.root, physical.root_identity),
        seen.ancestors@.len() == state.ancestors@.len(),
        forall|i: int|
            0 <= i < state.ancestors@.len() ==> (physical.records@[(#[trigger] state.ancestors@[i]).0 as int].kind matches AuditedPhysicalKind::Directory(
                identity,
            ) && directory_holds(seen.ancestors@[i], identity)),
{
    assert forall|i: int| 0 <= i < state.ancestors@.len() implies (physical.records@[(#[trigger] state.ancestors@[i]).0 as int].kind matches AuditedPhysicalKind::Directory(
        identity,
    ) && directory_holds(seen.ancestors@[i], identity)) by {
        assert(crate::control_snapshot::ancestor_holds(physical.records@, state.ancestors@[i], seen.ancestors@[i]));
    }
}

/// The branch is believed exactly where its body has the right shape and what was captured still holds.
pub proof fn branches_are_believed(
    physical: MarkerFreePhysicalManifest,
    seen: HeldSnapshotReading,
    state: HeldSnapshotState,
    recheck: HeldSnapshotRecheck,
)
    ensures
        main_ref_error(physical, seen, state, recheck) is None <==> snapshot_holds(physical, state, recheck) && main_ref_shape(
            seen.reading.body@,
        ),
        main_ref_error(physical, seen, state, recheck) is Some ==> main_ref_error(physical, seen, state, recheck) == Some(
            CandidateSealError::InvalidRecord,
        ),
{
}

/// The lock of a candidate is taken and its evidence is gathered exactly where everything up to then is
/// right: the root and the manifest are there and the root is that of the target and is held, without another
/// stream before and under the lock; the lock is held; the tree is exactly as before; and Git, the files and
/// the trees are there.
pub proof fn locks_are_taken<'physical, H, L, K>(target: TargetRepository, seen: InitialSighting<'physical, H, L, K>)
    ensures
        lock_error(target, seen) is None <==> {
            &&& seen.root is Ok
            &&& seen.physical is Ok
            &&& target.root_identity.scheme == seen.physical->Ok_0.root_identity.scheme
            &&& target.root_identity.wire@ == seen.physical->Ok_0.root_identity.wire@
            &&& seen.held_root is Some
            &&& seen.held_root->Some_0.identity.scheme == seen.physical->Ok_0.root_identity.scheme
            &&& seen.held_root->Some_0.identity.wire@ == seen.physical->Ok_0.root_identity.wire@
            &&& seen.sole_stream_before
            &&& seen.sole_stream_under_lock
            &&& seen.lock is Ok
            &&& seen.lock_current is Ok
            &&& seen.exact_under_lock is Ok
            &&& seen.git_found
            &&& seen.runner is Ok
            &&& seen.files is Ok
            &&& seen.trees is Ok
        },
        (seen.root matches Err(error) ==> lock_error(target, seen) == Some(InitialCandidateAuthorityError::<K>::Repository(error))),
        seen.root is Ok ==> (seen.physical matches Err(error) ==> lock_error(target, seen) == Some(
            InitialCandidateAuthorityError::<K>::Repository(error),
        )),
{
}

/// The commit of a target is taken exactly where it was read as a root commit and has the id that the target
/// gives.
pub proof fn commits_are_taken<K>(target: TargetRepository, commit: Result<FreshRootCommitEvidence, CandidateSealError>)
    ensures
        commit_error::<K>(target, commit) is None <==> {
            &&& commit is Ok
            &&& sha1_text(encode_utf8(target.root_commit_oid@))
            &&& hex_bytes(encode_utf8(target.root_commit_oid@)) == commit->Ok_0.commit_oid@
        },
{
}

/// The authority is granted exactly where the evidence was collected, the vault and its profile agree, the
/// objects were proved, the content was sealed, and at the end the root has no other stream, the lock is
/// current, and the tree is exactly as before.
pub proof fn authorities_are_granted<K>(
    files: FreshTrackedManifest<'_>,
    trees: FreshTreeManifest<'_>,
    closing: InitialClosing<K>,
    git: Result<FreshGitManifest<'_>, CandidateSealError>,
    seal: Result<CandidateContentSeal, CandidateSealError>,
)
    ensures
        evidence_error(files, trees, closing, git, seal) is None <==> {
            &&& git is Ok
            &&& closing.vault is Ok
            &&& closing.profile is Ok
            &&& runtime_proof_error(true, git->Ok_0, files, trees, closing.transcript) is None
            &&& seal is Ok
            &&& closing.sole_stream_at_end
            &&& closing.lock_current_at_end is Ok
            &&& closing.exact_at_end is Ok
        },
{
}

/// The authority that is granted is over what was seen: its root, its manifest, its commit, its seal, and its
/// lock.
pub proof fn granted_is_what_was_seen<'physical, H, L, K>(
    authority: InitialCandidateAuthority<'physical, H, L>,
    context: CandidateSealContext,
    seen: InitialSighting<'physical, H, L, K>,
    commit: FreshRootCommitEvidence,
    seal: CandidateContentSeal,
)
    requires
        granted(authority, context, seen, commit, seal),
    ensures
        authority.root == seen.root->Ok_0,
        authority.physical == seen.physical->Ok_0,
        authority.held_root == seen.held_root->Some_0.handle,
        authority.context == context,
        authority.root_commit == commit,
        authority.content_seal == seal,
        authority.mutation_lock == seen.lock->Ok_0,
{
}

} // verus!
