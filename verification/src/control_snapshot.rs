//! Held snapshots of target control files.
//!
//! A snapshot binds a bounded body to one exact record of the physical manifest, and to one file
//! that was opened component by component below an already held target root. Opening and
//! reading happen elsewhere; what was seen there is judged here.

use crate::bytes::{bytes_equal, find_byte, next_index};
use crate::digest::sha256_of;
use crate::errors::CandidateSealError;
use crate::git_object::{raw_sha256, NEWLINE};
use crate::hex::{decode_lower_hex_oid, hex_bytes, oid_text};
use crate::identity::{FilesystemDirectoryIdentity, FilesystemFileIdentity};
use crate::manifest::{
    is_one_manifest, paths_ascend, AuditedPhysicalKind, AuditedPhysicalRecord, MarkerFreePhysicalManifest,
    PhysicalRecordId,
};
use crate::portable_path::SLASH;
use crate::seal_records::GitControlRole;
use crate::text::text_before;
use crate::wiped::WipedBytes;
use vstd::prelude::*;
use vstd::slice::slice_subrange;
use vstd::string::*;
use vstd::utf8::encode_utf8;

verus! {

pub const TARGET_INDEX_PATH: &'static str = ".git/index";

pub const TARGET_CONFIG_PATH: &'static str = ".git/config";

pub const TARGET_MAIN_REF_PATH: &'static str = ".git/refs/heads/main";

pub const MAX_TARGET_INDEX_BYTES: u64 = 71_303_168;

pub const MAX_TARGET_CONFIG_BYTES: u64 = 1_048_576;

pub const TARGET_MAIN_REF_BYTES: u64 = 41;

/// The body of a branch: forty digits that do not spell the zero id, and a newline.
pub open spec fn main_ref_shape(body: Seq<u8>) -> bool {
    body.len() == 41 && body[40] == NEWLINE && oid_text(body.subrange(0, 40))
}

/// Read the commit of a branch.
pub fn parse_fresh_target_main_ref(body: &[u8]) -> (r: Result<[u8; 20], CandidateSealError>)
    ensures
        r is Ok <==> main_ref_shape(body@),
        r matches Ok(oid) ==> oid@ == hex_bytes(body@.subrange(0, 40)),
        r matches Err(error) ==> error == CandidateSealError::InvalidRecord,
{
    if body.len() != 41 || body[40] != NEWLINE {
        return Err(CandidateSealError::InvalidRecord);
    }
    decode_lower_hex_oid(slice_subrange(body, 0, 40))
}

/// The body of a branch is read back as the commit that it was written for.
pub proof fn main_ref_round_trip(oid: Seq<u8>)
    requires
        oid.len() == 20,
        !crate::hex::zero_oid(oid),
    ensures
        main_ref_shape(crate::git_control::main_ref_text(oid)),
        hex_bytes(crate::git_control::main_ref_text(oid).subrange(0, 40)) == oid,
{
    crate::hex::hex_round_trip(oid);
    assert(crate::git_control::main_ref_text(oid).subrange(0, 40) =~= crate::hex::hex_text(oid));
}

/// Record `i` is a file at a path.
pub open spec fn file_at(records: Seq<AuditedPhysicalRecord>, path: Seq<char>, i: int) -> bool {
    0 <= i < records.len() && records[i].path@ == path && records[i].kind is File
}

/// Record `i` is a directory at a path given as bytes.
pub open spec fn directory_at(
    records: Seq<AuditedPhysicalRecord>,
    path: Seq<u8>,
    identity: FilesystemDirectoryIdentity,
    i: int,
) -> bool {
    0 <= i < records.len() && encode_utf8(records[i].path@) == path
        && (records[i].kind matches AuditedPhysicalKind::Directory(listed) && listed.same(identity))
}

/// The id of the file at a path.
pub fn exact_file_id(physical: &MarkerFreePhysicalManifest, required_path: &str) -> (r: Result<
    PhysicalRecordId,
    CandidateSealError,
>)
    requires
        physical.wf(),
    ensures
        r is Ok <==> exists|i: int| file_at(physical.records@, required_path@, i),
        r matches Ok(id) ==> file_at(physical.records@, required_path@, id.0 as int),
        r matches Err(error) ==> error == CandidateSealError::InvalidRecord,
{
    let ghost records = physical.records@;
    match physical.find(required_path) {
        None => Err(CandidateSealError::InvalidRecord),
        Some(record) => {
            proof {
                assert forall|i: int| file_at(records, required_path@, i) implies i == record.id.0 by {
                    crate::bytes::lex_less_irreflexive(encode_utf8(required_path@));
                    if i < record.id.0 {
                        assert(crate::bytes::lex_less(
                            encode_utf8(records[i].path@),
                            encode_utf8(records[record.id.0 as int].path@),
                        ));
                    } else if record.id.0 < i {
                        assert(crate::bytes::lex_less(
                            encode_utf8(records[record.id.0 as int].path@),
                            encode_utf8(records[i].path@),
                        ));
                    }
                }
            }
            match record.kind {
                AuditedPhysicalKind::File { .. } => {
                    assert(file_at(records, required_path@, record.id.0 as int));
                    Ok(record.id)
                },
                AuditedPhysicalKind::Directory(_) => Err(CandidateSealError::InvalidRecord),
            }
        },
    }
}

/// What was seen of a held directory.
#[derive(Clone, Copy)]
pub struct HeldDirectoryObservation {
    pub identity: FilesystemDirectoryIdentity,
    /// It has no alternate data streams.
    pub streams_clean: bool,
}

/// What was seen of a held file. What could not be read is missing.
#[derive(Clone, Copy)]
pub struct HeldFileObservation {
    pub identity: Option<FilesystemFileIdentity>,
    pub length: Option<u64>,
    /// It has no alternate data streams.
    pub streams_clean: bool,
}

/// What opening one component of a path gave.
#[derive(Clone, Copy)]
pub enum HeldChild {
    /// It could not be opened, or is neither a directory nor a regular file.
    Refused,
    File,
    Directory(HeldDirectoryObservation),
}

/// What one component of a path is bound to.
#[derive(Clone, Copy)]
pub enum BoundComponent {
    /// A directory on the way, with its record.
    Ancestor(PhysicalRecordId),
    /// The file at the end.
    File,
}

/// What a component is bound to, if it is bound: the last one to a file, every other one to the
/// directory that the manifest lists there, as the one that was opened.
pub open spec fn component_binds(
    records: Seq<AuditedPhysicalRecord>,
    path: Seq<u8>,
    start: int,
    child: HeldChild,
    bound: BoundComponent,
) -> bool {
    let end = next_index(path, SLASH, start);
    &&& start < end
    &&& if end == path.len() {
        child is File && bound is File
    } else {
        child matches HeldChild::Directory(seen) && bound matches BoundComponent::Ancestor(id) && seen.streams_clean
            && directory_at(records, path.subrange(0, end), seen.identity, id.0 as int)
    }
}

/// Bind the component that begins at `start` to what opening it gave.
pub fn bind_component(physical: &MarkerFreePhysicalManifest, path: &str, start: usize, child: HeldChild) -> (r: Result<
    BoundComponent,
    CandidateSealError,
>)
    requires
        physical.wf(),
        start <= path.spec_bytes().len(),
    ensures
        r is Ok <==> exists|bound: BoundComponent|
            component_binds(physical.records@, path.spec_bytes(), start as int, child, bound),
        r matches Ok(bound) ==> component_binds(physical.records@, path.spec_bytes(), start as int, child, bound),
        r matches Err(error) ==> error == CandidateSealError::InvalidRecord,
{
    let ghost records = physical.records@;
    let bytes = path.as_bytes();
    let end = find_byte(bytes, SLASH, start);
    if end == start {
        return Err(CandidateSealError::InvalidRecord);
    }
    if end == bytes.len() {
        return match child {
            HeldChild::File => {
                assert(component_binds(records, path.spec_bytes(), start as int, child, BoundComponent::File));
                Ok(BoundComponent::File)
            },
            _ => Err(CandidateSealError::InvalidRecord),
        };
    }
    let seen = match child {
        HeldChild::Directory(seen) => seen,
        _ => {
            return Err(CandidateSealError::InvalidRecord);
        },
    };
    let prefix = text_before(path, end);
    proof {
        assert forall|i: int| 0 <= i < records.len() implies (encode_utf8((#[trigger] records[i]).path@)
            == prefix.spec_bytes()) == (records[i].path@ == prefix@) by {
            crate::text::encoding_is_injective(records[i].path@, prefix@);
        }
    }
    match physical.find(prefix) {
        None => {
            assert forall|bound: BoundComponent| !component_binds(
                records,
                path.spec_bytes(),
                start as int,
                child,
                bound,
            ) by {
                if let BoundComponent::Ancestor(id) = bound {
                    if directory_at(records, prefix.spec_bytes(), seen.identity, id.0 as int) {
                        assert(records[id.0 as int].path@ == prefix@);
                    }
                }
            }
            Err(CandidateSealError::InvalidRecord)
        },
        Some(listed) => {
            let ghost at = listed.id.0 as int;
            proof {
                assert forall|bound: BoundComponent| #[trigger]
                    component_binds(records, path.spec_bytes(), start as int, child, bound) implies bound
                    == BoundComponent::Ancestor(listed.id) by {
                    let id = bound->Ancestor_0;
                    crate::bytes::lex_less_irreflexive(prefix.spec_bytes());
                    if (id.0 as int) < at {
                        assert(crate::bytes::lex_less(
                            encode_utf8(records[id.0 as int].path@),
                            encode_utf8(records[at].path@),
                        ));
                    } else if at < id.0 as int {
                        assert(crate::bytes::lex_less(
                            encode_utf8(records[at].path@),
                            encode_utf8(records[id.0 as int].path@),
                        ));
                    }
                }
            }
            let same = match listed.kind {
                AuditedPhysicalKind::Directory(identity) => identity.matches(&seen.identity),
                AuditedPhysicalKind::File { .. } => false,
            };
            if !same || !seen.streams_clean {
                return Err(CandidateSealError::InvalidRecord);
            }
            let bound = BoundComponent::Ancestor(listed.id);
            assert(component_binds(records, path.spec_bytes(), start as int, child, bound));
            Ok(bound)
        },
    }
}

/// The components from `start` on are bound to the children from `k` on, one each: those on the
/// way to the ancestors from `k` on, and the last one to a file.
pub open spec fn walk_binds(
    records: Seq<AuditedPhysicalRecord>,
    path: Seq<u8>,
    children: Seq<HeldChild>,
    ancestors: Seq<PhysicalRecordId>,
    start: int,
    k: int,
) -> bool
    decreases children.len() - k,
{
    let end = next_index(path, SLASH, start);
    &&& 0 <= k < children.len()
    &&& if end == path.len() {
        children.len() == k + 1 && ancestors.len() == k && component_binds(
            records,
            path,
            start,
            children[k],
            BoundComponent::File,
        )
    } else {
        k < ancestors.len() && component_binds(
            records,
            path,
            start,
            children[k],
            BoundComponent::Ancestor(ancestors[k]),
        ) && walk_binds(records, path, children, ancestors, end + 1, k + 1)
    }
}

/// A list of ancestors begins with those found so far.
pub open spec fn begins_with(ancestors: Seq<PhysicalRecordId>, found: Seq<PhysicalRecordId>) -> bool {
    ancestors.len() >= found.len() && ancestors.subrange(0, found.len() as int) == found
}

/// A directory on the way is bound to one record.
proof fn binding_is_unique(
    records: Seq<AuditedPhysicalRecord>,
    path: Seq<u8>,
    start: int,
    child: HeldChild,
    a: BoundComponent,
    b: BoundComponent,
)
    requires
        paths_ascend(records),
        component_binds(records, path, start, child, a),
        component_binds(records, path, start, child, b),
    ensures
        a == b,
{
    if let BoundComponent::Ancestor(first) = a {
        if let BoundComponent::Ancestor(second) = b {
            let i = first.0 as int;
            let j = second.0 as int;
            crate::bytes::lex_less_irreflexive(encode_utf8(records[i].path@));
            if i < j {
                assert(crate::bytes::lex_less(encode_utf8(records[i].path@), encode_utf8(records[j].path@)));
            } else if j < i {
                assert(crate::bytes::lex_less(encode_utf8(records[j].path@), encode_utf8(records[i].path@)));
            }
        }
    }
}

/// Bind the components of a path to what opening them one after another gave. The ids are those
/// of the directories on the way.
pub fn open_bound_physical_file(physical: &MarkerFreePhysicalManifest, path: &str, children: &Vec<HeldChild>) -> (r: Result<
    Vec<PhysicalRecordId>,
    CandidateSealError,
>)
    requires
        physical.wf(),
    ensures
        r is Ok <==> exists|ancestors: Seq<PhysicalRecordId>| #[trigger]
            walk_binds(physical.records@, path.spec_bytes(), children@, ancestors, 0, 0),
        r matches Ok(ancestors) ==> walk_binds(physical.records@, path.spec_bytes(), children@, ancestors@, 0, 0),
        r matches Err(error) ==> error == CandidateSealError::InvalidRecord,
{
    let ghost records = physical.records@;
    let ghost bytes = path.spec_bytes();
    let mut ancestors: Vec<PhysicalRecordId> = Vec::new();
    let mut start: usize = 0;
    let mut k: usize = 0;
    assert forall|all: Seq<PhysicalRecordId>| #[trigger] begins_with(all, ancestors@) by {
        assert(all.subrange(0, 0) =~= ancestors@);
    }
    loop
        invariant
            physical.wf(),
            records == physical.records@,
            bytes == path.spec_bytes(),
            start <= bytes.len(),
            k <= children@.len(),
            ancestors@.len() == k,
            forall|all: Seq<PhysicalRecordId>|
                walk_binds(records, bytes, children@, all, 0, 0) ==> #[trigger] begins_with(all, ancestors@),
            forall|all: Seq<PhysicalRecordId>| #[trigger]
                begins_with(all, ancestors@) ==> walk_binds(records, bytes, children@, all, 0, 0) == walk_binds(
                    records,
                    bytes,
                    children@,
                    all,
                    start as int,
                    k as int,
                ),
        decreases children@.len() - k,
    {
        if k >= children.len() {
            assert forall|all: Seq<PhysicalRecordId>| !(#[trigger] walk_binds(records, bytes, children@, all, 0, 0)) by {
                if walk_binds(records, bytes, children@, all, 0, 0) {
                    assert(begins_with(all, ancestors@));
                }
            }
            return Err(CandidateSealError::InvalidRecord);
        }
        let child = children[k];
        let ghost found = ancestors@;
        match bind_component(physical, path, start, child) {
            Err(error) => {
                assert forall|all: Seq<PhysicalRecordId>| !(#[trigger] walk_binds(records, bytes, children@, all, 0, 0)) by {
                    if walk_binds(records, bytes, children@, all, 0, 0) {
                        assert(begins_with(all, found));
                    }
                }
                return Err(error);
            },
            Ok(BoundComponent::File) => {
                if k + 1 != children.len() {
                    assert forall|all: Seq<PhysicalRecordId>| !(#[trigger] walk_binds(records, bytes, children@, all, 0, 0)) by {
                        if walk_binds(records, bytes, children@, all, 0, 0) {
                            assert(begins_with(all, found));
                        }
                    }
                    return Err(CandidateSealError::InvalidRecord);
                }
                proof {
                    assert(found.subrange(0, found.len() as int) =~= found);
                    assert(begins_with(found, found));
                }
                return Ok(ancestors);
            },
            Ok(BoundComponent::Ancestor(id)) => {
                let end = find_byte(path.as_bytes(), SLASH, start);
                ancestors.push(id);
                proof {
                    let now = ancestors@;
                    let bound = BoundComponent::Ancestor(id);
                    assert forall|all: Seq<PhysicalRecordId>| walk_binds(records, bytes, children@, all, 0, 0) implies #[trigger] begins_with(
                        all,
                        now,
                    ) by {
                        assert(begins_with(all, found));
                        binding_is_unique(records, bytes, start as int, child, bound, BoundComponent::Ancestor(all[k as int]));
                        assert(all.subrange(0, k + 1) =~= now);
                    }
                    assert forall|all: Seq<PhysicalRecordId>| #[trigger] begins_with(all, now) implies walk_binds(
                        records,
                        bytes,
                        children@,
                        all,
                        0,
                        0,
                    ) == walk_binds(records, bytes, children@, all, end + 1, k + 1) by {
                        assert(all.subrange(0, k as int) =~= found) by {
                            assert(all.subrange(0, k + 1) == now);
                            assert forall|i: int| 0 <= i < k implies all[i] == found[i] by {
                                assert(all.subrange(0, k + 1)[i] == now[i]);
                            }
                        }
                        assert(begins_with(all, found));
                        assert(all[k as int] == id) by {
                            assert(all.subrange(0, k + 1)[k as int] == now[k as int]);
                        }
                    }
                }
                start = end + 1;
                k = k + 1;
            },
        }
    }
}

/// A held file is the listed one, of the listed size, without alternate data streams.
pub open spec fn file_holds(seen: HeldFileObservation, identity: FilesystemFileIdentity, size: u64) -> bool {
    &&& seen.streams_clean
    &&& seen.identity matches Some(observed) && observed.same(identity)
    &&& seen.length == Some(size)
}

fn file_is_held(seen: &HeldFileObservation, identity: &FilesystemFileIdentity, size: u64) -> (r: bool)
    ensures
        r == file_holds(*seen, *identity, size),
{
    let same = match seen.identity {
        Some(observed) => observed.matches(identity),
        None => false,
    };
    let sized = match seen.length {
        Some(length) => length == size,
        None => false,
    };
    seen.streams_clean && same && sized
}

/// A held directory is the listed one, without alternate data streams.
pub open spec fn directory_holds(seen: HeldDirectoryObservation, identity: FilesystemDirectoryIdentity) -> bool {
    seen.streams_clean && seen.identity.same(identity)
}

/// What was seen while one body was read.
pub struct HeldBodyReading {
    pub before: HeldFileObservation,
    /// The bytes that came, at most as many as the listed size.
    pub body: WipedBytes,
    /// Another byte came, or the attempt to read one failed.
    pub more: bool,
    pub after: HeldFileObservation,
}

/// A reading gave exactly the listed body of the listed file.
pub open spec fn reading_holds(
    reading: HeldBodyReading,
    identity: FilesystemFileIdentity,
    size: u64,
    sha256: Seq<u8>,
) -> bool {
    &&& file_holds(reading.before, identity, size)
    &&& reading.body@.len() == size
    &&& !reading.more
    &&& sha256_of(reading.body@) == sha256
    &&& file_holds(reading.after, identity, size)
}

/// Require a reading to have given exactly the listed body of the listed file.
pub fn read_exact_held_body(
    reading: &HeldBodyReading,
    expected_identity: &FilesystemFileIdentity,
    expected_size: u64,
    expected_sha256: &[u8; 32],
) -> (r: Result<(), CandidateSealError>)
    ensures
        r == if reading_holds(*reading, *expected_identity, expected_size, expected_sha256@) {
            Ok::<(), CandidateSealError>(())
        } else {
            Err(CandidateSealError::InvalidRecord)
        },
{
    if !file_is_held(&reading.before, expected_identity, expected_size) {
        return Err(CandidateSealError::InvalidRecord);
    }
    if reading.body.len() as u64 != expected_size || reading.more {
        return Err(CandidateSealError::InvalidRecord);
    }
    let observed = raw_sha256(reading.body.as_slice());
    if !bytes_equal(observed.as_slice(), expected_sha256.as_slice()) || !file_is_held(
        &reading.after,
        expected_identity,
        expected_size,
    ) {
        return Err(CandidateSealError::InvalidRecord);
    }
    Ok(())
}

/// Everything that was seen while one snapshot was taken.
pub struct HeldSnapshotReading {
    pub root: HeldDirectoryObservation,
    pub children: Vec<HeldChild>,
    pub reading: HeldBodyReading,
}

/// One exact held file body with the record that it is bound to and those of its ancestors.
pub struct HeldSnapshotState {
    pub physical: PhysicalRecordId,
    pub ancestors: Vec<PhysicalRecordId>,
}

/// Why no snapshot of a record is taken, if none is.
pub open spec fn capture_error(
    physical: MarkerFreePhysicalManifest,
    id: PhysicalRecordId,
    maximum: u64,
    seen: HeldSnapshotReading,
) -> Option<CandidateSealError> {
    let records = physical.records@;
    let record = records[id.0 as int];
    if !directory_holds(seen.root, physical.root_identity) || id.0 >= records.len() || !(record.kind is File)
        || encode_utf8(record.path@).len() == 0 {
        Some(CandidateSealError::InvalidRecord)
    } else if record.kind->size > maximum {
        Some(CandidateSealError::ResourceLimit)
    } else if !(exists|ancestors: Seq<PhysicalRecordId>| #[trigger]
        walk_binds(records, encode_utf8(record.path@), seen.children@, ancestors, 0, 0)) || !reading_holds(
        seen.reading,
        record.kind->File_identity,
        record.kind->size,
        record.kind->sha256@,
    ) {
        Some(CandidateSealError::InvalidRecord)
    } else {
        None
    }
}

/// Judge what was seen while a snapshot of a record was taken.
pub fn capture_held_physical_snapshot(
    physical: &MarkerFreePhysicalManifest,
    physical_id: PhysicalRecordId,
    maximum_bytes: u64,
    seen: &HeldSnapshotReading,
) -> (r: Result<HeldSnapshotState, CandidateSealError>)
    requires
        physical.wf(),
    ensures
        match capture_error(*physical, physical_id, maximum_bytes, *seen) {
            Some(error) => r matches Err(e) && e == error,
            None => r matches Ok(state) && state.physical == physical_id && walk_binds(
                physical.records@,
                encode_utf8(physical.records@[physical_id.0 as int].path@),
                seen.children@,
                state.ancestors@,
                0,
                0,
            ),
        },
{
    if !seen.root.identity.matches(&physical.root_identity) || !seen.root.streams_clean {
        return Err(CandidateSealError::InvalidRecord);
    }
    let record = match physical.record(physical_id) {
        Some(record) => record,
        None => {
            return Err(CandidateSealError::InvalidRecord);
        },
    };
    match record.kind {
        AuditedPhysicalKind::Directory(_) => Err(CandidateSealError::InvalidRecord),
        AuditedPhysicalKind::File { identity, size, sha256 } => {
            if record.path.as_bytes().len() == 0 {
                return Err(CandidateSealError::InvalidRecord);
            }
            if size > maximum_bytes {
                return Err(CandidateSealError::ResourceLimit);
            }
            let ancestors = open_bound_physical_file(physical, record.path, &seen.children)?;
            read_exact_held_body(&seen.reading, &identity, size, &sha256)?;
            Ok(HeldSnapshotState { physical: physical_id, ancestors })
        },
    }
}

/// What was seen of a snapshot's file, ancestors and root after its body was used.
pub struct HeldSnapshotRecheck {
    pub file: HeldFileObservation,
    /// The ancestors, in the order in which they were opened.
    pub ancestors: Vec<HeldDirectoryObservation>,
    pub root: HeldDirectoryObservation,
}

/// An ancestor is still the listed directory.
pub open spec fn ancestor_holds(
    records: Seq<AuditedPhysicalRecord>,
    id: PhysicalRecordId,
    seen: HeldDirectoryObservation,
) -> bool {
    id.0 < records.len() && (records[id.0 as int].kind matches AuditedPhysicalKind::Directory(identity) && directory_holds(
        seen,
        identity,
    ))
}

/// A snapshot still holds: its file, every ancestor and the root are what the manifest lists.
pub open spec fn snapshot_holds(
    physical: MarkerFreePhysicalManifest,
    state: HeldSnapshotState,
    seen: HeldSnapshotRecheck,
) -> bool {
    let records = physical.records@;
    &&& state.physical.0 < records.len()
    &&& records[state.physical.0 as int].kind matches AuditedPhysicalKind::File { identity, size, .. } && file_holds(
        seen.file,
        identity,
        size,
    )
    &&& seen.ancestors@.len() == state.ancestors@.len()
    &&& forall|i: int|
        0 <= i < state.ancestors@.len() ==> ancestor_holds(records, #[trigger] state.ancestors@[i], seen.ancestors@[i])
    &&& directory_holds(seen.root, physical.root_identity)
}

/// Require a snapshot to hold still: the file first, then the ancestors from the nearest on,
/// then the root.
pub fn revalidate_held_snapshot(
    physical: &MarkerFreePhysicalManifest,
    state: &HeldSnapshotState,
    seen: &HeldSnapshotRecheck,
) -> (r: Result<(), CandidateSealError>)
    ensures
        r == if snapshot_holds(*physical, *state, *seen) {
            Ok::<(), CandidateSealError>(())
        } else {
            Err(CandidateSealError::InvalidRecord)
        },
{
    let ghost records = physical.records@;
    let record = match physical.record(state.physical) {
        Some(record) => record,
        None => {
            return Err(CandidateSealError::InvalidRecord);
        },
    };
    match record.kind {
        AuditedPhysicalKind::Directory(_) => {
            return Err(CandidateSealError::InvalidRecord);
        },
        AuditedPhysicalKind::File { identity, size, .. } => {
            if !file_is_held(&seen.file, &identity, size) {
                return Err(CandidateSealError::InvalidRecord);
            }
        },
    }
    if seen.ancestors.len() != state.ancestors.len() {
        return Err(CandidateSealError::InvalidRecord);
    }
    let mut left: usize = state.ancestors.len();
    while left > 0
        invariant
            records == physical.records@,
            left <= state.ancestors@.len(),
            seen.ancestors@.len() == state.ancestors@.len(),
            forall|i: int|
                left <= i < state.ancestors@.len() ==> ancestor_holds(
                    records,
                    #[trigger] state.ancestors@[i],
                    seen.ancestors@[i],
                ),
        decreases left,
    {
        left = left - 1;
        let observed = seen.ancestors[left];
        let holds = match physical.record(state.ancestors[left]) {
            Some(listed) => match listed.kind {
                AuditedPhysicalKind::Directory(identity) => observed.identity.matches(&identity) && observed.streams_clean,
                AuditedPhysicalKind::File { .. } => false,
            },
            None => false,
        };
        if !holds {
            assert(!ancestor_holds(records, state.ancestors@[left as int], seen.ancestors@[left as int]));
            return Err(CandidateSealError::InvalidRecord);
        }
    }
    if !seen.root.identity.matches(&physical.root_identity) || !seen.root.streams_clean {
        return Err(CandidateSealError::InvalidRecord);
    }
    Ok(())
}

/// A value that was made from a snapshot's body, bound to the manifest of the snapshot.
pub struct BoundHeldSnapshotValue<'physical, T> {
    pub physical: &'physical MarkerFreePhysicalManifest,
    pub value: T,
}

impl<'physical, T> BoundHeldSnapshotValue<'physical, T> {
    /// Whether the value was made on a given manifest.
    pub fn is_bound_to(&self, physical: &MarkerFreePhysicalManifest) -> (r: bool)
        ensures
            r ==> *self.physical == *physical,
    {
        is_one_manifest(self.physical, physical)
    }

    /// The value, for its own manifest only.
    pub fn into_inner(self, physical: &MarkerFreePhysicalManifest) -> (r: Result<T, CandidateSealError>)
        ensures
            match r {
                Ok(value) => value == self.value && *self.physical == *physical,
                Err(error) => error == CandidateSealError::InvalidRecord,
            },
    {
        let bound = self.is_bound_to(physical);
        self.inner_when(bound)
    }

    /// The value, where it was made on the manifest that it is asked for.
    pub fn inner_when(self, bound: bool) -> (r: Result<T, CandidateSealError>)
        ensures
            r == if bound {
                Ok::<T, CandidateSealError>(self.value)
            } else {
                Err(CandidateSealError::InvalidRecord)
            },
    {
        if !bound {
            return Err(CandidateSealError::InvalidRecord);
        }
        Ok(self.value)
    }
}

/// Release what a consumer made from a snapshot's body, only after the snapshot was found to
/// hold still. A drift wins over the consumer's own failure.
pub fn release_held_value<'physical, T>(
    physical: &'physical MarkerFreePhysicalManifest,
    state: &HeldSnapshotState,
    seen: &HeldSnapshotRecheck,
    consumed: Result<T, CandidateSealError>,
) -> (r: Result<BoundHeldSnapshotValue<'physical, T>, CandidateSealError>)
    ensures
        r == if !snapshot_holds(*physical, *state, *seen) {
            Err::<BoundHeldSnapshotValue<T>, CandidateSealError>(CandidateSealError::InvalidRecord)
        } else {
            match consumed {
                Err(error) => Err(error),
                Ok(value) => Ok(BoundHeldSnapshotValue { physical, value }),
            }
        },
{
    revalidate_held_snapshot(physical, state, seen)?;
    match consumed {
        Ok(value) => Ok(BoundHeldSnapshotValue { physical, value }),
        Err(error) => Err(error),
    }
}

/// The body of a control file in its role, bound to the manifest of its snapshot.
pub struct HeldControlSnapshot<'physical, 'bytes> {
    pub physical_manifest: &'physical MarkerFreePhysicalManifest,
    pub physical: PhysicalRecordId,
    pub role: GitControlRole,
    pub bytes: &'bytes [u8],
}

impl<'physical, 'bytes> HeldControlSnapshot<'physical, 'bytes> {
    /// Whether the snapshot was taken on a given manifest.
    pub fn is_bound_to(&self, physical: &MarkerFreePhysicalManifest) -> (r: bool)
        ensures
            r ==> *self.physical_manifest == *physical,
    {
        is_one_manifest(self.physical_manifest, physical)
    }

    /// The role of the file.
    pub fn role(&self) -> (role: GitControlRole)
        ensures
            role == self.role,
    {
        self.role
    }

    /// The body of the file.
    pub fn bytes(&self) -> (bytes: &'bytes [u8])
        ensures
            bytes@ == self.bytes@,
    {
        self.bytes
    }
}

/// Why there is no snapshot of a control file, if there is none.
pub open spec fn control_capture_error(
    physical: MarkerFreePhysicalManifest,
    path: Seq<char>,
    maximum: u64,
    seen: HeldSnapshotReading,
) -> Option<CandidateSealError> {
    if exists|i: int| file_at(physical.records@, path, i) {
        capture_error(
            physical,
            PhysicalRecordId((choose|i: int| file_at(physical.records@, path, i)) as usize),
            maximum,
            seen,
        )
    } else {
        Some(CandidateSealError::InvalidRecord)
    }
}

/// A snapshot is bound to the file at a path and to the directories that were opened on the way.
pub open spec fn state_bound(
    physical: MarkerFreePhysicalManifest,
    path: Seq<char>,
    seen: HeldSnapshotReading,
    state: HeldSnapshotState,
) -> bool {
    file_at(physical.records@, path, state.physical.0 as int) && walk_binds(
        physical.records@,
        encode_utf8(path),
        seen.children@,
        state.ancestors@,
        0,
        0,
    )
}

/// One path is the path of one file.
proof fn file_is_unique(records: Seq<AuditedPhysicalRecord>, path: Seq<char>, i: int, j: int)
    requires
        paths_ascend(records),
        file_at(records, path, i),
        file_at(records, path, j),
    ensures
        i == j,
{
    crate::bytes::lex_less_irreflexive(encode_utf8(path));
    if i < j {
        assert(crate::bytes::lex_less(encode_utf8(records[i].path@), encode_utf8(records[j].path@)));
    } else if j < i {
        assert(crate::bytes::lex_less(encode_utf8(records[j].path@), encode_utf8(records[i].path@)));
    }
}

fn capture_control<'physical, 'bytes>(
    physical: &'physical MarkerFreePhysicalManifest,
    path: &str,
    maximum_bytes: u64,
    role: GitControlRole,
    seen: &'bytes HeldSnapshotReading,
) -> (r: Result<(HeldSnapshotState, HeldControlSnapshot<'physical, 'bytes>), CandidateSealError>)
    requires
        physical.wf(),
    ensures
        match control_capture_error(*physical, path@, maximum_bytes, *seen) {
            Some(error) => r matches Err(e) && e == error,
            None => r matches Ok((state, snapshot)) && state_bound(*physical, path@, *seen, state)
                && *snapshot.physical_manifest == *physical && snapshot.physical == state.physical && snapshot.role == role
                && snapshot.bytes@ == seen.reading.body@,
        },
{
    let id = exact_file_id(physical, path)?;
    proof {
        let i = choose|i: int| file_at(physical.records@, path@, i);
        file_is_unique(physical.records@, path@, i, id.0 as int);
    }
    let state = capture_held_physical_snapshot(physical, id, maximum_bytes, seen)?;
    let snapshot = HeldControlSnapshot {
        physical_manifest: physical,
        physical: id,
        role,
        bytes: seen.reading.body.as_slice(),
    };
    Ok((state, snapshot))
}

/// The snapshot of the index.
pub fn with_held_target_index_snapshot<'physical, 'bytes>(
    physical: &'physical MarkerFreePhysicalManifest,
    seen: &'bytes HeldSnapshotReading,
) -> (r: Result<(HeldSnapshotState, HeldControlSnapshot<'physical, 'bytes>), CandidateSealError>)
    requires
        physical.wf(),
    ensures
        match control_capture_error(*physical, TARGET_INDEX_PATH@, MAX_TARGET_INDEX_BYTES, *seen) {
            Some(error) => r matches Err(e) && e == error,
            None => r matches Ok((state, snapshot)) && state_bound(*physical, TARGET_INDEX_PATH@, *seen, state)
                && *snapshot.physical_manifest == *physical && snapshot.physical == state.physical && snapshot.role
                == GitControlRole::Index && snapshot.bytes@ == seen.reading.body@,
        },
{
    capture_control(physical, TARGET_INDEX_PATH, MAX_TARGET_INDEX_BYTES, GitControlRole::Index, seen)
}

/// The snapshot of the configuration.
pub fn with_held_target_config_snapshot<'physical, 'bytes>(
    physical: &'physical MarkerFreePhysicalManifest,
    seen: &'bytes HeldSnapshotReading,
) -> (r: Result<(HeldSnapshotState, HeldControlSnapshot<'physical, 'bytes>), CandidateSealError>)
    requires
        physical.wf(),
    ensures
        match control_capture_error(*physical, TARGET_CONFIG_PATH@, MAX_TARGET_CONFIG_BYTES, *seen) {
            Some(error) => r matches Err(e) && e == error,
            None => r matches Ok((state, snapshot)) && state_bound(*physical, TARGET_CONFIG_PATH@, *seen, state)
                && *snapshot.physical_manifest == *physical && snapshot.physical == state.physical && snapshot.role
                == GitControlRole::Config && snapshot.bytes@ == seen.reading.body@,
        },
{
    capture_control(physical, TARGET_CONFIG_PATH, MAX_TARGET_CONFIG_BYTES, GitControlRole::Config, seen)
}

/// The commit of the one branch, bound to the manifest that it was read under. It is neither
/// `Clone` nor `Copy`: the one result is used once.
pub struct FreshTargetMainRef<'physical> {
    pub physical: &'physical MarkerFreePhysicalManifest,
    pub record: PhysicalRecordId,
    pub commit_oid: [u8; 20],
}

impl<'physical> FreshTargetMainRef<'physical> {
    /// The branch in diagnostics, where neither its record nor its commit appears.
    pub fn redacted(&self) -> (text: &'static str)
        ensures
            text@
                == "FreshTargetMainRef { physical: \"[REDACTED]\", record: \"[REDACTED]\", commit_oid: \"[REDACTED]\" }"@,
    {
        "FreshTargetMainRef { physical: \"[REDACTED]\", record: \"[REDACTED]\", commit_oid: \"[REDACTED]\" }"
    }

    /// Whether the branch was read on a given manifest.
    pub fn is_bound_to(&self, physical: &MarkerFreePhysicalManifest) -> (r: bool)
        ensures
            r ==> *self.physical == *physical,
    {
        is_one_manifest(self.physical, physical)
    }

    /// The commit, which is never the zero id.
    pub fn commit_oid(&self) -> (oid: [u8; 20])
        ensures
            oid == self.commit_oid,
    {
        self.commit_oid
    }
}

/// Why a snapshot of the branch gives no commit, if it gives none: it no longer holds, or its
/// body is not that of a branch.
pub open spec fn main_ref_error(
    physical: MarkerFreePhysicalManifest,
    seen: HeldSnapshotReading,
    state: HeldSnapshotState,
    recheck: HeldSnapshotRecheck,
) -> Option<CandidateSealError> {
    if !snapshot_holds(physical, state, recheck) || !main_ref_shape(seen.reading.body@) {
        Some(CandidateSealError::InvalidRecord)
    } else {
        None
    }
}

/// Read the commit of the one branch from a snapshot that holds before and after.
pub fn collect_fresh_target_main_ref<'physical>(
    physical: &'physical MarkerFreePhysicalManifest,
    seen: &HeldSnapshotReading,
    recheck: &HeldSnapshotRecheck,
) -> (r: Result<FreshTargetMainRef<'physical>, CandidateSealError>)
    requires
        physical.wf(),
    ensures
        match control_capture_error(*physical, TARGET_MAIN_REF_PATH@, TARGET_MAIN_REF_BYTES, *seen) {
            Some(error) => r matches Err(e) && e == error,
            None => exists|state: HeldSnapshotState|
                {
                    &&& state_bound(*physical, TARGET_MAIN_REF_PATH@, *seen, state)
                    &&& match #[trigger] main_ref_error(*physical, *seen, state, *recheck) {
                        Some(error) => r matches Err(e) && e == error,
                        None => r matches Ok(main_ref) && *main_ref.physical == *physical && main_ref.record
                            == state.physical && main_ref.commit_oid@ == hex_bytes(seen.reading.body@.subrange(0, 40)),
                    }
                },
        },
{
    let (state, snapshot) = capture_control(
        physical,
        TARGET_MAIN_REF_PATH,
        TARGET_MAIN_REF_BYTES,
        GitControlRole::MainRef,
        seen,
    )?;
    let consumed = match parse_fresh_target_main_ref(snapshot.bytes) {
        Ok(commit_oid) => Ok(FreshTargetMainRef { physical, record: state.physical, commit_oid }),
        Err(error) => Err(error),
    };
    let ghost judged = main_ref_error(*physical, *seen, state, *recheck);
    let bound = release_held_value(physical, &state, recheck, consumed)?;
    Ok(bound.value)
}

} // verus!
