//! A whole walk over a candidate, held against its manifest.
//!
//! The manifest says whether what a walk met is exactly what the candidate was.

use crate::errors::RepositoryImportError;
use crate::identity::FilesystemDirectoryIdentity;
use crate::manifest::{AuditedPhysicalKind, MarkerFreePhysicalManifest, PhysicalRecordId, MAX_PHYSICAL_DEPTH, MAX_PHYSICAL_PATH_BUDGET};
use crate::bytes::{lex_less, lex_less_irreflexive};
use crate::namespace::HashedFile;
use crate::portable_path::MAX_PHYSICAL_PATH_BYTES;
use crate::revalidation::{begin_current_walk, child_at, match_directory, match_file, seen_in, PhysicalWalk};
use crate::tree_walk::{event_path, named_bytes, names_child, names_path, open_directories, Entered, TreeEvent};
use vstd::prelude::*;
use vstd::string::*;
use vstd::utf8::encode_utf8;

verus! {

/// What stood under a name in a directory.
pub enum SeenChild {
    /// It could not be opened, or is neither a plain directory nor a plain file.
    Refused,
    /// A directory, which has no other streams and could be listed, or not.
    Directory { identity: FilesystemDirectoryIdentity, plain: bool },
    /// A file, which has no other streams or has, and what hashing it gave.
    File { plain: bool, hashed: Result<HashedFile, RepositoryImportError> },
}

impl Entered for SeenChild {
    open spec fn entered(&self, parent: Seq<u8>, name: Seq<char>) -> bool {
        self is Directory
    }
}

/// A path was met before event `n`: it is the root's, or an event names it.
pub open spec fn met_before(events: Seq<TreeEvent<SeenChild>>, path: Seq<u8>, n: int) -> bool {
    path.len() == 0 || exists|i: int| i < n && #[trigger] names_path(events, path, i)
}

/// Record `i` has a path.
pub open spec fn record_at(manifest: MarkerFreePhysicalManifest, path: Seq<u8>, i: int) -> bool {
    0 <= i < manifest.records@.len() && encode_utf8(manifest.records@[i].path@) == path
}

/// The record of a path, where there is one.
pub open spec fn record_of(manifest: MarkerFreePhysicalManifest, path: Seq<u8>) -> int {
    choose|i: int| record_at(manifest, path, i)
}

/// Why what stood under a name is not what a record says, if it is not. A directory is entered at a depth.
pub open spec fn child_error(kind: AuditedPhysicalKind, child: SeenChild, depth: nat) -> Option<RepositoryImportError> {
    let failed = Some(RepositoryImportError::TargetAuditFailed);
    match (kind, child) {
        (AuditedPhysicalKind::Directory(expected), SeenChild::Directory { identity, plain }) => if !expected.same(identity) {
            failed
        } else if depth > MAX_PHYSICAL_DEPTH {
            Some(RepositoryImportError::ResourceLimit)
        } else if !plain {
            failed
        } else {
            None
        },
        (AuditedPhysicalKind::File { identity, size, sha256 }, SeenChild::File { plain, hashed }) => if !plain {
            failed
        } else {
            match hashed {
                Err(error) => Some(error),
                Ok(file) => if identity.same(file.identity) && size == file.size && sha256@ == file.sha256@ {
                    None
                } else {
                    failed
                },
            }
        },
        _ => failed,
    }
}

/// Why a walk stops at event `i`, if it does.
pub open spec fn event_error(manifest: MarkerFreePhysicalManifest, events: Seq<TreeEvent<SeenChild>>, i: int) -> Option<
    RepositoryImportError,
> {
    let failed = Some(RepositoryImportError::TargetAuditFailed);
    let open = open_directories(events, i);
    if open.len() == 0 {
        failed
    } else {
        match events[i] {
            TreeEvent::Leave { holds } => if holds {
                None
            } else {
                failed
            },
            TreeEvent::Child { name: None, .. } => failed,
            TreeEvent::Child { name: Some(_), child } => {
                let path = event_path(events, i);
                if !exists|r: int| record_at(manifest, path, r) {
                    failed
                } else if path.len() > MAX_PHYSICAL_PATH_BYTES {
                    Some(RepositoryImportError::ResourceLimit)
                } else if met_before(events, path, i) {
                    failed
                } else if named_bytes(events, i) + path.len() > MAX_PHYSICAL_PATH_BUDGET {
                    Some(RepositoryImportError::ResourceLimit)
                } else {
                    child_error(manifest.records@[record_of(manifest, path)].kind, child, open.len())
                }
            },
        }
    }
}

/// The first event from `i` on at which a walk stops, and why.
pub open spec fn walk_error(manifest: MarkerFreePhysicalManifest, events: Seq<TreeEvent<SeenChild>>, i: int) -> Option<
    RepositoryImportError,
>
    decreases events.len() - i,
{
    if i >= events.len() {
        None
    } else if event_error(manifest, events, i) is Some {
        event_error(manifest, events, i)
    } else {
        walk_error(manifest, events, i + 1)
    }
}

/// Every record was met, and every directory was left.
pub open spec fn walk_complete(manifest: MarkerFreePhysicalManifest, events: Seq<TreeEvent<SeenChild>>) -> bool {
    &&& open_directories(events, events.len() as int).len() == 0
    &&& forall|r: int|
        0 <= r < manifest.records@.len() ==> met_before(
            events,
            encode_utf8((#[trigger] manifest.records@[r]).path@),
            events.len() as int,
        )
}

/// What a walk over a candidate saw.
pub struct CurrentSighting {
    /// The identity of the root, which stands under its own canonical path on a local filesystem.
    pub root: Result<FilesystemDirectoryIdentity, RepositoryImportError>,
    /// The root has no other streams and could be listed.
    pub root_plain: bool,
    pub events: Vec<TreeEvent<SeenChild>>,
}

/// Why a candidate is not exactly what its manifest says, if it is not: the first difference decides.
pub open spec fn current_error(manifest: MarkerFreePhysicalManifest, seen: CurrentSighting) -> Option<RepositoryImportError> {
    let failed = Some(RepositoryImportError::TargetAuditFailed);
    match seen.root {
        Err(error) => Some(error),
        Ok(root) => if !root.same(manifest.root_identity) {
            failed
        } else if manifest.records@.len() + 63 > usize::MAX {
            Some(RepositoryImportError::ResourceLimit)
        } else if !seen.root_plain {
            failed
        } else if walk_error(manifest, seen.events@, 0) is Some {
            walk_error(manifest, seen.events@, 0)
        } else if walk_complete(manifest, seen.events@) {
            None
        } else {
            failed
        },
    }
}

/// Records with one path are one record.
pub proof fn record_is_unique(manifest: MarkerFreePhysicalManifest, path: Seq<u8>, i: int, j: int)
    requires
        manifest.wf(),
        record_at(manifest, path, i),
        record_at(manifest, path, j),
    ensures
        i == j,
{
    lex_less_irreflexive(path);
    if i < j {
        assert(lex_less(encode_utf8(manifest.records@[i].path@), encode_utf8(manifest.records@[j].path@)));
    } else if j < i {
        assert(lex_less(encode_utf8(manifest.records@[j].path@), encode_utf8(manifest.records@[i].path@)));
    }
}

/// The state of a walk before event `n`.
spec fn walk_state(
    manifest: MarkerFreePhysicalManifest,
    events: Seq<TreeEvent<SeenChild>>,
    n: int,
    walk: PhysicalWalk,
    stack: Seq<PhysicalRecordId>,
) -> bool {
    let open = open_directories(events, n);
    &&& walk.wf(manifest)
    &&& walk.observed_path_bytes == named_bytes(events, n)
    &&& stack.len() == open.len()
    &&& forall|k: int|
        0 <= k < stack.len() ==> record_at(manifest, open[k], (#[trigger] stack[k]).0 as int)
    &&& forall|r: int|
        0 <= r < manifest.records@.len() ==> #[trigger] seen_in(walk.seen@, r) == met_before(
            events,
            encode_utf8(manifest.records@[r].path@),
            n,
        )
}

proof fn met_step(events: Seq<TreeEvent<SeenChild>>, path: Seq<u8>, n: int)
    requires
        0 <= n < events.len(),
    ensures
        met_before(events, path, n + 1) == (met_before(events, path, n) || names_path(events, path, n)),
{
    if met_before(events, path, n + 1) && path.len() > 0 {
        let i = choose|i: int| i < n + 1 && #[trigger] names_path(events, path, i);
        if i < n {
            assert(met_before(events, path, n));
        }
    }
    if met_before(events, path, n) && path.len() > 0 {
        let i = choose|i: int| i < n && #[trigger] names_path(events, path, i);
        assert(names_path(events, path, i));
    }
}

/// Hold what stood under a name against its record.
fn judge_child(
    manifest: &MarkerFreePhysicalManifest,
    walk: &PhysicalWalk,
    id: PhysicalRecordId,
    child: &SeenChild,
    depth: usize,
) -> (r: Result<(), RepositoryImportError>)
    requires
        walk.wf(*manifest),
        id.0 < manifest.records@.len(),
    ensures
        match child_error(manifest.records@[id.0 as int].kind, *child, depth as nat) {
            Some(failure) => r matches Err(error) && error == failure,
            None => r is Ok,
        },
{
    match child {
        SeenChild::Refused => Err(RepositoryImportError::TargetAuditFailed),
        SeenChild::Directory { identity, plain } => {
            match_directory(manifest, id, identity)?;
            walk.enter_directory(manifest, id, depth)?;
            if !*plain {
                return Err(RepositoryImportError::TargetAuditFailed);
            }
            Ok(())
        },
        SeenChild::File { plain, hashed } => {
            match manifest.records[id.0].kind {
                AuditedPhysicalKind::Directory(_) => {
                    return Err(RepositoryImportError::TargetAuditFailed);
                },
                AuditedPhysicalKind::File { .. } => {},
            }
            if !*plain {
                return Err(RepositoryImportError::TargetAuditFailed);
            }
            match hashed {
                Err(error) => Err(*error),
                Ok(file) => match_file(manifest, id, &file.identity, file.size, &file.sha256),
            }
        },
    }
}

/// Take one event of a walk.
fn take_event(
    manifest: &MarkerFreePhysicalManifest,
    events: &Vec<TreeEvent<SeenChild>>,
    i: usize,
    walk: &mut PhysicalWalk,
    stack: &mut Vec<PhysicalRecordId>,
) -> (r: Result<(), RepositoryImportError>)
    requires
        manifest.wf(),
        i < events@.len(),
        walk_state(*manifest, events@, i as int, *old(walk), old(stack)@),
    ensures
        match event_error(*manifest, events@, i as int) {
            Some(failure) => r matches Err(error) && error == failure,
            None => r is Ok && walk_state(*manifest, events@, i + 1, *final(walk), final(stack)@),
        },
{
    let ghost open = open_directories(events@, i as int);
    let depth: usize = stack.len();
    let count: usize = manifest.records.len();
    if depth == 0 {
        return Err(RepositoryImportError::TargetAuditFailed);
    }
    let ghost before = *walk;
    let ghost held = stack@;
    match &events[i] {
        TreeEvent::Leave { holds } => {
            if !*holds {
                return Err(RepositoryImportError::TargetAuditFailed);
            }
            let _ = stack.pop();
            proof {
                assert(stack@ =~= held.drop_last());
                assert forall|r: int| 0 <= r < manifest.records@.len() implies #[trigger] seen_in(walk.seen@, r) == met_before(
                    events@,
                    encode_utf8(manifest.records@[r].path@),
                    i + 1,
                ) by {
                    met_step(events@, encode_utf8(manifest.records@[r].path@), i as int);
                }
            }
            Ok(())
        },
        TreeEvent::Child { name: None, .. } => Err(RepositoryImportError::TargetAuditFailed),
        TreeEvent::Child { name: Some(name), child } => {
            let parent = stack[depth - 1];
            let ghost path = event_path(events@, i as int);
            assert(record_at(*manifest, open.last(), parent.0 as int));
            assert forall|r: int| #[trigger] record_at(*manifest, path, r) implies child_at(
                *manifest,
                parent,
                encode_utf8(name@),
                r,
            ) by {}
            assert forall|r: int| #[trigger] child_at(*manifest, parent, encode_utf8(name@), r) implies record_at(
                *manifest,
                path,
                r,
            ) by {}
            let ghost r0 = record_of(*manifest, path);
            let text = name.as_str();
            assert(text.spec_bytes() == encode_utf8(name@));
            let met = walk.visit_child(manifest, parent, text);
            proof {
                if exists|r: int| record_at(*manifest, path, r) {
                    assert(record_at(*manifest, path, r0));
                    assert(child_at(*manifest, parent, text.spec_bytes(), r0));
                    assert(seen_in(before.seen@, r0) == met_before(events@, path, i as int));
                } else {
                    assert forall|r: int| !(#[trigger] child_at(*manifest, parent, text.spec_bytes(), r)) by {
                        if child_at(*manifest, parent, text.spec_bytes(), r) {
                            assert(record_at(*manifest, path, r));
                        }
                    }
                }
            }
            let id = met?;
            proof {
                assert(record_at(*manifest, path, id.0 as int));
                record_is_unique(*manifest, path, id.0 as int, r0);
                assert(names_path(events@, path, i as int));
            }
            judge_child(manifest, walk, id, child, depth)?;
            proof {
                assert forall|r: int| 0 <= r < manifest.records@.len() implies #[trigger] seen_in(walk.seen@, r) == met_before(
                    events@,
                    encode_utf8(manifest.records@[r].path@),
                    i + 1,
                ) by {
                    assert(r < count);
                    met_step(events@, encode_utf8(manifest.records@[r].path@), i as int);
                    assert(walk.met(PhysicalRecordId(r as usize)) == (PhysicalRecordId(r as usize) == id || before.met(
                        PhysicalRecordId(r as usize),
                    )));
                    if names_path(events@, encode_utf8(manifest.records@[r].path@), i as int) {
                        record_is_unique(*manifest, path, r, id.0 as int);
                    }
                }
            }
            match child {
                SeenChild::Directory { .. } => {
                    stack.push(id);
                    proof {
                        assert(open_directories(events@, i + 1) =~= open.push(path));
                        assert(stack@ =~= held.push(id));
                    }
                },
                _ => {},
            }
            Ok(())
        },
    }
}

/// Require a candidate to be exactly what its manifest says.
pub fn require_current_exact(manifest: &MarkerFreePhysicalManifest, seen: &CurrentSighting) -> (r: Result<
    (),
    RepositoryImportError,
>)
    requires
        manifest.wf(),
    ensures
        match current_error(*manifest, *seen) {
            Some(failure) => r matches Err(error) && error == failure,
            None => r is Ok,
        },
{
    let root = match &seen.root {
        Ok(root) => root,
        Err(error) => {
            return Err(*error);
        },
    };
    let mut walk = begin_current_walk(manifest, root)?;
    walk.enter_directory(manifest, PhysicalRecordId(0), 0)?;
    if !seen.root_plain {
        return Err(RepositoryImportError::TargetAuditFailed);
    }
    let mut stack: Vec<PhysicalRecordId> = vec![PhysicalRecordId(0)];
    let count: usize = manifest.records.len();
    proof {
        assert(stack@ =~= seq![PhysicalRecordId(0)]);
        assert(encode_utf8(manifest.records@[0].path@) =~= Seq::<u8>::empty());
        assert forall|r: int| 0 <= r < manifest.records@.len() implies #[trigger] seen_in(walk.seen@, r) == met_before(
            seen.events@,
            encode_utf8(manifest.records@[r].path@),
            0,
        ) by {
            assert(r < count);
            assert(walk.met(PhysicalRecordId(r as usize)) == (r == 0));
            if encode_utf8(manifest.records@[r].path@).len() == 0 {
                assert(encode_utf8(manifest.records@[r].path@) =~= Seq::<u8>::empty());
                record_is_unique(*manifest, Seq::<u8>::empty(), r, 0);
            }
            assert forall|k: int| k < 0 implies !(#[trigger] names_path(
                seen.events@,
                encode_utf8(manifest.records@[r].path@),
                k,
            )) by {}
        }
    }
    let mut i: usize = 0;
    while i < seen.events.len()
        invariant
            manifest.wf(),
            seen.root matches Ok(found) && found.same(manifest.root_identity),
            manifest.records@.len() + 63 <= usize::MAX,
            seen.root_plain,
            i <= seen.events@.len(),
            walk_state(*manifest, seen.events@, i as int, walk, stack@),
            walk_error(*manifest, seen.events@, 0) == walk_error(*manifest, seen.events@, i as int),
        decreases seen.events@.len() - i,
    {
        take_event(manifest, &seen.events, i, &mut walk, &mut stack)?;
        i = i + 1;
    }
    if stack.len() != 0 {
        return Err(RepositoryImportError::TargetAuditFailed);
    }
    let verdict = walk.require_current_exact(manifest);
    proof {
        if walk_complete(*manifest, seen.events@) {
            assert forall|r: int| 0 <= r < manifest.records@.len() implies #[trigger] seen_in(walk.seen@, r) by {
                assert(met_before(seen.events@, encode_utf8(manifest.records@[r].path@), seen.events@.len() as int));
            }
        }
        if verdict is Ok {
            assert forall|r: int| 0 <= r < manifest.records@.len() implies met_before(
                seen.events@,
                encode_utf8((#[trigger] manifest.records@[r]).path@),
                seen.events@.len() as int,
            ) by {
                assert(seen_in(walk.seen@, r));
            }
        }
    }
    verdict
}

/// An event names a record and found it as it was.
pub open spec fn finds_record(manifest: MarkerFreePhysicalManifest, events: Seq<TreeEvent<SeenChild>>, i: int, r: int) -> bool {
    &&& names_child(events, i)
    &&& record_at(manifest, event_path(events, i), r)
    &&& match (manifest.records@[r].kind, events[i]->child) {
        (AuditedPhysicalKind::Directory(expected), SeenChild::Directory { identity, .. }) => expected.same(identity),
        (AuditedPhysicalKind::File { identity, size, sha256 }, SeenChild::File { hashed: Ok(file), .. }) => identity.same(
            file.identity,
        ) && size == file.size && sha256@ == file.sha256@,
        _ => false,
    }
}

/// Some event finds a record as it was.
pub open spec fn record_is_found(manifest: MarkerFreePhysicalManifest, events: Seq<TreeEvent<SeenChild>>, r: int) -> bool {
    exists|i: int| #[trigger] finds_record(manifest, events, i, r)
}

proof fn every_event_passes(manifest: MarkerFreePhysicalManifest, events: Seq<TreeEvent<SeenChild>>, from: int, i: int)
    requires
        walk_error(manifest, events, from) is None,
        0 <= from <= i < events.len(),
    ensures
        event_error(manifest, events, i) is None,
    decreases i - from,
{
    if from < i {
        every_event_passes(manifest, events, from + 1, i);
    }
}

/// A candidate that passes is exactly the one of the manifest: every name that was met is a record, with
/// its kind, identity and content, and every record but the root was met once and only once.
pub proof fn passed_walk_is_exact(manifest: MarkerFreePhysicalManifest, seen: CurrentSighting)
    requires
        manifest.wf(),
        current_error(manifest, seen) is None,
    ensures
        forall|i: int| #[trigger]
            names_child(seen.events@, i) ==> exists|r: int| finds_record(manifest, seen.events@, i, r),
        forall|r: int| 0 < r < manifest.records@.len() ==> #[trigger] record_is_found(manifest, seen.events@, r),
        forall|r: int, i: int, j: int|
            #[trigger] finds_record(manifest, seen.events@, i, r) && #[trigger] finds_record(manifest, seen.events@, j, r)
                ==> i == j,
{
    let events = seen.events@;
    assert forall|i: int| #[trigger] names_child(events, i) implies exists|r: int| finds_record(manifest, events, i, r) by {
        found_record(manifest, events, i);
    }
    assert forall|r: int| 0 < r < manifest.records@.len() implies #[trigger] record_is_found(manifest, events, r) by {
        let path = encode_utf8(manifest.records@[r].path@);
        if path.len() == 0 {
            assert(path =~= Seq::<u8>::empty());
            assert(encode_utf8(manifest.records@[0].path@) =~= Seq::<u8>::empty());
            record_is_unique(manifest, path, r, 0);
        }
        assert(met_before(events, path, events.len() as int));
        let i = choose|i: int| i < events.len() && #[trigger] names_path(events, path, i);
        found_record(manifest, events, i);
        let found = choose|found: int| finds_record(manifest, events, i, found);
        record_is_unique(manifest, path, r, found);
        assert(finds_record(manifest, events, i, r));
    }
    assert forall|r: int, i: int, j: int| #[trigger]
        finds_record(manifest, events, i, r) && #[trigger] finds_record(manifest, events, j, r) implies i == j by {
        let path = event_path(events, i);
        assert(names_path(events, path, i) && names_path(events, path, j));
        every_event_passes(manifest, events, 0, i);
        every_event_passes(manifest, events, 0, j);
        if i < j {
            assert(met_before(events, path, j));
        } else if j < i {
            assert(met_before(events, path, i));
        }
    }
}

proof fn found_record(manifest: MarkerFreePhysicalManifest, events: Seq<TreeEvent<SeenChild>>, i: int)
    requires
        manifest.wf(),
        walk_error(manifest, events, 0) is None,
        names_child(events, i),
    ensures
        exists|r: int| finds_record(manifest, events, i, r),
{
    every_event_passes(manifest, events, 0, i);
    let path = event_path(events, i);
    let r = record_of(manifest, path);
    assert(record_at(manifest, path, r));
    assert(finds_record(manifest, events, i, r));
}

} // verus!
