//! A candidate passes a walk exactly when it is the one of the manifest.

use crate::bytes::split_pieces;
use crate::errors::RepositoryImportError;
use crate::manifest::{
    frozen_limits, record_path_total, records_match_seals, seal_path_total, seal_path_verdict, seals_error,
    AuditedPhysicalRecord, MarkerFreePhysicalManifest, PhysicalObservation, MAX_PHYSICAL_DEPTH,
    MAX_PHYSICAL_FILE_BYTES, MAX_PHYSICAL_PATH_BUDGET,
};
use crate::namespace::{hashing_end_error, hashing_start_error, FileHashing, FileSighting, NamespacePolicy};
use crate::path_components::{pieces_of_concat, some_piece};
use crate::physical_walk::{
    child_error, current_error, event_error, finds_record, met_before, record_at, record_is_unique, record_of,
    walk_complete, walk_error, CurrentSighting, SeenChild,
};
use crate::portable_path::{MAX_PHYSICAL_PATH_BYTES, SLASH};
use crate::seal_records::MAX_PHYSICAL_RECORDS;
use crate::tree_walk::{event_path, named_bytes, names_child, names_path, open_directories, TreeEvent};
use vstd::prelude::*;
use vstd::string::*;
use vstd::utf8::encode_utf8;

verus! {

/// A manifest is within the frozen bounds.
pub open spec fn bounded(manifest: MarkerFreePhysicalManifest) -> bool {
    &&& manifest.records@.len() <= MAX_PHYSICAL_RECORDS
    &&& record_path_total(manifest.records@, manifest.records@.len() as int) <= MAX_PHYSICAL_PATH_BUDGET
    &&& forall|r: int|
        0 < r < manifest.records@.len() ==> {
            let path = encode_utf8((#[trigger] manifest.records@[r]).path@);
            path.len() <= MAX_PHYSICAL_PATH_BYTES && split_pieces(path, SLASH).len() <= MAX_PHYSICAL_DEPTH
        }
}

/// What stood under a name was as it must be in itself: no other streams, and a directory could be listed.
pub open spec fn is_plain(child: SeenChild) -> bool {
    match child {
        SeenChild::Refused => false,
        SeenChild::Directory { plain, .. } => plain,
        SeenChild::File { plain, .. } => plain,
    }
}

/// Event `i` finds a record other than the root as it was.
pub open spec fn finds_plain_record(
    manifest: MarkerFreePhysicalManifest,
    events: Seq<TreeEvent<SeenChild>>,
    i: int,
    r: int,
) -> bool {
    0 < r && finds_record(manifest, events, i, r) && is_plain(events[i]->child)
}

/// The record that event `i` finds.
spec fn record_found(manifest: MarkerFreePhysicalManifest, events: Seq<TreeEvent<SeenChild>>, i: int) -> int {
    choose|r: int| finds_plain_record(manifest, events, i, r)
}

/// Event `i` belongs to a walk over exactly the tree of the manifest: a directory is left as it was, or a
/// name that was not met before is found as a record says.
pub open spec fn exact_event(manifest: MarkerFreePhysicalManifest, events: Seq<TreeEvent<SeenChild>>, i: int) -> bool {
    &&& open_directories(events, i).len() > 0
    &&& match events[i] {
        TreeEvent::Leave { holds } => holds,
        TreeEvent::Child { name, .. } => {
            &&& name is Some
            &&& exists|r: int| finds_plain_record(manifest, events, i, r)
            &&& !met_before(events, event_path(events, i), i)
        },
    }
}

/// A walk saw exactly the tree of the manifest: its root, and below it every record once, with its kind, its
/// identity and its content, and nothing else.
pub open spec fn exact_tree(manifest: MarkerFreePhysicalManifest, seen: CurrentSighting) -> bool {
    &&& seen.root matches Ok(root) && root.same(manifest.root_identity)
    &&& seen.root_plain
    &&& forall|i: int| 0 <= i < seen.events@.len() ==> #[trigger] exact_event(manifest, seen.events@, i)
    &&& walk_complete(manifest, seen.events@)
}

/// The bytes of the paths of the first `n` records that are marked.
spec fn marked_total(records: Seq<AuditedPhysicalRecord>, marks: spec_fn(int) -> bool, n: int) -> nat
    decreases n,
{
    if n <= 0 {
        0
    } else {
        marked_total(records, marks, n - 1) + if marks(n - 1) {
            encode_utf8(records[n - 1].path@).len()
        } else {
            0nat
        }
    }
}

proof fn marked_total_is_less(records: Seq<AuditedPhysicalRecord>, marks: spec_fn(int) -> bool, n: int)
    ensures
        marked_total(records, marks, n) <= record_path_total(records, n),
    decreases n,
{
    if n > 0 {
        marked_total_is_less(records, marks, n - 1);
    }
}

proof fn marks_alike(records: Seq<AuditedPhysicalRecord>, a: spec_fn(int) -> bool, b: spec_fn(int) -> bool, n: int)
    requires
        forall|r: int| 0 <= r < n ==> #[trigger] a(r) == b(r),
    ensures
        marked_total(records, a, n) == marked_total(records, b, n),
    decreases n,
{
    if n > 0 {
        marks_alike(records, a, b, n - 1);
        assert(a(n - 1) == b(n - 1));
    }
}

proof fn one_mark_more(
    records: Seq<AuditedPhysicalRecord>,
    before: spec_fn(int) -> bool,
    after: spec_fn(int) -> bool,
    r: int,
    n: int,
)
    requires
        0 <= r < n <= records.len(),
        !before(r),
        after(r),
        forall|k: int| 0 <= k < n && k != r ==> #[trigger] after(k) == before(k),
    ensures
        marked_total(records, after, n) == marked_total(records, before, n) + encode_utf8(records[r].path@).len(),
    decreases n,
{
    if r == n - 1 {
        marks_alike(records, after, before, n - 1);
    } else {
        one_mark_more(records, before, after, r, n - 1);
        assert(after(n - 1) == before(n - 1));
    }
}

/// Record `r` was named before event `n`.
spec fn named_before(manifest: MarkerFreePhysicalManifest, events: Seq<TreeEvent<SeenChild>>, n: int) -> spec_fn(int) -> bool {
    |r: int| exists|i: int| i < n && #[trigger] names_path(events, encode_utf8(manifest.records@[r].path@), i)
}

/// The paths that an exact walk names are paths of different records.
proof fn named_bytes_are_marked(manifest: MarkerFreePhysicalManifest, events: Seq<TreeEvent<SeenChild>>, n: int)
    requires
        manifest.wf(),
        0 <= n <= events.len(),
        forall|i: int| 0 <= i < n ==> #[trigger] exact_event(manifest, events, i),
    ensures
        named_bytes(events, n) == marked_total(
            manifest.records@,
            named_before(manifest, events, n),
            manifest.records@.len() as int,
        ),
    decreases n,
{
    let records = manifest.records@;
    let count = records.len() as int;
    let marks = named_before(manifest, events, n);
    if n == 0 {
        assert forall|r: int| 0 <= r < count implies !(#[trigger] marks(r)) by {
            assert forall|i: int| i < 0 implies !(#[trigger] names_path(events, encode_utf8(records[r].path@), i)) by {}
        }
        no_marks(records, marks, count);
    } else {
        named_bytes_are_marked(manifest, events, n - 1);
        let before = named_before(manifest, events, n - 1);
        assert(exact_event(manifest, events, n - 1));
        if names_child(events, n - 1) {
            let path = event_path(events, n - 1);
            let r = record_found(manifest, events, n - 1);
            assert(record_at(manifest, path, r));
            assert(names_path(events, path, n - 1));
            assert(marks(r));
            assert(!before(r)) by {
                if before(r) {
                    let i = choose|i: int| i < n - 1 && #[trigger] names_path(events, encode_utf8(records[r].path@), i);
                    assert(met_before(events, path, n - 1));
                }
            }
            assert forall|k: int| 0 <= k < count && k != r implies #[trigger] marks(k) == before(k) by {
                if marks(k) {
                    let i = choose|i: int| i < n && #[trigger] names_path(events, encode_utf8(records[k].path@), i);
                    if i == n - 1 {
                        assert(record_at(manifest, path, k));
                        record_is_unique(manifest, path, k, r);
                    }
                }
                if before(k) {
                    let i = choose|i: int| i < n - 1 && #[trigger] names_path(events, encode_utf8(records[k].path@), i);
                    assert(names_path(events, encode_utf8(records[k].path@), i));
                }
            }
            one_mark_more(records, before, marks, r, count);
        } else {
            assert forall|k: int| 0 <= k < count implies #[trigger] marks(k) == before(k) by {
                if marks(k) {
                    let i = choose|i: int| i < n && #[trigger] names_path(events, encode_utf8(records[k].path@), i);
                    assert(i < n - 1);
                }
                if before(k) {
                    let i = choose|i: int| i < n - 1 && #[trigger] names_path(events, encode_utf8(records[k].path@), i);
                    assert(names_path(events, encode_utf8(records[k].path@), i));
                }
            }
            marks_alike(records, marks, before, count);
        }
    }
}

proof fn no_marks(records: Seq<AuditedPhysicalRecord>, marks: spec_fn(int) -> bool, n: int)
    requires
        forall|r: int| 0 <= r < n ==> !(#[trigger] marks(r)),
    ensures
        marked_total(records, marks, n) == 0,
    decreases n,
{
    if n > 0 {
        no_marks(records, marks, n - 1);
        assert(!marks(n - 1));
    }
}

/// A directory that is open at a level has at least as many names in its path.
proof fn open_paths_are_deep(manifest: MarkerFreePhysicalManifest, events: Seq<TreeEvent<SeenChild>>, n: int, k: int)
    requires
        0 <= n <= events.len(),
        forall|i: int| 0 <= i < n ==> #[trigger] exact_event(manifest, events, i),
        1 <= k < open_directories(events, n).len(),
    ensures
        open_directories(events, n)[k].len() > 0,
        split_pieces(open_directories(events, n)[k], SLASH).len() >= k,
    decreases n, 0int,
{
    if n > 0 {
        assert(exact_event(manifest, events, n - 1));
        let before = open_directories(events, n - 1);
        if k < before.len() {
            open_paths_are_deep(manifest, events, n - 1, k);
        } else {
            found_path_is_named(manifest, events, n - 1);
            path_is_deep(manifest, events, n - 1);
        }
    }
}

/// What an exact event names is not the root.
proof fn found_path_is_named(manifest: MarkerFreePhysicalManifest, events: Seq<TreeEvent<SeenChild>>, n: int)
    requires
        exact_event(manifest, events, n),
        names_child(events, n),
    ensures
        event_path(events, n).len() > 0,
{
}

/// What an event names has at least as many names in its path as directories are open.
proof fn path_is_deep(manifest: MarkerFreePhysicalManifest, events: Seq<TreeEvent<SeenChild>>, n: int)
    requires
        0 <= n < events.len(),
        forall|i: int| 0 <= i < n ==> #[trigger] exact_event(manifest, events, i),
        names_child(events, n),
        open_directories(events, n).len() > 0,
        event_path(events, n).len() > 0,
    ensures
        split_pieces(event_path(events, n), SLASH).len() >= open_directories(events, n).len(),
    decreases n, 1int,
{
    let open = open_directories(events, n);
    let path = event_path(events, n);
    let name = encode_utf8(events[n]->name->Some_0@);
    some_piece(path, SLASH);
    some_piece(name, SLASH);
    if open.len() > 1 {
        open_paths_are_deep(manifest, events, n, open.len() - 1);
        pieces_of_concat(open.last(), SLASH, name);
    }
}

proof fn exact_event_passes(manifest: MarkerFreePhysicalManifest, events: Seq<TreeEvent<SeenChild>>, i: int)
    requires
        manifest.wf(),
        bounded(manifest),
        0 <= i < events.len(),
        forall|j: int| 0 <= j <= i ==> #[trigger] exact_event(manifest, events, j),
    ensures
        event_error(manifest, events, i) is None,
{
    assert(exact_event(manifest, events, i));
    if names_child(events, i) {
        let path = event_path(events, i);
        let r = record_found(manifest, events, i);
        assert(record_at(manifest, path, r));
        record_is_unique(manifest, path, r, record_of(manifest, path));
        found_path_is_named(manifest, events, i);
        path_is_deep(manifest, events, i);
        named_bytes_are_marked(manifest, events, i + 1);
        marked_total_is_less(
            manifest.records@,
            named_before(manifest, events, i + 1),
            manifest.records@.len() as int,
        );
        assert(named_bytes(events, i + 1) == named_bytes(events, i) + path.len());
        assert(child_error(manifest.records@[r].kind, events[i]->child, open_directories(events, i).len()) is None);
    }
}

proof fn exact_walk_passes(manifest: MarkerFreePhysicalManifest, events: Seq<TreeEvent<SeenChild>>, i: int)
    requires
        manifest.wf(),
        bounded(manifest),
        0 <= i <= events.len(),
        forall|j: int| 0 <= j < events.len() ==> #[trigger] exact_event(manifest, events, j),
    ensures
        walk_error(manifest, events, i) is None,
    decreases events.len() - i,
{
    if i < events.len() {
        exact_event_passes(manifest, events, i);
        exact_walk_passes(manifest, events, i + 1);
    }
}

proof fn passing_event_is_exact(manifest: MarkerFreePhysicalManifest, events: Seq<TreeEvent<SeenChild>>, from: int, i: int)
    requires
        manifest.wf(),
        walk_error(manifest, events, from) is None,
        0 <= from <= i < events.len(),
    ensures
        exact_event(manifest, events, i),
    decreases i - from,
{
    if from < i {
        passing_event_is_exact(manifest, events, from + 1, i);
    } else if names_child(events, i) {
        let path = event_path(events, i);
        let r = record_of(manifest, path);
        assert(record_at(manifest, path, r));
        assert(encode_utf8(manifest.records@[0].path@) =~= Seq::<u8>::empty());
        assert(r > 0);
        assert(finds_plain_record(manifest, events, i, r));
    }
}

/// A candidate is found to be exact exactly when the walk saw the tree of the manifest: no change passes,
/// and an unchanged tree always does.
pub proof fn exact_trees_pass(manifest: MarkerFreePhysicalManifest, seen: CurrentSighting)
    requires
        manifest.wf(),
        bounded(manifest),
    ensures
        current_error(manifest, seen) is None <==> exact_tree(manifest, seen),
{
    if exact_tree(manifest, seen) {
        exact_walk_passes(manifest, seen.events@, 0);
    }
    if current_error(manifest, seen) is None {
        assert forall|i: int| 0 <= i < seen.events@.len() implies #[trigger] exact_event(manifest, seen.events@, i) by {
            passing_event_is_exact(manifest, seen.events@, 0, i);
        }
    }
}

/// Event `i` found a plain file under the name of a file that was not met before, and hashing it failed.
pub open spec fn hashing_failed(manifest: MarkerFreePhysicalManifest, events: Seq<TreeEvent<SeenChild>>, i: int) -> bool {
    &&& open_directories(events, i).len() > 0
    &&& names_child(events, i)
    &&& !met_before(events, event_path(events, i), i)
    &&& exists|r: int| #[trigger] record_at(manifest, event_path(events, i), r) && manifest.records@[r].kind is File
    &&& events[i]->child matches SeenChild::File { plain, hashed } && plain && hashed is Err
}

/// The error of event `i`, where the tree differs there first.
pub open spec fn difference_error(events: Seq<TreeEvent<SeenChild>>, i: int, unread: bool) -> RepositoryImportError {
    if unread {
        events[i]->child->hashed->Err_0
    } else {
        RepositoryImportError::TargetAuditFailed
    }
}

/// The bytes of one more path fit the budget.
proof fn one_more_path_fits(manifest: MarkerFreePhysicalManifest, events: Seq<TreeEvent<SeenChild>>, i: int, r: int)
    requires
        manifest.wf(),
        bounded(manifest),
        0 <= i < events.len(),
        forall|j: int| 0 <= j < i ==> #[trigger] exact_event(manifest, events, j),
        record_at(manifest, event_path(events, i), r),
        !met_before(events, event_path(events, i), i),
    ensures
        named_bytes(events, i) + event_path(events, i).len() <= MAX_PHYSICAL_PATH_BUDGET,
{
    let records = manifest.records@;
    let count = records.len() as int;
    let path = event_path(events, i);
    let marks = named_before(manifest, events, i);
    let more = |k: int| marks(k) || k == r;
    named_bytes_are_marked(manifest, events, i);
    assert(!marks(r)) by {
        if marks(r) {
            let j = choose|j: int| j < i && #[trigger] names_path(events, encode_utf8(records[r].path@), j);
            assert(met_before(events, path, i));
        }
    }
    one_mark_more(records, marks, more, r, count);
    marked_total_is_less(records, more, count);
}

/// The first event at which a tree differs decides the failure.
proof fn difference_decides(manifest: MarkerFreePhysicalManifest, events: Seq<TreeEvent<SeenChild>>, i: int)
    requires
        manifest.wf(),
        bounded(manifest),
        0 <= i < events.len(),
        forall|j: int| 0 <= j < i ==> #[trigger] exact_event(manifest, events, j),
        !exact_event(manifest, events, i),
    ensures
        event_error(manifest, events, i) == Some(
            difference_error(events, i, hashing_failed(manifest, events, i)),
        ),
{
    let path = event_path(events, i);
    if open_directories(events, i).len() > 0 && names_child(events, i) && exists|r: int| record_at(manifest, path, r) {
        let r = record_of(manifest, path);
        assert(record_at(manifest, path, r));
        if r == 0 {
            assert(path =~= Seq::<u8>::empty());
        }
        if !met_before(events, path, i) {
            one_more_path_fits(manifest, events, i, r);
            path_is_deep(manifest, events, i);
            assert forall|other: int| #[trigger] record_at(manifest, path, other) implies other == r by {
                record_is_unique(manifest, path, other, r);
            }
            if finds_record(manifest, events, i, r) && is_plain(events[i]->child) {
                assert(finds_plain_record(manifest, events, i, r));
            }
        }
    }
}

proof fn walk_stops_at(manifest: MarkerFreePhysicalManifest, events: Seq<TreeEvent<SeenChild>>, from: int, i: int)
    requires
        manifest.wf(),
        bounded(manifest),
        0 <= from <= i < events.len(),
        forall|j: int| 0 <= j < i ==> #[trigger] exact_event(manifest, events, j),
        event_error(manifest, events, i) is Some,
    ensures
        walk_error(manifest, events, from) == event_error(manifest, events, i),
    decreases i - from,
{
    if from < i {
        exact_event_passes(manifest, events, from);
        walk_stops_at(manifest, events, from + 1, i);
    }
}

/// What is wrong first with a candidate decides how it is refused. A root that cannot be looked at gives its
/// own failure. Another root, a root that is not plain, a name that no record has (an addition), something
/// that could not be opened as a plain directory or file (a link, a second name), another kind, identity, size
/// or content, other streams, a name that is met twice or is no text, and a directory that did not hold still
/// fail the audit, and so does a record that is not met (a deletion). Only where a file could not be hashed
/// does the failure of the hashing come out.
pub proof fn first_difference_decides(manifest: MarkerFreePhysicalManifest, seen: CurrentSighting, i: int)
    requires
        manifest.wf(),
        bounded(manifest),
        0 <= i <= seen.events@.len(),
        forall|j: int| 0 <= j < i ==> #[trigger] exact_event(manifest, seen.events@, j),
        i < seen.events@.len() ==> !exact_event(manifest, seen.events@, i),
    ensures
        match seen.root {
            Err(error) => current_error(manifest, seen) == Some(error),
            Ok(root) => if !root.same(manifest.root_identity) || !seen.root_plain {
                current_error(manifest, seen) == Some(RepositoryImportError::TargetAuditFailed)
            } else if i < seen.events@.len() {
                current_error(manifest, seen) == Some(
                    difference_error(seen.events@, i, hashing_failed(manifest, seen.events@, i)),
                )
            } else if !walk_complete(manifest, seen.events@) {
                current_error(manifest, seen) == Some(RepositoryImportError::TargetAuditFailed)
            } else {
                current_error(manifest, seen) is None
            },
        },
{
    if i < seen.events@.len() {
        difference_decides(manifest, seen.events@, i);
        walk_stops_at(manifest, seen.events@, 0, i);
    } else {
        exact_walk_passes(manifest, seen.events@, 0);
    }
}

/// Hashing fails for a file that is longer than a file of a candidate may be, at its start or at its end, and
/// the failure is the resource limit.
pub proof fn grown_file_is_a_limit(hashing: FileHashing, policy: NamespacePolicy, seen: FileSighting)
    requires
        seen.length matches Some(length) && length > MAX_PHYSICAL_FILE_BYTES,
        hashing.maximum_file_bytes == Some(MAX_PHYSICAL_FILE_BYTES),
    ensures
        hashing_start_error(seen, policy, Some(MAX_PHYSICAL_FILE_BYTES)) == Some(RepositoryImportError::ResourceLimit),
        hashing_end_error(hashing, seen) == Some(RepositoryImportError::ResourceLimit),
{
}

proof fn every_seal_passes(observation: PhysicalObservation, from: int, i: int)
    requires
        seals_error(observation.seals@, observation.folds@, observation.private_key@, frozen_limits(), from) is None,
        0 <= from <= i < observation.seals@.len(),
    ensures
        seal_path_verdict(observation.seals@, observation.folds@, observation.private_key@, frozen_limits(), i) is Ok,
    decreases i - from,
{
    if from < i {
        every_seal_passes(observation, from + 1, i);
    }
}

proof fn totals_agree(manifest: MarkerFreePhysicalManifest, observation: PhysicalObservation, n: int)
    requires
        0 <= n <= observation.seals@.len(),
        records_match_seals(
            manifest.records@,
            observation.root_identity,
            observation.seals@,
            observation.seals@.len() as int,
        ),
    ensures
        record_path_total(manifest.records@, n + 1) == seal_path_total(observation.seals@, n),
    decreases n,
{
    if n == 0 {
        assert(encode_utf8(manifest.records@[0].path@) =~= Seq::<u8>::empty());
        assert(record_path_total(manifest.records@, 0) == 0);
    } else {
        totals_agree(manifest, observation, n - 1);
        assert(manifest.records@[n - 1 + 1].path@ == observation.seals@[n - 1].relative_path@);
    }
}

/// A manifest that was collected is within the frozen bounds, so that the tree that it was collected from
/// passes as long as it stays as it is.
pub proof fn collected_manifest_is_bounded(manifest: MarkerFreePhysicalManifest, observation: PhysicalObservation)
    requires
        observation.refusal(frozen_limits()) is None,
        records_match_seals(
            manifest.records@,
            observation.root_identity,
            observation.seals@,
            observation.seals@.len() as int,
        ),
    ensures
        bounded(manifest),
{
    let seals = observation.seals@;
    let n = seals.len() as int;
    totals_agree(manifest, observation, n);
    if n > 0 {
        every_seal_passes(observation, 0, n - 1);
    }
    assert forall|r: int| 0 < r < manifest.records@.len() implies {
        let path = encode_utf8((#[trigger] manifest.records@[r]).path@);
        path.len() <= MAX_PHYSICAL_PATH_BYTES && split_pieces(path, SLASH).len() <= MAX_PHYSICAL_DEPTH
    } by {
        every_seal_passes(observation, 0, r - 1);
        assert(manifest.records@[r - 1 + 1].path@ == seals[r - 1].relative_path@);
    }
}

} // verus!
