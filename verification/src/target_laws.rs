//! What a target is made of, and what an audit of it means.

use crate::digest::sha256_of;
use crate::errors::RepositoryImportError;
use crate::git_object::typed_oid;
use crate::git_output::without_line_end;
use crate::held_reading::HeldFile;
use crate::hex::{hex_bytes, hex_text};
use crate::manifest::{NamespaceKind, NamespaceSeal};
use crate::path_parents::{has_slash_form, is_parent, joined_parts, slash_form};
use crate::portable_laws::slashed;
use crate::seal_records::ObjectKind;
use crate::source_endpoints::path_parts;
use crate::source_snapshot::namespaces_same;
use crate::target_audit::{bodies_error, is_audit_verdict, reread_error, TargetAudit, TargetRepository};
use crate::target_config::TargetConfigProfile;
use crate::target_construction::{index_records, TargetConstruction};
use crate::target_control::{control_as_expected, directory_listed, file_listed, marked_at};
use crate::target_objects::{TargetObjectExpectation, TargetTrackedEntry};
use crate::target_worktree::{
    allowed_directory, allowed_file, allowed_paths, found_as_allowed, TargetAllowlistEntry, WorktreeWalk,
};
use crate::text_map::TextMap;
use crate::tree_body::{mode_text, tree_body, TreeItem};
use crate::tree_place::{are_names, joined_facts, names_are_kept};
use vstd::prelude::*;
use vstd::string::*;
use vstd::utf8::{encode_utf8, is_ascii_chars_encode_utf8};

verus! {

/// The mode of a regular file and a space, in bytes.
pub open spec fn regular_mode_bytes() -> Seq<u8> {
    seq![0x31u8, 0x30, 0x30, 0x36, 0x34, 0x34, 0x20]
}

/// The mode of a tree and a space, in bytes.
pub open spec fn tree_mode_bytes() -> Seq<u8> {
    seq![0x34u8, 0x30, 0x30, 0x30, 0x30, 0x20]
}

proof fn modes()
    ensures
        encode_utf8("100644 "@) == regular_mode_bytes(),
        encode_utf8("40000 "@) == tree_mode_bytes(),
{
    reveal_strlit("100644 ");
    reveal_strlit("40000 ");
    is_ascii_chars_encode_utf8("100644 "@);
    is_ascii_chars_encode_utf8("40000 "@);
    assert(encode_utf8("100644 "@) =~= regular_mode_bytes());
    assert(encode_utf8("40000 "@) =~= tree_mode_bytes());
}

/// The record of a file that stands from `start` to `end` in what Git reads into its index: the mode of a
/// regular file, a space, the id of the blob, a tab, the path, and a zero byte.
pub open spec fn index_line(input: Seq<u8>, entry: TargetTrackedEntry, start: int, end: int) -> bool {
    &&& 0 <= start <= end <= input.len()
    &&& input.subrange(start, end) == seq![0x31u8, 0x30, 0x30, 0x36, 0x34, 0x34, 0x20] + encode_utf8(entry.blob_oid@) + seq![
        0x09u8,
    ] + encode_utf8(entry.relative_path@) + seq![0u8]
}

/// The records of the files stand one behind the other, and nothing stands between, before or behind them:
/// each begins where the one before ends.
pub open spec fn index_lines(input: Seq<u8>, entries: Seq<TargetTrackedEntry>, ends: Seq<int>) -> bool {
    &&& ends.len() == entries.len() + 1
    &&& ends[0] == 0
    &&& ends[entries.len() as int] == input.len()
    &&& forall|k: int| 0 <= k < entries.len() ==> index_line(input, #[trigger] entries[k], ends[k], ends[k + 1])
}

/// Where the first `n` records end.
spec fn line_end(entries: Seq<TargetTrackedEntry>, n: int) -> int {
    index_records(entries, n).len() as int
}

proof fn index_prefix(entries: Seq<TargetTrackedEntry>, m: int, n: int)
    requires
        0 <= m <= n <= entries.len(),
    ensures
        line_end(entries, m) <= line_end(entries, n),
        index_records(entries, n).subrange(0, line_end(entries, m)) == index_records(entries, m),
    decreases n - m,
{
    if m == n {
        assert(index_records(entries, n).subrange(0, line_end(entries, m)) =~= index_records(entries, m));
    } else {
        index_prefix(entries, m, n - 1);
        let all = index_records(entries, n);
        let before = index_records(entries, n - 1);
        assert(all.subrange(0, line_end(entries, m)) =~= before.subrange(0, line_end(entries, m)));
    }
}

/// What Git reads into the index of a target lists its files, one record each and nothing more: every file is
/// a regular one, under its own path, with the id of its own blob.
pub proof fn index_lists_regular_files(construction: TargetConstruction)
    requires
        construction.wf(),
    ensures
        exists|ends: Seq<int>| index_lines(construction.index_input@, construction.entries@, ends),
{
    let entries = construction.entries@;
    let input = construction.index_input@;
    let ends = Seq::new(entries.len() + 1, |k: int| line_end(entries, k));
    assert forall|k: int| 0 <= k < entries.len() implies index_line(input, #[trigger] entries[k], ends[k], ends[k + 1]) by {
        one_index_line(entries, k);
    }
    assert(index_lines(input, entries, ends));
}

proof fn one_index_line(entries: Seq<TargetTrackedEntry>, k: int)
    requires
        0 <= k < entries.len(),
    ensures
        index_line(
            index_records(entries, entries.len() as int),
            entries[k],
            line_end(entries, k),
            line_end(entries, k + 1),
        ),
{
    modes();
    let input = index_records(entries, entries.len() as int);
    let before = index_records(entries, k);
    let one_more = index_records(entries, k + 1);
    let line = crate::target_construction::index_record(entries[k]);
    index_prefix(entries, k + 1, entries.len() as int);
    assert(one_more == before + line);
    assert((before + line).subrange(before.len() as int, (before + line).len() as int) =~= line);
    assert(input.subrange(line_end(entries, k), line_end(entries, k + 1)) =~= input.subrange(
        0,
        line_end(entries, k + 1),
    ).subrange(before.len() as int, one_more.len() as int));
}

/// A tree lists a file under the mode with which the index lists it, and a tree under the mode of trees;
/// behind the mode and a space stand the name, a zero byte, and the twenty bytes of the id.
pub proof fn trees_list_modes(items: Seq<TreeItem>, i: int)
    requires
        0 <= i < items.len(),
    ensures
        tree_body(items, i + 1) == tree_body(items, i) + (if items[i].directory {
            seq![0x34u8, 0x30, 0x30, 0x30, 0x30, 0x20]
        } else {
            seq![0x31u8, 0x30, 0x30, 0x36, 0x34, 0x34, 0x20]
        } + items[i].name + seq![0u8] + hex_bytes(items[i].oid)),
        tree_body(items, 0) == Seq::<u8>::empty(),
        encode_utf8(mode_text(false)) == seq![0x31u8, 0x30, 0x30, 0x36, 0x34, 0x34, 0x20],
{
    modes();
}

/// A path of ordinary names is its own slash form.
pub proof fn ordinary_paths_are_their_own_form(names: Seq<Seq<u8>>)
    requires
        names.len() > 0,
        forall|k: int|
            0 <= k < names.len() ==> (#[trigger] names[k]).len() > 0 && !names[k].contains(0x2f) && names[k] != seq![0x2eu8]
                && names[k] != seq![0x2eu8, 0x2eu8],
    ensures
        has_slash_form(slashed(names)),
        slash_form(slashed(names)) == slashed(names),
        path_parts(slashed(names)) == names,
{
    let n = names.len() as int;
    assert(crate::git_output::dot() =~= seq![0x2eu8]);
    assert(are_names(names, n));
    slashed_is_joined(names, n);
    assert(names.subrange(0, n) =~= names);
    joined_facts(names, n);
    names_are_kept(names, n);
    assert(path_parts(slashed(names)) == names);
    first_byte(names);
}

proof fn slashed_is_joined(names: Seq<Seq<u8>>, n: int)
    requires
        1 <= n <= names.len(),
    ensures
        joined_parts(names, n) == slashed(names.subrange(0, n)),
    decreases n,
{
    if n > 1 {
        slashed_is_joined(names, n - 1);
        assert(names.subrange(0, n).drop_last() =~= names.subrange(0, n - 1));
    }
}

proof fn first_byte(names: Seq<Seq<u8>>)
    requires
        names.len() > 0,
        names[0].len() > 0,
        !names[0].contains(0x2f),
    ensures
        slashed(names).len() > 0,
        slashed(names)[0] == names[0][0],
        slashed(names)[0] != 0x2f,
    decreases names.len(),
{
    assert(names[0].contains(names[0][0]));
    if names.len() > 1 {
        first_byte(names.drop_last());
    }
}

/// A worktree that is found as allowed holds no stray file and misses none: every file that was found is the
/// slash form of one of the paths, and the slash form of every path was found as a file. Where the paths are
/// of ordinary names, the files are exactly the paths.
pub proof fn found_files_are_the_tracked_ones<T: TargetAllowlistEntry>(walk: WorktreeWalk, paths: Seq<T>)
    requires
        found_as_allowed(walk, allowed_paths(paths, paths.len() as int)),
    ensures
        forall|file: Seq<char>| #[trigger]
            walk.files@.dom().contains(file) ==> exists|i: int|
                0 <= i < paths.len() && encode_utf8(file) == slash_form(encode_utf8((#[trigger] paths[i]).path())),
        forall|i: int, file: Seq<char>|
            0 <= i < paths.len() && has_slash_form(encode_utf8((#[trigger] paths[i]).path())) && #[trigger] encode_utf8(file)
                == slash_form(encode_utf8(paths[i].path())) ==> walk.files@.dom().contains(file),
        forall|i: int|
            0 <= i < paths.len() && has_slash_form(encode_utf8((#[trigger] paths[i]).path())) && slash_form(
                encode_utf8(paths[i].path()),
            ) == encode_utf8(paths[i].path()) ==> walk.files@.dom().contains(paths[i].path()),
{
    let allowed = allowed_paths(paths, paths.len() as int);
    assert forall|file: Seq<char>| #[trigger] walk.files@.dom().contains(file) implies exists|i: int|
        0 <= i < paths.len() && encode_utf8(file) == slash_form(encode_utf8((#[trigger] paths[i]).path())) by {
        assert(allowed_file(allowed, file));
        let path = choose|path: Seq<char>| #[trigger]
            allowed.contains(path) && crate::target_worktree::joins_to(encode_utf8(path), encode_utf8(file));
        let i = choose|i: int| 0 <= i < paths.len() && (#[trigger] paths[i]).path() == path;
        assert(encode_utf8(file) == slash_form(encode_utf8(paths[i].path())));
    }
    assert forall|i: int, file: Seq<char>|
        0 <= i < paths.len() && has_slash_form(encode_utf8((#[trigger] paths[i]).path())) && #[trigger] encode_utf8(file)
            == slash_form(encode_utf8(paths[i].path())) implies walk.files@.dom().contains(file) by {
        assert(allowed.contains(paths[i].path()));
        assert(crate::target_worktree::joins_to(encode_utf8(paths[i].path()), encode_utf8(file)));
        assert(allowed_file(allowed, file));
    }
}

/// The directories of a worktree that is found as allowed are those above the paths, and no others: every
/// directory that was found is made of the first names of one of the paths, but not of all; and every such
/// directory was found.
pub proof fn found_directories_are_above_the_tracked_files<T: TargetAllowlistEntry>(walk: WorktreeWalk, paths: Seq<T>)
    requires
        found_as_allowed(walk, allowed_paths(paths, paths.len() as int)),
    ensures
        forall|directory: Seq<char>| #[trigger]
            walk.directories@.dom().contains(directory) ==> exists|i: int, k: int|
                0 <= i < paths.len() && 1 <= k < path_parts(encode_utf8((#[trigger] paths[i]).path())).len() && encode_utf8(
                    directory,
                ) == slashed(#[trigger] path_parts(encode_utf8(paths[i].path())).subrange(0, k)),
        forall|i: int, k: int, directory: Seq<char>|
            0 <= i < paths.len() && 1 <= k < path_parts(encode_utf8((#[trigger] paths[i]).path())).len()
                && #[trigger] encode_utf8(directory) == slashed(
                #[trigger] path_parts(encode_utf8(paths[i].path())).subrange(0, k),
            ) ==> walk.directories@.dom().contains(directory),
{
    let allowed = allowed_paths(paths, paths.len() as int);
    assert forall|directory: Seq<char>| #[trigger] walk.directories@.dom().contains(directory) implies exists|i: int, k: int|
        0 <= i < paths.len() && 1 <= k < path_parts(encode_utf8((#[trigger] paths[i]).path())).len() && encode_utf8(directory)
            == slashed(#[trigger] path_parts(encode_utf8(paths[i].path())).subrange(0, k)) by {
        assert(allowed_directory(allowed, directory));
        let path = choose|path: Seq<char>| #[trigger]
            allowed.contains(path) && is_parent(encode_utf8(directory), encode_utf8(path));
        let i = choose|i: int| 0 <= i < paths.len() && (#[trigger] paths[i]).path() == path;
        let parts = path_parts(encode_utf8(paths[i].path()));
        let k = choose|k: int| 1 <= k < parts.len() && encode_utf8(directory) == #[trigger] joined_parts(parts, k);
        slashed_is_joined(parts, k);
        assert(encode_utf8(directory) == slashed(parts.subrange(0, k)));
    }
    assert forall|i: int, k: int, directory: Seq<char>|
        0 <= i < paths.len() && 1 <= k < path_parts(encode_utf8((#[trigger] paths[i]).path())).len()
            && #[trigger] encode_utf8(directory) == slashed(
            #[trigger] path_parts(encode_utf8(paths[i].path())).subrange(0, k),
        ) implies walk.directories@.dom().contains(directory) by {
        let parts = path_parts(encode_utf8(paths[i].path()));
        slashed_is_joined(parts, k);
        assert(encode_utf8(directory) == joined_parts(parts, k));
        assert(allowed.contains(paths[i].path()));
        assert(is_parent(encode_utf8(directory), encode_utf8(paths[i].path())));
        assert(allowed_directory(allowed, directory));
    }
}

/// A stray file makes an audit fail, with the marker or without: where a walk found a file that is the slash
/// form of no tracked path, no audit passes.
pub proof fn stray_files_fail_an_audit(
    r: Result<(), RepositoryImportError>,
    opened: Result<TextMap<TargetObjectExpectation>, RepositoryImportError>,
    audit: TargetAudit,
    expected: TargetRepository,
    profile: TargetConfigProfile<'_>,
    marker: Option<Seq<char>>,
    stray: Seq<char>,
)
    requires
        is_audit_verdict(r, opened, audit, expected, profile, marker),
        (audit.opening.walk matches Ok(walk) && walk.files@.dom().contains(stray)) || (
        audit.closing.worktree.walk matches Ok(walk) && walk.files@.dom().contains(stray)),
        forall|i: int|
            0 <= i < expected.entries@.len() ==> encode_utf8(stray) != slash_form(
                encode_utf8((#[trigger] expected.entries@[i]).relative_path@),
            ),
    ensures
        r is Err,
{
    if r is Ok {
        let entries = expected.entries@;
        found_files_are_the_tracked_ones(audit.opening.walk->Ok_0, entries);
        found_files_are_the_tracked_ones(audit.closing.worktree.walk->Ok_0, entries);
        let i = choose|i: int|
            0 <= i < entries.len() && encode_utf8(stray) == slash_form(encode_utf8((#[trigger] entries[i]).path()));
        assert(encode_utf8(stray) != slash_form(encode_utf8(entries[i].relative_path@)));
    }
}

/// A body is that of a tracked file: it has the file's size and digest, was read from the file's own inode,
/// and is the blob of the file's id.
pub open spec fn body_of(entry: TargetTrackedEntry, held: HeldFile) -> bool {
    &&& held.bytes@.len() == entry.size
    &&& sha256_of(held.bytes@) == entry.sha256@
    &&& held.identity.scheme == entry.identity.scheme
    &&& held.identity.wire@ == entry.identity.wire@
}

proof fn bodies_were_read(
    entries: Seq<TargetTrackedEntry>,
    bodies: Seq<Result<HeldFile, RepositoryImportError>>,
    from: int,
    k: int,
)
    requires
        0 <= from <= k < entries.len(),
        bodies_error(entries, bodies, from) is None,
    ensures
        k < bodies.len(),
        bodies[k] matches Ok(held) && body_of(entries[k], held) && held.bytes@.len() <= 71_303_168 && encode_utf8(
            entries[k].blob_oid@,
        ) == hex_text(typed_oid(ObjectKind::Blob, held.bytes@.len() as u64, held.bytes@)),
    decreases k - from,
{
    if from < k {
        bodies_were_read(entries, bodies, from + 1, k);
    }
}

proof fn bodies_were_read_again(
    entries: Seq<TargetTrackedEntry>,
    bodies: Seq<Result<HeldFile, RepositoryImportError>>,
    from: int,
    k: int,
)
    requires
        0 <= from <= k < entries.len(),
        reread_error(entries, bodies, from) is None,
    ensures
        k < bodies.len(),
        bodies[k] matches Ok(held) && body_of(entries[k], held),
    decreases k - from,
{
    if from < k {
        bodies_were_read_again(entries, bodies, from + 1, k);
    }
}

/// An audit that passes read every tracked file twice, and both times it was what was recorded; Git answered
/// that the objects are SHA-1, that `HEAD` leads to the recorded commit over `refs/heads/main`, and that this
/// is the only reference; no reference log was there; and the root was the recorded directory before, when
/// the worktree was looked at again, and at the end.
pub proof fn passed_audit_read_every_file(
    opened: Result<TextMap<TargetObjectExpectation>, RepositoryImportError>,
    audit: TargetAudit,
    expected: TargetRepository,
    profile: TargetConfigProfile<'_>,
    marker: Option<Seq<char>>,
)
    requires
        is_audit_verdict(Ok(()), opened, audit, expected, profile, marker),
    ensures
        audit.opening.root is Ok,
        audit.opening.runner is Ok,
        audit.conversation is Ok,
        audit.opening.root_identity matches Some(identity) && identity.scheme == expected.root_identity.scheme
            && identity.wire@ == expected.root_identity.wire@,
        audit.closing.worktree.identity_before matches Some(identity) && identity.scheme == expected.root_identity.scheme
            && identity.wire@ == expected.root_identity.wire@,
        audit.closing.worktree.identity_after matches Some(identity) && identity.scheme == expected.root_identity.scheme
            && identity.wire@ == expected.root_identity.wire@,
        forall|k: int|
            0 <= k < expected.entries@.len() ==> {
                &&& k < audit.opening.bodies@.len() && k < audit.closing.worktree.bodies@.len()
                &&& audit.opening.bodies@[k] matches Ok(held) && body_of(#[trigger] expected.entries@[k], held) && encode_utf8(
                    expected.entries@[k].blob_oid@,
                ) == hex_text(typed_oid(ObjectKind::Blob, held.bytes@.len() as u64, held.bytes@))
                &&& audit.closing.worktree.bodies@[k] matches Ok(held) && body_of(expected.entries@[k], held)
            },
        audit.opening.raw_index matches Ok(index) && index.summary.oids@.len() == expected.entries@.len() && forall|k: int|
            0 <= k < expected.entries@.len() ==> hex_text(index.summary.oids@[k]@) == encode_utf8(
                (#[trigger] expected.entries@[k]).blob_oid@,
            ),
        audit.opening.answers.object_format matches Ok(bytes) && without_line_end(bytes@) == encode_utf8("sha1"@),
        audit.opening.answers.head matches Ok(bytes) && without_line_end(bytes@) == encode_utf8(expected.root_commit_oid@),
        audit.opening.answers.head_file matches Ok(bytes) && bytes@ == encode_utf8("ref: refs/heads/main\n"@),
        audit.opening.answers.refs matches Ok(bytes) && bytes@ == encode_utf8("refs/heads/main\n"@),
        audit.opening.answers.config is Ok,
        !audit.opening.answers.logs_present,
{
    let entries = expected.entries@;
    assert forall|k: int| 0 <= k < entries.len() implies {
        &&& k < audit.opening.bodies@.len() && k < audit.closing.worktree.bodies@.len()
        &&& audit.opening.bodies@[k] matches Ok(held) && body_of(#[trigger] entries[k], held) && encode_utf8(
            entries[k].blob_oid@,
        ) == hex_text(typed_oid(ObjectKind::Blob, held.bytes@.len() as u64, held.bytes@))
        &&& audit.closing.worktree.bodies@[k] matches Ok(held) && body_of(entries[k], held)
    } by {
        bodies_were_read(entries, audit.opening.bodies@, 0, k);
        bodies_were_read_again(entries, audit.closing.worktree.bodies@, 0, k);
    }
    let index = audit.opening.raw_index->Ok_0;
    assert forall|k: int| 0 <= k < entries.len() implies hex_text(index.summary.oids@[k]@) == encode_utf8(
        (#[trigger] entries[k]).blob_oid@,
    ) by {
        crate::hex::hex_text_round_trip(encode_utf8(entries[k].blob_oid@));
    }
}

/// Two inventories agree entry by entry: in path, kind, identity, size and digest.
pub open spec fn inventories_agree(a: Seq<NamespaceSeal>, b: Seq<NamespaceSeal>) -> bool {
    &&& a.len() == b.len()
    &&& forall|i: int|
        0 <= i < a.len() ==> {
            &&& (#[trigger] a[i]).relative_path@ == b[i].relative_path@
            &&& a[i].size == b[i].size
            &&& a[i].sha256 is Some == b[i].sha256 is Some
            &&& a[i].sha256 is Some ==> a[i].sha256->0@ == b[i].sha256->0@
            &&& match (a[i].kind, b[i].kind) {
                (NamespaceKind::Directory(x), NamespaceKind::Directory(y)) => x.scheme == y.scheme && x.wire@ == y.wire@,
                (NamespaceKind::File(x), NamespaceKind::File(y)) => x.scheme == y.scheme && x.wire@ == y.wire@,
                _ => false,
            }
        }
}

/// To be the same inventory is to agree entry by entry.
pub proof fn same_inventories_agree(a: Seq<NamespaceSeal>, b: Seq<NamespaceSeal>)
    ensures
        namespaces_same(a, b) == inventories_agree(a, b),
{
    if namespaces_same(a, b) {
        assert forall|i: int| 0 <= i < a.len() implies {
            &&& (#[trigger] a[i]).relative_path@ == b[i].relative_path@
            &&& a[i].size == b[i].size
            &&& a[i].sha256 is Some == b[i].sha256 is Some
            &&& a[i].sha256 is Some ==> a[i].sha256->0@ == b[i].sha256->0@
            &&& match (a[i].kind, b[i].kind) {
                (NamespaceKind::Directory(x), NamespaceKind::Directory(y)) => x.scheme == y.scheme && x.wire@ == y.wire@,
                (NamespaceKind::File(x), NamespaceKind::File(y)) => x.scheme == y.scheme && x.wire@ == y.wire@,
                _ => false,
            }
        } by {
            assert(crate::source_snapshot::seal_same(a[i], b[i]));
        }
    }
    if inventories_agree(a, b) {
        assert forall|i: int| 0 <= i < a.len() implies crate::source_snapshot::seal_same(#[trigger] a[i], b[i]) by {
            assert(a[i].relative_path@ == b[i].relative_path@);
        }
    }
}

/// An audit that passes found the control directory twice as it was recorded, with the index that was read in
/// it, and the private directory: without a marker as it was recorded, which is the empty lock alone; with a
/// marker as it was recorded but for one file more, of sixteen bytes, under the name of the marker.
pub proof fn passed_audit_found_the_recorded_directories(
    opened: Result<TextMap<TargetObjectExpectation>, RepositoryImportError>,
    audit: TargetAudit,
    expected: TargetRepository,
    profile: TargetConfigProfile<'_>,
    marker: Option<Seq<char>>,
)
    requires
        is_audit_verdict(Ok(()), opened, audit, expected, profile, marker),
    ensures
        audit.opening.git_control matches Ok(seals) && inventories_agree(seals@, expected.git_control@),
        audit.closing.git_control matches Ok(seals) && inventories_agree(seals@, expected.git_control@),
        marker is None ==> (audit.closing.private_control matches Ok(seals) && inventories_agree(
            seals@,
            expected.private_control@,
        ) && seals@.len() == 1 && seals@[0].relative_path@ == "mutation.lock"@ && seals@[0].kind is File && seals@[0].size == 0
            && seals@[0].sha256->0@ == sha256_of(Seq::<u8>::empty())),
        marker matches Some(name) ==> (audit.closing.private_control matches Ok(seals) && exists|i: int|
            {
                &&& 0 <= i < seals@.len()
                &&& (#[trigger] seals@[i]).relative_path@ == name
                &&& seals@[i].kind is File
                &&& seals@[i].size == 16
                &&& seals@[i].sha256 is Some
                &&& inventories_agree(seals@.remove(i), expected.private_control@)
            }),
{
    same_inventories_agree(audit.opening.git_control->Ok_0@, expected.git_control@);
    same_inventories_agree(audit.closing.git_control->Ok_0@, expected.git_control@);
    let private = audit.closing.private_control->Ok_0@;
    match marker {
        None => {
            same_inventories_agree(private, expected.private_control@);
        },
        Some(name) => {
            let i = choose|i: int| #[trigger] marked_at(private, expected.private_control@, name, i);
            same_inventories_agree(private.remove(i), expected.private_control@);
            assert(private[i].relative_path@ == name);
        },
    }
}

/// A path of the control directory of a target with given objects, and whether it is a directory: the six
/// directories of every repository, the empty hooks, `HEAD`, the configuration, the index, the branch, and
/// for every object its directory and its file, which are cut from the forty digits of its id.
pub open spec fn belongs_to_control(oids: Set<Seq<char>>, path: Seq<char>, directory: bool) -> bool {
    if directory {
        ||| path == "objects"@ || path == "objects/info"@ || path == "objects/pack"@
        ||| path == "refs"@ || path == "refs/heads"@ || path == "refs/tags"@
        ||| path == "inex-empty-hooks"@
        ||| exists|oid: Seq<char>| #[trigger]
            oids.contains(oid) && encode_utf8(path) == encode_utf8("objects/"@) + encode_utf8(oid).subrange(0, 2)
    } else {
        ||| path == "HEAD"@ || path == "config"@ || path == "index"@ || path == "refs/heads/main"@
        ||| exists|oid: Seq<char>| #[trigger]
            oids.contains(oid) && encode_utf8(path) == encode_utf8("objects/"@) + encode_utf8(oid).subrange(0, 2) + seq![
                0x2fu8,
            ] + encode_utf8(oid).subrange(2, encode_utf8(oid).len() as int)
    }
}

/// The control directory of a target holds what belongs to it, each thing under its path, and nothing else.
pub proof fn control_directories_hold_what_belongs_to_them(seals: Seq<NamespaceSeal>, oids: Set<Seq<char>>)
    ensures
        control_as_expected(seals, oids) <==> {
            &&& forall|oid: Seq<char>| #[trigger]
                oids.contains(oid) ==> encode_utf8(oid).len() == 40 && forall|i: int|
                    0 <= i < 40 ==> 0x30 <= #[trigger] encode_utf8(oid)[i] <= 0x39 || 0x61 <= encode_utf8(oid)[i] <= 0x66
            &&& forall|path: Seq<char>, directory: bool| #[trigger]
                belongs_to_control(oids, path, directory) <==> exists|i: int|
                    0 <= i < seals.len() && (#[trigger] seals[i]).relative_path@ == path && (seals[i].kind is Directory)
                        == directory
        },
{
    let n = seals.len() as int;
    assert forall|path: Seq<char>| #[trigger] directory_listed(seals, path, n) == exists|i: int|
        0 <= i < seals.len() && (#[trigger] seals[i]).relative_path@ == path && (seals[i].kind is Directory) == true by {
        if directory_listed(seals, path, n) {
            let i = choose|i: int| 0 <= i < n && (#[trigger] seals[i]).kind is Directory && seals[i].relative_path@ == path;
            assert(seals[i].relative_path@ == path);
        }
    }
    assert forall|path: Seq<char>| #[trigger] file_listed(seals, path, n) == exists|i: int|
        0 <= i < seals.len() && (#[trigger] seals[i]).relative_path@ == path && (seals[i].kind is Directory) == false by {
        if file_listed(seals, path, n) {
            let i = choose|i: int| 0 <= i < n && (#[trigger] seals[i]).kind is File && seals[i].relative_path@ == path;
            assert(seals[i].relative_path@ == path);
        }
        if exists|i: int|
            0 <= i < seals.len() && (#[trigger] seals[i]).relative_path@ == path && (seals[i].kind is Directory) == false {
            let i = choose|i: int|
                0 <= i < seals.len() && (#[trigger] seals[i]).relative_path@ == path && (seals[i].kind is Directory) == false;
            assert(seals[i].kind is File);
        }
    }
    assert forall|path: Seq<char>| crate::target_control::expected_control_directory(oids, path) == #[trigger]
    belongs_to_control(oids, path, true) by {
        if crate::target_control::fans_out_to(oids, path) {
            let oid = choose|oid: Seq<char>| #[trigger]
                oids.contains(oid) && encode_utf8(path) == crate::target_control::fanout_of(encode_utf8(oid));
            assert(oids.contains(oid));
        }
    }
    assert forall|path: Seq<char>| crate::target_control::expected_control_file(oids, path) == #[trigger] belongs_to_control(
        oids,
        path,
        false,
    ) by {
        if crate::target_control::lies_loose_at(oids, path) {
            let oid = choose|oid: Seq<char>| #[trigger]
                oids.contains(oid) && encode_utf8(path) == crate::target_control::loose_file_of(encode_utf8(oid));
            assert(oids.contains(oid));
        }
    }
    assert forall|oid: Seq<char>| crate::git_output::sha1_text(#[trigger] encode_utf8(oid)) == (encode_utf8(oid).len() == 40
        && forall|i: int|
        0 <= i < 40 ==> 0x30 <= #[trigger] encode_utf8(oid)[i] <= 0x39 || 0x61 <= encode_utf8(oid)[i] <= 0x66) by {
        let text = encode_utf8(oid);
        if text.len() == 40 && (forall|i: int| 0 <= i < 40 ==> 0x30 <= #[trigger] text[i] <= 0x39 || 0x61 <= text[i] <= 0x66) {
            assert(crate::hex::all_lower_hex(text));
        }
        if crate::git_output::sha1_text(text) {
            assert forall|i: int| 0 <= i < 40 implies 0x30 <= #[trigger] text[i] <= 0x39 || 0x61 <= text[i] <= 0x66 by {
                assert(crate::hex::lower_hex_byte(text[i]));
            }
        }
    }
    if control_as_expected(seals, oids) {
        assert forall|path: Seq<char>, directory: bool| #[trigger] belongs_to_control(oids, path, directory) <==> exists|i: int|
            0 <= i < seals.len() && (#[trigger] seals[i]).relative_path@ == path && (seals[i].kind is Directory) == directory by {
            assert(directory_listed(seals, path, n) == crate::target_control::expected_control_directory(oids, path));
            assert(file_listed(seals, path, n) == crate::target_control::expected_control_file(oids, path));
            if directory {
                assert(belongs_to_control(oids, path, true) == directory_listed(seals, path, n));
            } else {
                assert(belongs_to_control(oids, path, false) == file_listed(seals, path, n));
            }
        }
    }
    if forall|path: Seq<char>, directory: bool| #[trigger]
        belongs_to_control(oids, path, directory) <==> exists|i: int|
            0 <= i < seals.len() && (#[trigger] seals[i]).relative_path@ == path && (seals[i].kind is Directory) == directory {
        assert forall|path: Seq<char>| #[trigger] directory_listed(seals, path, n)
            == crate::target_control::expected_control_directory(oids, path) by {
            assert(belongs_to_control(oids, path, true) == directory_listed(seals, path, n));
        }
        assert forall|path: Seq<char>| #[trigger] file_listed(seals, path, n)
            == crate::target_control::expected_control_file(oids, path) by {
            assert(belongs_to_control(oids, path, false) == file_listed(seals, path, n));
        }
    }
}

} // verus!
