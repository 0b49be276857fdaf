//! The trees of a target, built from its files.

use crate::bytes::{lex_less, lex_less_irreflexive, lex_less_transitive, lex_less_trichotomy};
use crate::digest::{sha256_digest, sha256_of};
use crate::errors::RepositoryImportError;
use crate::git_object::{typed_object_oid, typed_oid};
use crate::git_output::{dot, require_sha1_oid, sha1_text};
use crate::hex::{hex_bytes, hex_text};
use crate::path_parents::{all_parents_join, directory_above, expected_target_tree_directories};
use crate::portable_path::SLASH;
use crate::seal_records::ObjectKind;
use crate::sorting::{
    ascending_list_is_unique, ascends_by, keys_differ, keys_differ_in_any_order, keys_in_order, reordered_items,
    sorted_keys_ascend, Keyed,
};
use crate::source_tree::oid_string;
use crate::text::encoding_is_injective;
use crate::text_map::{entry_in_view, key_index, key_is_unique, TextEntry, TextMap};
use crate::tree_body::{
    mode_text, neighbours_share_name, same_name_at, serialize_canonical_tree, tree_body, tree_error, tree_items,
    tree_items_error, tree_key, CanonicalTreeEntry, TreeItem, MAX_TARGET_OBJECT_BYTES,
};
use crate::tree_path::{
    above_is_above, all_file_paths, file_name_facts, file_path, holds_path, last_slash, lies_below, lies_below_is_plain, name_of,
    parent_facts, parent_of, plain_path, rooted_dot, rooted_dot_facts, target_tree_depth, target_tree_parent_and_name,
    tree_depth,
};
use crate::tree_place::{all_placed, has_place, place_is_file_path, placed_paths};
use vstd::prelude::*;
use vstd::string::*;
use vstd::utf8::{encode_utf8, is_ascii_chars_encode_utf8};

verus! {

/// The object of one tree.
pub struct CanonicalTreeObject {
    pub oid: String,
    pub size: u64,
    pub sha256: [u8; 32],
}

/// The files of a target: object id and size by path.
pub type TargetBlobs = Map<Seq<char>, (String, u64)>;

/// The trees of a target by the paths of their directories.
pub type TargetTrees = Map<Seq<char>, CanonicalTreeObject>;

/// `item` is the entry for `path` in the tree of `directory`.
pub open spec fn item_at(blobs: TargetBlobs, trees: TargetTrees, directory: Seq<char>, item: TreeItem, path: Seq<char>) -> bool {
    &&& encode_utf8(path).len() > 0
    &&& parent_of(encode_utf8(path)) == encode_utf8(directory)
    &&& name_of(encode_utf8(path)) == item.name
    &&& if item.directory {
        holds_path(blobs.dom(), path) && item.oid == encode_utf8(trees[path].oid@)
    } else {
        blobs.dom().contains(path) && item.oid == encode_utf8(blobs[path].0@)
    }
}

/// `item` is an entry of the tree of `directory`: it stands for a file or a directory directly in it.
pub open spec fn item_of(blobs: TargetBlobs, trees: TargetTrees, directory: Seq<char>, item: TreeItem) -> bool {
    exists|path: Seq<char>| #[trigger] item_at(blobs, trees, directory, item, path)
}

/// What an entry is ordered by.
pub open spec fn item_key(item: TreeItem) -> Seq<u8> {
    tree_key(item.name, item.directory)
}

/// The entries are in strictly ascending order.
pub open spec fn items_ascend(items: Seq<TreeItem>) -> bool {
    forall|i: int, j: int| 0 <= i < j < items.len() ==> lex_less(item_key(#[trigger] items[i]), item_key(#[trigger] items[j]))
}

/// The entries of the tree of `directory`, in their order.
pub open spec fn lists_directory(listing: Seq<TreeItem>, blobs: TargetBlobs, trees: TargetTrees, directory: Seq<char>) -> bool {
    items_ascend(listing) && forall|item: TreeItem| #[trigger]
        listing.contains(item) <==> item_of(blobs, trees, directory, item)
}

/// `object` is the tree with these entries.
pub open spec fn is_tree_of(object: CanonicalTreeObject, listing: Seq<TreeItem>) -> bool {
    let body = tree_body(listing, listing.len() as int);
    &&& encode_utf8(object.oid@) == hex_text(typed_oid(ObjectKind::Tree, body.len() as u64, body))
    &&& object.size == body.len()
    &&& object.sha256@ == sha256_of(body)
}

/// The tree of `directory` holds what lies in it.
pub open spec fn tree_holds(blobs: TargetBlobs, trees: TargetTrees, directory: Seq<char>) -> bool {
    exists|listing: Seq<TreeItem>| #[trigger]
        lists_directory(listing, blobs, trees, directory) && is_tree_of(trees[directory], listing)
}

/// There is one tree for each directory, and each holds what lies in its directory.
pub open spec fn are_canonical_trees(blobs: TargetBlobs, trees: TargetTrees) -> bool {
    &&& forall|directory: Seq<char>| #[trigger] trees.dom().contains(directory) <==> holds_path(blobs.dom(), directory)
    &&& forall|directory: Seq<char>| #[trigger] trees.dom().contains(directory) ==> tree_holds(blobs, trees, directory)
}

/// Something called `item.name` lies directly in `directory`, at `path`.
pub open spec fn name_at(paths: Set<Seq<char>>, directory: Seq<char>, item: TreeItem, path: Seq<char>) -> bool {
    &&& encode_utf8(path).len() > 0
    &&& parent_of(encode_utf8(path)) == encode_utf8(directory)
    &&& name_of(encode_utf8(path)) == item.name
    &&& if item.directory {
        holds_path(paths, path)
    } else {
        paths.contains(path)
    }
}

/// The names directly in `directory`, in their order; the object ids are left empty.
pub open spec fn lists_names(listing: Seq<TreeItem>, paths: Set<Seq<char>>, directory: Seq<char>) -> bool {
    items_ascend(listing) && forall|item: TreeItem| #[trigger]
        listing.contains(item) <==> item.oid.len() == 0 && exists|path: Seq<char>| #[trigger]
            name_at(paths, directory, item, path)
}

/// The length of a tree with the first `n` entries.
pub open spec fn listing_length(items: Seq<TreeItem>, n: int) -> nat
    decreases n,
{
    if n <= 0 {
        0
    } else {
        listing_length(items, n - 1) + encode_utf8(mode_text(items[n - 1].directory)).len() + items[n - 1].name.len() + 21
    }
}

/// Both `.` and `/.` are among the paths: two files have one name in the root.
pub open spec fn dot_twice(paths: Set<Seq<char>>) -> bool {
    paths.contains(seq!['.']) && paths.contains(seq!['/', '.'])
}

/// Why `directory` has no tree, if it has none: two files of one name lie in it, a file and a directory of
/// one name are neighbours in its order, the tree would be too long, or the directory's own name holds a
/// zero byte.
pub open spec fn directory_error(paths: Set<Seq<char>>, directory: Seq<char>) -> Option<RepositoryImportError> {
    let names = choose|names: Seq<TreeItem>| lists_names(names, paths, directory);
    if encode_utf8(directory).len() == 0 && dot_twice(paths) {
        Some(RepositoryImportError::TargetAuditFailed)
    } else if neighbours_share_name(names) {
        Some(RepositoryImportError::TargetAuditFailed)
    } else if listing_length(names, names.len() as int) > MAX_TARGET_OBJECT_BYTES {
        Some(RepositoryImportError::ResourceLimit)
    } else if name_of(encode_utf8(directory)).contains(0) {
        Some(RepositoryImportError::TargetAuditFailed)
    } else {
        None
    }
}

/// `a` is built before `b`: it is deeper, or as deep and earlier in the order of the bytes.
pub open spec fn built_before(a: Seq<char>, b: Seq<char>) -> bool {
    tree_depth(encode_utf8(a)) > tree_depth(encode_utf8(b)) || (tree_depth(encode_utf8(a)) == tree_depth(encode_utf8(b))
        && lex_less(encode_utf8(a), encode_utf8(b)))
}

/// `directory` is the first one that has no tree.
pub open spec fn fails_first(paths: Set<Seq<char>>, directory: Seq<char>) -> bool {
    &&& holds_path(paths, directory)
    &&& directory_error(paths, directory) is Some
    &&& forall|other: Seq<char>| #[trigger]
        holds_path(paths, other) && built_before(other, directory) ==> directory_error(paths, other) is None
}

/// Every path has its place in a tree, and every object id is one.
pub open spec fn usable_blobs(blobs: TargetBlobs) -> bool {
    all_placed(blobs.dom()) && forall|path: Seq<char>| #[trigger]
        blobs.dom().contains(path) ==> sha1_text(encode_utf8(blobs[path].0@))
}

// What has been handed out to the directories so far: for each file and each finished directory, its
// object id.

/// An entry stands for `path`, in the tree of `directory`.
spec fn stands_for(
    entry: CanonicalTreeEntry,
    placed: Map<(Seq<char>, bool), Seq<u8>>,
    path: Seq<char>,
    directory: Seq<char>,
) -> bool {
    &&& placed.dom().contains((path, entry.directory))
    &&& parent_of(encode_utf8(path)) == encode_utf8(directory)
    &&& name_of(encode_utf8(path)) == encode_utf8(entry.name@)
    &&& placed[(path, entry.directory)] == encode_utf8(entry.oid@)
}

/// An entry stands for something in `directory`.
spec fn stands(entry: CanonicalTreeEntry, placed: Map<(Seq<char>, bool), Seq<u8>>, directory: Seq<char>) -> bool {
    exists|path: Seq<char>| stands_for(entry, placed, path, directory)
}

/// Some entry stands for `path`.
spec fn listed_for(
    entries: Seq<CanonicalTreeEntry>,
    placed: Map<(Seq<char>, bool), Seq<u8>>,
    path: Seq<char>,
    folder: bool,
    directory: Seq<char>,
) -> bool {
    exists|m: int|
        0 <= m < entries.len() && (#[trigger] entries[m]).directory == folder && stands_for(entries[m], placed, path, directory)
}

/// Both `.` and `/.` were placed.
spec fn dot_placed_twice(placed: Map<(Seq<char>, bool), Seq<u8>>) -> bool {
    placed.dom().contains((seq!['.'], false)) && placed.dom().contains((seq!['/', '.'], false))
}

/// An entry is that of a file called `.`.
spec fn is_dot(entry: CanonicalTreeEntry) -> bool {
    !entry.directory && encode_utf8(entry.name@) == dot()
}

/// Two entries are those of files called `.`.
spec fn two_dots(entries: Seq<CanonicalTreeEntry>) -> bool {
    exists|i: int, j: int| #[trigger] dots_at(entries, i, j)
}

spec fn dots_at(entries: Seq<CanonicalTreeEntry>, i: int, j: int) -> bool {
    0 <= i < j < entries.len() && is_dot(entries[i]) && is_dot(entries[j])
}

/// The entries in `directory` have different keys, unless two files in the root are called `.`.
#[verifier::opaque]
spec fn told_apart(
    entries: Seq<CanonicalTreeEntry>,
    placed: Map<(Seq<char>, bool), Seq<u8>>,
    directory: Seq<char>,
) -> bool {
    if encode_utf8(directory).len() == 0 && dot_placed_twice(placed) {
        two_dots(entries)
    } else {
        keys_differ(entries)
    }
}

/// The two paths whose one name in the root is `.`.
proof fn dot_paths(path: Seq<char>)
    ensures
        encode_utf8(path) == dot() <==> path == seq!['.'],
        encode_utf8(path) == rooted_dot() <==> path == seq!['/', '.'],
{
    let plain = seq!['.'];
    let rooted = seq!['/', '.'];
    is_ascii_chars_encode_utf8(plain);
    is_ascii_chars_encode_utf8(rooted);
    assert(encode_utf8(plain) =~= dot());
    assert(encode_utf8(rooted) =~= rooted_dot());
    encoding_is_injective(path, plain);
    encoding_is_injective(path, rooted);
}

/// The entries are those of everything that was placed in `directory`.
spec fn gathered(
    entries: Seq<CanonicalTreeEntry>,
    placed: Map<(Seq<char>, bool), Seq<u8>>,
    directory: Seq<char>,
) -> bool {
    &&& told_apart(entries, placed, directory)
    &&& forall|m: int| 0 <= m < entries.len() ==> stands(#[trigger] entries[m], placed, directory)
    &&& forall|path: Seq<char>, folder: bool| #[trigger]
        placed.dom().contains((path, folder)) && parent_of(encode_utf8(path)) == encode_utf8(directory) ==> listed_for(
            entries,
            placed,
            path,
            folder,
            directory,
        )
}

/// Everything placed has the path of a file, or a plain path if it is a directory, and an object id.
spec fn plainly_placed(placed: Map<(Seq<char>, bool), Seq<u8>>) -> bool {
    forall|path: Seq<char>, folder: bool| #[trigger]
        placed.dom().contains((path, folder)) ==> placed_path(path, folder) && sha1_text(placed[(path, folder)])
}

/// A file or a directory can have this path.
spec fn placed_path(path: Seq<char>, folder: bool) -> bool {
    if folder {
        plain_path(encode_utf8(path))
    } else {
        file_path(encode_utf8(path))
    }
}

/// Paths with one parent and one name are one path, but for `.` and `/.`.
proof fn same_place(a: Seq<char>, b: Seq<char>)
    requires
        file_path(encode_utf8(a)),
        file_path(encode_utf8(b)),
        parent_of(encode_utf8(a)) == parent_of(encode_utf8(b)),
        name_of(encode_utf8(a)) == name_of(encode_utf8(b)),
    ensures
        a == b || (a == seq!['.'] && b == seq!['/', '.']) || (a == seq!['/', '.'] && b == seq!['.']),
{
    rooted_dot_facts();
    dot_paths(a);
    dot_paths(b);
    if plain_path(encode_utf8(a)) {
        parent_facts(encode_utf8(a));
    }
    if plain_path(encode_utf8(b)) {
        parent_facts(encode_utf8(b));
    }
    encoding_is_injective(a, b);
}

/// One more thing is placed elsewhere.
proof fn gathered_elsewhere(
    entries: Seq<CanonicalTreeEntry>,
    placed: Map<(Seq<char>, bool), Seq<u8>>,
    directory: Seq<char>,
    path: Seq<char>,
    folder: bool,
    oid: Seq<u8>,
)
    requires
        gathered(entries, placed, directory),
        !placed.dom().contains((path, folder)),
        parent_of(encode_utf8(path)) != encode_utf8(directory),
    ensures
        gathered(entries, placed.insert((path, folder), oid), directory),
{
    let after = placed.insert((path, folder), oid);
    apart_elsewhere(entries, placed, directory, path, folder, oid);
    assert forall|m: int| 0 <= m < entries.len() implies stands(#[trigger] entries[m], after, directory) by {
        assert(stands(entries[m], placed, directory));
        let p = choose|p: Seq<char>| stands_for(entries[m], placed, p, directory);
        assert(stands_for(entries[m], after, p, directory));
    }
    assert forall|p: Seq<char>, f: bool| #[trigger] after.dom().contains((p, f)) && parent_of(encode_utf8(p)) == encode_utf8(
        directory,
    ) implies listed_for(entries, after, p, f, directory) by {
        assert(placed.dom().contains((p, f)));
        assert(listed_for(entries, placed, p, f, directory));
        let m = choose|m: int|
            0 <= m < entries.len() && (#[trigger] entries[m]).directory == f && stands_for(entries[m], placed, p, directory);
        assert(stands_for(entries[m], after, p, directory));
    }
}

/// One more thing is placed here, and an entry stands for it.
proof fn gathered_here(
    entries: Seq<CanonicalTreeEntry>,
    placed: Map<(Seq<char>, bool), Seq<u8>>,
    directory: Seq<char>,
    path: Seq<char>,
    entry: CanonicalTreeEntry,
)
    requires
        gathered(entries, placed, directory),
        plainly_placed(placed),
        placed_path(path, entry.directory),
        !placed.dom().contains((path, entry.directory)),
        parent_of(encode_utf8(path)) == encode_utf8(directory),
        name_of(encode_utf8(path)) == encode_utf8(entry.name@),
    ensures
        gathered(entries.push(entry), placed.insert((path, entry.directory), encode_utf8(entry.oid@)), directory),
{
    let after = placed.insert((path, entry.directory), encode_utf8(entry.oid@));
    let more = entries.push(entry);
    assert(stands_for(entry, after, path, directory));
    assert forall|m: int| 0 <= m < more.len() implies stands(#[trigger] more[m], after, directory) by {
        if m < entries.len() {
            assert(stands(entries[m], placed, directory));
            let p = choose|p: Seq<char>| stands_for(entries[m], placed, p, directory);
            assert(stands_for(more[m], after, p, directory));
        } else {
            assert(stands_for(more[m], after, path, directory));
        }
    }
    assert forall|p: Seq<char>, f: bool| #[trigger] after.dom().contains((p, f)) && parent_of(encode_utf8(p)) == encode_utf8(
        directory,
    ) implies listed_for(more, after, p, f, directory) by {
        if (p, f) == (path, entry.directory) {
            assert(more[entries.len() as int] == entry);
        } else {
            assert(placed.dom().contains((p, f)));
            assert(listed_for(entries, placed, p, f, directory));
            let m = choose|m: int|
                0 <= m < entries.len() && (#[trigger] entries[m]).directory == f && stands_for(
                    entries[m],
                    placed,
                    p,
                    directory,
                );
            assert(more[m] == entries[m]);
            assert(stands_for(more[m], after, p, directory));
        }
    }
    if encode_utf8(directory).len() == 0 && dot_placed_twice(after) {
        dots_stay_two(entries, placed, directory, path, entry);
    }
    apart_here(entries, placed, directory, path, entry);
}

/// What is placed elsewhere is neither `.` nor `/.`, where this is the root.
proof fn apart_elsewhere(
    entries: Seq<CanonicalTreeEntry>,
    placed: Map<(Seq<char>, bool), Seq<u8>>,
    directory: Seq<char>,
    path: Seq<char>,
    folder: bool,
    oid: Seq<u8>,
)
    requires
        told_apart(entries, placed, directory),
        parent_of(encode_utf8(path)) != encode_utf8(directory),
    ensures
        told_apart(entries, placed.insert((path, folder), oid), directory),
{
    reveal(told_apart);
    let after = placed.insert((path, folder), oid);
    if encode_utf8(directory).len() == 0 {
        assert(encode_utf8(directory) =~= Seq::<u8>::empty());
        if parent_of(encode_utf8(path)).len() == 0 {
            assert(parent_of(encode_utf8(path)) =~= Seq::<u8>::empty());
        }
        dots_lie_in_the_root(path);
        assert(after.dom().contains((seq!['.'], false)) == placed.dom().contains((seq!['.'], false)));
        assert(after.dom().contains((seq!['/', '.'], false)) == placed.dom().contains((seq!['/', '.'], false)));
    }
}

proof fn apart_here(
    entries: Seq<CanonicalTreeEntry>,
    placed: Map<(Seq<char>, bool), Seq<u8>>,
    directory: Seq<char>,
    path: Seq<char>,
    entry: CanonicalTreeEntry,
)
    requires
        told_apart(entries, placed, directory),
        forall|m: int| 0 <= m < entries.len() ==> stands(#[trigger] entries[m], placed, directory),
        plainly_placed(placed),
        placed_path(path, entry.directory),
        !placed.dom().contains((path, entry.directory)),
        parent_of(encode_utf8(path)) == encode_utf8(directory),
        name_of(encode_utf8(path)) == encode_utf8(entry.name@),
        encode_utf8(directory).len() == 0 && dot_placed_twice(
            placed.insert((path, entry.directory), encode_utf8(entry.oid@)),
        ) ==> two_dots(entries.push(entry)),
    ensures
        told_apart(entries.push(entry), placed.insert((path, entry.directory), encode_utf8(entry.oid@)), directory),
{
    reveal(told_apart);
    let after = placed.insert((path, entry.directory), encode_utf8(entry.oid@));
    let more = entries.push(entry);
    if encode_utf8(directory).len() > 0 || !dot_placed_twice(after) {
        assert(after.dom().contains((seq!['.'], false)) || !placed.dom().contains((seq!['.'], false)));
        assert(keys_differ(entries));
        assert forall|i: int| 0 <= i < entries.len() implies (#[trigger] entries[i]).key() != entry.key() by {
            assert(stands(entries[i], placed, directory));
            let p = choose|p: Seq<char>| stands_for(entries[i], placed, p, directory);
            key_is_new(entries[i], placed, directory, p, path, entry);
        }
        assert forall|i: int, j: int| 0 <= i < j < more.len() implies (#[trigger] more[i]).key() != (#[trigger] more[j]).key() by {
            if j < entries.len() {
                assert(entries[i].key() != entries[j].key());
            } else {
                assert(entries[i].key() != entry.key());
            }
        }
    }
}

/// An entry for something that was not placed before has a new key.
proof fn key_is_new(
    known: CanonicalTreeEntry,
    placed: Map<(Seq<char>, bool), Seq<u8>>,
    directory: Seq<char>,
    p: Seq<char>,
    path: Seq<char>,
    entry: CanonicalTreeEntry,
)
    requires
        stands_for(known, placed, p, directory),
        plainly_placed(placed),
        placed_path(path, entry.directory),
        !placed.dom().contains((path, entry.directory)),
        parent_of(encode_utf8(path)) == encode_utf8(directory),
        name_of(encode_utf8(path)) == encode_utf8(entry.name@),
        encode_utf8(directory).len() > 0 || !dot_placed_twice(
            placed.insert((path, entry.directory), encode_utf8(entry.oid@)),
        ),
    ensures
        known.key() != entry.key(),
{
    let after = placed.insert((path, entry.directory), encode_utf8(entry.oid@));
    assert(placed.dom().contains((p, known.directory)));
    assert(placed_path(p, known.directory));
    assert(after.dom().contains((p, known.directory)) && after.dom().contains((path, entry.directory)));
    if encode_utf8(directory).len() > 0 {
        dots_lie_in_the_root(p);
        dots_lie_in_the_root(path);
    }
    if known.directory == entry.directory {
        keys_of_different_places(known, entry, p, path);
    } else {
        keys_of_different_kinds(known, entry, p, path);
    }
}

proof fn dots_lie_in_the_root(path: Seq<char>)
    requires
        parent_of(encode_utf8(path)).len() > 0,
    ensures
        path != seq!['.'],
        path != seq!['/', '.'],
{
    rooted_dot_facts();
    dot_paths(path);
    if path == seq!['.'] {
        dot_lies_in_the_root();
    }
}

proof fn dot_lies_in_the_root()
    ensures
        parent_of(dot()).len() == 0,
        name_of(dot()) == dot(),
{
    assert(last_slash(dot(), 1) == last_slash(dot(), 0));
    assert(name_of(dot()) =~= dot());
}

/// Once both `.` and `/.` are placed, two entries stand for them.
proof fn dots_stay_two(
    entries: Seq<CanonicalTreeEntry>,
    placed: Map<(Seq<char>, bool), Seq<u8>>,
    directory: Seq<char>,
    path: Seq<char>,
    entry: CanonicalTreeEntry,
)
    requires
        gathered(entries, placed, directory),
        encode_utf8(directory).len() == 0,
        !placed.dom().contains((path, entry.directory)),
        parent_of(encode_utf8(path)) == encode_utf8(directory),
        name_of(encode_utf8(path)) == encode_utf8(entry.name@),
        dot_placed_twice(placed.insert((path, entry.directory), encode_utf8(entry.oid@))),
    ensures
        two_dots(entries.push(entry)),
{
    let more = entries.push(entry);
    rooted_dot_facts();
    dot_lies_in_the_root();
    reveal(told_apart);
    if dot_placed_twice(placed) {
        let (i, j) = choose|i: int, j: int| #[trigger] dots_at(entries, i, j);
        assert(dots_at(more, i, j));
    } else {
        let other: Seq<char> = if path == seq!['.'] {
            seq!['/', '.']
        } else {
            seq!['.']
        };
        dot_paths(path);
        dot_paths(other);
        assert(encode_utf8(directory) =~= Seq::<u8>::empty());
        assert(parent_of(encode_utf8(other)) =~= Seq::<u8>::empty());
        assert(placed.dom().contains((other, false)));
        assert(listed_for(entries, placed, other, false, directory));
        let m = choose|m: int|
            0 <= m < entries.len() && (#[trigger] entries[m]).directory == false && stands_for(
                entries[m],
                placed,
                other,
                directory,
            );
        assert(more[m] == entries[m]);
        assert(dots_at(more, m, entries.len() as int));
    }
}

/// Two files called `.` are neighbours, once in order.
proof fn dots_are_neighbours(
    entries: Seq<CanonicalTreeEntry>,
    sorted: Seq<CanonicalTreeEntry>,
    placed: Map<(Seq<char>, bool), Seq<u8>>,
    directory: Seq<char>,
)
    requires
        gathered(entries, placed, directory),
        encode_utf8(directory).len() == 0,
        dot_placed_twice(placed),
        plainly_placed(placed),
        entries.to_multiset() == sorted.to_multiset(),
        keys_in_order(sorted),
    ensures
        neighbours_share_name(tree_items(sorted)),
{
    assert(!keys_differ(sorted)) by {
        reveal(told_apart);
        let (a, b) = choose|a: int, b: int| #[trigger] dots_at(entries, a, b);
        assert(entries[a].key() == entries[b].key());
        if keys_differ(sorted) {
            keys_differ_in_any_order(sorted, entries);
        }
    }
    let (i, j) = choose|i: int, j: int|
        0 <= i < j < sorted.len() && (#[trigger] sorted[i]).key() == (#[trigger] sorted[j]).key();
    neighbour_shares_name(entries, sorted, placed, directory, i, j);
}

proof fn neighbour_shares_name(
    entries: Seq<CanonicalTreeEntry>,
    sorted: Seq<CanonicalTreeEntry>,
    placed: Map<(Seq<char>, bool), Seq<u8>>,
    directory: Seq<char>,
    i: int,
    j: int,
)
    requires
        gathered(entries, placed, directory),
        plainly_placed(placed),
        entries.to_multiset() == sorted.to_multiset(),
        keys_in_order(sorted),
        0 <= i < j < sorted.len(),
        sorted[i].key() == sorted[j].key(),
    ensures
        same_name_at(tree_items(sorted), i),
{
    let next = i + 1;
    lex_less_trichotomy(sorted[i].key(), sorted[next].key());
    lex_less_irreflexive(sorted[i].key());
    if next < j {
        assert(!lex_less(sorted[j].key(), sorted[next].key()));
    }
    assert(!lex_less(sorted[next].key(), sorted[i].key()));
    assert(sorted[i].key() == sorted[next].key());
    reordered_items(entries, sorted);
    name_of_entry(entries, sorted, placed, directory, i);
    name_of_entry(entries, sorted, placed, directory, next);
    let x = encode_utf8(sorted[i].name@);
    let y = encode_utf8(sorted[next].name@);
    if sorted[i].directory == sorted[next].directory {
        if sorted[i].directory {
            assert(x =~= x.push(SLASH).drop_last());
            assert(y =~= y.push(SLASH).drop_last());
        }
    } else if sorted[i].directory {
        assert(y.last() == SLASH);
        assert(y.contains(y[y.len() - 1]));
    } else {
        assert(x.last() == SLASH);
        assert(x.contains(x[x.len() - 1]));
    }
}

/// The name of an entry is not empty and holds no slash.
proof fn name_of_entry(
    entries: Seq<CanonicalTreeEntry>,
    sorted: Seq<CanonicalTreeEntry>,
    placed: Map<(Seq<char>, bool), Seq<u8>>,
    directory: Seq<char>,
    i: int,
)
    requires
        gathered(entries, placed, directory),
        plainly_placed(placed),
        forall|item: CanonicalTreeEntry| #[trigger] entries.contains(item) == sorted.contains(item),
        0 <= i < sorted.len(),
    ensures
        encode_utf8(sorted[i].name@).len() > 0,
        !encode_utf8(sorted[i].name@).contains(SLASH),
{
    assert(sorted.contains(sorted[i]));
    assert(entries.contains(sorted[i]));
    let m = choose|m: int| 0 <= m < entries.len() && entries[m] == sorted[i];
    assert(stands(entries[m], placed, directory));
    let path = choose|path: Seq<char>| stands_for(entries[m], placed, path, directory);
    assert(placed_path(path, entries[m].directory));
    file_name_facts(encode_utf8(path));
}

/// Entries for two files, or for two directories, in one directory have different keys.
proof fn keys_of_different_places(a: CanonicalTreeEntry, b: CanonicalTreeEntry, p: Seq<char>, q: Seq<char>)
    requires
        a.directory == b.directory,
        placed_path(p, a.directory),
        placed_path(q, b.directory),
        parent_of(encode_utf8(p)) == parent_of(encode_utf8(q)),
        name_of(encode_utf8(p)) == encode_utf8(a.name@),
        name_of(encode_utf8(q)) == encode_utf8(b.name@),
        p != q,
        a.directory || !(p == seq!['.'] && q == seq!['/', '.']),
        a.directory || !(p == seq!['/', '.'] && q == seq!['.']),
    ensures
        a.key() != b.key(),
{
    let x = encode_utf8(a.name@);
    let y = encode_utf8(b.name@);
    if a.key() == b.key() {
        if a.directory {
            assert(x =~= x.push(SLASH).drop_last());
            assert(y =~= y.push(SLASH).drop_last());
        }
        same_place(p, q);
        rooted_dot_facts();
        dot_paths(p);
        dot_paths(q);
    }
}

/// Entries for a file and for a directory have different keys.
proof fn keys_of_different_kinds(a: CanonicalTreeEntry, b: CanonicalTreeEntry, p: Seq<char>, q: Seq<char>)
    requires
        a.directory != b.directory,
        placed_path(p, a.directory),
        placed_path(q, b.directory),
        name_of(encode_utf8(p)) == encode_utf8(a.name@),
        name_of(encode_utf8(q)) == encode_utf8(b.name@),
    ensures
        a.key() != b.key(),
{
    file_name_facts(encode_utf8(p));
    file_name_facts(encode_utf8(q));
    let x = encode_utf8(a.name@);
    let y = encode_utf8(b.name@);
    if a.key() == b.key() {
        if a.directory {
            assert(y.last() == SLASH);
            assert(y.contains(y[y.len() - 1]));
        } else {
            assert(x.last() == SLASH);
            assert(x.contains(x[x.len() - 1]));
        }
    }
}

/// What is placed is the files and the finished directories, with their object ids.
spec fn placed_matches(placed: Map<(Seq<char>, bool), Seq<u8>>, blobs: TargetBlobs, trees: TargetTrees) -> bool {
    &&& forall|path: Seq<char>| #[trigger] placed.dom().contains((path, false)) <==> blobs.dom().contains(path)
    &&& forall|path: Seq<char>| #[trigger]
        placed.dom().contains((path, false)) ==> placed[(path, false)] == encode_utf8(blobs[path].0@)
    &&& forall|path: Seq<char>| #[trigger]
        placed.dom().contains((path, true)) <==> trees.dom().contains(path) && encode_utf8(path).len() > 0
    &&& forall|path: Seq<char>| #[trigger]
        placed.dom().contains((path, true)) ==> placed[(path, true)] == encode_utf8(trees[path].oid@)
}

/// Every directory directly in `directory` is finished.
spec fn children_finished(blobs: TargetBlobs, trees: TargetTrees, directory: Seq<char>) -> bool {
    &&& forall|path: Seq<char>| #[trigger] trees.dom().contains(path) ==> holds_path(blobs.dom(), path)
    &&& forall|path: Seq<char>| #[trigger]
        holds_path(blobs.dom(), path) && encode_utf8(path).len() > 0 && parent_of(encode_utf8(path)) == encode_utf8(directory)
            ==> trees.dom().contains(path)
}

/// What was gathered for a directory, once in order, is what its tree lists.
proof fn gathered_is_listed(
    entries: Seq<CanonicalTreeEntry>,
    sorted: Seq<CanonicalTreeEntry>,
    placed: Map<(Seq<char>, bool), Seq<u8>>,
    blobs: TargetBlobs,
    trees: TargetTrees,
    directory: Seq<char>,
)
    requires
        gathered(entries, placed, directory),
        encode_utf8(directory).len() > 0 || !dot_twice(blobs.dom()),
        plainly_placed(placed),
        placed_matches(placed, blobs, trees),
        children_finished(blobs, trees, directory),
        entries.to_multiset() == sorted.to_multiset(),
        keys_in_order(sorted),
    ensures
        lists_directory(tree_items(sorted), blobs, trees, directory),
        forall|i: int| 0 <= i < sorted.len() ==> sha1_text((#[trigger] tree_items(sorted)[i]).oid),
{
    let items = tree_items(sorted);
    reordered_items(entries, sorted);
    assert(keys_differ(entries)) by {
        reveal(told_apart);
        if dot_placed_twice(placed) {
            assert(dot_twice(blobs.dom()));
        }
    }
    sorted_keys_ascend(entries, sorted);
    assert forall|i: int, j: int| 0 <= i < j < items.len() implies lex_less(
        item_key(#[trigger] items[i]),
        item_key(#[trigger] items[j]),
    ) by {
        assert(lex_less(sorted[i].key(), sorted[j].key()));
    }
    assert forall|i: int| 0 <= i < sorted.len() implies sha1_text((#[trigger] items[i]).oid) && item_of(
        blobs,
        trees,
        directory,
        items[i],
    ) by {
        assert(sorted.contains(sorted[i]));
        assert(entries.contains(sorted[i]));
        let m = choose|m: int| 0 <= m < entries.len() && entries[m] == sorted[i];
        assert(stands(entries[m], placed, directory));
        let path = choose|path: Seq<char>| stands_for(entries[m], placed, path, directory);
        assert(placed_path(path, entries[m].directory));
        file_name_facts(encode_utf8(path));
        if sorted[i].directory {
            assert(placed.dom().contains((path, true)));
            assert(trees.dom().contains(path));
        } else {
            assert(placed.dom().contains((path, false)));
        }
        assert(item_at(blobs, trees, directory, items[i], path));
    }
    assert forall|item: TreeItem| #[trigger] items.contains(item) <==> item_of(blobs, trees, directory, item) by {
        if items.contains(item) {
            let i = choose|i: int| 0 <= i < items.len() && items[i] == item;
            assert(item_of(blobs, trees, directory, items[i]));
        }
        if item_of(blobs, trees, directory, item) {
            let path = choose|path: Seq<char>| item_at(blobs, trees, directory, item, path);
            if item.directory {
                assert(holds_path(blobs.dom(), path));
                assert(trees.dom().contains(path));
                assert(placed.dom().contains((path, true)));
            } else {
                assert(placed.dom().contains((path, false)));
            }
            assert(listed_for(entries, placed, path, item.directory, directory));
            let m = choose|m: int|
                0 <= m < entries.len() && (#[trigger] entries[m]).directory == item.directory && stands_for(
                    entries[m],
                    placed,
                    path,
                    directory,
                );
            assert(entries.contains(entries[m]));
            assert(sorted.contains(entries[m]));
            let k = choose|k: int| 0 <= k < sorted.len() && sorted[k] == entries[m];
            assert(items[k] == item);
        }
    }
}

/// The same entries without their object ids.
spec fn names_of(items: Seq<TreeItem>) -> Seq<TreeItem> {
    Seq::new(items.len(), |i: int| TreeItem { name: items[i].name, oid: Seq::empty(), directory: items[i].directory })
}

/// The entries of a directory, without their object ids, are its names.
proof fn names_are_listed(listing: Seq<TreeItem>, blobs: TargetBlobs, trees: TargetTrees, directory: Seq<char>)
    requires
        lists_directory(listing, blobs, trees, directory),
    ensures
        lists_names(names_of(listing), blobs.dom(), directory),
{
    let names = names_of(listing);
    assert forall|i: int, j: int| 0 <= i < j < names.len() implies lex_less(
        item_key(#[trigger] names[i]),
        item_key(#[trigger] names[j]),
    ) by {
        assert(lex_less(item_key(listing[i]), item_key(listing[j])));
    }
    assert forall|item: TreeItem| #[trigger]
        names.contains(item) <==> item.oid.len() == 0 && exists|path: Seq<char>| #[trigger]
            name_at(blobs.dom(), directory, item, path) by {
        if names.contains(item) {
            let i = choose|i: int| 0 <= i < names.len() && names[i] == item;
            assert(listing.contains(listing[i]));
            assert(item_of(blobs, trees, directory, listing[i]));
            let path = choose|path: Seq<char>| item_at(blobs, trees, directory, listing[i], path);
            assert(name_at(blobs.dom(), directory, item, path));
        }
        if item.oid.len() == 0 && exists|path: Seq<char>| #[trigger] name_at(blobs.dom(), directory, item, path) {
            let path = choose|path: Seq<char>| #[trigger] name_at(blobs.dom(), directory, item, path);
            let whole = TreeItem {
                name: item.name,
                oid: if item.directory {
                    encode_utf8(trees[path].oid@)
                } else {
                    encode_utf8(blobs[path].0@)
                },
                directory: item.directory,
            };
            assert(item_at(blobs, trees, directory, whole, path));
            assert(item_of(blobs, trees, directory, whole));
            assert(listing.contains(whole));
            let i = choose|i: int| 0 <= i < listing.len() && listing[i] == whole;
            assert(item.oid =~= Seq::<u8>::empty());
            assert(names[i] == item);
        }
    }
}

/// Two lists of the same entries, both in order, are the same list.
proof fn listings_are_unique(a: Seq<TreeItem>, b: Seq<TreeItem>)
    requires
        items_ascend(a),
        items_ascend(b),
        forall|item: TreeItem| #[trigger] a.contains(item) == b.contains(item),
    ensures
        a == b,
{
    let key = |item: TreeItem| item_key(item);
    assert(ascends_by(a, key)) by {
        assert forall|i: int, j: int| 0 <= i < j < a.len() implies lex_less(key(#[trigger] a[i]), key(#[trigger] a[j])) by {
            assert(lex_less(item_key(a[i]), item_key(a[j])));
        }
    }
    assert(ascends_by(b, key)) by {
        assert forall|i: int, j: int| 0 <= i < j < b.len() implies lex_less(key(#[trigger] b[i]), key(#[trigger] b[j])) by {
            assert(lex_less(item_key(b[i]), item_key(b[j])));
        }
    }
    ascending_list_is_unique(a, b, key);
}

/// Two lists of the names of a directory are the same list.
proof fn names_are_unique(a: Seq<TreeItem>, b: Seq<TreeItem>, paths: Set<Seq<char>>, directory: Seq<char>)
    requires
        lists_names(a, paths, directory),
        lists_names(b, paths, directory),
    ensures
        a == b,
{
    assert forall|item: TreeItem| #[trigger] a.contains(item) == b.contains(item) by {}
    listings_are_unique(a, b);
}

/// The length of a tree does not depend on its object ids.
proof fn body_length(items: Seq<TreeItem>, n: int)
    requires
        0 <= n <= items.len(),
        forall|i: int| 0 <= i < items.len() ==> sha1_text((#[trigger] items[i]).oid),
    ensures
        tree_body(items, n).len() == listing_length(items, n),
        listing_length(names_of(items), n) == listing_length(items, n),
    decreases n,
{
    if n > 0 {
        body_length(items, n - 1);
        assert(sha1_text(items[n - 1].oid));
        assert(hex_bytes(items[n - 1].oid).len() == 20);
        assert(names_of(items)[n - 1].directory == items[n - 1].directory);
    }
}

proof fn length_grows(items: Seq<TreeItem>, m: int, n: int)
    requires
        m <= n,
    ensures
        listing_length(items, m) <= listing_length(items, n),
    decreases n - m,
{
    if m < n {
        length_grows(items, m, n - 1);
    }
}

/// Entries with object ids make a tree unless it is too long.
proof fn items_error_is_length(items: Seq<TreeItem>, i: int)
    requires
        0 <= i <= items.len(),
        forall|k: int| 0 <= k < items.len() ==> sha1_text((#[trigger] items[k]).oid),
        listing_length(items, i) <= MAX_TARGET_OBJECT_BYTES,
    ensures
        tree_items_error(items, i) == if listing_length(items, items.len() as int) > MAX_TARGET_OBJECT_BYTES {
            Some(RepositoryImportError::ResourceLimit)
        } else {
            None
        },
    decreases items.len() - i,
{
    if i < items.len() {
        assert(sha1_text(items[i].oid));
        body_length(items, i + 1);
        if listing_length(items, i + 1) > MAX_TARGET_OBJECT_BYTES {
            length_grows(items, i + 1, items.len() as int);
        } else {
            items_error_is_length(items, i + 1);
        }
    }
}

/// Whether a directory has a tree depends on its names alone.
proof fn error_of_listing(listing: Seq<TreeItem>, blobs: TargetBlobs, trees: TargetTrees, directory: Seq<char>)
    requires
        lists_directory(listing, blobs, trees, directory),
        encode_utf8(directory).len() > 0 || !dot_twice(blobs.dom()),
        forall|i: int| 0 <= i < listing.len() ==> sha1_text((#[trigger] listing[i]).oid),
    ensures
        directory_error(blobs.dom(), directory) == if tree_error(listing) is Some {
            tree_error(listing)
        } else if name_of(encode_utf8(directory)).contains(0) {
            Some(RepositoryImportError::TargetAuditFailed)
        } else {
            None
        },
        tree_error(listing) is None ==> tree_body(listing, listing.len() as int).len() <= MAX_TARGET_OBJECT_BYTES,
{
    let names = names_of(listing);
    names_are_listed(listing, blobs, trees, directory);
    let chosen = choose|names: Seq<TreeItem>| lists_names(names, blobs.dom(), directory);
    names_are_unique(names, chosen, blobs.dom(), directory);
    items_error_is_length(listing, 0);
    body_length(listing, listing.len() as int);
    if neighbours_share_name(listing) {
        let i = choose|i: int| #[trigger] same_name_at(listing, i);
        assert(same_name_at(names, i));
    }
    if neighbours_share_name(names) {
        let i = choose|i: int| #[trigger] same_name_at(names, i);
        assert(same_name_at(listing, i));
    }
}

/// The files, with their object ids.
spec fn files_placed(blobs: TargetBlobs) -> Map<(Seq<char>, bool), Seq<u8>> {
    Map::new(
        |place: (Seq<char>, bool)| !place.1 && blobs.dom().contains(place.0),
        |place: (Seq<char>, bool)| encode_utf8(blobs[place.0].0@),
    )
}

/// Each directory has the entries of what was placed in it.
spec fn all_gathered(
    children: Seq<Vec<CanonicalTreeEntry>>,
    directories: Seq<TextEntry<()>>,
    placed: Map<(Seq<char>, bool), Seq<u8>>,
) -> bool {
    children.len() == directories.len() && forall|k: int|
        0 <= k < directories.len() ==> gathered((#[trigger] children[k])@, placed, directories[k].key@)
}

/// The directories are the root and those above the files.
spec fn directories_of(directories: TextMap<()>, blobs: TargetBlobs) -> bool {
    directories.wf() && forall|directory: Seq<char>| #[trigger]
        directories@.dom().contains(directory) <==> holds_path(blobs.dom(), directory)
}

/// Hand every file out to its directory.
fn place_files(blobs: &TextMap<(String, u64)>, directories: &TextMap<()>) -> (r: Result<
    Vec<Vec<CanonicalTreeEntry>>,
    RepositoryImportError,
>)
    requires
        blobs.wf(),
        directories.wf(),
        all_parents_join(blobs@.dom()),
        forall|directory: Seq<char>| #[trigger]
            directories@.dom().contains(directory) <==> directory_above(blobs@.dom(), directory),
    ensures
        r is Ok <==> usable_blobs(blobs@),
        r matches Ok(children) ==> all_gathered(children@, directories.entries@, files_placed(blobs@)),
        r matches Err(error) ==> error == RepositoryImportError::TargetAuditFailed,
{
    let mut children: Vec<Vec<CanonicalTreeEntry>> = Vec::new();
    let ghost mut placed = Map::<(Seq<char>, bool), Seq<u8>>::empty();
    let ghost dirs = directories.entries@;
    let mut k: usize = 0;
    while k < directories.entries.len()
        invariant
            dirs == directories.entries@,
            k <= dirs.len(),
            children@.len() == k,
            placed == Map::<(Seq<char>, bool), Seq<u8>>::empty(),
            forall|m: int| 0 <= m < k ==> gathered((#[trigger] children@[m])@, placed, dirs[m].key@),
        decreases dirs.len() - k,
    {
        let none: Vec<CanonicalTreeEntry> = Vec::new();
        assert(told_apart(none@, placed, dirs[k as int].key@)) by {
            reveal(told_apart);
        }
        assert(gathered(none@, placed, dirs[k as int].key@));
        children.push(none);
        k = k + 1;
    }
    let mut i: usize = 0;
    while i < blobs.entries.len()
        invariant
            blobs.wf(),
            directories.wf(),
            all_parents_join(blobs@.dom()),
            forall|directory: Seq<char>| #[trigger]
                directories@.dom().contains(directory) <==> directory_above(blobs@.dom(), directory),
            dirs == directories.entries@,
            i <= blobs.entries@.len(),
            all_gathered(children@, dirs, placed),
            plainly_placed(placed),
            forall|path: Seq<char>, folder: bool| #[trigger]
                placed.dom().contains((path, folder)) <==> !folder && key_before(blobs.entries@, path, i as int),
            forall|path: Seq<char>, folder: bool| #[trigger]
                placed.dom().contains((path, folder)) ==> placed[(path, folder)] == encode_utf8(blobs@[path].0@),
            forall|m: int|
                0 <= m < i ==> sha1_text(encode_utf8((#[trigger] blobs.entries@[m]).value.0@)) && has_place(
                    blobs@.dom(),
                    blobs.entries@[m].key@,
                ),
        decreases blobs.entries@.len() - i,
    {
        let path = blobs.entries[i].key.as_str();
        let oid = &blobs.entries[i].value.0;
        proof {
            entry_in_view(*blobs, i as int);
            assert(blobs@.dom().contains(path@));
        }
        if require_sha1_oid(oid.as_str()).is_err() {
            return Err(RepositoryImportError::TargetAuditFailed);
        }
        let (parent, name) = target_tree_parent_and_name(path)?;
        let ghost text = path@;
        assert(directories@.dom().contains(parent@) <==> directory_above(blobs@.dom(), parent@));
        match directories.search(parent) {
            Ok(place) => {
                let entry = CanonicalTreeEntry { name: name.to_owned(), oid: oid.clone(), directory: false };
                let ghost before = children@;
                let ghost here = entry;
                proof {
                    entry_in_view(*directories, place as int);
                    assert(directories@.dom().contains(parent@));
                    assert(has_place(blobs@.dom(), text));
                    place_is_file_path(blobs@.dom(), text);
                    if placed.dom().contains((text, false)) {
                        let m = choose|m: int| 0 <= m < i && (#[trigger] blobs.entries@[m]).key@ == text;
                        key_is_unique(blobs.entries@, m, i as int);
                    }
                    assert(gathered(before[place as int]@, placed, dirs[place as int].key@));
                    gathered_here(before[place as int]@, placed, dirs[place as int].key@, text, here);
                }
                children[place].push(entry);
                let ghost after = placed.insert((text, false), encode_utf8(here.oid@));
                proof {
                    assert forall|m: int| 0 <= m < dirs.len() implies gathered(
                        (#[trigger] children@[m])@,
                        after,
                        dirs[m].key@,
                    ) by {
                        if m != place {
                            assert(children@[m] == before[m]);
                            assert(gathered(before[m]@, placed, dirs[m].key@));
                            other_directory(*directories, m, place as int);
                            gathered_elsewhere(before[m]@, placed, dirs[m].key@, text, false, encode_utf8(here.oid@));
                        }
                    }
                    assert forall|p: Seq<char>, folder: bool| #[trigger]
                        after.dom().contains((p, folder)) <==> !folder && key_before(blobs.entries@, p, i + 1) by {
                        key_before_step(blobs.entries@, p, i as int);
                        assert(placed.dom().contains((p, folder)) <==> !folder && key_before(blobs.entries@, p, i as int));
                    }
                    placed = after;
                }
            },
            Err(_) => {
                return Err(RepositoryImportError::TargetAuditFailed);
            },
        }
        i = i + 1;
    }
    proof {
        assert forall|path: Seq<char>| #[trigger] blobs@.dom().contains(path) implies sha1_text(encode_utf8(blobs@[path].0@))
            && has_place(blobs@.dom(), path) by {
            let m = key_index(blobs.entries@, path);
            assert(blobs.entries@[m].key@ == path);
            entry_in_view(*blobs, m);
        }
        assert forall|p: Seq<char>, folder: bool| #[trigger] placed.dom().contains((p, folder)) == files_placed(
            blobs@,
        ).dom().contains((p, folder)) by {
            if blobs@.dom().contains(p) {
                let m = key_index(blobs.entries@, p);
                assert(blobs.entries@[m].key@ == p);
                assert(key_before(blobs.entries@, p, blobs.entries@.len() as int));
            }
            if key_before(blobs.entries@, p, blobs.entries@.len() as int) {
                let m = choose|m: int| 0 <= m < blobs.entries@.len() && (#[trigger] blobs.entries@[m]).key@ == p;
                entry_in_view(*blobs, m);
            }
        }
        assert forall|place: (Seq<char>, bool)| #[trigger] placed.dom().contains(place) == files_placed(blobs@).dom().contains(
            place,
        ) by {
            assert(placed.dom().contains((place.0, place.1)) == files_placed(blobs@).dom().contains((place.0, place.1)));
        }
        assert forall|place: (Seq<char>, bool)| placed.dom().contains(place) implies #[trigger] placed[place] == files_placed(
            blobs@,
        )[place] by {
            assert(placed.dom().contains((place.0, place.1)));
            assert(files_placed(blobs@).dom().contains(place));
        }
        assert(placed =~= files_placed(blobs@));
    }
    Ok(children)
}

/// One of the first `n` entries has this key.
spec fn key_before<V>(entries: Seq<TextEntry<V>>, key: Seq<char>, n: int) -> bool {
    exists|m: int| 0 <= m < n && (#[trigger] entries[m]).key@ == key
}

proof fn key_before_step<V>(entries: Seq<TextEntry<V>>, key: Seq<char>, n: int)
    requires
        0 <= n < entries.len(),
    ensures
        key_before(entries, key, n + 1) == (key_before(entries, key, n) || entries[n].key@ == key),
{
    if key_before(entries, key, n + 1) {
        let m = choose|m: int| 0 <= m < n + 1 && (#[trigger] entries[m]).key@ == key;
        if m < n {
            assert(key_before(entries, key, n));
        }
    }
    if entries[n].key@ == key {
        assert(key_before(entries, key, n + 1));
    }
}

/// The parent of a directory is one of the directories.
proof fn parent_of_directory(blobs: TargetBlobs, directory: Seq<char>, parent: Seq<char>)
    requires
        all_file_paths(blobs.dom()),
        holds_path(blobs.dom(), directory),
        encode_utf8(directory).len() > 0,
        encode_utf8(parent) == parent_of(encode_utf8(directory)),
    ensures
        plain_path(encode_utf8(directory)),
        holds_path(blobs.dom(), parent),
{
    let path = choose|path: Seq<char>| #[trigger]
        blobs.dom().contains(path) && lies_below(encode_utf8(directory), encode_utf8(path));
    lies_below_is_plain(encode_utf8(directory), encode_utf8(path));
    above_is_above(encode_utf8(directory), encode_utf8(path));
}

/// Two places of a map have different keys.
proof fn other_directory(directories: TextMap<()>, m: int, place: int)
    requires
        directories.wf(),
        0 <= m < directories.entries@.len(),
        0 <= place < directories.entries@.len(),
        m != place,
    ensures
        encode_utf8(directories.entries@[m].key@) != encode_utf8(directories.entries@[place].key@),
{
    encoding_is_injective(directories.entries@[m].key@, directories.entries@[place].key@);
    if directories.entries@[m].key@ == directories.entries@[place].key@ {
        key_is_unique(directories.entries@, m, place);
    }
}

/// A tree that was written fits.
proof fn written_fits(items: Seq<TreeItem>, i: int)
    requires
        0 <= i <= items.len(),
        tree_items_error(items, i) is None,
        tree_body(items, i).len() <= MAX_TARGET_OBJECT_BYTES,
    ensures
        tree_body(items, items.len() as int).len() <= MAX_TARGET_OBJECT_BYTES,
    decreases items.len() - i,
{
    if i < items.len() {
        written_fits(items, i + 1);
    }
}

/// The tree object of gathered entries.
fn finish_tree(entries: &mut Vec<CanonicalTreeEntry>) -> (r: Result<CanonicalTreeObject, RepositoryImportError>)
    ensures
        final(entries)@.to_multiset() == old(entries)@.to_multiset(),
        keys_in_order(final(entries)@),
        match tree_error(tree_items(final(entries)@)) {
            Some(error) => r matches Err(e) && e == error,
            None => r matches Ok(object) && is_tree_of(object, tree_items(final(entries)@)) && sha1_text(
                encode_utf8(object.oid@),
            ),
        },
{
    let body = serialize_canonical_tree(entries)?;
    proof {
        let items = tree_items(entries@);
        assert(tree_body(items, 0).len() == 0);
        written_fits(items, 0);
    }
    let oid = oid_string(typed_object_oid(ObjectKind::Tree, body.len() as u64, body.as_slice()));
    let sha256 = sha256_digest(body.as_slice());
    Ok(CanonicalTreeObject { oid, size: body.len() as u64, sha256 })
}

/// The directory at `k` is built already, when the directories of `level` before `upto` are.
spec fn is_built(directories: Seq<TextEntry<()>>, k: int, level: int, upto: int) -> bool {
    let depth = tree_depth(encode_utf8(directories[k].key@));
    depth > level || (depth == level && k < upto)
}

/// How far the trees are built.
spec fn building(
    blobs: TargetBlobs,
    directories: TextMap<()>,
    children: Seq<Vec<CanonicalTreeEntry>>,
    trees: TargetTrees,
    placed: Map<(Seq<char>, bool), Seq<u8>>,
    level: int,
    upto: int,
) -> bool {
    let dirs = directories.entries@;
    &&& children.len() == dirs.len()
    &&& plainly_placed(placed)
    &&& placed_matches(placed, blobs, trees)
    &&& forall|directory: Seq<char>| #[trigger] trees.dom().contains(directory) ==> directories@.dom().contains(directory)
    &&& forall|k: int|
        0 <= k < dirs.len() ==> (trees.dom().contains((#[trigger] dirs[k]).key@) <==> is_built(dirs, k, level, upto))
    &&& forall|k: int|
        0 <= k < dirs.len() && !is_built(dirs, k, level, upto) ==> gathered((#[trigger] children[k])@, placed, dirs[k].key@)
    &&& forall|k: int|
        0 <= k < dirs.len() && is_built(dirs, k, level, upto) ==> directory_error(blobs.dom(), (#[trigger] dirs[k]).key@) is None
            && tree_holds(blobs, trees, dirs[k].key@)
}

/// A directory of another level changes nothing.
proof fn building_passes(
    blobs: TargetBlobs,
    directories: TextMap<()>,
    children: Seq<Vec<CanonicalTreeEntry>>,
    trees: TargetTrees,
    placed: Map<(Seq<char>, bool), Seq<u8>>,
    level: int,
    upto: int,
)
    requires
        building(blobs, directories, children, trees, placed, level, upto),
        0 <= upto < directories.entries@.len(),
        tree_depth(encode_utf8(directories.entries@[upto].key@)) != level,
    ensures
        building(blobs, directories, children, trees, placed, level, upto + 1),
{
    let dirs = directories.entries@;
    assert forall|k: int| 0 <= k < dirs.len() implies is_built(dirs, k, level, upto) == #[trigger] is_built(
        dirs,
        k,
        level,
        upto + 1,
    ) by {}
    assert forall|k: int| 0 <= k < dirs.len() && is_built(dirs, k, level, upto + 1) implies directory_error(
        blobs.dom(),
        (#[trigger] dirs[k]).key@,
    ) is None && tree_holds(blobs, trees, dirs[k].key@) by {
        assert(is_built(dirs, k, level, upto));
    }
}

/// The next level begins where one ends.
proof fn building_descends(
    blobs: TargetBlobs,
    directories: TextMap<()>,
    children: Seq<Vec<CanonicalTreeEntry>>,
    trees: TargetTrees,
    placed: Map<(Seq<char>, bool), Seq<u8>>,
    level: int,
)
    requires
        building(blobs, directories, children, trees, placed, level, directories.entries@.len() as int),
    ensures
        building(blobs, directories, children, trees, placed, level - 1, 0),
{
    let dirs = directories.entries@;
    assert forall|k: int| 0 <= k < dirs.len() implies is_built(dirs, k, level, dirs.len() as int) == #[trigger] is_built(
        dirs,
        k,
        level - 1,
        0,
    ) by {}
    assert forall|k: int| 0 <= k < dirs.len() && is_built(dirs, k, level - 1, 0) implies directory_error(
        blobs.dom(),
        (#[trigger] dirs[k]).key@,
    ) is None && tree_holds(blobs, trees, dirs[k].key@) by {
        assert(is_built(dirs, k, level, dirs.len() as int));
    }
}

/// A tree that is built stays what it is when one is added that is not directly in its directory.
proof fn tree_stays(blobs: TargetBlobs, trees: TargetTrees, added: Seq<char>, object: CanonicalTreeObject, directory: Seq<char>)
    requires
        tree_holds(blobs, trees, directory),
        added != directory,
        encode_utf8(added).len() == 0 || parent_of(encode_utf8(added)) != encode_utf8(directory),
    ensures
        tree_holds(blobs, trees.insert(added, object), directory),
{
    let after = trees.insert(added, object);
    let listing = choose|listing: Seq<TreeItem>| #[trigger]
        lists_directory(listing, blobs, trees, directory) && is_tree_of(trees[directory], listing);
    assert forall|item: TreeItem, path: Seq<char>| #[trigger]
        item_at(blobs, trees, directory, item, path) == item_at(blobs, after, directory, item, path) by {
        if path == added {
            assert(!item_at(blobs, trees, directory, item, path));
            assert(!item_at(blobs, after, directory, item, path));
        } else {
            assert(after[path] == trees[path]);
        }
    }
    assert forall|item: TreeItem| #[trigger] listing.contains(item) <==> item_of(blobs, after, directory, item) by {
        if item_of(blobs, trees, directory, item) {
            let path = choose|path: Seq<char>| item_at(blobs, trees, directory, item, path);
            assert(item_at(blobs, after, directory, item, path));
        }
        if item_of(blobs, after, directory, item) {
            let path = choose|path: Seq<char>| item_at(blobs, after, directory, item, path);
            assert(item_at(blobs, trees, directory, item, path));
        }
    }
    assert(lists_directory(listing, blobs, after, directory));
}

/// The directories below one that is built next are all built.
proof fn deeper_are_built(
    blobs: TargetBlobs,
    directories: TextMap<()>,
    children: Seq<Vec<CanonicalTreeEntry>>,
    trees: TargetTrees,
    placed: Map<(Seq<char>, bool), Seq<u8>>,
    level: int,
    upto: int,
)
    requires
        all_file_paths(blobs.dom()),
        directories_of(directories, blobs),
        building(blobs, directories, children, trees, placed, level, upto),
        0 <= upto < directories.entries@.len(),
        tree_depth(encode_utf8(directories.entries@[upto].key@)) == level,
    ensures
        children_finished(blobs, trees, directories.entries@[upto].key@),
{
    let dirs = directories.entries@;
    let directory = dirs[upto].key@;
    assert forall|path: Seq<char>| #[trigger] holds_path(blobs.dom(), path) && encode_utf8(path).len() > 0 && parent_of(
        encode_utf8(path),
    ) == encode_utf8(directory) implies trees.dom().contains(path) by {
        parent_of_directory(blobs, path, directory);
        parent_facts(encode_utf8(path));
        assert(directories@.dom().contains(path));
        let k = key_index(dirs, path);
        assert(dirs[k].key@ == path);
        assert(is_built(dirs, k, level, upto));
    }
    assert forall|path: Seq<char>| #[trigger] trees.dom().contains(path) implies holds_path(blobs.dom(), path) by {
        assert(directories@.dom().contains(path));
    }
}

/// A tree is added.
proof fn building_adds(
    blobs: TargetBlobs,
    directories: TextMap<()>,
    before: Seq<Vec<CanonicalTreeEntry>>,
    after: Seq<Vec<CanonicalTreeEntry>>,
    trees: TargetTrees,
    placed: Map<(Seq<char>, bool), Seq<u8>>,
    level: int,
    upto: int,
    object: CanonicalTreeObject,
    listing: Seq<TreeItem>,
    placed_after: Map<(Seq<char>, bool), Seq<u8>>,
)
    requires
        all_file_paths(blobs.dom()),
        directories_of(directories, blobs),
        building(blobs, directories, before, trees, placed, level, upto),
        0 <= upto < directories.entries@.len(),
        tree_depth(encode_utf8(directories.entries@[upto].key@)) == level,
        after.len() == before.len(),
        lists_directory(listing, blobs, trees, directories.entries@[upto].key@),
        is_tree_of(object, listing),
        sha1_text(encode_utf8(object.oid@)),
        directory_error(blobs.dom(), directories.entries@[upto].key@) is None,
        placed_after == if encode_utf8(directories.entries@[upto].key@).len() == 0 {
            placed
        } else {
            placed.insert((directories.entries@[upto].key@, true), encode_utf8(object.oid@))
        },
        forall|k: int|
            0 <= k < before.len() && !is_built(directories.entries@, k, level, upto + 1) ==> gathered(
                (#[trigger] after[k])@,
                placed_after,
                directories.entries@[k].key@,
            ),
    ensures
        building(
            blobs,
            directories,
            after,
            trees.insert(directories.entries@[upto].key@, object),
            placed_after,
            level,
            upto + 1,
        ),
{
    let dirs = directories.entries@;
    let directory = dirs[upto].key@;
    let more = trees.insert(directory, object);
    entry_in_view(directories, upto);
    assert(holds_path(blobs.dom(), directory));
    assert(!is_built(dirs, upto, level, upto));
    assert(!trees.dom().contains(directory));
    if encode_utf8(directory).len() > 0 {
        let path = choose|path: Seq<char>| #[trigger]
            blobs.dom().contains(path) && lies_below(encode_utf8(directory), encode_utf8(path));
        lies_below_is_plain(encode_utf8(directory), encode_utf8(path));
        parent_facts(encode_utf8(directory));
    }
    assert forall|k: int| 0 <= k < dirs.len() implies (more.dom().contains((#[trigger] dirs[k]).key@) <==> is_built(
        dirs,
        k,
        level,
        upto + 1,
    )) by {
        assert(trees.dom().contains(dirs[k].key@) <==> is_built(dirs, k, level, upto));
        if dirs[k].key@ == directory {
            key_is_unique(dirs, k, upto);
        }
    }
    tree_holds_new(blobs, trees, directory, object, listing);
    assert forall|k: int| 0 <= k < dirs.len() && is_built(dirs, k, level, upto + 1) implies directory_error(
        blobs.dom(),
        (#[trigger] dirs[k]).key@,
    ) is None && tree_holds(blobs, more, dirs[k].key@) by {
        if k != upto {
            assert(is_built(dirs, k, level, upto));
            if dirs[k].key@ == directory {
                key_is_unique(dirs, k, upto);
            }
            tree_stays(blobs, trees, directory, object, dirs[k].key@);
        }
    }
    assert(placed_matches(placed_after, blobs, more)) by {
        assert forall|path: Seq<char>| #[trigger]
            placed_after.dom().contains((path, true)) <==> more.dom().contains(path) && encode_utf8(path).len() > 0 by {
            assert(placed.dom().contains((path, true)) <==> trees.dom().contains(path) && encode_utf8(path).len() > 0);
        }
        assert forall|path: Seq<char>| #[trigger] placed_after.dom().contains((path, false)) <==> blobs.dom().contains(
            path,
        ) by {
            assert(placed.dom().contains((path, false)) <==> blobs.dom().contains(path));
        }
        assert forall|path: Seq<char>| #[trigger] placed_after.dom().contains((path, false)) implies placed_after[(path, false)]
            == encode_utf8(blobs[path].0@) by {
            assert(placed.dom().contains((path, false)));
        }
        assert forall|path: Seq<char>| #[trigger] placed_after.dom().contains((path, true)) implies placed_after[(path, true)]
            == encode_utf8(more[path].oid@) by {
            if path != directory {
                assert(placed.dom().contains((path, true)));
            }
        }
    }
    assert(plainly_placed(placed_after)) by {
        assert forall|path: Seq<char>, folder: bool| #[trigger] placed_after.dom().contains((path, folder)) implies placed_path(
            path,
            folder,
        ) && sha1_text(placed_after[(path, folder)]) by {
            if (path, folder) != (directory, true) {
                assert(placed.dom().contains((path, folder)));
            }
        }
    }
}

/// The tree that is added holds what lies in its directory.
proof fn tree_holds_new(
    blobs: TargetBlobs,
    trees: TargetTrees,
    directory: Seq<char>,
    object: CanonicalTreeObject,
    listing: Seq<TreeItem>,
)
    requires
        lists_directory(listing, blobs, trees, directory),
        is_tree_of(object, listing),
        encode_utf8(directory).len() > 0 ==> parent_of(encode_utf8(directory)) != encode_utf8(directory),
    ensures
        tree_holds(blobs, trees.insert(directory, object), directory),
{
    let after = trees.insert(directory, object);
    assert forall|item: TreeItem, path: Seq<char>| #[trigger]
        item_at(blobs, trees, directory, item, path) == item_at(blobs, after, directory, item, path) by {
        if path == directory {
            assert(!item_at(blobs, trees, directory, item, path));
            assert(!item_at(blobs, after, directory, item, path));
        } else {
            assert(after[path] == trees[path]);
        }
    }
    assert forall|item: TreeItem| #[trigger] listing.contains(item) <==> item_of(blobs, after, directory, item) by {
        if item_of(blobs, trees, directory, item) {
            let path = choose|path: Seq<char>| item_at(blobs, trees, directory, item, path);
            assert(item_at(blobs, after, directory, item, path));
        }
        if item_of(blobs, after, directory, item) {
            let path = choose|path: Seq<char>| item_at(blobs, after, directory, item, path);
            assert(item_at(blobs, trees, directory, item, path));
        }
    }
    assert(lists_directory(listing, blobs, after, directory));
}

/// The depths of the directories fit a machine number.
proof fn depth_fits(blobs: TargetBlobs, directories: TextMap<()>, k: int, length: usize)
    requires
        all_file_paths(blobs.dom()),
        directories_of(directories, blobs),
        0 <= k < directories.entries@.len(),
        encode_utf8(directories.entries@[k].key@).len() <= length,
    ensures
        tree_depth(encode_utf8(directories.entries@[k].key@)) <= usize::MAX,
{
    let directory = directories.entries@[k].key@;
    entry_in_view(directories, k);
    assert(holds_path(blobs.dom(), directory));
    if encode_utf8(directory).len() > 0 {
        let path = choose|path: Seq<char>| #[trigger]
            blobs.dom().contains(path) && lies_below(encode_utf8(directory), encode_utf8(path));
        lies_below_is_plain(encode_utf8(directory), encode_utf8(path));
        parent_facts(encode_utf8(directory));
    }
}

/// The depth of the directory at `k`.
fn depth_at(directories: &TextMap<()>, k: usize, Ghost(blobs): Ghost<TargetBlobs>) -> (depth: usize)
    requires
        all_file_paths(blobs.dom()),
        directories_of(*directories, blobs),
        k < directories.entries@.len(),
    ensures
        depth == tree_depth(encode_utf8(directories.entries@[k as int].key@)),
{
    let path = directories.entries[k].key.as_str();
    let length: usize = path.as_bytes().len();
    proof {
        depth_fits(blobs, *directories, k as int, length);
    }
    target_tree_depth(path)
}

/// The depth of the deepest directory.
fn deepest(directories: &TextMap<()>, Ghost(blobs): Ghost<TargetBlobs>) -> (level: usize)
    requires
        all_file_paths(blobs.dom()),
        directories_of(*directories, blobs),
    ensures
        forall|k: int|
            0 <= k < directories.entries@.len() ==> tree_depth(encode_utf8((#[trigger] directories.entries@[k]).key@)) <= level,
{
    let mut level: usize = 0;
    let mut k: usize = 0;
    while k < directories.entries.len()
        invariant
            all_file_paths(blobs.dom()),
            directories_of(*directories, blobs),
            k <= directories.entries@.len(),
            forall|m: int| 0 <= m < k ==> tree_depth(encode_utf8((#[trigger] directories.entries@[m]).key@)) <= level,
        decreases directories.entries@.len() - k,
    {
        let depth = depth_at(directories, k, Ghost(blobs));
        if depth > level {
            level = depth;
        }
        k = k + 1;
    }
    level
}

/// Build the tree of the directory at `upto`, and hand it out to the directory above.
fn build_directory(
    directories: &TextMap<()>,
    children: &mut Vec<Vec<CanonicalTreeEntry>>,
    trees: &mut TextMap<CanonicalTreeObject>,
    upto: usize,
    Ghost(blobs): Ghost<TargetBlobs>,
    Ghost(placed): Ghost<Map<(Seq<char>, bool), Seq<u8>>>,
    Ghost(level): Ghost<int>,
) -> (r: Result<Ghost<Map<(Seq<char>, bool), Seq<u8>>>, RepositoryImportError>)
    requires
        all_file_paths(blobs.dom()),
        directories_of(*directories, blobs),
        old(trees).wf(),
        building(blobs, *directories, old(children)@, old(trees)@, placed, level, upto as int),
        upto < directories.entries@.len(),
        tree_depth(encode_utf8(directories.entries@[upto as int].key@)) == level,
    ensures
        match directory_error(blobs.dom(), directories.entries@[upto as int].key@) {
            Some(error) => r matches Err(e) && e == error,
            None => r matches Ok(after) && final(trees).wf() && building(
                blobs,
                *directories,
                final(children)@,
                final(trees)@,
                after@,
                level,
                upto + 1,
            ),
        },
{
    let ghost dirs = directories.entries@;
    let ghost directory = dirs[upto as int].key@;
    let ghost before = children@;
    let ghost built = trees@;
    proof {
        deeper_are_built(blobs, *directories, before, built, placed, level, upto as int);
        assert(!is_built(dirs, upto as int, level, upto as int));
        assert(gathered(before[upto as int]@, placed, directory));
        entry_in_view(*directories, upto as int);
        assert(holds_path(blobs.dom(), directory));
        assert(!built.dom().contains(dirs[upto as int].key@));
    }
    let made = finish_tree(&mut children[upto]);
    let ghost sorted = children@[upto as int]@;
    let ghost listing = tree_items(sorted);
    proof {
        if encode_utf8(directory).len() == 0 && dot_twice(blobs.dom()) {
            assert(placed.dom().contains((seq!['.'], false)) && placed.dom().contains((seq!['/', '.'], false)));
            dots_are_neighbours(before[upto as int]@, sorted, placed, directory);
        } else {
            gathered_is_listed(before[upto as int]@, sorted, placed, blobs, built, directory);
            error_of_listing(listing, blobs, built, directory);
        }
    }
    let object = made?;
    let ghost finished = object;
    let path = directories.entries[upto].key.as_str();
    let ghost mut after = placed;
    if path.as_bytes().len() > 0 {
        proof {
            let above = choose|above: Seq<char>| #[trigger]
                blobs.dom().contains(above) && lies_below(encode_utf8(directory), encode_utf8(above));
            lies_below_is_plain(encode_utf8(directory), encode_utf8(above));
            parent_facts(encode_utf8(directory));
        }
        let (parent, name) = match target_tree_parent_and_name(path) {
            Ok(parts) => parts,
            Err(error) => {
                return Err(error);
            },
        };
        proof {
            parent_of_directory(blobs, directory, parent@);
        }
        match directories.search(parent) {
            Ok(place) => {
                let entry = CanonicalTreeEntry { name: name.to_owned(), oid: object.oid.clone(), directory: true };
                let ghost here = entry;
                let ghost middle = children@;
                children[place].push(entry);
                proof {
                    after = placed.insert((directory, true), encode_utf8(here.oid@));
                    assert(!is_built(dirs, place as int, level, upto as int));
                    assert(place != upto);
                    assert(middle[place as int] == before[place as int]);
                    gathered_here(before[place as int]@, placed, dirs[place as int].key@, directory, here);
                    assert forall|k: int| 0 <= k < before.len() && !is_built(dirs, k, level, upto + 1) implies gathered(
                        (#[trigger] children@[k])@,
                        after,
                        dirs[k].key@,
                    ) by {
                        if k != place {
                            assert(children@[k] == before[k]);
                            assert(!is_built(dirs, k, level, upto as int));
                            assert(gathered(before[k]@, placed, dirs[k].key@));
                            other_directory(*directories, k, place as int);
                            gathered_elsewhere(before[k]@, placed, dirs[k].key@, directory, true, encode_utf8(here.oid@));
                        }
                    }
                }
            },
            Err(_) => {
                return Err(RepositoryImportError::TargetAuditFailed);
            },
        }
    } else {
        proof {
            assert forall|k: int| 0 <= k < before.len() && !is_built(dirs, k, level, upto + 1) implies gathered(
                (#[trigger] children@[k])@,
                after,
                dirs[k].key@,
            ) by {
                assert(!is_built(dirs, k, level, upto as int));
                assert(children@[k] == before[k]);
                assert(gathered(before[k]@, placed, dirs[k].key@));
            }
        }
    }
    let _ = trees.insert_new(path.to_owned(), object);
    proof {
        building_adds(
            blobs,
            *directories,
            before,
            children@,
            built,
            placed,
            level,
            upto as int,
            finished,
            listing,
            after,
        );
    }
    Ok(Ghost(after))
}

/// The trees of a target, from its files. The deepest directories come first; the first directory
/// that has no tree decides the failure.
pub fn construct_canonical_target_trees(expected_blobs: &TextMap<(String, u64)>) -> (r: Result<
    TextMap<CanonicalTreeObject>,
    RepositoryImportError,
>)
    requires
        expected_blobs.wf(),
    ensures
        !usable_blobs(expected_blobs@) ==> (r matches Err(error) && error == RepositoryImportError::TargetAuditFailed),
        usable_blobs(expected_blobs@) ==> match r {
            Ok(trees) => trees.wf() && are_canonical_trees(expected_blobs@, trees@) && forall|directory: Seq<char>| #[trigger]
                holds_path(expected_blobs@.dom(), directory) ==> directory_error(expected_blobs@.dom(), directory) is None,
            Err(error) => exists|directory: Seq<char>| #[trigger]
                fails_first(expected_blobs@.dom(), directory) && directory_error(expected_blobs@.dom(), directory) == Some(
                    error,
                ),
        },
{
    let ghost blobs = expected_blobs@;
    let directories = expected_target_tree_directories(expected_blobs)?;
    let mut children = place_files(expected_blobs, &directories)?;
    proof {
        placed_paths(blobs.dom());
        assert forall|directory: Seq<char>| #[trigger]
            directories@.dom().contains(directory) <==> holds_path(blobs.dom(), directory) by {
            assert(directories@.dom().contains(directory) <==> directory_above(blobs.dom(), directory));
        }
    }
    let mut trees: TextMap<CanonicalTreeObject> = TextMap::new();
    let mut level: usize = deepest(&directories, Ghost(blobs));
    let ghost mut placed = files_placed(blobs);
    let ghost dirs = directories.entries@;
    proof {
        assert(plainly_placed(placed)) by {
            assert forall|path: Seq<char>, folder: bool| #[trigger] placed.dom().contains((path, folder)) implies placed_path(
                path,
                folder,
            ) && sha1_text(placed[(path, folder)]) by {
                assert(blobs.dom().contains(path));
            }
        }
        assert(building(blobs, directories, children@, trees@, placed, level as int, 0)) by {
            assert forall|k: int| 0 <= k < dirs.len() implies !#[trigger] is_built(dirs, k, level as int, 0) by {
                assert(tree_depth(encode_utf8(dirs[k].key@)) <= level);
            }
        }
    }
    loop
        invariant_except_break
            building(blobs, directories, children@, trees@, placed, level as int, 0),
        invariant
            blobs == expected_blobs@,
            usable_blobs(blobs),
            all_file_paths(blobs.dom()),
            dirs == directories.entries@,
            directories_of(directories, blobs),
            trees.wf(),
        ensures
            trees.wf(),
            building(blobs, directories, children@, trees@, placed, 0, dirs.len() as int),
        decreases level,
    {
        let mut k: usize = 0;
        while k < directories.entries.len()
            invariant
                blobs == expected_blobs@,
                usable_blobs(blobs),
                all_file_paths(blobs.dom()),
                dirs == directories.entries@,
                directories_of(directories, blobs),
                trees.wf(),
                k <= dirs.len(),
                building(blobs, directories, children@, trees@, placed, level as int, k as int),
            decreases dirs.len() - k,
        {
            if depth_at(&directories, k, Ghost(blobs)) == level {
                let ghost earlier = trees@;
                let ghost middle = children@;
                match build_directory(
                    &directories,
                    &mut children,
                    &mut trees,
                    k,
                    Ghost(blobs),
                    Ghost(placed),
                    Ghost(level as int),
                ) {
                    Ok(after) => {
                        proof {
                            placed = after@;
                        }
                    },
                    Err(error) => {
                        proof {
                            first_failure(blobs, directories, middle, earlier, placed, level as int, k as int);
                        }
                        return Err(error);
                    },
                }
            } else {
                proof {
                    building_passes(blobs, directories, children@, trees@, placed, level as int, k as int);
                }
            }
            k = k + 1;
        }
        if level == 0 {
            break;
        }
        proof {
            building_descends(blobs, directories, children@, trees@, placed, level as int);
        }
        level = level - 1;
    }
    proof {
        all_are_built(blobs, directories, children@, trees@, placed);
    }
    Ok(trees)
}

/// The directory that is built next is the first that can fail.
proof fn first_failure(
    blobs: TargetBlobs,
    directories: TextMap<()>,
    children: Seq<Vec<CanonicalTreeEntry>>,
    trees: TargetTrees,
    placed: Map<(Seq<char>, bool), Seq<u8>>,
    level: int,
    upto: int,
)
    requires
        directories_of(directories, blobs),
        building(blobs, directories, children, trees, placed, level, upto),
        0 <= upto < directories.entries@.len(),
        tree_depth(encode_utf8(directories.entries@[upto].key@)) == level,
        directory_error(blobs.dom(), directories.entries@[upto].key@) is Some,
    ensures
        fails_first(blobs.dom(), directories.entries@[upto].key@),
{
    let dirs = directories.entries@;
    let directory = dirs[upto].key@;
    entry_in_view(directories, upto);
    assert(directories@.dom().contains(directory));
    assert forall|other: Seq<char>| #[trigger]
        holds_path(blobs.dom(), other) && built_before(other, directory) implies directory_error(blobs.dom(), other) is None by {
        assert(directories@.dom().contains(other));
        let k = key_index(dirs, other);
        assert(dirs[k].key@ == other);
        if tree_depth(encode_utf8(other)) == level && k >= upto {
            if k > upto {
                assert(lex_less(encode_utf8(dirs[upto].key@), encode_utf8(dirs[k].key@)));
                lex_less_transitive(encode_utf8(other), encode_utf8(directory), encode_utf8(other));
            }
            lex_less_irreflexive(encode_utf8(other));
        }
        assert(is_built(dirs, k, level, upto));
        assert(directory_error(blobs.dom(), dirs[k].key@) is None);
    }
}

proof fn all_are_built(
    blobs: TargetBlobs,
    directories: TextMap<()>,
    children: Seq<Vec<CanonicalTreeEntry>>,
    trees: TargetTrees,
    placed: Map<(Seq<char>, bool), Seq<u8>>,
)
    requires
        directories_of(directories, blobs),
        building(blobs, directories, children, trees, placed, 0, directories.entries@.len() as int),
    ensures
        are_canonical_trees(blobs, trees),
        forall|directory: Seq<char>| #[trigger]
            holds_path(blobs.dom(), directory) ==> directory_error(blobs.dom(), directory) is None,
{
    let dirs = directories.entries@;
    assert forall|directory: Seq<char>| #[trigger] holds_path(blobs.dom(), directory) implies trees.dom().contains(directory)
        && tree_holds(blobs, trees, directory) && directory_error(blobs.dom(), directory) is None by {
        assert(directories@.dom().contains(directory));
        let k = key_index(dirs, directory);
        assert(dirs[k].key@ == directory);
        assert(is_built(dirs, k, 0, dirs.len() as int));
    }
    assert forall|directory: Seq<char>| #[trigger] trees.dom().contains(directory) implies holds_path(
        blobs.dom(),
        directory,
    ) && tree_holds(blobs, trees, directory) by {
        assert(directories@.dom().contains(directory));
        assert(holds_path(blobs.dom(), directory));
    }
}

/// The trees of a target are determined by its files: the tree of a directory has the same object
/// id, size and digest in any two sets of canonical trees of the same files.
pub proof fn trees_are_determined(blobs: TargetBlobs, a: TargetTrees, b: TargetTrees, directory: Seq<char>, longest: nat)
    requires
        all_file_paths(blobs.dom()),
        are_canonical_trees(blobs, a),
        are_canonical_trees(blobs, b),
        holds_path(blobs.dom(), directory),
        forall|path: Seq<char>| #[trigger] blobs.dom().contains(path) ==> encode_utf8(path).len() <= longest,
    ensures
        a[directory].oid@ == b[directory].oid@,
        a[directory].size == b[directory].size,
        a[directory].sha256@ == b[directory].sha256@,
    decreases longest + 1 - encode_utf8(directory).len(),
{
    assert(a.dom().contains(directory) && b.dom().contains(directory));
    assert(tree_holds(blobs, a, directory) && tree_holds(blobs, b, directory));
    let listing_a = choose|listing: Seq<TreeItem>| #[trigger]
        lists_directory(listing, blobs, a, directory) && is_tree_of(a[directory], listing);
    let listing_b = choose|listing: Seq<TreeItem>| #[trigger]
        lists_directory(listing, blobs, b, directory) && is_tree_of(b[directory], listing);
    assert forall|path: Seq<char>| #[trigger] holds_path(blobs.dom(), path) && encode_utf8(path).len() > 0 && parent_of(
        encode_utf8(path),
    ) == encode_utf8(directory) implies a[path].oid@ == b[path].oid@ by {
        let file = choose|file: Seq<char>| #[trigger]
            blobs.dom().contains(file) && lies_below(encode_utf8(path), encode_utf8(file));
        assert(encode_utf8(file).len() <= longest);
        parent_of_directory(blobs, path, directory);
        parent_facts(encode_utf8(path));
        trees_are_determined(blobs, a, b, path, longest);
    }
    assert forall|item: TreeItem| #[trigger] listing_a.contains(item) == listing_b.contains(item) by {
        if item_of(blobs, a, directory, item) {
            let path = choose|path: Seq<char>| item_at(blobs, a, directory, item, path);
            assert(item_at(blobs, b, directory, item, path));
        }
        if item_of(blobs, b, directory, item) {
            let path = choose|path: Seq<char>| item_at(blobs, b, directory, item, path);
            assert(item_at(blobs, a, directory, item, path));
        }
    }
    listings_are_unique(listing_a, listing_b);
    encoding_is_injective(a[directory].oid@, b[directory].oid@);
}

} // verus!
