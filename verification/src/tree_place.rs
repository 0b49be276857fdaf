//! Paths that have a place in a tree.

use crate::bytes::split_pieces;
use crate::git_output::dot;
use crate::path_components::{pieces_of_concat, single_piece};
use crate::path_parents::{
    all_parents_join, directory_above, is_parent, joined_parts, joins, names_something, parents_join, part_facts,
};
use crate::portable_path::SLASH;
use crate::source_endpoints::{kept_parts, path_parts};
use crate::tree_path::{
    all_file_paths, file_path, holds_path, last_slash_facts, lies_below, name_of, parent_of, plain_at, plain_path,
    rooted_dot, rooted_dot_facts,
};
use vstd::prelude::*;
use vstd::utf8::encode_utf8;

verus! {

/// A path has a place among paths: its last name is not empty and holds no zero byte, and what stands before
/// it is the root or a directory above one of the paths.
pub open spec fn has_place(paths: Set<Seq<char>>, path: Seq<char>) -> bool {
    let bytes = encode_utf8(path);
    &&& name_of(bytes).len() > 0
    &&& !name_of(bytes).contains(0)
    &&& parent_of(bytes).len() == 0 || exists|other: Seq<char>| #[trigger]
        paths.contains(other) && is_parent(parent_of(bytes), encode_utf8(other))
}

/// Every path has its place.
pub open spec fn all_placed(paths: Set<Seq<char>>) -> bool {
    all_parents_join(paths) && forall|path: Seq<char>| #[trigger] paths.contains(path) ==> has_place(paths, path)
}

/// The first `n` components are names.
pub open spec fn are_names(parts: Seq<Seq<u8>>, n: int) -> bool {
    n <= parts.len() && forall|k: int|
        0 <= k < n ==> (#[trigger] parts[k]).len() > 0 && !parts[k].contains(SLASH) && names_something(parts[k])
}

proof fn name_is_plain(name: Seq<u8>)
    requires
        name.len() > 0,
        !name.contains(SLASH),
    ensures
        plain_path(name),
{
    assert forall|i: int| 0 <= i < name.len() implies #[trigger] plain_at(name, i) by {
        assert(name.contains(name[i]));
    }
}

proof fn longer_is_plain(s: Seq<u8>, name: Seq<u8>)
    requires
        plain_path(s),
        name.len() > 0,
        !name.contains(SLASH),
    ensures
        plain_path(s + seq![SLASH] + name),
{
    let whole = s + seq![SLASH] + name;
    assert forall|i: int| 0 <= i < whole.len() implies #[trigger] plain_at(whole, i) by {
        if i < s.len() {
            assert(plain_at(s, i));
            if i > 0 {
                assert(whole[i - 1] == s[i - 1]);
            }
        } else if i == s.len() {
            assert(plain_at(s, s.len() - 1));
            assert(whole[i - 1] == s[i - 1]);
        } else {
            assert(whole[i] == name[i - s.len() - 1]);
            assert(name.contains(name[i - s.len() - 1]));
        }
    }
}

/// What stands above a path stands above a longer one.
proof fn above_longer(directory: Seq<u8>, s: Seq<u8>, name: Seq<u8>)
    requires
        directory.len() > 0,
        directory == s || lies_below(directory, s),
    ensures
        lies_below(directory, s + seq![SLASH] + name),
{
    let whole = s + seq![SLASH] + name;
    let n = directory.len() as int;
    if directory == s {
        assert(whole.subrange(0, n) =~= s);
    } else {
        assert(whole[n] == s[n]);
        assert(whole.subrange(0, n) =~= s.subrange(0, n));
    }
}

/// What stands above a path with one more name is the path without it, or stands above that.
proof fn above_shorter(directory: Seq<u8>, s: Seq<u8>, name: Seq<u8>)
    requires
        directory.len() > 0,
        !name.contains(SLASH),
        lies_below(directory, s + seq![SLASH] + name),
    ensures
        directory == s || lies_below(directory, s),
{
    let whole = s + seq![SLASH] + name;
    let n = directory.len() as int;
    if n > s.len() {
        assert(whole[n] == name[n - s.len() - 1]);
        assert(name.contains(name[n - s.len() - 1]));
    } else if n == s.len() {
        assert(whole.subrange(0, n) =~= s);
    } else {
        assert(whole[n] == s[n]);
        assert(whole.subrange(0, n) =~= s.subrange(0, n));
    }
}

/// Joined names are a plain path, whose pieces they are.
pub proof fn joined_facts(parts: Seq<Seq<u8>>, n: int)
    requires
        1 <= n,
        are_names(parts, n),
    ensures
        plain_path(joined_parts(parts, n)),
        split_pieces(joined_parts(parts, n), SLASH) == parts.subrange(0, n),
    decreases n,
{
    let last = parts[n - 1];
    single_piece(last, SLASH);
    if n == 1 {
        name_is_plain(last);
        assert(parts.subrange(0, 1) =~= seq![parts[0]]);
    } else {
        joined_facts(parts, n - 1);
        longer_is_plain(joined_parts(parts, n - 1), last);
        pieces_of_concat(joined_parts(parts, n - 1), SLASH, last);
        assert(parts.subrange(0, n) =~= parts.subrange(0, n - 1) + seq![last]);
    }
}

/// A shorter join stands above a longer one.
proof fn shorter_join_is_above(parts: Seq<Seq<u8>>, k: int, n: int)
    requires
        1 <= k < n,
        are_names(parts, n),
    ensures
        lies_below(joined_parts(parts, k), joined_parts(parts, n)),
    decreases n,
{
    joined_facts(parts, k);
    if k < n - 1 {
        shorter_join_is_above(parts, k, n - 1);
    }
    above_longer(joined_parts(parts, k), joined_parts(parts, n - 1), parts[n - 1]);
}

/// What stands above a join is a shorter one.
proof fn above_join_is_shorter(parts: Seq<Seq<u8>>, n: int, directory: Seq<u8>) -> (k: int)
    requires
        1 <= n,
        are_names(parts, n),
        directory.len() > 0,
        lies_below(directory, joined_parts(parts, n)),
    ensures
        1 <= k < n,
        directory == joined_parts(parts, k),
    decreases n,
{
    if n == 1 {
        assert(parts[0].contains(parts[0][directory.len() as int]));
        1
    } else {
        above_shorter(directory, joined_parts(parts, n - 1), parts[n - 1]);
        if directory == joined_parts(parts, n - 1) {
            n - 1
        } else {
            above_join_is_shorter(parts, n - 1, directory)
        }
    }
}

/// Names are components.
pub proof fn names_are_kept(pieces: Seq<Seq<u8>>, n: int)
    requires
        0 <= n,
        are_names(pieces, n),
    ensures
        kept_parts(pieces, n) == pieces.subrange(0, n),
    decreases n,
{
    if n > 0 {
        names_are_kept(pieces, n - 1);
        assert(pieces.subrange(0, n) =~= pieces.subrange(0, n - 1).push(pieces[n - 1]));
    } else {
        assert(pieces.subrange(0, 0) =~= Seq::<Seq<u8>>::empty());
    }
}

/// The components of joined names with one more name: these names, and perhaps the last.
proof fn parts_of_longer(parts: Seq<Seq<u8>>, n: int, name: Seq<u8>)
    requires
        1 <= n,
        are_names(parts, n),
        name.len() > 0,
        !name.contains(SLASH),
    ensures
        ({
            let found = path_parts(joined_parts(parts, n) + seq![SLASH] + name);
            n <= found.len() <= n + 1 && forall|k: int| 0 <= k < n ==> #[trigger] found[k] == parts[k]
        }),
{
    let whole = joined_parts(parts, n) + seq![SLASH] + name;
    let found = path_parts(whole);
    joined_facts(parts, n);
    pieces_of_concat(joined_parts(parts, n), SLASH, name);
    single_piece(name, SLASH);
    let pieces = split_pieces(whole, SLASH);
    assert(pieces =~= parts.subrange(0, n).push(name));
    assert(are_names(pieces, n));
    names_are_kept(pieces, n);
    let kept = kept_parts(pieces, n);
    assert(kept =~= parts.subrange(0, n));
    assert(found == kept || found == kept.push(name));
}

proof fn joins_agree(a: Seq<Seq<u8>>, b: Seq<Seq<u8>>, n: int)
    requires
        0 <= n,
        forall|k: int| 0 <= k < n ==> #[trigger] a[k] == b[k],
    ensures
        joined_parts(a, n) == joined_parts(b, n),
    decreases n,
{
    if n > 0 {
        assert(a[n - 1] == b[n - 1]);
        joins_agree(a, b, n - 1);
    }
}

/// A directory above a path is joined from names.
proof fn parent_is_joined(directory: Seq<u8>, path: Seq<u8>) -> (k: int)
    requires
        parents_join(path),
        is_parent(directory, path),
    ensures
        1 <= k < path_parts(path).len(),
        directory == joined_parts(path_parts(path), k),
        are_names(path_parts(path), path_parts(path).len() - 1),
{
    let parts = path_parts(path);
    assert forall|m: int| 0 <= m < parts.len() - 1 implies (#[trigger] parts[m]).len() > 0 && !parts[m].contains(SLASH)
        && names_something(parts[m]) by {
        part_facts(path, m);
        assert(joins(path, parts.len() - 1));
    }
    choose|k: int| 1 <= k < parts.len() && directory == #[trigger] joined_parts(parts, k)
}

proof fn split_at_last_slash(path: Seq<u8>)
    requires
        name_of(path).len() > 0,
        path[0] != SLASH,
    ensures
        !name_of(path).contains(SLASH),
        parent_of(path).len() == 0 ==> path == name_of(path),
        parent_of(path).len() > 0 ==> path == parent_of(path) + seq![SLASH] + name_of(path),
{
    let n = path.len() as int;
    last_slash_facts(path, n);
    if parent_of(path).len() == 0 {
        assert(path =~= name_of(path));
    } else {
        assert(path =~= parent_of(path) + seq![SLASH] + name_of(path));
    }
}

/// A path that has a place and begins with a slash is `/.`.
proof fn rooted_place(paths: Set<Seq<char>>, path: Seq<char>)
    requires
        all_parents_join(paths),
        paths.contains(path),
        has_place(paths, path),
        encode_utf8(path)[0] == SLASH,
    ensures
        encode_utf8(path) == rooted_dot(),
{
    let bytes = encode_utf8(path);
    last_slash_facts(bytes, bytes.len() as int);
    if parent_of(bytes).len() > 0 {
        let other = choose|other: Seq<char>| #[trigger]
            paths.contains(other) && is_parent(parent_of(bytes), encode_utf8(other));
        let k = parent_is_joined(parent_of(bytes), encode_utf8(other));
        joined_facts(path_parts(encode_utf8(other)), k);
        assert(plain_at(parent_of(bytes), 0));
    } else {
        let name = name_of(bytes);
        let none = Seq::<u8>::empty();
        assert(bytes =~= none + seq![SLASH] + name);
        pieces_of_concat(none, SLASH, name);
        single_piece(none, SLASH);
        single_piece(name, SLASH);
        let pieces = split_pieces(bytes, SLASH);
        assert(pieces =~= seq![none, name]);
        assert(kept_parts(pieces, 0).len() == 0);
        assert(kept_parts(pieces, 1).len() == 0);
        assert(parents_join(bytes));
        assert(path_parts(bytes).len() == 0);
        assert(pieces[1] == dot());
        assert(bytes =~= rooted_dot());
    }
}

/// A path that has a place is one of a file of a tree.
pub proof fn place_is_file_path(paths: Set<Seq<char>>, path: Seq<char>)
    requires
        all_parents_join(paths),
        paths.contains(path),
        has_place(paths, path),
    ensures
        file_path(encode_utf8(path)),
{
    let bytes = encode_utf8(path);
    if bytes[0] == SLASH {
        rooted_place(paths, path);
    } else {
        place_is_plain(paths, path);
    }
}

proof fn place_is_plain(paths: Set<Seq<char>>, path: Seq<char>)
    requires
        all_parents_join(paths),
        has_place(paths, path),
        encode_utf8(path)[0] != SLASH,
    ensures
        plain_path(encode_utf8(path)),
{
    let bytes = encode_utf8(path);
    split_at_last_slash(bytes);
    if parent_of(bytes).len() == 0 {
        name_is_plain(bytes);
    } else {
        let other = choose|other: Seq<char>| #[trigger]
            paths.contains(other) && is_parent(parent_of(bytes), encode_utf8(other));
        let k = parent_is_joined(parent_of(bytes), encode_utf8(other));
        joined_facts(path_parts(encode_utf8(other)), k);
        longer_is_plain(parent_of(bytes), name_of(bytes));
    }
}

/// Where every path has its place, the directories above the paths are those that a path lies below.
proof fn above_is_below(paths: Set<Seq<char>>, directory: Seq<char>)
    requires
        all_placed(paths),
        directory_above(paths, directory),
    ensures
        holds_path(paths, directory),
{
    let d = encode_utf8(directory);
    if d.len() > 0 {
        let path = choose|path: Seq<char>| #[trigger] paths.contains(path) && is_parent(d, encode_utf8(path));
        let bytes = encode_utf8(path);
        let parts = path_parts(bytes);
        let k = parent_is_joined(d, bytes);
        assert(has_place(paths, path));
        assert(joins(bytes, parts.len() - 1));
        split_at_last_slash(bytes);
        if parent_of(bytes).len() == 0 {
            single_piece(bytes, SLASH);
            assert(kept_parts(seq![bytes], 0).len() == 0);
            assert(kept_parts(seq![bytes], 1).len() <= 1);
        } else {
            let above = parent_of(bytes);
            let other = choose|other: Seq<char>| #[trigger] paths.contains(other) && is_parent(above, encode_utf8(other));
            let names = path_parts(encode_utf8(other));
            let n = parent_is_joined(above, encode_utf8(other));
            parts_of_longer(names, n, name_of(bytes));
            joins_agree(parts, names, k);
            joined_facts(names, k);
            if k < n {
                shorter_join_is_above(names, k, n);
            }
            above_longer(d, above, name_of(bytes));
            assert(paths.contains(path) && lies_below(d, bytes));
        }
    }
}

proof fn below_is_above(paths: Set<Seq<char>>, directory: Seq<char>)
    requires
        all_placed(paths),
        holds_path(paths, directory),
    ensures
        directory_above(paths, directory),
{
    let d = encode_utf8(directory);
    if d.len() > 0 {
        let path = choose|path: Seq<char>| #[trigger] paths.contains(path) && lies_below(d, encode_utf8(path));
        let bytes = encode_utf8(path);
        assert(has_place(paths, path));
        if bytes[0] == SLASH {
            rooted_place(paths, path);
            rooted_dot_facts();
        }
        split_at_last_slash(bytes);
        if parent_of(bytes).len() == 0 {
            assert(bytes.contains(bytes[d.len() as int]));
        } else {
            let above = parent_of(bytes);
            let other = choose|other: Seq<char>| #[trigger] paths.contains(other) && is_parent(above, encode_utf8(other));
            let names = path_parts(encode_utf8(other));
            let n = parent_is_joined(above, encode_utf8(other));
            above_shorter(d, above, name_of(bytes));
            if d != above {
                let k = above_join_is_shorter(names, n, d);
                assert(d == joined_parts(names, k));
            }
            assert(is_parent(d, encode_utf8(other)));
        }
    }
}

/// Where every path has its place, every path is one of a file of a tree, and the directories above the paths
/// are those that a path lies below.
pub proof fn placed_paths(paths: Set<Seq<char>>)
    requires
        all_placed(paths),
    ensures
        all_file_paths(paths),
        forall|directory: Seq<char>| #[trigger] directory_above(paths, directory) == holds_path(paths, directory),
{
    assert forall|path: Seq<char>| #[trigger] paths.contains(path) implies file_path(encode_utf8(path)) by {
        place_is_file_path(paths, path);
    }
    assert forall|directory: Seq<char>| #[trigger] directory_above(paths, directory) == holds_path(paths, directory) by {
        if directory_above(paths, directory) {
            above_is_below(paths, directory);
        }
        if holds_path(paths, directory) {
            below_is_above(paths, directory);
        }
    }
}

} // verus!
