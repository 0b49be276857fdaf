//! The paths of a tree, and the directories above its files.

use crate::bytes::find_byte;
use crate::errors::RepositoryImportError;
use crate::portable_path::{DOT, SLASH};
use crate::text::{strip_text_prefix, text_after, text_before};
use vstd::prelude::*;
use vstd::slice::slice_subrange;
use vstd::string::*;
use vstd::utf8::{encode_utf8, is_ascii_chars_encode_utf8};

verus! {

/// A component of a path begins at `i`.
pub open spec fn begins_component(path: Seq<u8>, i: int) -> bool {
    i == 0 || path[i - 1] == SLASH
}

/// The byte at `i` fits a plain path: a slash stands between two names.
pub open spec fn plain_at(path: Seq<u8>, i: int) -> bool {
    path[i] == SLASH ==> !begins_component(path, i) && i + 1 < path.len()
}

/// A path of names with single slashes between them.
pub open spec fn plain_path(path: Seq<u8>) -> bool {
    path.len() > 0 && forall|i: int| 0 <= i < path.len() ==> #[trigger] plain_at(path, i)
}

/// The place of the last slash before `n`, or -1.
pub open spec fn last_slash(path: Seq<u8>, n: int) -> int
    decreases n,
{
    if n <= 0 {
        -1
    } else if path[n - 1] == SLASH {
        n - 1
    } else {
        last_slash(path, n - 1)
    }
}

/// What `last_slash` means.
pub proof fn last_slash_facts(path: Seq<u8>, n: int)
    requires
        0 <= n <= path.len(),
    ensures
        -1 <= last_slash(path, n) < n,
        last_slash(path, n) >= 0 ==> path[last_slash(path, n)] == SLASH,
        forall|i: int| last_slash(path, n) < i < n ==> path[i] != SLASH,
    decreases n,
{
    if n > 0 && path[n - 1] != SLASH {
        last_slash_facts(path, n - 1);
    }
}

/// The directory that a path lies in; the root is the empty path.
pub open spec fn parent_of(path: Seq<u8>) -> Seq<u8> {
    let slash = last_slash(path, path.len() as int);
    if slash < 0 {
        Seq::empty()
    } else {
        path.subrange(0, slash)
    }
}

/// The last name of a path.
pub open spec fn name_of(path: Seq<u8>) -> Seq<u8> {
    path.subrange(last_slash(path, path.len() as int) + 1, path.len() as int)
}

/// How many of the first `n` bytes are slashes.
pub open spec fn slash_count(path: Seq<u8>, n: int) -> nat
    decreases n,
{
    if n <= 0 {
        0
    } else if path[n - 1] == SLASH {
        slash_count(path, n - 1) + 1
    } else {
        slash_count(path, n - 1)
    }
}

/// How many names a path has.
pub open spec fn tree_depth(path: Seq<u8>) -> nat {
    if path.len() == 0 {
        0
    } else {
        slash_count(path, path.len() as int) + 1
    }
}

/// How many names a path has.
pub fn target_tree_depth(path: &str) -> (depth: usize)
    requires
        tree_depth(path.spec_bytes()) <= usize::MAX,
    ensures
        depth == tree_depth(path.spec_bytes()),
{
    let bytes = path.as_bytes();
    if bytes.len() == 0 {
        return 0;
    }
    let mut count: usize = 0;
    let mut i: usize = 0;
    while i < bytes.len()
        invariant
            i <= bytes@.len(),
            count == slash_count(bytes@, i as int),
            count <= i,
        decreases bytes@.len() - i,
    {
        if bytes[i] == SLASH {
            count = count + 1;
        }
        i = i + 1;
    }
    count + 1
}

/// The directory and the last name of a path. The name is not empty and holds no zero byte.
pub fn target_tree_parent_and_name<'a>(path: &'a str) -> (r: Result<(&'a str, &'a str), RepositoryImportError>)
    ensures
        r is Ok <==> name_of(path.spec_bytes()).len() > 0 && !name_of(path.spec_bytes()).contains(0),
        r matches Ok((parent, name)) ==> parent.spec_bytes() == parent_of(path.spec_bytes()) && name.spec_bytes() == name_of(
            path.spec_bytes(),
        ),
        r matches Err(error) ==> error == RepositoryImportError::TargetAuditFailed,
{
    let bytes = path.as_bytes();
    let mut at: usize = bytes.len();
    while at > 0 && bytes[at - 1] != SLASH
        invariant
            at <= bytes@.len(),
            last_slash(bytes@, bytes@.len() as int) == last_slash(bytes@, at as int),
        decreases at,
    {
        at = at - 1;
    }
    proof {
        last_slash_facts(bytes@, bytes@.len() as int);
        assert(last_slash(bytes@, bytes@.len() as int) == at - 1);
    }
    let name_bytes = slice_subrange(bytes, at, bytes.len());
    assert(name_bytes@ =~= name_of(bytes@));
    if name_bytes.len() == 0 {
        return Err(RepositoryImportError::TargetAuditFailed);
    }
    let zero = find_byte(name_bytes, 0, 0);
    if zero < name_bytes.len() {
        assert(name_bytes@[zero as int] == 0);
        return Err(RepositoryImportError::TargetAuditFailed);
    }
    if at == 0 {
        let root = "";
        proof {
            assert(name_bytes@ =~= bytes@);
            reveal_strlit("");
            is_ascii_chars_encode_utf8(root@);
            assert(root.spec_bytes() =~= Seq::<u8>::empty());
        }
        return Ok((root, path));
    }
    let parent = text_before(path, at - 1);
    let rest = text_after(path, at - 1);
    let slash = "/";
    proof {
        reveal_strlit("/");
        is_ascii_chars_encode_utf8(slash@);
        assert(slash.spec_bytes() =~= seq![SLASH]);
        assert(rest.spec_bytes().subrange(0, 1) =~= seq![SLASH]);
        assert(rest.spec_bytes().subrange(1, rest.spec_bytes().len() as int) =~= name_of(bytes@));
    }
    match strip_text_prefix(rest, slash) {
        Some(name) => Ok((parent, name)),
        None => Err(RepositoryImportError::TargetAuditFailed),
    }
}

/// `path` lies below `directory`, at any depth; every path lies below the root.
pub open spec fn lies_below(directory: Seq<u8>, path: Seq<u8>) -> bool {
    directory.len() == 0 || (directory.len() < path.len() && path[directory.len() as int] == SLASH && path.subrange(
        0,
        directory.len() as int,
    ) == directory)
}

/// `directory` is the root, or a directory above one of the paths.
pub open spec fn holds_path(paths: Set<Seq<char>>, directory: Seq<char>) -> bool {
    encode_utf8(directory).len() == 0 || exists|path: Seq<char>| #[trigger]
        paths.contains(path) && lies_below(encode_utf8(directory), encode_utf8(path))
}

/// The path `/.`, which has no component, and one name in the root.
pub open spec fn rooted_dot() -> Seq<u8> {
    seq![SLASH, DOT]
}

/// A file of a tree can have this path.
pub open spec fn file_path(path: Seq<u8>) -> bool {
    plain_path(path) || path == rooted_dot()
}

/// Every path is one of a file of a tree.
pub open spec fn all_file_paths(paths: Set<Seq<char>>) -> bool {
    forall|path: Seq<char>| #[trigger] paths.contains(path) ==> file_path(encode_utf8(path))
}

/// The one name of `/.`, and its parent.
pub proof fn rooted_dot_facts()
    ensures
        parent_of(rooted_dot()).len() == 0,
        name_of(rooted_dot()) == seq![DOT],
        !plain_path(rooted_dot()),
        forall|directory: Seq<u8>| directory.len() > 0 ==> !#[trigger] lies_below(directory, rooted_dot()),
{
    let path = rooted_dot();
    assert(path[1] == DOT && path[0] == SLASH);
    assert(last_slash(path, 2) == last_slash(path, 1));
    assert(last_slash(path, 1) == 0);
    assert(name_of(path) =~= seq![DOT]);
    assert(!plain_at(path, 0));
}

/// The name of a file is not empty and holds no slash.
pub proof fn file_name_facts(path: Seq<u8>)
    requires
        file_path(path),
    ensures
        path.len() > 0,
        name_of(path).len() > 0,
        !name_of(path).contains(SLASH),
{
    rooted_dot_facts();
    if plain_path(path) {
        parent_facts(path);
    }
}

/// The parent of a plain path: it is empty or plain, and the path lies in it.
pub proof fn parent_facts(path: Seq<u8>)
    requires
        plain_path(path),
    ensures
        lies_below(parent_of(path), path),
        parent_of(path).len() == 0 || plain_path(parent_of(path)),
        name_of(path).len() > 0,
        !name_of(path).contains(SLASH),
        parent_of(path).len() == 0 ==> name_of(path) == path,
        parent_of(path).len() > 0 ==> path == parent_of(path) + seq![SLASH] + name_of(path),
        tree_depth(path) == tree_depth(parent_of(path)) + 1,
        slash_count(path, path.len() as int) < path.len(),
{
    let n = path.len() as int;
    last_slash_facts(path, n);
    let slash = last_slash(path, n);
    let parent = parent_of(path);
    if slash >= 0 {
        assert(plain_at(path, slash));
        assert(!begins_component(path, slash));
        assert(slash > 0);
        assert(path =~= parent + seq![SLASH] + name_of(path));
        assert forall|i: int| 0 <= i < parent.len() implies #[trigger] plain_at(parent, i) by {
            assert(plain_at(path, i));
            if i + 1 < parent.len() {
                assert(parent[i + 1] == path[i + 1]);
            } else {
                assert(path[i + 1] == SLASH);
                assert(plain_at(path, i + 1));
            }
            if i > 0 {
                assert(parent[i - 1] == path[i - 1]);
            }
            if i + 2 < parent.len() {
                assert(parent[i + 2] == path[i + 2]);
            }
        }
    } else {
        assert(name_of(path) =~= path);
    }
    assert forall|i: int| 0 <= i < name_of(path).len() implies name_of(path)[i] != SLASH by {
        assert(plain_at(path, slash + 1 + i));
    }
    counts_agree(path, slash);
    slashes_are_few(path, n);
}

/// A slash more than before the last one.
proof fn counts_agree(path: Seq<u8>, slash: int)
    requires
        path.len() > 0,
        slash == last_slash(path, path.len() as int),
        slash != 0,
    ensures
        slash < 0 ==> slash_count(path, path.len() as int) == 0,
        slash > 0 ==> slash_count(path, path.len() as int) == slash_count(path.subrange(0, slash), slash) + 1,
{
    last_slash_facts(path, path.len() as int);
    no_more_slashes(path, slash, path.len() as int);
    if slash > 0 {
        count_of_prefix(path, slash, slash);
    }
}

proof fn no_more_slashes(path: Seq<u8>, slash: int, n: int)
    requires
        -1 <= slash < n <= path.len(),
        slash >= 0 ==> path[slash] == SLASH,
        forall|i: int| slash < i < n ==> path[i] != SLASH,
    ensures
        slash_count(path, n) == if slash >= 0 {
            slash_count(path, slash) + 1
        } else {
            0
        },
    decreases n,
{
    if n == 1 {
        assert(slash_count(path, 0) == 0);
    } else if n - 1 > slash {
        no_more_slashes(path, slash, n - 1);
    }
}

proof fn count_of_prefix(path: Seq<u8>, m: int, n: int)
    requires
        0 <= n <= m <= path.len(),
    ensures
        slash_count(path.subrange(0, m), n) == slash_count(path, n),
    decreases n,
{
    if n > 0 {
        count_of_prefix(path, m, n - 1);
    }
}

proof fn slashes_are_few(path: Seq<u8>, n: int)
    requires
        0 < n <= path.len(),
        plain_path(path),
    ensures
        slash_count(path, n) < n,
    decreases n,
{
    if n == 1 {
        assert(plain_at(path, 0));
        assert(slash_count(path, 0) == 0);
    } else {
        slashes_are_few(path, n - 1);
    }
}

/// A directory above a file is plain.
pub proof fn lies_below_is_plain(directory: Seq<u8>, path: Seq<u8>)
    requires
        file_path(path),
        directory.len() > 0,
        lies_below(directory, path),
    ensures
        plain_path(directory),
    decreases path.len(),
{
    rooted_dot_facts();
    parent_facts(path);
    last_slash_facts(path, path.len() as int);
    let slash = last_slash(path, path.len() as int);
    assert(directory.len() <= slash);
    let parent = parent_of(path);
    if directory.len() == slash {
        assert(directory =~= parent);
    } else {
        assert(parent[directory.len() as int] == SLASH);
        assert(parent.subrange(0, directory.len() as int) =~= directory);
        lies_below_is_plain(directory, parent);
    }
}

/// The parent of something above `whole` lies above it too.
pub proof fn above_is_above(here: Seq<u8>, whole: Seq<u8>)
    requires
        plain_path(here),
        here == whole || lies_below(here, whole),
    ensures
        lies_below(parent_of(here), whole),
{
    parent_facts(here);
    let parent = parent_of(here);
    if here != whole && parent.len() > 0 {
        assert(whole[parent.len() as int] == here[parent.len() as int]);
        assert(whole.subrange(0, parent.len() as int) =~= parent);
    }
}

} // verus!
