//! The directories above a path, which may have any form.

use crate::bytes::{find_byte, next_index, next_index_facts, pieces_from, split_pieces};
use crate::errors::RepositoryImportError;
use crate::git_output::dot;
use crate::path_components::{pieces_of_concat, single_piece};
use crate::portable_path::{DOT, SLASH};
use crate::source_endpoints::{kept_parts, path_parts};
use crate::text::{encoding_is_injective, encoding_of_concat, strip_text_prefix, text_after, text_before};
use crate::text_map::{entry_in_view, key_index, TextMap};
use vstd::prelude::*;
use vstd::string::*;
use vstd::utf8::{encode_utf8, is_ascii_chars_encode_utf8};

verus! {

/// The first `n` components, with slashes between them.
pub open spec fn joined_parts(parts: Seq<Seq<u8>>, n: int) -> Seq<u8>
    decreases n,
{
    if n <= 0 {
        Seq::empty()
    } else if n == 1 {
        parts[0]
    } else {
        joined_parts(parts, n - 1) + seq![SLASH] + parts[n - 1]
    }
}

/// A component is a name, not `.` or `..`.
pub open spec fn names_something(part: Seq<u8>) -> bool {
    part != dot() && part != seq![DOT, DOT]
}

/// The first `n` components of a path can be joined: the path does not begin at the root, and they are names.
pub open spec fn joins(path: Seq<u8>, n: int) -> bool {
    &&& !(path.len() > 0 && path[0] == SLASH)
    &&& forall|k: int| 0 <= k < n ==> names_something(#[trigger] path_parts(path)[k])
}

/// Every component of a path is a name, and the path does not begin at the root: it has a slash form.
pub open spec fn has_slash_form(path: Seq<u8>) -> bool {
    joins(path, path_parts(path).len() as int)
}

/// The slash form of a path.
pub open spec fn slash_form(path: Seq<u8>) -> Seq<u8> {
    joined_parts(path_parts(path), path_parts(path).len() as int)
}

/// Every directory above a path can be joined. A path without a component has none.
pub open spec fn parents_join(path: Seq<u8>) -> bool {
    path_parts(path).len() == 0 || joins(path, path_parts(path).len() - 1)
}

/// `directory` stands above `path`: it is joined from the first components, but not from all.
pub open spec fn is_parent(directory: Seq<u8>, path: Seq<u8>) -> bool {
    exists|k: int| 1 <= k < path_parts(path).len() && directory == #[trigger] joined_parts(path_parts(path), k)
}

/// `directory` is the root, or stands above one of the paths.
pub open spec fn directory_above(paths: Set<Seq<char>>, directory: Seq<char>) -> bool {
    encode_utf8(directory).len() == 0 || exists|path: Seq<char>| #[trigger]
        paths.contains(path) && is_parent(encode_utf8(directory), encode_utf8(path))
}

/// The directories above every one of the paths can be joined.
pub open spec fn all_parents_join(paths: Set<Seq<char>>) -> bool {
    forall|path: Seq<char>| #[trigger] paths.contains(path) ==> parents_join(encode_utf8(path))
}

/// The bytes of texts.
pub open spec fn texts_bytes(texts: Seq<&str>) -> Seq<Seq<u8>> {
    Seq::new(texts.len(), |i: int| encode_utf8(texts[i]@))
}

/// The components of a path.
fn text_parts<'a>(path: &'a str) -> (parts: Vec<&'a str>)
    ensures
        texts_bytes(parts@) == path_parts(path.spec_bytes()),
{
    let ghost all = split_pieces(path.spec_bytes(), SLASH);
    let ghost mut done = Seq::<Seq<u8>>::empty();
    let mut parts: Vec<&'a str> = Vec::new();
    let mut rest: &'a str = path;
    let mut first = true;
    let slash = "/";
    proof {
        reveal_strlit("/");
        is_ascii_chars_encode_utf8(slash@);
        assert(slash.spec_bytes() =~= seq![SLASH]);
        assert(texts_bytes(parts@) =~= kept_parts(all, 0));
        assert(all =~= done + split_pieces(rest.spec_bytes(), SLASH));
    }
    loop
        invariant
            slash.spec_bytes() == seq![SLASH],
            all == split_pieces(path.spec_bytes(), SLASH),
            all == done + split_pieces(rest.spec_bytes(), SLASH),
            first == (done.len() == 0),
            texts_bytes(parts@) == kept_parts(all, done.len() as int),
        decreases rest.spec_bytes().len(),
    {
        let bytes = rest.as_bytes();
        let at: usize = find_byte(bytes, SLASH, 0);
        proof {
            next_index_facts(bytes@, SLASH, 0);
        }
        let piece = text_before(rest, at);
        let piece_bytes = piece.as_bytes();
        let single_dot = piece_bytes.len() == 1 && piece_bytes[0] == DOT;
        proof {
            if single_dot {
                assert(piece_bytes@ =~= dot());
            }
            assert(!piece_bytes@.contains(SLASH));
            single_piece(piece_bytes@, SLASH);
        }
        let ghost tail = if at < bytes@.len() {
            split_pieces(bytes@.subrange(at + 1, bytes@.len() as int), SLASH)
        } else {
            Seq::<Seq<u8>>::empty()
        };
        proof {
            if at < bytes@.len() {
                let after = bytes@.subrange(at + 1, bytes@.len() as int);
                assert(bytes@ =~= piece_bytes@ + seq![SLASH] + after);
                pieces_of_concat(piece_bytes@, SLASH, after);
            } else {
                assert(piece_bytes@ =~= bytes@);
            }
            assert(split_pieces(bytes@, SLASH) =~= seq![piece_bytes@] + tail);
            assert(all =~= done + (seq![piece_bytes@] + tail));
            assert(all[done.len() as int] == piece_bytes@);
        }
        if piece_bytes.len() != 0 && !(single_dot && !first) {
            let ghost before = parts@;
            parts.push(piece);
            assert(texts_bytes(parts@) =~= texts_bytes(before).push(piece_bytes@));
        }
        let ghost finished = done.push(piece_bytes@);
        assert(texts_bytes(parts@) == kept_parts(all, finished.len() as int));
        if at == bytes.len() {
            assert(all.len() == finished.len());
            return parts;
        }
        let ghost here = bytes@;
        let behind = text_after(rest, at);
        assert(behind.spec_bytes().subrange(0, 1) =~= seq![SLASH]);
        match strip_text_prefix(behind, slash) {
            Some(next) => {
                proof {
                    assert(next.spec_bytes() =~= here.subrange(at + 1, here.len() as int));
                    assert(all =~= finished + tail);
                    done = finished;
                }
                rest = next;
                first = false;
            },
            None => {
                assert(false);
                return parts;
            },
        }
    }
}

/// Whether a component is `.` or `..`.
fn is_dots(part: &str) -> (r: bool)
    ensures
        r == !names_something(part.spec_bytes()),
{
    let bytes = part.as_bytes();
    let r = (bytes.len() == 1 && bytes[0] == DOT) || (bytes.len() == 2 && bytes[0] == DOT && bytes[1] == DOT);
    proof {
        if bytes@.len() == 1 && bytes@[0] == DOT {
            assert(bytes@ =~= dot());
        }
        if bytes@.len() == 2 && bytes@[0] == DOT && bytes@[1] == DOT {
            assert(bytes@ =~= seq![DOT, DOT]);
        }
    }
    r
}

/// Add a component to joined ones.
fn join_part(joined: &mut String, part: &str, Ghost(parts): Ghost<Seq<Seq<u8>>>, Ghost(n): Ghost<int>)
    requires
        0 <= n < parts.len(),
        encode_utf8(old(joined)@) == joined_parts(parts, n),
        part.spec_bytes() == parts[n],
        n > 0 ==> encode_utf8(old(joined)@).len() > 0,
        parts[n].len() > 0,
    ensures
        encode_utf8(final(joined)@) == joined_parts(parts, n + 1),
        encode_utf8(final(joined)@).len() > 0,
{
    let ghost start = joined@;
    let slash = "/";
    proof {
        reveal_strlit("/");
        is_ascii_chars_encode_utf8(slash@);
        assert(encode_utf8(slash@) =~= seq![SLASH]);
    }
    if joined.as_str().as_bytes().len() > 0 {
        joined.append(slash);
        proof {
            encoding_of_concat(start, slash@);
        }
    }
    let ghost middle = joined@;
    joined.append(part);
    proof {
        encoding_of_concat(middle, part@);
        if n == 0 {
            assert(encode_utf8(joined@) =~= parts[0]);
        }
    }
}

/// Note every directory above a path. One that cannot be joined is a failure.
pub fn note_parents(directories: &mut TextMap<()>, path: &str) -> (r: Result<(), RepositoryImportError>)
    requires
        old(directories).wf(),
    ensures
        final(directories).wf(),
        r is Ok <==> parents_join(path.spec_bytes()),
        r matches Err(error) ==> error == RepositoryImportError::TargetAuditFailed,
        r is Ok ==> forall|directory: Seq<char>| #[trigger]
            final(directories)@.dom().contains(directory) <==> old(directories)@.dom().contains(directory) || is_parent(
                encode_utf8(directory),
                path.spec_bytes(),
            ),
{
    let ghost before = directories@;
    let parts = text_parts(path);
    let ghost all = path_parts(path.spec_bytes());
    assert(all.len() == parts@.len());
    if parts.len() == 0 {
        return Ok(());
    }
    let bytes = path.as_bytes();
    if bytes.len() > 0 && bytes[0] == SLASH {
        return Err(RepositoryImportError::TargetAuditFailed);
    }
    let mut joined = String::new();
    assert(encode_utf8(joined@) =~= joined_parts(all, 0));
    let mut k: usize = 0;
    while k < parts.len() - 1
        invariant
            directories.wf(),
            all == path_parts(path.spec_bytes()),
            texts_bytes(parts@) == all,
            !(path.spec_bytes().len() > 0 && path.spec_bytes()[0] == SLASH),
            all.len() == parts@.len(),
            k < all.len(),
            encode_utf8(joined@) == joined_parts(all, k as int),
            k > 0 ==> encode_utf8(joined@).len() > 0,
            forall|m: int| 0 <= m < k ==> names_something(#[trigger] all[m]),
            forall|directory: Seq<char>| #[trigger]
                directories@.dom().contains(directory) <==> before.dom().contains(directory) || parent_within(
                    encode_utf8(directory),
                    all,
                    k as int,
                ),
        decreases all.len() - k,
    {
        let part = parts[k];
        assert(texts_bytes(parts@)[k as int] == part.spec_bytes());
        if is_dots(part) {
            assert(!names_something(all[k as int]));
            return Err(RepositoryImportError::TargetAuditFailed);
        }
        proof {
            part_facts(path.spec_bytes(), k as int);
        }
        join_part(&mut joined, part, Ghost(all), Ghost(k as int));
        let ghost seen = directories@;
        let text = joined.as_str().to_owned();
        let ghost noted = text@;
        let _ = directories.insert_new(text, ());
        proof {
            assert forall|directory: Seq<char>| #[trigger]
                directories@.dom().contains(directory) <==> before.dom().contains(directory) || parent_within(
                    encode_utf8(directory),
                    all,
                    k + 1,
                ) by {
                encoding_is_injective(directory, noted);
                assert(directories@.dom().contains(directory) == (seen.dom().contains(directory) || directory == noted));
                parent_within_step(encode_utf8(directory), all, k as int);
            }
        }
        k = k + 1;
    }
    proof {
        assert forall|directory: Seq<char>| #[trigger]
            directories@.dom().contains(directory) <==> before.dom().contains(directory) || is_parent(
                encode_utf8(directory),
                path.spec_bytes(),
            ) by {
            let d = encode_utf8(directory);
            if parent_within(d, all, k as int) {
                let j = choose|j: int| 1 <= j <= k && d == #[trigger] joined_parts(all, j);
                assert(d == joined_parts(path_parts(path.spec_bytes()), j));
            }
            if is_parent(d, path.spec_bytes()) {
                let j = choose|j: int| 1 <= j < all.len() && d == #[trigger] joined_parts(all, j);
                assert(d == joined_parts(all, j));
            }
        }
    }
    Ok(())
}

/// The whole path with single slashes between its components, if all of them are names.
pub fn slash_path_text(path: &str) -> (r: Option<String>)
    ensures
        r is Some <==> has_slash_form(path.spec_bytes()),
        r matches Some(joined) ==> encode_utf8(joined@) == slash_form(path.spec_bytes()),
{
    let bytes = path.as_bytes();
    if bytes.len() > 0 && bytes[0] == SLASH {
        return None;
    }
    let parts = text_parts(path);
    let ghost all = path_parts(path.spec_bytes());
    let mut joined = String::new();
    assert(encode_utf8(joined@) =~= joined_parts(all, 0));
    let mut k: usize = 0;
    while k < parts.len()
        invariant
            all == path_parts(path.spec_bytes()),
            texts_bytes(parts@) == all,
            k <= parts@.len(),
            all.len() == parts@.len(),
            encode_utf8(joined@) == joined_parts(all, k as int),
            k > 0 ==> encode_utf8(joined@).len() > 0,
            forall|m: int| 0 <= m < k ==> names_something(#[trigger] all[m]),
        decreases parts@.len() - k,
    {
        let part = parts[k];
        assert(texts_bytes(parts@)[k as int] == part.spec_bytes());
        if is_dots(part) {
            assert(!names_something(all[k as int]));
            return None;
        }
        proof {
            part_facts(path.spec_bytes(), k as int);
        }
        join_part(&mut joined, part, Ghost(all), Ghost(k as int));
        k = k + 1;
    }
    Some(joined)
}

/// `directory` is joined from at most the first `n` components.
spec fn parent_within(directory: Seq<u8>, parts: Seq<Seq<u8>>, n: int) -> bool {
    exists|k: int| 1 <= k <= n && directory == #[trigger] joined_parts(parts, k)
}

proof fn parent_within_step(directory: Seq<u8>, parts: Seq<Seq<u8>>, n: int)
    requires
        n >= 0,
    ensures
        parent_within(directory, parts, n + 1) == (parent_within(directory, parts, n) || directory == joined_parts(parts, n + 1)),
{
    if parent_within(directory, parts, n + 1) {
        let k = choose|k: int| 1 <= k <= n + 1 && directory == #[trigger] joined_parts(parts, k);
        if k <= n {
            assert(parent_within(directory, parts, n));
        }
    }
    if parent_within(directory, parts, n) {
        let k = choose|k: int| 1 <= k <= n && directory == #[trigger] joined_parts(parts, k);
        assert(directory == joined_parts(parts, k));
    }
    if directory == joined_parts(parts, n + 1) {
        assert(parent_within(directory, parts, n + 1));
    }
}

proof fn pieces_hold_no_slash(s: Seq<u8>, from: int, i: int)
    requires
        0 <= from <= s.len(),
        0 <= i < pieces_from(s, SLASH, from).len(),
    ensures
        !pieces_from(s, SLASH, from)[i].contains(SLASH),
    decreases s.len() - from,
{
    next_index_facts(s, SLASH, from);
    let end = next_index(s, SLASH, from);
    if i > 0 && end < s.len() {
        pieces_hold_no_slash(s, end + 1, i - 1);
        assert(pieces_from(s, SLASH, from)[i] == pieces_from(s, SLASH, end + 1)[i - 1]);
    }
}

proof fn kept_part_facts(s: Seq<u8>, n: int, k: int)
    requires
        0 <= n <= split_pieces(s, SLASH).len(),
        0 <= k < kept_parts(split_pieces(s, SLASH), n).len(),
    ensures
        kept_parts(split_pieces(s, SLASH), n)[k].len() > 0,
        !kept_parts(split_pieces(s, SLASH), n)[k].contains(SLASH),
    decreases n,
{
    let pieces = split_pieces(s, SLASH);
    if n > 0 {
        pieces_hold_no_slash(s, 0, n - 1);
        if k < kept_parts(pieces, n - 1).len() {
            kept_part_facts(s, n - 1, k);
        }
    }
}

/// A component is not empty and holds no slash.
pub proof fn part_facts(path: Seq<u8>, k: int)
    requires
        0 <= k < path_parts(path).len(),
    ensures
        path_parts(path)[k].len() > 0,
        !path_parts(path)[k].contains(SLASH),
{
    kept_part_facts(path, split_pieces(path, SLASH).len() as int, k);
}

/// The root, and every directory above one of the paths that are the keys of a map. One that cannot be
/// joined is a failure.
pub fn expected_target_tree_directories<V>(paths: &TextMap<V>) -> (r: Result<TextMap<()>, RepositoryImportError>)
    requires
        paths.wf(),
    ensures
        r is Ok <==> all_parents_join(paths@.dom()),
        r matches Ok(directories) ==> directories.wf() && forall|directory: Seq<char>| #[trigger]
            directories@.dom().contains(directory) <==> directory_above(paths@.dom(), directory),
        r matches Err(error) ==> error == RepositoryImportError::TargetAuditFailed,
{
    let mut directories: TextMap<()> = TextMap::new();
    let root = "".to_owned();
    proof {
        reveal_strlit("");
        is_ascii_chars_encode_utf8(root@);
    }
    let _ = directories.insert_new(root, ());
    proof {
        assert forall|directory: Seq<char>| #[trigger]
            directories@.dom().contains(directory) <==> encode_utf8(directory).len() == 0 by {
            if encode_utf8(directory).len() == 0 {
                assert(encode_utf8(directory) =~= encode_utf8(root@));
            }
            encoding_is_injective(directory, root@);
        }
    }
    let ghost entries = paths.entries@;
    let mut i: usize = 0;
    while i < paths.entries.len()
        invariant
            paths.wf(),
            directories.wf(),
            entries == paths.entries@,
            i <= entries.len(),
            forall|k: int| 0 <= k < i ==> parents_join(encode_utf8((#[trigger] entries[k]).key@)),
            forall|directory: Seq<char>| #[trigger]
                directories@.dom().contains(directory) <==> encode_utf8(directory).len() == 0 || exists|k: int|
                    0 <= k < i && is_parent(encode_utf8(directory), encode_utf8((#[trigger] entries[k]).key@)),
        decreases entries.len() - i,
    {
        let path = paths.entries[i].key.as_str();
        proof {
            entry_in_view(*paths, i as int);
            assert(paths@.dom().contains(path@));
        }
        let ghost seen = directories@;
        note_parents(&mut directories, path)?;
        proof {
            assert forall|directory: Seq<char>| #[trigger]
                directories@.dom().contains(directory) <==> encode_utf8(directory).len() == 0 || exists|k: int|
                    0 <= k < i + 1 && is_parent(encode_utf8(directory), encode_utf8((#[trigger] entries[k]).key@)) by {
                let d = encode_utf8(directory);
                assert(directories@.dom().contains(directory) == (seen.dom().contains(directory) || is_parent(
                    d,
                    encode_utf8(entries[i as int].key@),
                )));
                if exists|k: int| 0 <= k < i + 1 && is_parent(d, encode_utf8((#[trigger] entries[k]).key@)) {
                    let k = choose|k: int| 0 <= k < i + 1 && is_parent(d, encode_utf8((#[trigger] entries[k]).key@));
                    if k < i {
                        assert(is_parent(d, encode_utf8(entries[k].key@)));
                    }
                }
                if exists|k: int| 0 <= k < i && is_parent(d, encode_utf8((#[trigger] entries[k]).key@)) {
                    let k = choose|k: int| 0 <= k < i && is_parent(d, encode_utf8((#[trigger] entries[k]).key@));
                    assert(is_parent(d, encode_utf8(entries[k].key@)));
                }
            }
        }
        i = i + 1;
    }
    proof {
        assert forall|path: Seq<char>| #[trigger] paths@.dom().contains(path) implies parents_join(encode_utf8(path)) by {
            let k = key_index(entries, path);
            assert(entries[k].key@ == path);
        }
        assert forall|directory: Seq<char>| #[trigger]
            directories@.dom().contains(directory) <==> directory_above(paths@.dom(), directory) by {
            let d = encode_utf8(directory);
            if exists|k: int| 0 <= k < entries.len() && is_parent(d, encode_utf8((#[trigger] entries[k]).key@)) {
                let k = choose|k: int| 0 <= k < entries.len() && is_parent(d, encode_utf8((#[trigger] entries[k]).key@));
                entry_in_view(*paths, k);
                assert(paths@.dom().contains(entries[k].key@));
            }
            if exists|path: Seq<char>| #[trigger] paths@.dom().contains(path) && is_parent(d, encode_utf8(path)) {
                let path = choose|path: Seq<char>| #[trigger] paths@.dom().contains(path) && is_parent(d, encode_utf8(path));
                let k = key_index(entries, path);
                assert(entries[k].key@ == path);
                assert(is_parent(d, encode_utf8(entries[k].key@)));
            }
        }
    }
    Ok(directories)
}

} // verus!
