//! Texts that are cut at their slashes, and names that are joined with slashes.

use crate::bytes::{next_index, next_index_facts, pieces_from, split_pieces};
use crate::git_output::dot;
use crate::namespace::{all_named, joined_names, PathPart};
use crate::portable_path::{DOT, SLASH};
use crate::source_endpoints::{kept_parts, path_parts};
use crate::text::{encoding_is_injective, encoding_of_concat};
use vstd::prelude::*;
use vstd::string::*;
use vstd::utf8::{encode_utf8, is_ascii_chars_encode_utf8};

verus! {

proof fn next_index_behind(a: Seq<u8>, t: Seq<u8>, separator: u8, k: int)
    requires
        0 <= k <= t.len(),
    ensures
        next_index(a + t, separator, a.len() + k) == a.len() + next_index(t, separator, k),
    decreases t.len() - k,
{
    if k < t.len() {
        assert((a + t)[a.len() + k] == t[k]);
        if t[k] != separator {
            next_index_behind(a, t, separator, k + 1);
        }
    }
}

proof fn pieces_behind(a: Seq<u8>, t: Seq<u8>, separator: u8, k: int)
    requires
        0 <= k <= t.len(),
    ensures
        pieces_from(a + t, separator, a.len() + k) == pieces_from(t, separator, k),
    decreases t.len() - k,
{
    next_index_behind(a, t, separator, k);
    next_index_facts(t, separator, k);
    let end = next_index(t, separator, k);
    if end < t.len() {
        pieces_behind(a, t, separator, end + 1);
        assert((a + t).subrange(a.len() + k, a.len() + end) =~= t.subrange(k, end));
    } else {
        assert((a + t).subrange(a.len() + k, (a + t).len() as int) =~= t.subrange(k, t.len() as int));
    }
}

proof fn next_index_before(s: Seq<u8>, separator: u8, rest: Seq<u8>, from: int)
    requires
        0 <= from <= s.len(),
        rest.len() > 0,
        rest[0] == separator,
    ensures
        next_index(s + rest, separator, from) == next_index(s, separator, from),
    decreases s.len() - from,
{
    if from < s.len() {
        assert((s + rest)[from] == s[from]);
        if s[from] != separator {
            next_index_before(s, separator, rest, from + 1);
        }
    } else {
        assert((s + rest)[from] == rest[0]);
    }
}

proof fn pieces_of_two(s: Seq<u8>, separator: u8, t: Seq<u8>, from: int)
    requires
        0 <= from <= s.len(),
    ensures
        pieces_from(s + seq![separator] + t, separator, from) == pieces_from(s, separator, from) + pieces_from(t, separator, 0),
    decreases s.len() - from,
{
    let rest = seq![separator] + t;
    let whole = s + seq![separator] + t;
    assert(whole =~= s + rest);
    next_index_before(s, separator, rest, from);
    next_index_facts(s, separator, from);
    let end = next_index(s, separator, from);
    assert(whole.subrange(from, end) =~= s.subrange(from, end));
    if end < s.len() {
        pieces_of_two(s, separator, t, end + 1);
        assert(seq![s.subrange(from, end)] + (pieces_from(s, separator, end + 1) + pieces_from(t, separator, 0)) =~= (seq![
            s.subrange(from, end),
        ] + pieces_from(s, separator, end + 1)) + pieces_from(t, separator, 0));
    } else {
        let head = s + seq![separator];
        assert(whole =~= head + t);
        pieces_behind(head, t, separator, 0);
        assert(s.subrange(from, end) =~= s.subrange(from, s.len() as int));
    }
}

/// The pieces of two texts with a separator between them are those of the one and those of the other.
pub proof fn pieces_of_concat(s: Seq<u8>, separator: u8, t: Seq<u8>)
    ensures
        split_pieces(s + seq![separator] + t, separator) == split_pieces(s, separator) + split_pieces(t, separator),
{
    pieces_of_two(s, separator, t, 0);
}

/// A text without a separator is one piece.
pub proof fn single_piece(t: Seq<u8>, separator: u8)
    requires
        !t.contains(separator),
    ensures
        split_pieces(t, separator) == seq![t],
{
    next_index_facts(t, separator, 0);
    let end = next_index(t, separator, 0);
    if end < t.len() {
        assert(t.contains(t[end]));
    }
    assert(t.subrange(0, t.len() as int) =~= t);
}

/// Every text has a piece.
pub proof fn some_piece(t: Seq<u8>, separator: u8)
    ensures
        split_pieces(t, separator).len() >= 1,
{
    next_index_facts(t, separator, 0);
}

/// The bytes of the names of a path.
pub open spec fn name_bytes(parts: Seq<PathPart>) -> Seq<Seq<u8>> {
    Seq::new(parts.len(), |i: int| encode_utf8(parts[i]->Normal_0->0@))
}

/// An ordinary name: it is not empty, holds no slash, and is not `.` or `..`.
pub open spec fn ordinary_name(name: Seq<u8>) -> bool {
    name.len() > 0 && !name.contains(SLASH) && name != dot() && name != seq![DOT, DOT]
}

proof fn pieces_of_names(parts: Seq<PathPart>, n: int)
    requires
        1 <= n <= parts.len(),
        forall|i: int| 0 <= i < parts.len() ==> ordinary_name(#[trigger] name_bytes(parts)[i]),
    ensures
        split_pieces(encode_utf8(joined_names(parts, n)), SLASH) == name_bytes(parts).subrange(0, n),
    decreases n,
{
    let names = name_bytes(parts);
    let last = parts[n - 1]->Normal_0->0@;
    assert(ordinary_name(names[n - 1]));
    single_piece(names[n - 1], SLASH);
    if n == 1 {
        assert(names.subrange(0, 1) =~= seq![names[0]]);
    } else {
        pieces_of_names(parts, n - 1);
        let before = joined_names(parts, n - 1);
        reveal_strlit("/");
        is_ascii_chars_encode_utf8("/"@);
        assert(encode_utf8("/"@) =~= seq![SLASH]);
        encoding_of_concat(before, "/"@);
        encoding_of_concat(before + "/"@, last);
        pieces_of_concat(encode_utf8(before), SLASH, encode_utf8(last));
        assert(names.subrange(0, n) =~= names.subrange(0, n - 1) + seq![names[n - 1]]);
    }
}

proof fn ordinary_parts_are_kept(pieces: Seq<Seq<u8>>, n: int)
    requires
        0 <= n <= pieces.len(),
        forall|i: int| 0 <= i < pieces.len() ==> ordinary_name(#[trigger] pieces[i]),
    ensures
        kept_parts(pieces, n) == pieces.subrange(0, n),
    decreases n,
{
    if n > 0 {
        ordinary_parts_are_kept(pieces, n - 1);
        assert(ordinary_name(pieces[n - 1]));
        assert(pieces.subrange(0, n) =~= pieces.subrange(0, n - 1).push(pieces[n - 1]));
    } else {
        assert(pieces.subrange(0, 0) =~= Seq::<Seq<u8>>::empty());
    }
}

/// The components of a path of ordinary names are these names.
pub proof fn components_of_names(parts: Seq<PathPart>)
    requires
        forall|i: int| 0 <= i < parts.len() ==> ordinary_name(#[trigger] name_bytes(parts)[i]),
    ensures
        path_parts(encode_utf8(joined_names(parts, parts.len() as int))) == name_bytes(parts),
{
    let n = parts.len() as int;
    let names = name_bytes(parts);
    if n == 0 {
        let text = encode_utf8(joined_names(parts, 0));
        assert(text =~= Seq::<u8>::empty());
        assert(!text.contains(SLASH));
        single_piece(text, SLASH);
        assert(kept_parts(seq![text], 0) =~= Seq::<Seq<u8>>::empty());
        assert(kept_parts(seq![text], 1) == kept_parts(seq![text], 0));
        assert(names =~= Seq::<Seq<u8>>::empty());
    } else {
        pieces_of_names(parts, n);
        assert(names.subrange(0, n) =~= names);
        ordinary_parts_are_kept(names, n);
    }
}

proof fn same_names_join_alike(a: Seq<PathPart>, b: Seq<PathPart>, n: int)
    requires
        name_bytes(a) == name_bytes(b),
        0 <= n <= a.len(),
    ensures
        joined_names(a, n) == joined_names(b, n),
    decreases n,
{
    assert(name_bytes(a).len() == a.len() && name_bytes(b).len() == b.len());
    if n > 0 {
        let x = a[n - 1]->Normal_0->0@;
        let y = b[n - 1]->Normal_0->0@;
        assert(name_bytes(a)[n - 1] == encode_utf8(x));
        assert(name_bytes(b)[n - 1] == encode_utf8(y));
        encoding_is_injective(x, y);
        assert(x == y);
        same_names_join_alike(a, b, n - 1);
    }
}

/// Joining twice changes nothing: where the components of a joined path are joined again, the same path
/// comes out.
pub proof fn joining_twice_changes_nothing(parts: Seq<PathPart>, again: Seq<PathPart>)
    requires
        all_named(parts),
        forall|i: int| 0 <= i < parts.len() ==> ordinary_name(#[trigger] name_bytes(parts)[i]),
        all_named(again),
        name_bytes(again) == path_parts(encode_utf8(joined_names(parts, parts.len() as int))),
    ensures
        joined_names(again, again.len() as int) == joined_names(parts, parts.len() as int),
{
    components_of_names(parts);
    assert(name_bytes(again).len() == name_bytes(parts).len());
    same_names_join_alike(again, parts, again.len() as int);
}

} // verus!
