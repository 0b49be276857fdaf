//! Byte sequences: equality, lexicographic order, affixes, searching and splitting.
//!
//! Every path, record and object name in this library is decided on its bytes, so the
//! contracts below are the vocabulary of the other modules.

use vstd::prelude::*;
use vstd::slice::slice_subrange;

verus! {

/// `k` is the first place where `a` and `b` part, and `a` is the smaller one there.
pub open spec fn parts_below(a: Seq<u8>, b: Seq<u8>, k: int) -> bool {
    &&& 0 <= k <= a.len()
    &&& k < b.len()
    &&& forall|i: int| 0 <= i < k ==> a[i] == b[i]
    &&& k == a.len() || a[k] < b[k]
}

/// Lexicographic order on bytes; a proper prefix comes first.
pub open spec fn lex_less(a: Seq<u8>, b: Seq<u8>) -> bool {
    exists|k: int| parts_below(a, b, k)
}

/// The order is irreflexive.
pub proof fn lex_less_irreflexive(a: Seq<u8>)
    ensures
        !lex_less(a, a),
{
}

/// The order is transitive.
pub proof fn lex_less_transitive(a: Seq<u8>, b: Seq<u8>, c: Seq<u8>)
    requires
        lex_less(a, b),
        lex_less(b, c),
    ensures
        lex_less(a, c),
{
    let i = choose|i: int| parts_below(a, b, i);
    let j = choose|j: int| parts_below(b, c, j);
    if i <= j {
        assert(parts_below(a, c, i));
    } else {
        assert(parts_below(a, c, j));
    }
}

/// Two sequences are equal, or one is below the other, and never both.
pub proof fn lex_less_trichotomy(a: Seq<u8>, b: Seq<u8>)
    ensures
        a == b || lex_less(a, b) || lex_less(b, a),
        !(lex_less(a, b) && lex_less(b, a)),
    decreases a.len(),
{
    if lex_less(a, b) && lex_less(b, a) {
        lex_less_transitive(a, b, a);
        lex_less_irreflexive(a);
    }
    first_difference(a, b, 0);
}

proof fn first_difference(a: Seq<u8>, b: Seq<u8>, k: int)
    requires
        0 <= k <= a.len(),
        k <= b.len(),
        forall|i: int| 0 <= i < k ==> a[i] == b[i],
    ensures
        a == b || lex_less(a, b) || lex_less(b, a),
    decreases a.len() - k,
{
    if k == a.len() && k == b.len() {
        assert(a =~= b);
    } else if k == a.len() {
        assert(parts_below(a, b, k));
    } else if k == b.len() {
        assert(parts_below(b, a, k));
    } else if a[k] < b[k] {
        assert(parts_below(a, b, k));
    } else if b[k] < a[k] {
        assert(parts_below(b, a, k));
    } else {
        first_difference(a, b, k + 1);
    }
}

/// Whether two byte slices hold the same bytes.
pub fn bytes_equal(a: &[u8], b: &[u8]) -> (r: bool)
    ensures
        r == (a@ == b@),
{
    if a.len() != b.len() {
        return false;
    }
    let mut i: usize = 0;
    while i < a.len()
        invariant
            i <= a.len(),
            a.len() == b.len(),
            forall|k: int| 0 <= k < i ==> a[k] == b[k],
        decreases a.len() - i,
    {
        if a[i] != b[i] {
            return false;
        }
        i = i + 1;
    }
    assert(a@ =~= b@);
    true
}

/// Whether `a` comes before `b` in lexicographic order.
pub fn bytes_less(a: &[u8], b: &[u8]) -> (r: bool)
    ensures
        r == lex_less(a@, b@),
{
    let mut i: usize = 0;
    while i < a.len() && i < b.len()
        invariant
            i <= a.len(),
            i <= b.len(),
            forall|k: int| 0 <= k < i ==> a[k] == b[k],
        decreases a.len() - i,
    {
        if a[i] < b[i] {
            assert(parts_below(a@, b@, i as int));
            return true;
        }
        if b[i] < a[i] {
            assert(parts_below(b@, a@, i as int));
            proof {
                lex_less_trichotomy(a@, b@);
            }
            return false;
        }
        i = i + 1;
    }
    if i < b.len() {
        assert(parts_below(a@, b@, i as int));
        return true;
    }
    assert forall|k: int| !parts_below(a@, b@, k) by {}
    false
}

/// `s` begins with `prefix`.
pub open spec fn has_prefix(s: Seq<u8>, prefix: Seq<u8>) -> bool {
    s.len() >= prefix.len() && s.subrange(0, prefix.len() as int) == prefix
}

/// `s` ends with `suffix`.
pub open spec fn has_suffix(s: Seq<u8>, suffix: Seq<u8>) -> bool {
    s.len() >= suffix.len() && s.subrange(s.len() - suffix.len(), s.len() as int) == suffix
}

/// Whether `s` begins with `prefix`.
pub fn starts_with(s: &[u8], prefix: &[u8]) -> (r: bool)
    ensures
        r == has_prefix(s@, prefix@),
{
    if s.len() < prefix.len() {
        return false;
    }
    bytes_equal(slice_subrange(s, 0, prefix.len()), prefix)
}

/// Whether `s` ends with `suffix`.
pub fn ends_with(s: &[u8], suffix: &[u8]) -> (r: bool)
    ensures
        r == has_suffix(s@, suffix@),
{
    if s.len() < suffix.len() {
        return false;
    }
    bytes_equal(slice_subrange(s, s.len() - suffix.len(), s.len()), suffix)
}

/// The first place at or after `from` where `byte` stands, or the length of `s`.
pub open spec fn next_index(s: Seq<u8>, byte: u8, from: int) -> int
    decreases s.len() - from,
{
    if from >= s.len() {
        s.len() as int
    } else if s[from] == byte {
        from
    } else {
        next_index(s, byte, from + 1)
    }
}

/// What `next_index` means: nothing before it is `byte`, and it is `byte` or the end.
pub proof fn next_index_facts(s: Seq<u8>, byte: u8, from: int)
    requires
        0 <= from <= s.len(),
    ensures
        from <= next_index(s, byte, from) <= s.len(),
        next_index(s, byte, from) < s.len() ==> s[next_index(s, byte, from)] == byte,
        forall|i: int| from <= i < next_index(s, byte, from) ==> s[i] != byte,
    decreases s.len() - from,
{
    if from < s.len() && s[from] != byte {
        next_index_facts(s, byte, from + 1);
    }
}

/// The first place at or after `from` where `byte` stands, or the length of `s`.
pub fn find_byte(s: &[u8], byte: u8, from: usize) -> (r: usize)
    requires
        from <= s.len(),
    ensures
        r == next_index(s@, byte, from as int),
        from <= r <= s.len(),
        r < s.len() ==> s[r as int] == byte,
        forall|i: int| from <= i < r ==> s[i] != byte,
{
    let mut i: usize = from;
    while i < s.len() && s[i] != byte
        invariant
            from <= i <= s.len(),
            next_index(s@, byte, from as int) == next_index(s@, byte, i as int),
            forall|k: int| from <= k < i ==> s[k] != byte,
        decreases s.len() - i,
    {
        i = i + 1;
    }
    i
}

/// The pieces of `s` from `from` on, between occurrences of `separator`.
pub open spec fn pieces_from(s: Seq<u8>, separator: u8, from: int) -> Seq<Seq<u8>>
    decreases s.len() - from,
    when 0 <= from <= s.len()
{
    let end = next_index(s, separator, from);
    if end < from || end >= s.len() {
        seq![s.subrange(from, s.len() as int)]
    } else {
        seq![s.subrange(from, end)] + pieces_from(s, separator, end + 1)
    }
}

/// `s` cut at every occurrence of `separator`; the empty sequence is one empty piece.
pub open spec fn split_pieces(s: Seq<u8>, separator: u8) -> Seq<Seq<u8>> {
    pieces_from(s, separator, 0)
}

/// The byte contents of a list of slices.
pub open spec fn slices_view(slices: Seq<&[u8]>) -> Seq<Seq<u8>> {
    slices.map_values(|piece: &[u8]| piece@)
}

/// Cut `s` at every occurrence of `separator`.
pub fn split_bytes<'a>(s: &'a [u8], separator: u8) -> (pieces: Vec<&'a [u8]>)
    ensures
        slices_view(pieces@) == split_pieces(s@, separator),
        pieces.len() >= 1,
{
    let mut pieces: Vec<&'a [u8]> = Vec::new();
    let mut from: usize = 0;
    loop
        invariant
            from <= s.len(),
            split_pieces(s@, separator) == slices_view(pieces@) + pieces_from(s@, separator, from as int),
        decreases s.len() - from,
    {
        let end = find_byte(s, separator, from);
        if end == s.len() {
            let piece = slice_subrange(s, from, s.len());
            let ghost before = pieces@;
            pieces.push(piece);
            proof {
                assert(slices_view(pieces@) =~= slices_view(before).push(piece@));
                assert(pieces_from(s@, separator, from as int) =~= seq![piece@]);
            }
            return pieces;
        }
        let piece = slice_subrange(s, from, end);
        let ghost before = pieces@;
        pieces.push(piece);
        proof {
            assert(slices_view(pieces@) =~= slices_view(before).push(piece@));
            assert(slices_view(pieces@) + pieces_from(s@, separator, end + 1) =~= slices_view(before)
                + pieces_from(s@, separator, from as int));
        }
        from = end + 1;
    }
}

/// A fresh vector with the bytes of `s`.
pub fn to_vec(s: &[u8]) -> (r: Vec<u8>)
    ensures
        r@ == s@,
{
    let mut r: Vec<u8> = Vec::new();
    r.extend_from_slice(s);
    assert(r@ =~= s@);
    r
}

/// Whether every byte of `s` is zero.
pub fn all_zero(s: &[u8]) -> (r: bool)
    ensures
        r == (forall|i: int| 0 <= i < s.len() ==> s[i] == 0),
{
    let mut i: usize = 0;
    while i < s.len()
        invariant
            i <= s.len(),
            forall|k: int| 0 <= k < i ==> s[k] == 0,
        decreases s.len() - i,
    {
        if s[i] != 0 {
            return false;
        }
        i = i + 1;
    }
    true
}

} // verus!
