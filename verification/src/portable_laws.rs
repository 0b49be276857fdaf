//! What portable paths are, in terms of their bytes.

use crate::bytes::{next_index, next_index_facts, split_pieces};
use crate::errors::CandidateSealError;
use crate::path_components::{pieces_of_concat, single_piece};
use crate::portable_path::{
    basename_of, component_error, components_error, device_basename, has_forbidden_character, path_error,
    same_ignoring_case, trim_spaces, verdict,
};
use crate::text::nfc_normalized;
use vstd::prelude::*;
use vstd::string::*;
use vstd::utf8::{encode_utf8, is_ascii_chars_encode_utf8};

verus! {

/// A byte is an ASCII capital or the same letter in small.
pub open spec fn letter(byte: u8, capital: u8) -> bool {
    byte == capital || byte == capital + 0x20
}

/// A byte that no filesystem minds inside a name: it is printable, or part of a longer character, and none of
/// `<`, `>`, `:`, `"`, `|`, `?` and `*`.
pub open spec fn plain_byte(byte: u8) -> bool {
    byte >= 0x20 && byte != 0x7f && byte != 0x3c && byte != 0x3e && byte != 0x3a && byte != 0x22 && byte != 0x7c && byte
        != 0x3f && byte != 0x2a
}

/// No character from U+0080 to U+009F stands in the bytes, which are written as `C2` and a byte from `80` to
/// `9F`.
pub open spec fn no_late_controls(s: Seq<u8>) -> bool {
    forall|i: int| 0 <= i && i + 1 < s.len() && #[trigger] s[i] == 0xc2 ==> s[i + 1] < 0x80 || s[i + 1] > 0x9f
}

/// From `start` to `end` there are spaces only, and at `end` the first dot stands, or the component is over.
pub open spec fn spaces_to_the_dot(component: Seq<u8>, start: int, end: int) -> bool {
    &&& start <= end <= component.len()
    &&& forall|i: int| start <= i < end ==> #[trigger] component[i] == 0x20
    &&& end == component.len() || component[end] == 0x2e
}

/// A component is a stem, spaces, and either nothing more or a dot with anything behind it; the stem holds no
/// dot and does not end in a space.
pub open spec fn stem_of(component: Seq<u8>, stem: Seq<u8>) -> bool {
    &&& stem.len() <= component.len()
    &&& forall|i: int| 0 <= i < stem.len() ==> #[trigger] component[i] == stem[i] && stem[i] != 0x2e
    &&& stem.len() > 0 ==> stem.last() != 0x20
    &&& exists|end: int| spaces_to_the_dot(component, stem.len() as int, end)
}

/// A stem is one that Windows keeps for a device, in capitals or not: `CON`, `PRN`, `AUX`, `NUL`, `CONIN$`,
/// `CONOUT$`, or `COM` or `LPT` and a digit from one to nine or a superscript one, two or three.
pub open spec fn device_stem(s: Seq<u8>) -> bool {
    ||| s.len() == 3 && letter(s[0], 0x43) && letter(s[1], 0x4f) && letter(s[2], 0x4e)
    ||| s.len() == 3 && letter(s[0], 0x50) && letter(s[1], 0x52) && letter(s[2], 0x4e)
    ||| s.len() == 3 && letter(s[0], 0x41) && letter(s[1], 0x55) && letter(s[2], 0x58)
    ||| s.len() == 3 && letter(s[0], 0x4e) && letter(s[1], 0x55) && letter(s[2], 0x4c)
    ||| s.len() == 6 && letter(s[0], 0x43) && letter(s[1], 0x4f) && letter(s[2], 0x4e) && letter(s[3], 0x49) && letter(
        s[4],
        0x4e,
    ) && s[5] == 0x24
    ||| s.len() == 7 && letter(s[0], 0x43) && letter(s[1], 0x4f) && letter(s[2], 0x4e) && letter(s[3], 0x4f) && letter(
        s[4],
        0x55,
    ) && letter(s[5], 0x54) && s[6] == 0x24
    ||| (s.len() == 4 || s.len() == 5) && (letter(s[0], 0x43) && letter(s[1], 0x4f) && letter(s[2], 0x4d) || letter(
        s[0],
        0x4c,
    ) && letter(s[1], 0x50) && letter(s[2], 0x54)) && (s.len() == 4 && 0x31 <= s[3] <= 0x39 || s.len() == 5 && s[3] == 0xc2
        && (s[4] == 0xb9 || s[4] == 0xb2 || s[4] == 0xb3))
}

/// Bytes without their last spaces are what stands before those spaces.
proof fn trimmed(s: Seq<u8>, n: int)
    requires
        0 <= n <= s.len(),
        forall|i: int| n <= i < s.len() ==> #[trigger] s[i] == 0x20,
        n > 0 ==> s[n - 1] != 0x20,
    ensures
        trim_spaces(s) == s.subrange(0, n),
    decreases s.len(),
{
    if s.len() > n {
        assert(s[s.len() - 1] == 0x20);
        trimmed(s.drop_last(), n);
        assert(s.drop_last().subrange(0, n) =~= s.subrange(0, n));
    } else {
        assert(s.subrange(0, n) =~= s);
    }
}

/// The basename of a component is its stem.
pub proof fn basename_is_the_stem(component: Seq<u8>, stem: Seq<u8>)
    requires
        stem_of(component, stem),
    ensures
        basename_of(component) == stem,
{
    let end = choose|end: int| spaces_to_the_dot(component, stem.len() as int, end);
    next_index_facts(component, 0x2e, 0);
    let dot = next_index(component, 0x2e, 0);
    if dot < end {
        if dot < stem.len() {
            assert(component[dot] == stem[dot]);
        } else {
            assert(component[dot] == 0x20);
        }
    }
    assert(dot == end);
    let before = component.subrange(0, end);
    assert forall|i: int| stem.len() <= i < before.len() implies #[trigger] before[i] == 0x20 by {
        assert(component[i] == 0x20);
    }
    if stem.len() > 0 {
        let last = stem.len() - 1;
        assert(component[last] == stem[last]);
        assert(before[last] == stem.last());
    }
    trimmed(before, stem.len() as int);
    assert(before.subrange(0, stem.len() as int) =~= stem);
}

proof fn words()
    ensures
        encode_utf8("CON"@) == seq![0x43u8, 0x4f, 0x4e],
        encode_utf8("PRN"@) == seq![0x50u8, 0x52, 0x4e],
        encode_utf8("AUX"@) == seq![0x41u8, 0x55, 0x58],
        encode_utf8("NUL"@) == seq![0x4eu8, 0x55, 0x4c],
        encode_utf8("COM"@) == seq![0x43u8, 0x4f, 0x4d],
        encode_utf8("LPT"@) == seq![0x4cu8, 0x50, 0x54],
        encode_utf8("CONIN$"@) == seq![0x43u8, 0x4f, 0x4e, 0x49, 0x4e, 0x24],
        encode_utf8("CONOUT$"@) == seq![0x43u8, 0x4f, 0x4e, 0x4f, 0x55, 0x54, 0x24],
{
    reveal_strlit("CON");
    reveal_strlit("PRN");
    reveal_strlit("AUX");
    reveal_strlit("NUL");
    reveal_strlit("COM");
    reveal_strlit("LPT");
    reveal_strlit("CONIN$");
    reveal_strlit("CONOUT$");
    is_ascii_chars_encode_utf8("CON"@);
    is_ascii_chars_encode_utf8("PRN"@);
    is_ascii_chars_encode_utf8("AUX"@);
    is_ascii_chars_encode_utf8("NUL"@);
    is_ascii_chars_encode_utf8("COM"@);
    is_ascii_chars_encode_utf8("LPT"@);
    is_ascii_chars_encode_utf8("CONIN$"@);
    is_ascii_chars_encode_utf8("CONOUT$"@);
    assert(encode_utf8("CON"@) =~= seq![0x43u8, 0x4f, 0x4e]);
    assert(encode_utf8("PRN"@) =~= seq![0x50u8, 0x52, 0x4e]);
    assert(encode_utf8("AUX"@) =~= seq![0x41u8, 0x55, 0x58]);
    assert(encode_utf8("NUL"@) =~= seq![0x4eu8, 0x55, 0x4c]);
    assert(encode_utf8("COM"@) =~= seq![0x43u8, 0x4f, 0x4d]);
    assert(encode_utf8("LPT"@) =~= seq![0x4cu8, 0x50, 0x54]);
    assert(encode_utf8("CONIN$"@) =~= seq![0x43u8, 0x4f, 0x4e, 0x49, 0x4e, 0x24]);
    assert(encode_utf8("CONOUT$"@) =~= seq![0x43u8, 0x4f, 0x4e, 0x4f, 0x55, 0x54, 0x24]);
}

/// A word of ASCII capitals and other signs is met in any case, and in no other spelling.
pub proof fn words_are_met_in_any_case(name: Seq<u8>, word: Seq<u8>)
    requires
        forall|i: int| 0 <= i < word.len() ==> !(0x61 <= #[trigger] word[i] <= 0x7a),
    ensures
        same_ignoring_case(name, word) <==> name.len() == word.len() && forall|i: int|
            0 <= i < word.len() ==> #[trigger] name[i] == word[i] || 0x41 <= word[i] <= 0x5a && name[i] == word[i] + 0x20,
{
    if same_ignoring_case(name, word) {
        assert forall|i: int| 0 <= i < word.len() implies #[trigger] name[i] == word[i] || 0x41 <= word[i] <= 0x5a && name[i]
            == word[i] + 0x20 by {
            assert(crate::portable_path::ascii_lower(name[i]) == crate::portable_path::ascii_lower(word[i]));
            assert(!(0x61 <= word[i] <= 0x7a));
        }
    }
}

proof fn three(name: Seq<u8>, a: u8, b: u8, c: u8)
    requires
        0x41 <= a <= 0x5a,
        0x41 <= b <= 0x5a,
        0x41 <= c <= 0x5a,
    ensures
        same_ignoring_case(name, seq![a, b, c]) == (name.len() == 3 && letter(name[0], a) && letter(name[1], b) && letter(
            name[2],
            c,
        )),
{
    let word = seq![a, b, c];
    words_are_met_in_any_case(name, word);
    if name.len() == 3 && letter(name[0], a) && letter(name[1], b) && letter(name[2], c) {
        assert forall|i: int| 0 <= i < 3 implies #[trigger] name[i] == word[i] || 0x41 <= word[i] <= 0x5a && name[i]
            == word[i] + 0x20 by {}
    }
    if same_ignoring_case(name, word) {
        assert(name[0] == word[0] || name[0] == word[0] + 0x20);
        assert(name[1] == word[1] || name[1] == word[1] + 0x20);
        assert(name[2] == word[2] || name[2] == word[2] + 0x20);
    }
}

/// The device names are those that Windows keeps, in capitals or not.
pub proof fn device_names_are_those_of_windows(stem: Seq<u8>)
    ensures
        device_basename(stem) == device_stem(stem),
{
    words();
    three(stem, 0x43, 0x4f, 0x4e);
    three(stem, 0x50, 0x52, 0x4e);
    three(stem, 0x41, 0x55, 0x58);
    three(stem, 0x4e, 0x55, 0x4c);
    let conin = seq![0x43u8, 0x4f, 0x4e, 0x49, 0x4e, 0x24];
    let conout = seq![0x43u8, 0x4f, 0x4e, 0x4f, 0x55, 0x54, 0x24];
    words_are_met_in_any_case(stem, conin);
    words_are_met_in_any_case(stem, conout);
    let is_conin = stem.len() == 6 && letter(stem[0], 0x43) && letter(stem[1], 0x4f) && letter(stem[2], 0x4e) && letter(
        stem[3],
        0x49,
    ) && letter(stem[4], 0x4e) && stem[5] == 0x24;
    let is_conout = stem.len() == 7 && letter(stem[0], 0x43) && letter(stem[1], 0x4f) && letter(stem[2], 0x4e) && letter(
        stem[3],
        0x4f,
    ) && letter(stem[4], 0x55) && letter(stem[5], 0x54) && stem[6] == 0x24;
    assert(same_ignoring_case(stem, conin) == is_conin) by {
        if is_conin {
            assert forall|i: int| 0 <= i < 6 implies #[trigger] stem[i] == conin[i] || 0x41 <= conin[i] <= 0x5a && stem[i]
                == conin[i] + 0x20 by {}
        }
        if same_ignoring_case(stem, conin) {
            assert(stem[0] == conin[0] || stem[0] == conin[0] + 0x20);
            assert(stem[1] == conin[1] || stem[1] == conin[1] + 0x20);
            assert(stem[2] == conin[2] || stem[2] == conin[2] + 0x20);
            assert(stem[3] == conin[3] || stem[3] == conin[3] + 0x20);
            assert(stem[4] == conin[4] || stem[4] == conin[4] + 0x20);
            assert(stem[5] == conin[5]);
        }
    }
    assert(same_ignoring_case(stem, conout) == is_conout) by {
        if is_conout {
            assert forall|i: int| 0 <= i < 7 implies #[trigger] stem[i] == conout[i] || 0x41 <= conout[i] <= 0x5a && stem[i]
                == conout[i] + 0x20 by {}
        }
        if same_ignoring_case(stem, conout) {
            assert(stem[0] == conout[0] || stem[0] == conout[0] + 0x20);
            assert(stem[1] == conout[1] || stem[1] == conout[1] + 0x20);
            assert(stem[2] == conout[2] || stem[2] == conout[2] + 0x20);
            assert(stem[3] == conout[3] || stem[3] == conout[3] + 0x20);
            assert(stem[4] == conout[4] || stem[4] == conout[4] + 0x20);
            assert(stem[5] == conout[5] || stem[5] == conout[5] + 0x20);
            assert(stem[6] == conout[6]);
        }
    }
    if stem.len() >= 3 {
        let front = stem.subrange(0, 3);
        three(front, 0x43, 0x4f, 0x4d);
        three(front, 0x4c, 0x50, 0x54);
    }
}

/// A component is portable exactly where it has from 1 to 255 bytes, neither begins with a space nor ends in
/// a space or a dot, holds plain bytes only and no late control character, and its stem is neither the name
/// of a device nor ends in a tilde and a digit. One of more than 255 bytes is past a limit; every other
/// refusal is of an invalid record.
pub proof fn portable_components(component: Seq<u8>, stem: Seq<u8>)
    requires
        stem_of(component, stem),
    ensures
        component.len() > 255 ==> verdict(component_error(component)) == Err::<(), CandidateSealError>(
            CandidateSealError::ResourceLimit,
        ),
        component.len() <= 255 ==> verdict(component_error(component)) == if component.len() > 0 && component[0] != 0x20
            && component.last() != 0x20 && component.last() != 0x2e && (forall|i: int|
            0 <= i < component.len() ==> plain_byte(#[trigger] component[i])) && no_late_controls(component) && !device_stem(stem)
            && !(stem.len() >= 2 && stem[stem.len() - 2] == 0x7e && 0x30 <= stem[stem.len() - 1] <= 0x39) {
            Ok::<(), CandidateSealError>(())
        } else {
            Err(CandidateSealError::InvalidRecord)
        },
{
    basename_is_the_stem(component, stem);
    device_names_are_those_of_windows(stem);
    forbidden_characters(component);
    if component.len() > 0 && component.last() != 0x2e {
        assert(component != seq![0x2eu8] && component != seq![0x2eu8, 0x2eu8]);
    }
}

proof fn forbidden_characters(s: Seq<u8>)
    ensures
        has_forbidden_character(s) <==> !((forall|i: int| 0 <= i < s.len() ==> plain_byte(#[trigger] s[i]))
            && no_late_controls(s)),
{
    if has_forbidden_character(s) {
        let i = choose|i: int| 0 <= i < s.len() && crate::portable_path::forbidden_at(s, i);
        if plain_byte(s[i]) {
            assert(s[i] == 0xc2 && i + 1 < s.len() && 0x80 <= s[i + 1] <= 0x9f);
            assert(!no_late_controls(s));
        }
    } else {
        assert forall|i: int| 0 <= i < s.len() implies plain_byte(#[trigger] s[i]) by {
            assert(!crate::portable_path::forbidden_at(s, i));
        }
        assert forall|i: int| 0 <= i && i + 1 < s.len() && #[trigger] s[i] == 0xc2 implies s[i + 1] < 0x80 || s[i + 1]
            > 0x9f by {
            assert(!crate::portable_path::forbidden_at(s, i));
        }
    }
}

/// Spaces, letters, digits, `-` and `_` inside a component never make it refused: a component of such bytes
/// and dots, which begins with no space and ends in no space or dot, is portable, if its stem has more than
/// seven bytes or begins with none of the letters of the device names.
pub proof fn ordinary_names_are_portable(component: Seq<u8>, stem: Seq<u8>)
    requires
        stem_of(component, stem),
        1 <= component.len() <= 255,
        forall|i: int|
            0 <= i < component.len() ==> #[trigger] component[i] == 0x20 || 0x30 <= component[i] <= 0x39 || 0x41 <= component[i]
                <= 0x5a || 0x61 <= component[i] <= 0x7a || component[i] == 0x2d || component[i] == 0x5f || component[i] == 0x2e,
        component[0] != 0x20,
        component.last() != 0x20,
        component.last() != 0x2e,
        stem.len() > 7 || stem.len() < 3 || !(letter(stem[0], 0x41) || letter(stem[0], 0x43) || letter(stem[0], 0x4c) || letter(
            stem[0],
            0x4e,
        ) || letter(stem[0], 0x50)),
    ensures
        verdict(component_error(component)) == Ok::<(), CandidateSealError>(()),
{
    assert forall|i: int| 0 <= i < component.len() implies plain_byte(#[trigger] component[i]) by {}
    if stem.len() >= 2 {
        assert(component[stem.len() - 2] == stem[stem.len() - 2]);
    }
    portable_components(component, stem);
}

/// A space inside a portable component may stand there or not: where a byte inside of it is put in the place
/// of an inner space, so that the stem stays what it was, nothing changes.
pub proof fn inner_spaces_do_not_matter(component: Seq<u8>, stem: Seq<u8>, i: int, byte: u8)
    requires
        stem_of(component, stem),
        stem.len() < i < component.len() - 1,
        exists|k: int| stem.len() <= k < i && #[trigger] component[k] == 0x2e,
        component[i] == 0x20,
        plain_byte(byte),
        byte < 0x80,
    ensures
        verdict(component_error(component.update(i, byte))) == verdict(component_error(component)),
{
    let other = component.update(i, byte);
    let k = choose|k: int| stem.len() <= k < i && #[trigger] component[k] == 0x2e;
    let end = choose|end: int| spaces_to_the_dot(component, stem.len() as int, end);
    assert(end <= k) by {
        if end > k {
            assert(component[k] == 0x20);
        }
    }
    assert forall|m: int| 0 <= m < stem.len() implies #[trigger] other[m] == stem[m] && stem[m] != 0x2e by {
        assert(component[m] == stem[m]);
    }
    assert forall|m: int| stem.len() <= m < end implies #[trigger] other[m] == 0x20 by {
        assert(component[m] == 0x20);
    }
    assert(spaces_to_the_dot(other, stem.len() as int, end));
    assert(stem_of(other, stem));
    portable_components(component, stem);
    portable_components(other, stem);
    assert((forall|m: int| 0 <= m < component.len() ==> plain_byte(#[trigger] component[m])) == (forall|m: int|
        0 <= m < other.len() ==> plain_byte(#[trigger] other[m]))) by {
        if forall|m: int| 0 <= m < component.len() ==> plain_byte(#[trigger] component[m]) {
            assert forall|m: int| 0 <= m < other.len() implies plain_byte(#[trigger] other[m]) by {
                assert(plain_byte(component[m]));
            }
        }
        if forall|m: int| 0 <= m < other.len() ==> plain_byte(#[trigger] other[m]) {
            assert forall|m: int| 0 <= m < component.len() implies plain_byte(#[trigger] component[m]) by {
                assert(plain_byte(other[m]));
            }
        }
    }
    assert(no_late_controls(component) == no_late_controls(other)) by {
        if no_late_controls(component) {
            assert forall|m: int| 0 <= m && m + 1 < other.len() && #[trigger] other[m] == 0xc2 implies other[m + 1] < 0x80
                || other[m + 1] > 0x9f by {
                assert(component[m] == 0xc2);
            }
        }
        if no_late_controls(other) {
            assert forall|m: int| 0 <= m && m + 1 < component.len() && #[trigger] component[m] == 0xc2 implies component[m
                + 1] < 0x80 || component[m + 1] > 0x9f by {
                assert(other[m] == 0xc2);
            }
        }
    }
}

/// The bytes of names with a slash between one and the next.
pub open spec fn slashed(names: Seq<Seq<u8>>) -> Seq<u8>
    decreases names.len(),
{
    if names.len() == 0 {
        Seq::empty()
    } else if names.len() == 1 {
        names[0]
    } else {
        slashed(names.drop_last()) + seq![0x2fu8] + names.last()
    }
}

/// Names without a slash are the pieces of a path that is made of them.
pub proof fn slashed_pieces(names: Seq<Seq<u8>>)
    requires
        names.len() > 0,
        forall|i: int| 0 <= i < names.len() ==> !(#[trigger] names[i]).contains(0x2f),
    ensures
        split_pieces(slashed(names), 0x2f) == names,
    decreases names.len(),
{
    single_piece(names.last(), 0x2f);
    if names.len() == 1 {
        assert(seq![names[0]] =~= names);
    } else {
        let before = names.drop_last();
        assert forall|i: int| 0 <= i < before.len() implies !(#[trigger] before[i]).contains(0x2f) by {
            assert(!names[i].contains(0x2f));
        }
        slashed_pieces(before);
        pieces_of_concat(slashed(before), 0x2f, names.last());
        assert(before + seq![names.last()] =~= names);
    }
}

proof fn passing_components(names: Seq<Seq<u8>>, i: int)
    requires
        0 <= i <= names.len(),
    ensures
        components_error(names, i) is None <==> (i == names.len() || names.len() <= 128) && forall|k: int|
            i <= k < names.len() ==> verdict(component_error(#[trigger] names[k])) is Ok,
    decreases names.len() - i,
{
    if i < names.len() {
        passing_components(names, i + 1);
        if i < 128 && verdict(component_error(names[i])) is Ok && components_error(names, i + 1) is None {
            assert forall|k: int| i <= k < names.len() implies verdict(component_error(#[trigger] names[k])) is Ok by {}
        }
    }
}

/// A path of names is portable exactly where it has at most so many bytes as it may have and at most 128
/// names, every name is portable, no backslash stands in it, and its text is in the composed normal form.
pub proof fn portable_paths(path: Seq<char>, names: Seq<Seq<u8>>, allow_root: bool, maximum: nat)
    requires
        encode_utf8(path) == slashed(names),
        slashed(names).len() > 0,
        forall|i: int| 0 <= i < names.len() ==> !(#[trigger] names[i]).contains(0x2f),
    ensures
        verdict(path_error(path, allow_root, maximum)) is Ok <==> {
            &&& slashed(names).len() <= maximum
            &&& names.len() <= 128
            &&& nfc_normalized(path)
            &&& !slashed(names).contains(0x5c)
            &&& forall|k: int| 0 <= k < names.len() ==> verdict(component_error(#[trigger] names[k])) is Ok
        },
        slashed(names).len() > maximum ==> verdict(path_error(path, allow_root, maximum)) == Err::<(), CandidateSealError>(
            CandidateSealError::ResourceLimit,
        ),
{
    slashed_pieces(names);
    passing_components(names, 0);
}

/// The empty path is the root, which is allowed or not.
pub proof fn the_root_is_allowed_or_not(path: Seq<char>, allow_root: bool, maximum: nat)
    requires
        encode_utf8(path).len() == 0,
    ensures
        verdict(path_error(path, allow_root, maximum)) is Ok <==> allow_root,
{
}

} // verus!
