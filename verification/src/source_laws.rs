//! What a source repository may be, in terms of what Git prints about it.

use crate::bytes::{has_prefix, has_suffix, next_index, next_index_facts};
use crate::digest::sha256_of;
use crate::errors::RepositoryImportError;
use crate::git_output::{
    ascii_space, field_end, fields_from, first_line, is_one_line, nul_pieces, nul_terminated, relative_shape, sha1_text,
    unsigned_text, without_line_end,
};
use crate::held_reading::HeldFile;
use crate::hex::{all_digits, digits_value};
use crate::path_components::{pieces_of_concat, single_piece};
use crate::portable_laws::{letter, slashed, slashed_pieces};
use crate::portable_path::same_ignoring_case;
use crate::source_checks::{
    harmless_config, harmless_record, lowered, sets_sparse_index, sets_split_index, source_key, source_value,
    tagged_path, tags_error, CommandOutput,
};
use crate::source_content::{attribute_error, attributes_error, blob_error, forbidden_control, hash_error};
use crate::source_plan::{entry_error_after, head_error, markdown_name};
use crate::source_tree::{
    index_record_error, listed_fields, listed_metadata, listed_path, tree_record_error, SourceTreeEntry,
};
use vstd::prelude::*;
use vstd::string::*;
use vstd::utf8::{encode_utf8, encode_utf8_valid_utf8, is_ascii_chars, is_ascii_chars_encode_utf8, valid_utf8};

verus! {

/// Records, each ended by a zero byte.
pub open spec fn ended(records: Seq<Seq<u8>>) -> Seq<u8>
    decreases records.len(),
{
    if records.len() == 0 {
        Seq::empty()
    } else {
        ended(records.drop_last()) + records.last() + seq![0u8]
    }
}

/// Records that are not empty and hold no zero byte are read back from an output that ends each by a zero
/// byte.
pub proof fn ended_records_are_read_back(records: Seq<Seq<u8>>)
    requires
        forall|i: int| 0 <= i < records.len() ==> (#[trigger] records[i]).len() > 0 && !records[i].contains(0),
    ensures
        nul_terminated(ended(records)),
        nul_pieces(ended(records)) == records,
    decreases records.len(),
{
    let output = ended(records);
    if records.len() == 0 {
        assert(nul_pieces(output) =~= records);
    } else {
        let before = records.drop_last();
        let last = records.last();
        assert(last == records[records.len() - 1]);
        assert forall|i: int| 0 <= i < before.len() implies (#[trigger] before[i]).len() > 0 && !before[i].contains(0) by {
            assert(before[i] == records[i]);
        }
        ended_records_are_read_back(before);
        single_piece(last, 0);
        assert(output.drop_last() =~= ended(before) + last);
        if before.len() == 0 {
            assert(output.drop_last() =~= last);
            assert(seq![last] =~= records);
        } else {
            let front = ended(before).drop_last();
            assert(ended(before) =~= front + seq![0u8]);
            assert(output.drop_last() =~= front + seq![0u8] + last);
            pieces_of_concat(front, 0, last);
            assert(before + seq![last] =~= records);
        }
    }
}

/// An output that does not end in a zero byte, or in which two zero bytes follow each other, is malformed.
pub proof fn other_outputs_are_malformed(output: Seq<u8>)
    requires
        output.len() > 0,
        output.last() != 0,
    ensures
        !nul_terminated(output),
{
}

/// Bytes with every ASCII capital made small.
pub open spec fn small(s: Seq<u8>) -> Seq<u8> {
    Seq::new(
        s.len(),
        |i: int|
            if 0x41 <= s[i] <= 0x5a {
                (s[i] + 0x20) as u8
            } else {
                s[i]
            },
    )
}

/// A setting as Git lists it: its key, a newline, and its value.
pub open spec fn setting(key: Seq<u8>, value: Seq<u8>) -> Seq<u8> {
    key + seq![0x0au8] + value
}

/// A setting that is listed has the key and the value that it was made of; the key is compared in small
/// letters.
pub proof fn settings_are_read_back(key: Seq<u8>, value: Seq<u8>)
    requires
        !key.contains(0x0a),
    ensures
        next_index(setting(key, value), 0x0a, 0) == key.len(),
        setting(key, value).subrange(0, key.len() as int) == key,
        source_key(setting(key, value)) == small(key),
        source_value(setting(key, value)) == value,
{
    let record = setting(key, value);
    next_index_facts(record, 0x0a, 0);
    let at = next_index(record, 0x0a, 0);
    if at < key.len() {
        assert(record[at] == key[at]);
        assert(key.contains(key[at]));
    }
    if at > key.len() {
        assert(record[key.len() as int] == 0x0a);
    }
    assert(record.subrange(0, key.len() as int) =~= key);
    assert(record.subrange(key.len() as int + 1, record.len() as int) =~= value);
    assert(lowered(key) =~= small(key));
}

/// A key that leads out of a source or changes what it means: the four that are named, everything below
/// `include.` and `includeif.`, and the promisors of remotes.
pub open spec fn dangerous_key(key: Seq<u8>) -> bool {
    let name = small(key);
    ||| name == encode_utf8("core.worktree"@)
    ||| name == encode_utf8("core.attributesfile"@)
    ||| name == encode_utf8("extensions.worktreeconfig"@)
    ||| name == encode_utf8("extensions.partialclone"@)
    ||| exists|rest: Seq<u8>| name == #[trigger] (encode_utf8("include."@) + rest)
    ||| exists|rest: Seq<u8>| name == #[trigger] (encode_utf8("includeif."@) + rest)
    ||| (exists|rest: Seq<u8>| name == #[trigger] (encode_utf8("remote."@) + rest)) && exists|front: Seq<u8>|
        name == #[trigger] (front + encode_utf8(".promisor"@))
}

/// To begin with bytes is to be these bytes and something behind them.
pub proof fn prefixes_come_first(s: Seq<u8>, prefix: Seq<u8>)
    ensures
        has_prefix(s, prefix) <==> exists|rest: Seq<u8>| s == #[trigger] (prefix + rest),
{
    if has_prefix(s, prefix) {
        let rest = s.subrange(prefix.len() as int, s.len() as int);
        assert(s =~= prefix + rest);
    }
    if exists|rest: Seq<u8>| s == #[trigger] (prefix + rest) {
        let rest = choose|rest: Seq<u8>| s == #[trigger] (prefix + rest);
        assert(s.subrange(0, prefix.len() as int) =~= prefix);
    }
}

/// To end with bytes is to be something and these bytes behind it.
pub proof fn suffixes_come_last(s: Seq<u8>, suffix: Seq<u8>)
    ensures
        has_suffix(s, suffix) <==> exists|front: Seq<u8>| s == #[trigger] (front + suffix),
{
    if has_suffix(s, suffix) {
        let front = s.subrange(0, s.len() - suffix.len());
        assert(s =~= front + suffix);
    }
    if exists|front: Seq<u8>| s == #[trigger] (front + suffix) {
        let front = choose|front: Seq<u8>| s == #[trigger] (front + suffix);
        assert(s.subrange(s.len() - suffix.len(), s.len() as int) =~= suffix);
    }
}

/// A value says true, in small letters or capitals.
pub open spec fn says_true(value: Seq<u8>) -> bool {
    value.len() == 4 && letter(value[0], 0x54) && letter(value[1], 0x52) && letter(value[2], 0x55) && letter(value[3], 0x45)
}

proof fn true_in_any_case(value: Seq<u8>)
    ensures
        same_ignoring_case(value, encode_utf8("true"@)) == says_true(value),
{
    reveal_strlit("true");
    is_ascii_chars_encode_utf8("true"@);
    let word = encode_utf8("true"@);
    assert(word =~= seq![0x74u8, 0x72, 0x75, 0x65]);
    if says_true(value) {
        assert forall|i: int| 0 <= i < value.len() implies crate::portable_path::ascii_lower(#[trigger] value[i])
            == crate::portable_path::ascii_lower(word[i]) by {}
    }
    if same_ignoring_case(value, word) {
        assert(crate::portable_path::ascii_lower(value[0]) == 0x74);
        assert(crate::portable_path::ascii_lower(value[1]) == 0x72);
        assert(crate::portable_path::ascii_lower(value[2]) == 0x75);
        assert(crate::portable_path::ascii_lower(value[3]) == 0x65);
    }
}

/// A setting of a source is harmless exactly where its key is not dangerous, and it does not switch a split
/// or a sparse index on. In particular every setting of a remote is, but for its promisor.
pub proof fn harmless_settings(key: Seq<u8>, value: Seq<u8>)
    requires
        !key.contains(0x0a),
        valid_utf8(key),
        valid_utf8(value),
    ensures
        harmless_record(setting(key, value)) <==> !dangerous_key(key) && !((small(key) == encode_utf8("core.splitindex"@)
            || small(key) == encode_utf8("index.sparse"@)) && says_true(value)),
        sets_split_index(setting(key, value)) == (small(key) == encode_utf8("core.splitindex"@)),
        sets_sparse_index(setting(key, value)) == (small(key) == encode_utf8("index.sparse"@)),
{
    settings_are_read_back(key, value);
    true_in_any_case(value);
    let name = small(key);
    prefixes_come_first(name, encode_utf8("include."@));
    prefixes_come_first(name, encode_utf8("includeif."@));
    prefixes_come_first(name, encode_utf8("remote."@));
    suffixes_come_last(name, encode_utf8(".promisor"@));
}

/// A key that begins with `remote.` and does not end in `.promisor` is no danger, whatever remote and
/// whatever setting of it is named.
pub proof fn remotes_are_no_danger(name: Seq<u8>, value: Seq<u8>)
    requires
        !name.contains(0x0a),
        valid_utf8(encode_utf8("remote."@) + name),
        valid_utf8(value),
        !(exists|front: Seq<u8>| small(encode_utf8("remote."@) + name) == #[trigger] (front + encode_utf8(".promisor"@))),
    ensures
        harmless_record(setting(encode_utf8("remote."@) + name, value)),
{
    reveal_strlit("remote.");
    reveal_strlit("core.worktree");
    reveal_strlit("core.attributesfile");
    reveal_strlit("extensions.worktreeconfig");
    reveal_strlit("extensions.partialclone");
    reveal_strlit("include.");
    reveal_strlit("includeif.");
    reveal_strlit("core.splitindex");
    reveal_strlit("index.sparse");
    is_ascii_chars_encode_utf8("remote."@);
    is_ascii_chars_encode_utf8("core.worktree"@);
    is_ascii_chars_encode_utf8("core.attributesfile"@);
    is_ascii_chars_encode_utf8("extensions.worktreeconfig"@);
    is_ascii_chars_encode_utf8("extensions.partialclone"@);
    is_ascii_chars_encode_utf8("include."@);
    is_ascii_chars_encode_utf8("includeif."@);
    is_ascii_chars_encode_utf8("core.splitindex"@);
    is_ascii_chars_encode_utf8("index.sparse"@);
    let key = encode_utf8("remote."@) + name;
    assert(key[0] == 0x72);
    assert(small(key)[0] == 0x72);
    assert(!key.contains(0x0a)) by {
        if key.contains(0x0a) {
            let i = choose|i: int| 0 <= i < key.len() && key[i] == 0x0a;
            if i >= 7 {
                assert(name[i - 7] == 0x0a);
                assert(name.contains(0x0a));
            }
        }
    }
    harmless_settings(key, value);
    if exists|rest: Seq<u8>| small(key) == #[trigger] (encode_utf8("include."@) + rest) {
        let rest = choose|rest: Seq<u8>| small(key) == #[trigger] (encode_utf8("include."@) + rest);
        assert((encode_utf8("include."@) + rest)[0] == 0x69);
    }
    if exists|rest: Seq<u8>| small(key) == #[trigger] (encode_utf8("includeif."@) + rest) {
        let rest = choose|rest: Seq<u8>| small(key) == #[trigger] (encode_utf8("includeif."@) + rest);
        assert((encode_utf8("includeif."@) + rest)[0] == 0x69);
    }
}

/// The address of a remote is no danger, whatever it is.
pub proof fn addresses_are_no_danger(value: Seq<u8>)
    requires
        valid_utf8(value),
    ensures
        harmless_record(setting(encode_utf8("remote."@) + encode_utf8("origin.url"@), value)),
{
    reveal_strlit("remote.");
    reveal_strlit("origin.url");
    reveal_strlit(".promisor");
    is_ascii_chars_encode_utf8("remote."@);
    is_ascii_chars_encode_utf8("origin.url"@);
    is_ascii_chars_encode_utf8(".promisor"@);
    let name = encode_utf8("origin.url"@);
    let key = encode_utf8("remote."@) + name;
    let whole = "remote."@ + "origin.url"@;
    assert(is_ascii_chars(whole));
    is_ascii_chars_encode_utf8(whole);
    assert(encode_utf8(whole) =~= key);
    encode_utf8_valid_utf8(whole);
    if exists|front: Seq<u8>| small(key) == #[trigger] (front + encode_utf8(".promisor"@)) {
        let front = choose|front: Seq<u8>| small(key) == #[trigger] (front + encode_utf8(".promisor"@));
        assert(small(key).last() == 0x6c);
        assert((front + encode_utf8(".promisor"@)).last() == 0x72);
    }
    remotes_are_no_danger(name, value);
}

/// A configuration of a source is accepted exactly where each of its settings is harmless and neither the
/// split nor the sparse index is set more than once.
pub proof fn accepted_configurations(keys: Seq<Seq<u8>>, values: Seq<Seq<u8>>, records: Seq<Seq<u8>>)
    requires
        keys.len() == values.len(),
        records.len() == keys.len(),
        forall|i: int| 0 <= i < keys.len() ==> #[trigger] records[i] == setting(keys[i], values[i]),
        forall|i: int|
            0 <= i < keys.len() ==> !(#[trigger] keys[i]).contains(0x0a) && !keys[i].contains(0) && !values[i].contains(0)
                && valid_utf8(keys[i]) && valid_utf8(values[i]),
    ensures
        nul_terminated(ended(records)),
        harmless_config(nul_pieces(ended(records))) <==> {
            &&& forall|i: int| 0 <= i < keys.len() ==> harmless_record(#[trigger] records[i])
            &&& forall|i: int, j: int|
                0 <= i < j < keys.len() && small(#[trigger] keys[i]) == small(#[trigger] keys[j]) ==> small(keys[i])
                    != encode_utf8("core.splitindex"@) && small(keys[i]) != encode_utf8("index.sparse"@)
        },
{
    assert forall|i: int| 0 <= i < records.len() implies (#[trigger] records[i]).len() > 0 && !records[i].contains(0) by {
        let record = setting(keys[i], values[i]);
        assert(records[i] == record);
        assert(!keys[i].contains(0x0a));
        if record.contains(0) {
            let k = choose|k: int| 0 <= k < record.len() && record[k] == 0;
            if k < keys[i].len() {
                assert(keys[i].contains(keys[i][k]));
            } else if k > keys[i].len() {
                assert(values[i][k - keys[i].len() - 1] == 0);
                assert(values[i].contains(0));
            }
        }
    }
    ended_records_are_read_back(records);
    assert forall|i: int| 0 <= i < records.len() implies sets_split_index(#[trigger] records[i]) == (small(keys[i])
        == encode_utf8("core.splitindex"@)) && sets_sparse_index(records[i]) == (small(keys[i]) == encode_utf8(
        "index.sparse"@,
    )) by {
        assert(!keys[i].contains(0x0a));
        harmless_settings(keys[i], values[i]);
    }
    if harmless_config(records) {
        assert forall|i: int, j: int|
            0 <= i < j < keys.len() && small(#[trigger] keys[i]) == small(#[trigger] keys[j]) implies small(keys[i])
            != encode_utf8("core.splitindex"@) && small(keys[i]) != encode_utf8("index.sparse"@) by {
            assert(sets_split_index(records[i]) == (small(keys[i]) == encode_utf8("core.splitindex"@)));
            assert(sets_split_index(records[j]) == (small(keys[j]) == encode_utf8("core.splitindex"@)));
            assert(sets_sparse_index(records[i]) == (small(keys[i]) == encode_utf8("index.sparse"@)));
            assert(sets_sparse_index(records[j]) == (small(keys[j]) == encode_utf8("index.sparse"@)));
        }
    }
    if forall|i: int, j: int|
        0 <= i < j < keys.len() && small(#[trigger] keys[i]) == small(#[trigger] keys[j]) ==> small(keys[i]) != encode_utf8(
            "core.splitindex"@,
        ) && small(keys[i]) != encode_utf8("index.sparse"@) {
        assert forall|i: int, j: int|
            0 <= i < j < records.len() && sets_split_index(#[trigger] records[i]) implies !sets_split_index(
            #[trigger] records[j],
        ) by {
            assert(small(keys[i]) == small(keys[j]) ==> small(keys[i]) != encode_utf8("core.splitindex"@));
        }
        assert forall|i: int, j: int|
            0 <= i < j < records.len() && sets_sparse_index(#[trigger] records[i]) implies !sets_sparse_index(
            #[trigger] records[j],
        ) by {
            assert(small(keys[i]) == small(keys[j]) ==> small(keys[i]) != encode_utf8("index.sparse"@));
        }
    }
}

/// A text without a line end in it is read from an output as it stands, with a newline, or with a carriage
/// return and a newline behind it.
pub proof fn lines_are_read_back(text: Seq<u8>)
    requires
        valid_utf8(text),
        forall|i: int| 0 <= i < text.len() ==> #[trigger] text[i] != 0x0a && text[i] != 0x0d,
    ensures
        is_one_line(text),
        without_line_end(text) == text,
        is_one_line(text + seq![0x0au8]),
        without_line_end(text + seq![0x0au8]) == text,
        is_one_line(text + seq![0x0du8, 0x0au8]),
        without_line_end(text + seq![0x0du8, 0x0au8]) == text,
{
    let lf = text + seq![0x0au8];
    let crlf = text + seq![0x0du8, 0x0au8];
    if has_suffix(text, seq![0x0au8]) {
        assert(text.subrange(text.len() - 1, text.len() as int)[0] == text[text.len() - 1]);
    }
    if has_suffix(text, seq![0x0du8, 0x0au8]) {
        assert(text.subrange(text.len() - 2, text.len() as int)[1] == text[text.len() - 1]);
    }
    if has_suffix(lf, seq![0x0du8, 0x0au8]) {
        assert(lf.subrange(lf.len() - 2, lf.len() as int)[0] == text[text.len() - 1]);
    }
    assert(lf.subrange(lf.len() - 1, lf.len() as int) =~= seq![0x0au8]);
    assert(lf.subrange(0, lf.len() - 1) =~= text);
    assert(crlf.subrange(crlf.len() - 2, crlf.len() as int) =~= seq![0x0du8, 0x0au8]);
    assert(crlf.subrange(0, crlf.len() - 2) =~= text);
}

/// The commit of a source is read from a line of forty hexadecimal digits in small letters, and from nothing
/// else.
pub proof fn heads_are_forty_digits(output: CommandOutput)
    ensures
        head_error(output) is None <==> (output matches Ok(bytes) && is_one_line(bytes@) && without_line_end(bytes@).len() == 40
            && forall|i: int|
            0 <= i < 40 ==> 0x30 <= #[trigger] without_line_end(bytes@)[i] <= 0x39 || 0x61 <= without_line_end(bytes@)[i]
                <= 0x66),
        output is Ok && head_error(output) is Some ==> head_error(output) == Some(RepositoryImportError::MalformedGitOutput),
{
    if let Ok(bytes) = output {
        object_ids_are_forty_digits(without_line_end(bytes@));
    }
}

/// The text of an object id is forty hexadecimal digits in small letters.
pub proof fn object_ids_are_forty_digits(text: Seq<u8>)
    ensures
        sha1_text(text) <==> text.len() == 40 && forall|i: int|
            0 <= i < 40 ==> 0x30 <= #[trigger] text[i] <= 0x39 || 0x61 <= text[i] <= 0x66,
{
    if sha1_text(text) {
        assert forall|i: int| 0 <= i < 40 implies 0x30 <= #[trigger] text[i] <= 0x39 || 0x61 <= text[i] <= 0x66 by {
            assert(crate::hex::lower_hex_byte(text[i]));
        }
    }
    if text.len() == 40 && (forall|i: int| 0 <= i < 40 ==> 0x30 <= #[trigger] text[i] <= 0x39 || 0x61 <= text[i] <= 0x66) {
        assert(crate::hex::all_lower_hex(text));
    }
}

/// A path of a source has the right shape exactly where it is not empty, does not begin with a slash, holds
/// no zero byte and no backslash, has at most 128 components, does not begin with the component `.`, and has
/// no component `..`.
pub proof fn shapes_of_source_paths(names: Seq<Seq<u8>>)
    requires
        names.len() > 0,
        slashed(names).len() > 0,
        forall|i: int| 0 <= i < names.len() ==> !(#[trigger] names[i]).contains(0x2f),
    ensures
        relative_shape(slashed(names)) <==> {
            &&& slashed(names)[0] != 0x2f
            &&& forall|i: int| 0 <= i < slashed(names).len() ==> #[trigger] slashed(names)[i] != 0 && slashed(names)[i] != 0x5c
            &&& names.len() <= 128
            &&& names[0] != seq![0x2eu8]
            &&& forall|i: int| 0 <= i < names.len() ==> #[trigger] names[i] != seq![0x2eu8, 0x2eu8]
        },
{
    slashed_pieces(names);
}

proof fn field_end_is(s: Seq<u8>, from: int, end: int)
    requires
        0 <= from <= end <= s.len(),
        forall|i: int| from <= i < end ==> !ascii_space(#[trigger] s[i]),
        end == s.len() || ascii_space(s[end]),
    ensures
        field_end(s, from) == end,
    decreases end - from,
{
    if from < end {
        assert(!ascii_space(s[from]));
        field_end_is(s, from + 1, end);
    }
}

proof fn gaps_are_skipped(s: Seq<u8>, from: int, to: int)
    requires
        0 <= from <= to <= s.len(),
        forall|i: int| from <= i < to ==> ascii_space(#[trigger] s[i]),
    ensures
        fields_from(s, from) == fields_from(s, to),
    decreases to - from,
{
    if from < to {
        assert(ascii_space(s[from]));
        gaps_are_skipped(s, from + 1, to);
    }
}

proof fn field_end_facts(s: Seq<u8>, from: int)
    requires
        0 <= from <= s.len(),
    ensures
        from <= field_end(s, from) <= s.len(),
        from < s.len() && !ascii_space(s[from]) ==> from < field_end(s, from),
    decreases s.len() - from,
{
    if from < s.len() && !ascii_space(s[from]) {
        field_end_facts(s, from + 1);
    }
}

proof fn field_end_behind(a: Seq<u8>, t: Seq<u8>, k: int)
    requires
        0 <= k <= t.len(),
    ensures
        field_end(a + t, a.len() + k) == a.len() + field_end(t, k),
    decreases t.len() - k,
{
    if k < t.len() {
        assert((a + t)[a.len() + k] == t[k]);
        if !ascii_space(t[k]) {
            field_end_behind(a, t, k + 1);
        }
    }
}

proof fn fields_behind(a: Seq<u8>, t: Seq<u8>, k: int)
    requires
        0 <= k <= t.len(),
    ensures
        fields_from(a + t, a.len() + k) == fields_from(t, k),
    decreases t.len() - k,
{
    if k < t.len() {
        assert((a + t)[a.len() + k] == t[k]);
        if ascii_space(t[k]) {
            fields_behind(a, t, k + 1);
        } else {
            field_end_behind(a, t, k);
            field_end_facts(t, k);
            let end = field_end(t, k);
            fields_behind(a, t, end);
            assert((a + t).subrange(a.len() + k, a.len() + end) =~= t.subrange(k, end));
        }
    }
}

/// A word of a listing: not empty, without a space, a tab, a newline, a form feed or a carriage return.
pub open spec fn word(s: Seq<u8>) -> bool {
    s.len() > 0 && forall|i: int|
        0 <= i < s.len() ==> #[trigger] s[i] != 0x20 && s[i] != 0x09 && s[i] != 0x0a && s[i] != 0x0c && s[i] != 0x0d
}

/// One or more spaces.
pub open spec fn gap(s: Seq<u8>) -> bool {
    s.len() > 0 && forall|i: int| 0 <= i < s.len() ==> #[trigger] s[i] == 0x20
}

/// The fields of a word, spaces, and something else are the word and the fields of the rest.
pub proof fn words_are_fields(first: Seq<u8>, between: Seq<u8>, rest: Seq<u8>)
    requires
        word(first),
        gap(between),
    ensures
        fields_from(first + between + rest, 0) == seq![first] + fields_from(rest, 0),
{
    let s = first + between + rest;
    let n = first.len() as int;
    let m = n + between.len();
    assert forall|i: int| 0 <= i < n implies !ascii_space(#[trigger] s[i]) by {
        assert(s[i] == first[i]);
    }
    assert(s[n] == between[0]);
    field_end_is(s, 0, n);
    assert(s.subrange(0, n) =~= first);
    assert forall|i: int| n <= i < m implies ascii_space(#[trigger] s[i]) by {
        assert(s[i] == between[i - n]);
    }
    gaps_are_skipped(s, n, m);
    assert(s =~= (first + between) + rest);
    fields_behind(first + between, rest, 0);
    assert(!ascii_space(s[0])) by {
        assert(s[0] == first[0]);
    }
}

/// A last word is one field.
pub proof fn a_last_word_is_a_field(last: Seq<u8>)
    requires
        word(last),
    ensures
        fields_from(last, 0) == seq![last],
{
    let n = last.len() as int;
    assert forall|i: int| 0 <= i < n implies !ascii_space(#[trigger] last[i]) by {}
    field_end_is(last, 0, n);
    assert(last.subrange(0, n) =~= last);
    assert(fields_from(last, n) =~= Seq::<Seq<u8>>::empty());
    assert(seq![last] + Seq::<Seq<u8>>::empty() =~= seq![last]);
}

/// What stands before the first tab of a record, and the path behind it.
pub proof fn records_are_cut_at_the_tab(metadata: Seq<u8>, path: Seq<u8>)
    requires
        !metadata.contains(0x09),
    ensures
        next_index(metadata + seq![0x09u8] + path, 0x09, 0) == metadata.len(),
        listed_metadata(metadata + seq![0x09u8] + path) == metadata,
        listed_path(metadata + seq![0x09u8] + path) == path,
{
    let record = metadata + seq![0x09u8] + path;
    next_index_facts(record, 0x09, 0);
    let at = next_index(record, 0x09, 0);
    if at < metadata.len() {
        assert(record[at] == metadata[at]);
        assert(metadata.contains(metadata[at]));
    }
    if at > metadata.len() {
        assert(record[metadata.len() as int] == 0x09);
    }
    assert(record.subrange(0, metadata.len() as int) =~= metadata);
    assert(record.subrange(metadata.len() as int + 1, record.len() as int) =~= path);
}

/// A record of a tree is accepted exactly where it lists a blob of the mode 100644 with an id of forty digits
/// and a size; anything of another mode or kind is no entry of a source. What is read from it is what was
/// listed.
pub proof fn tree_records_list_regular_blobs(
    mode: Seq<u8>,
    kind: Seq<u8>,
    oid: Seq<u8>,
    between: Seq<u8>,
    size: Seq<u8>,
    path: Seq<u8>,
)
    requires
        word(mode),
        word(kind),
        word(oid),
        word(size),
        gap(between),
        valid_utf8(mode + seq![0x20u8] + (kind + seq![0x20u8] + (oid + between + size))),
        valid_utf8(path),
        relative_shape(path),
    ensures
        ({
            let record = mode + seq![0x20u8] + (kind + seq![0x20u8] + (oid + between + size)) + seq![0x09u8] + path;
            &&& listed_fields(record) == seq![mode, kind, oid, size]
            &&& listed_path(record) == path
            &&& tree_record_error(record) == if mode != encode_utf8("100644"@) || kind != encode_utf8("blob"@) {
                Some(RepositoryImportError::UnsafeSourceEntry)
            } else if !sha1_text(oid) || !unsigned_text(size) {
                Some(RepositoryImportError::MalformedGitOutput)
            } else {
                None
            }
        }),
{
    let space = seq![0x20u8];
    let last = oid + between + size;
    let middle = kind + space + last;
    let metadata = mode + space + middle;
    assert(gap(space));
    a_last_word_is_a_field(size);
    words_are_fields(oid, between, size);
    words_are_fields(kind, space, last);
    words_are_fields(mode, space, middle);
    assert(fields_from(metadata, 0) =~= seq![mode, kind, oid, size]);
    assert(!metadata.contains(0x09)) by {
        if metadata.contains(0x09) {
            let i = choose|i: int| 0 <= i < metadata.len() && metadata[i] == 0x09;
            let a = mode.len() as int;
            let b = a + 1 + kind.len();
            let c = b + 1 + oid.len();
            let d = c + between.len();
            if i < a {
                assert(mode[i] == 0x09);
            } else if a < i < b {
                assert(kind[i - a - 1] == 0x09);
            } else if b < i < c {
                assert(oid[i - b - 1] == 0x09);
            } else if c <= i < d {
                assert(between[i - c] == 0x09);
            } else if d <= i {
                assert(size[i - d] == 0x09);
            }
        }
    }
    records_are_cut_at_the_tab(metadata, path);
}

/// A record of the index is accepted exactly where it lists a blob of the mode 100644 at stage 0 with an id
/// of forty digits.
pub proof fn index_records_list_regular_blobs(mode: Seq<u8>, oid: Seq<u8>, stage: Seq<u8>, path: Seq<u8>)
    requires
        word(mode),
        word(oid),
        word(stage),
        valid_utf8(mode + seq![0x20u8] + (oid + seq![0x20u8] + stage)),
        valid_utf8(path),
        relative_shape(path),
    ensures
        ({
            let record = mode + seq![0x20u8] + (oid + seq![0x20u8] + stage) + seq![0x09u8] + path;
            &&& listed_fields(record) == seq![mode, oid, stage]
            &&& listed_path(record) == path
            &&& index_record_error(record) == if mode != encode_utf8("100644"@) || stage != encode_utf8("0"@) {
                Some(RepositoryImportError::UnsafeSourceEntry)
            } else if !sha1_text(oid) {
                Some(RepositoryImportError::MalformedGitOutput)
            } else {
                None
            }
        }),
{
    let space = seq![0x20u8];
    let last = oid + space + stage;
    let metadata = mode + space + last;
    assert(gap(space));
    a_last_word_is_a_field(stage);
    words_are_fields(oid, space, stage);
    words_are_fields(mode, space, last);
    assert(fields_from(metadata, 0) =~= seq![mode, oid, stage]);
    assert(!metadata.contains(0x09)) by {
        if metadata.contains(0x09) {
            let i = choose|i: int| 0 <= i < metadata.len() && metadata[i] == 0x09;
            let a = mode.len() as int;
            let b = a + 1 + oid.len();
            if i < a {
                assert(mode[i] == 0x09);
            } else if a < i < b {
                assert(oid[i - a - 1] == 0x09);
            } else if b < i {
                assert(stage[i - b - 1] == 0x09);
            }
        }
    }
    records_are_cut_at_the_tab(metadata, path);
}

/// A listing of a path that is no text, or not of the right shape, is of an unsafe entry.
pub proof fn unsafe_paths_are_refused(metadata: Seq<u8>, path: Seq<u8>)
    requires
        !metadata.contains(0x09),
        valid_utf8(metadata),
        !valid_utf8(path) || !relative_shape(path),
    ensures
        tree_record_error(metadata + seq![0x09u8] + path) == Some(RepositoryImportError::UnsafeSourceEntry),
        index_record_error(metadata + seq![0x09u8] + path) == Some(RepositoryImportError::UnsafeSourceEntry),
{
    records_are_cut_at_the_tab(metadata, path);
}

/// A size is digits that spell at most the greatest number of 64 bits, behind a plus sign or not.
pub proof fn sizes_are_numbers(digits: Seq<u8>)
    requires
        digits.len() > 0,
        digits[0] != 0x2b,
    ensures
        unsigned_text(digits) <==> (forall|i: int| 0 <= i < digits.len() ==> 0x30 <= #[trigger] digits[i] <= 0x39)
            && digits_value(digits) <= 0xffff_ffff_ffff_ffff,
        unsigned_text(seq![0x2bu8] + digits) == unsigned_text(digits),
        !unsigned_text(seq![0x2bu8]),
{
    let signed = seq![0x2bu8] + digits;
    assert(signed.subrange(1, signed.len() as int) =~= digits);
    assert(all_digits(digits) <==> forall|i: int| 0 <= i < digits.len() ==> 0x30 <= #[trigger] digits[i] <= 0x39);
}

/// Every tag of an index must say that the file is cached and nothing else: a capital H, a space, and the
/// path. Any other tag is of an unsafe entry.
pub proof fn tags_are_capital_h(records: Seq<Seq<u8>>, i: int)
    requires
        0 <= i < records.len(),
        tags_error(records, 0) is None,
    ensures
        records[i].len() >= 3,
        records[i][0] == 0x48,
        records[i][1] == 0x20,
        valid_utf8(records[i].subrange(2, records[i].len() as int)),
        forall|k: int|
            0 <= k < i ==> vstd::utf8::decode_utf8(#[trigger] tagged_path(records[k])) != vstd::utf8::decode_utf8(
                records[i].subrange(2, records[i].len() as int),
            ),
{
    tags_pass(records, 0, i);
    assert forall|k: int| 0 <= k < i implies vstd::utf8::decode_utf8(#[trigger] tagged_path(records[k]))
        != vstd::utf8::decode_utf8(records[i].subrange(2, records[i].len() as int)) by {
        assert(tagged_path(records[k]) == records[k].subrange(2, records[k].len() as int));
        assert(!crate::source_checks::tagged_before(records, vstd::utf8::decode_utf8(tagged_path(records[i])), i));
    }
}

proof fn tags_pass(records: Seq<Seq<u8>>, from: int, i: int)
    requires
        0 <= from <= i < records.len(),
        tags_error(records, from) is None,
    ensures
        tags_error(records, i) is None,
    decreases i - from,
{
    if from < i {
        tags_pass(records, from + 1, i);
    }
}

/// The first tag that is not a capital H and a space before a path decides.
pub proof fn other_tags_are_unsafe(records: Seq<Seq<u8>>)
    requires
        records.len() > 0,
        records[0].len() < 3 || records[0][0] != 0x48 || records[0][1] != 0x20,
    ensures
        tags_error(records, 0) == Some(RepositoryImportError::UnsafeSourceEntry),
{
}

/// A value that switches nothing on.
pub open spec fn is_inert(value: Seq<u8>) -> bool {
    value == encode_utf8("unspecified"@) || value == encode_utf8("unset"@)
}

/// The answers number `k`: about one of the three attributes that were asked for, and of a value that
/// switches nothing on.
pub open spec fn inert_answer(records: Seq<Seq<u8>>, k: int) -> bool {
    &&& records[3 * k + 1] == encode_utf8("filter"@) || records[3 * k + 1] == encode_utf8("working-tree-encoding"@)
        || records[3 * k + 1] == encode_utf8("ident"@)
    &&& is_inert(records[3 * k + 2])
}

/// Three records for each attribute of a path: the path, the attribute, and its value. They pass exactly
/// where each attribute is one of the three that were asked for, and each is unspecified or unset. Of those
/// that are asked for, the first with another value is a filter.
pub proof fn inert_attributes_pass(records: Seq<Seq<u8>>, t: int)
    requires
        0 <= t,
        records.len() % 3 == 0,
    ensures
        attribute_error(records, t) is None <==> forall|k: int|
            t <= k && 3 * k + 2 < records.len() ==> #[trigger] inert_answer(records, k),
        3 * t + 2 < records.len() && !is_inert(records[3 * t + 2]) && (records[3 * t + 1] == encode_utf8("filter"@)
            || records[3 * t + 1] == encode_utf8("working-tree-encoding"@) || records[3 * t + 1] == encode_utf8("ident"@))
            ==> attribute_error(records, t) == Some(RepositoryImportError::ContentFilterUnsupported),
    decreases records.len() - 3 * t,
{
    if 3 * t + 2 < records.len() {
        inert_attributes_pass(records, t + 1);
        if attribute_error(records, t) is None {
            assert forall|k: int| t <= k && 3 * k + 2 < records.len() implies #[trigger] inert_answer(records, k) by {
                if k > t {
                    assert(attribute_error(records, t + 1) is None);
                }
            }
        } else if forall|k: int| t <= k && 3 * k + 2 < records.len() ==> #[trigger] inert_answer(records, k) {
            assert(inert_answer(records, t));
            assert(attribute_error(records, t + 1) is None);
        }
    }
}

/// The answers about attributes are three for each path: three times three records.
pub proof fn attributes_are_answered_in_full(records: Seq<Seq<u8>>, paths: nat)
    requires
        forall|i: int| 0 <= i < records.len() ==> (#[trigger] records[i]).len() > 0 && !records[i].contains(0),
    ensures
        records.len() != 9 * paths ==> attributes_error(ended(records), paths) == Some(
            RepositoryImportError::MalformedGitOutput,
        ),
        records.len() == 9 * paths ==> attributes_error(ended(records), paths) == attribute_error(records, 0),
{
    ended_records_are_read_back(records);
}

/// The first line of a body that begins with a line is this line, whether a newline, a carriage return and a
/// newline, or nothing stands behind it.
pub proof fn first_lines(line: Seq<u8>, rest: Seq<u8>)
    requires
        line.len() > 0,
        forall|i: int| 0 <= i < line.len() ==> #[trigger] line[i] != 0x0a && line[i] != 0x0d,
    ensures
        first_line(line) == line,
        first_line(line + seq![0x0au8] + rest) == line,
        first_line(line + seq![0x0du8, 0x0au8] + rest) == line,
{
    next_index_facts(line, 0x0a, 0);
    assert(line.subrange(0, line.len() as int) =~= line);
    assert(line[line.len() - 1] != 0x0d);
    let lf = line + seq![0x0au8] + rest;
    next_index_facts(lf, 0x0a, 0);
    let at = next_index(lf, 0x0a, 0);
    if at < line.len() {
        assert(lf[at] == line[at]);
    }
    assert(lf[line.len() as int] == 0x0a);
    assert(lf.subrange(0, line.len() as int) =~= line);
    let crlf = line + seq![0x0du8, 0x0au8] + rest;
    next_index_facts(crlf, 0x0a, 0);
    let end = next_index(crlf, 0x0a, 0);
    if end < line.len() {
        assert(crlf[end] == line[end]);
    }
    assert(crlf[line.len() as int] == 0x0d);
    assert(crlf[line.len() as int + 1] == 0x0a);
    assert(crlf.subrange(0, line.len() as int + 1).drop_last() =~= line);
}

/// The body that Git gives of a file is accepted exactly where it is the body that was read, of the listed
/// size and digest, and no pointer of Git LFS: one of at most 4096 bytes whose first line is the version
/// line.
pub proof fn pointers_are_refused(raw: CommandOutput, size: u64, digest: Seq<u8>, bytes: Seq<u8>)
    requires
        raw is Ok,
    ensures
        raw->Ok_0@ != bytes || bytes.len() != size || sha256_of(bytes) != digest ==> blob_error(raw, size, digest, bytes)
            == Some(RepositoryImportError::SourceChanged),
        raw->Ok_0@ == bytes && bytes.len() == size && sha256_of(bytes) == digest ==> blob_error(raw, size, digest, bytes)
            == if bytes.len() <= 4096 && first_line(bytes) == encode_utf8("version https://git-lfs.github.com/spec/v1"@) {
            Some(RepositoryImportError::LfsPointerUnsupported)
        } else {
            None
        },
{
}

/// The hash that Git gives of a body is accepted exactly where it is one line with the listed id.
pub proof fn hashes_are_compared(hash: CommandOutput, oid: Seq<char>)
    ensures
        hash_error(hash, oid) is None <==> (hash matches Ok(output) && is_one_line(output@) && without_line_end(output@)
            == encode_utf8(oid)),
        hash is Ok && is_one_line(hash->Ok_0@) && without_line_end(hash->Ok_0@) != encode_utf8(oid) ==> hash_error(hash, oid)
            == Some(RepositoryImportError::SourceChanged),
{
}

/// Text files are those whose paths end in `.md`.
pub proof fn markdown_paths_end_in_md(path: Seq<char>)
    ensures
        markdown_name(path) <==> exists|front: Seq<u8>| encode_utf8(path) == #[trigger] (front + encode_utf8(".md"@)),
{
    suffixes_come_last(encode_utf8(path), encode_utf8(".md"@));
}

/// A file of a source is accepted exactly where its body has the listed size, is a text if its path ends in
/// `.md`, has the listed id and body in Git, and fits with the files before it: at most 4 GiB in all, and at
/// most 256 MiB of texts.
pub proof fn accepted_files(
    combined: nat,
    markdown: nat,
    path: Seq<char>,
    listed: SourceTreeEntry,
    held: HeldFile,
    hash: CommandOutput,
    raw: CommandOutput,
)
    ensures
        entry_error_after(combined, markdown, path, listed, held, hash, raw) is None <==> {
            &&& held.bytes@.len() == listed.size
            &&& markdown_name(path) ==> valid_utf8(held.bytes@)
            &&& hash_error(hash, listed.oid@) is None
            &&& blob_error(raw, listed.size, sha256_of(held.bytes@), held.bytes@) is None
            &&& combined + listed.size <= 4_294_967_296
            &&& markdown_name(path) ==> markdown + listed.size <= 268_435_456
        },
        held.bytes@.len() != listed.size ==> entry_error_after(combined, markdown, path, listed, held, hash, raw) == Some(
            RepositoryImportError::SourceChanged,
        ),
        held.bytes@.len() == listed.size && markdown_name(path) && !valid_utf8(held.bytes@) ==> entry_error_after(
            combined,
            markdown,
            path,
            listed,
            held,
            hash,
            raw,
        ) == Some(RepositoryImportError::UnsafeSourceEntry),
{
}

/// A path in the control directory of a source that is refused: one of the ten that are named, one whose
/// first name begins with `sharedindex.` in small letters or capitals, or a promisor beside a pack.
pub open spec fn dangerous_control(path: Seq<u8>, first: Seq<u8>) -> bool {
    ||| path == encode_utf8("commondir"@) || path == encode_utf8("config.worktree"@)
    ||| path == encode_utf8("objects/info/alternates"@) || path == encode_utf8("objects/info/http-alternates"@)
    ||| path == encode_utf8("info/attributes"@) || path == encode_utf8("info/grafts"@) || path == encode_utf8("shallow"@)
    ||| path == encode_utf8("info/sparse-checkout"@) || path == encode_utf8("worktrees"@) || path == encode_utf8("refs/replace"@)
    ||| exists|rest: Seq<u8>| small(first) == #[trigger] (encode_utf8("sharedindex."@) + rest)
    ||| exists|middle: Seq<u8>| path == #[trigger] (encode_utf8("objects/pack/"@) + middle + encode_utf8(".promisor"@))
}

/// Of the control directory of a source, the dangerous paths are refused and no others.
pub proof fn refused_control_paths(path: Seq<u8>, first: Seq<u8>, rest: Seq<u8>)
    requires
        !first.contains(0x2f),
        path == first || path == first + seq![0x2fu8] + rest,
    ensures
        forbidden_control(path) == dangerous_control(path, first),
{
    next_index_facts(path, 0x2f, 0);
    let at = next_index(path, 0x2f, 0);
    if at < first.len() {
        assert(path[at] == first[at]);
        assert(first.contains(first[at]));
    }
    if path == first + seq![0x2fu8] + rest {
        assert(path[first.len() as int] == 0x2f);
    }
    assert(path.subrange(0, at) =~= first);
    reveal_strlit("sharedindex.");
    is_ascii_chars_encode_utf8("sharedindex."@);
    let shared = encode_utf8("sharedindex."@);
    assert(shared.len() == 12);
    assert(shared =~= small(shared));
    assert(crate::source_content::shared_index_name(first) == exists|rest: Seq<u8>| small(first) == #[trigger] (shared
        + rest)) by {
        prefixes_come_first(small(first), shared);
        if first.len() >= 12 {
            let front = first.subrange(0, 12);
            assert(small(first).subrange(0, 12) =~= small(front));
            if same_ignoring_case(front, shared) {
                assert forall|i: int| 0 <= i < 12 implies small(front)[i] == shared[i] by {
                    assert(crate::portable_path::ascii_lower(front[i]) == crate::portable_path::ascii_lower(shared[i]));
                    assert(small(shared)[i] == shared[i]);
                }
                assert(small(front) =~= shared);
            }
            if small(front) == shared {
                assert forall|i: int| 0 <= i < front.len() implies crate::portable_path::ascii_lower(#[trigger] front[i])
                    == crate::portable_path::ascii_lower(shared[i]) by {
                    assert(small(front)[i] == shared[i]);
                    assert(small(shared)[i] == shared[i]);
                }
            }
        }
    }
    let pack = encode_utf8("objects/pack/"@);
    let promisor = encode_utf8(".promisor"@);
    assert((has_prefix(path, pack) && has_suffix(path.subrange(pack.len() as int, path.len() as int), promisor)) == exists|
        middle: Seq<u8>,
    | path == #[trigger] (pack + middle + promisor)) by {
        if has_prefix(path, pack) && has_suffix(path.subrange(pack.len() as int, path.len() as int), promisor) {
            let behind = path.subrange(pack.len() as int, path.len() as int);
            let middle = behind.subrange(0, behind.len() - promisor.len());
            assert(path =~= pack + middle + promisor);
        }
        if exists|middle: Seq<u8>| path == #[trigger] (pack + middle + promisor) {
            let middle = choose|middle: Seq<u8>| path == #[trigger] (pack + middle + promisor);
            assert(path.subrange(0, pack.len() as int) =~= pack);
            let behind = path.subrange(pack.len() as int, path.len() as int);
            assert(behind =~= middle + promisor);
            assert(behind.subrange(behind.len() - promisor.len(), behind.len() as int) =~= promisor);
        }
    }
}

} // verus!
