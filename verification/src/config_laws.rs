//! The configuration of a target is judged twice, from its bytes and from what Git lists, by one measure.

use crate::bytes::next_index;
use crate::git_output::{nul_pieces, nul_terminated};
use crate::portable_path::{ascii_lower, same_ignoring_case};
use crate::source_checks::lowered;
use crate::target_config::{
    config_key, config_records, exact_config, key_exists, key_is_set, key_required, record_is_known, sets_key,
    value_fits, HostPlatform, TargetConfigProfile,
};
use crate::target_semantics::{
    alone_at, config_as_expected, keyed_at, set_once_to, setting_key, setting_value, target_key, target_setting,
    unset_or_boolean,
};
use vstd::prelude::*;
use vstd::string::*;
use vstd::utf8::{encode_utf8, is_ascii_chars_encode_utf8};

verus! {

spec fn key_length(number: int) -> int {
    if number == 0 {
        28
    } else if number == 1 || number == 7 {
        13
    } else if number == 2 {
        9
    } else if number == 3 {
        21
    } else if number == 4 || number == 8 {
        15
    } else if number == 5 {
        17
    } else {
        14
    }
}

spec fn in_small_letters(s: Seq<u8>) -> bool {
    forall|i: int| 0 <= i < s.len() ==> ascii_lower(#[trigger] s[i]) == s[i]
}

proof fn shape_of_a_key(number: int)
    requires
        0 <= number < 9,
    ensures
        encode_utf8(config_key(number)).len() == key_length(number),
        in_small_letters(encode_utf8(config_key(number))),
        number == 1 ==> encode_utf8(config_key(number))[5] == 0x66,
        number == 7 ==> encode_utf8(config_key(number))[5] == 0x73,
        number == 4 ==> encode_utf8(config_key(number))[0] == 0x6d,
        number == 8 ==> encode_utf8(config_key(number))[0] == 0x63,
{
    reveal_strlit("core.repositoryformatversion");
    reveal_strlit("core.filemode");
    reveal_strlit("core.bare");
    reveal_strlit("core.logallrefupdates");
    reveal_strlit("merge.inex.name");
    reveal_strlit("merge.inex.driver");
    reveal_strlit("core.longpaths");
    reveal_strlit("core.symlinks");
    reveal_strlit("core.ignorecase");
    is_ascii_chars_encode_utf8(config_key(number));
}

proof fn keys_differ(m: int, n: int)
    requires
        0 <= m < 9,
        0 <= n < 9,
        m != n,
    ensures
        encode_utf8(config_key(m)) != encode_utf8(config_key(n)),
{
    shape_of_a_key(m);
    shape_of_a_key(n);
}

proof fn keys_are_compared_alike(key: Seq<u8>, number: int)
    requires
        0 <= number < 9,
    ensures
        same_ignoring_case(key, encode_utf8(config_key(number))) == (lowered(key) == encode_utf8(config_key(number))),
{
    shape_of_a_key(number);
    let word = encode_utf8(config_key(number));
    if same_ignoring_case(key, word) {
        assert forall|i: int| 0 <= i < key.len() implies lowered(key)[i] == word[i] by {
            assert(ascii_lower(key[i]) == ascii_lower(word[i]));
        }
        assert(lowered(key) =~= word);
    }
    if lowered(key) == word {
        assert forall|i: int| 0 <= i < key.len() implies ascii_lower(#[trigger] key[i]) == ascii_lower(word[i]) by {
            assert(lowered(key)[i] == word[i]);
        }
    }
}

/// A record sets a key exactly where the key exists, the record is a setting with that key in small letters,
/// and its value fits.
proof fn what_a_record_sets(record: Seq<u8>, number: int, profile: TargetConfigProfile<'_>)
    requires
        0 <= number < 9,
    ensures
        sets_key(record, number, profile) <==> {
            &&& key_exists(number, profile.platform)
            &&& target_setting(record, profile.platform)
            &&& setting_key(record) == encode_utf8(config_key(number))
            &&& value_fits(number, setting_value(record), profile)
        },
{
    keys_are_compared_alike(record.subrange(0, next_index(record, 0x0a, 0)), number);
}

proof fn a_key_has_a_number(key: Seq<u8>, platform: HostPlatform) -> (number: int)
    requires
        target_key(key, platform),
    ensures
        key_exists(number, platform),
        0 <= number < 9,
        key == encode_utf8(config_key(number)),
{
    if key == encode_utf8("core.repositoryformatversion"@) {
        0
    } else if key == encode_utf8("core.filemode"@) {
        1
    } else if key == encode_utf8("core.bare"@) {
        2
    } else if key == encode_utf8("core.logallrefupdates"@) {
        3
    } else if key == encode_utf8("merge.inex.name"@) {
        4
    } else if key == encode_utf8("merge.inex.driver"@) {
        5
    } else if key == encode_utf8("core.longpaths"@) {
        6
    } else if key == encode_utf8("core.symlinks"@) {
        7
    } else {
        8
    }
}

/// A key is set exactly once among records, to a value that fits.
pub open spec fn set_once_and_fits(records: Seq<Seq<u8>>, number: int, profile: TargetConfigProfile<'_>) -> bool {
    exists|i: int| #[trigger] alone_at(records, config_key(number), i) && value_fits(number, setting_value(records[i]), profile)
}

/// A key is set nowhere among records.
pub open spec fn set_nowhere(records: Seq<Seq<u8>>, number: int) -> bool {
    forall|k: int| !#[trigger] keyed_at(records, config_key(number), k)
}

/// What both measures come to: each record is a setting of a target, each required key is set once to a value
/// that fits, and each other key that exists is set nowhere or once to a value that fits.
pub open spec fn one_measure(records: Seq<Seq<u8>>, profile: TargetConfigProfile<'_>) -> bool {
    &&& forall|i: int| 0 <= i < records.len() ==> target_setting(#[trigger] records[i], profile.platform)
    &&& forall|number: int| #[trigger] key_required(number, profile.platform) ==> set_once_and_fits(records, number, profile)
    &&& forall|number: int| #[trigger]
        key_exists(number, profile.platform) ==> set_nowhere(records, number) || set_once_and_fits(records, number, profile)
}

proof fn the_listing_is_judged_so(records: Seq<Seq<u8>>, profile: TargetConfigProfile<'_>)
    ensures
        config_as_expected(records, profile) <==> one_measure(records, profile),
{
    let platform = profile.platform;
    let windows = platform == HostPlatform::Windows;
    listed_value(records, 0, profile);
    listed_value(records, 1, profile);
    listed_value(records, 2, profile);
    listed_value(records, 3, profile);
    listed_value(records, 4, profile);
    listed_value(records, 5, profile);
    listed_value(records, 6, profile);
    listed_value(records, 7, profile);
    listed_value(records, 8, profile);
    if one_measure(records, profile) {
        assert(key_required(0, platform) && key_required(1, platform) && key_required(2, platform) && key_required(3, platform)
            && key_required(4, platform) && key_required(5, platform));
        if windows {
            assert(key_required(6, platform));
            assert(key_exists(7, platform) && key_exists(8, platform));
            assert(config_key(7) == "core.symlinks"@);
            assert(config_key(8) == "core.ignorecase"@);
            if set_nowhere(records, 7) {
                assert forall|k: int| !#[trigger] keyed_at(records, "core.symlinks"@, k) by {
                    assert(!keyed_at(records, config_key(7), k));
                }
            }
            if set_nowhere(records, 8) {
                assert forall|k: int| !#[trigger] keyed_at(records, "core.ignorecase"@, k) by {
                    assert(!keyed_at(records, config_key(8), k));
                }
            }
            assert(unset_or_boolean(records, "core.symlinks"@));
            assert(unset_or_boolean(records, "core.ignorecase"@));
        }
    }
    if config_as_expected(records, profile) {
        assert forall|number: int| #[trigger] key_required(number, platform) implies set_once_and_fits(records, number, profile) by {
            assert(number == 0 || number == 1 || number == 2 || number == 3 || number == 4 || number == 5 || number == 6);
        }
        assert forall|number: int| #[trigger] key_exists(number, platform) implies set_nowhere(records, number) || set_once_and_fits(
            records,
            number,
            profile,
        ) by {
            if key_required(number, platform) {
                assert(set_once_and_fits(records, number, profile));
            } else {
                assert(number == 7 || number == 8);
            }
        }
    }
}

spec fn listed_as(records: Seq<Seq<u8>>, number: int, profile: TargetConfigProfile<'_>) -> bool {
    let windows = profile.platform == HostPlatform::Windows;
    if number == 0 {
        set_once_to(records, "core.repositoryformatversion"@, "0"@)
    } else if number == 1 {
        set_once_to(
            records,
            "core.filemode"@,
            if windows {
                "false"@
            } else {
                "true"@
            },
        )
    } else if number == 2 {
        set_once_to(records, "core.bare"@, "false"@)
    } else if number == 3 {
        set_once_to(records, "core.logallrefupdates"@, "true"@)
    } else if number == 4 {
        set_once_to(records, "merge.inex.name"@, profile.driver_name@)
    } else if number == 5 {
        profile.driver_command matches Some(command) && set_once_to(records, "merge.inex.driver"@, command@)
    } else if number == 6 {
        set_once_to(records, "core.longpaths"@, "true"@)
    } else if number == 7 {
        set_once_to(records, "core.symlinks"@, "true"@) || set_once_to(records, "core.symlinks"@, "false"@)
    } else {
        set_once_to(records, "core.ignorecase"@, "true"@) || set_once_to(records, "core.ignorecase"@, "false"@)
    }
}

proof fn listed_value(records: Seq<Seq<u8>>, number: int, profile: TargetConfigProfile<'_>)
    requires
        0 <= number < 9,
    ensures
        set_once_and_fits(records, number, profile) == listed_as(records, number, profile),
{
    if set_once_and_fits(records, number, profile) {
        let i = choose|i: int| #[trigger]
            alone_at(records, config_key(number), i) && value_fits(number, setting_value(records[i]), profile);
        assert(alone_at(records, config_key(number), i));
    }
    if listed_as(records, number, profile) {
        let i = choose|i: int| #[trigger] alone_at(records, config_key(number), i);
        assert forall|k: int| #[trigger] alone_at(records, config_key(number), k) implies k == i by {
            assert(keyed_at(records, config_key(number), k));
            assert(keyed_at(records, config_key(number), i));
        }
    }
}

proof fn the_bytes_are_judged_so(records: Seq<Seq<u8>>, profile: TargetConfigProfile<'_>)
    ensures
        one_measure(records, profile) <==> {
            &&& forall|i: int| 0 <= i < records.len() ==> record_is_known(#[trigger] records[i], profile)
            &&& forall|i: int, j: int, number: int|
                0 <= i < j < records.len() && #[trigger] sets_key(records[i], number, profile) ==> !(#[trigger] sets_key(
                    records[j],
                    number,
                    profile,
                ))
            &&& forall|number: int| #[trigger]
                key_required(number, profile.platform) ==> key_is_set(records, number, profile, records.len() as int)
        },
{
    let platform = profile.platform;
    if one_measure(records, profile) {
        assert forall|i: int| 0 <= i < records.len() implies record_is_known(#[trigger] records[i], profile) by {
            let number = a_key_has_a_number(setting_key(records[i]), platform);
            assert(keyed_at(records, config_key(number), i));
            assert(key_exists(number, platform));
            let k = choose|k: int| #[trigger]
                alone_at(records, config_key(number), k) && value_fits(number, setting_value(records[k]), profile);
            assert(k == i);
            what_a_record_sets(records[i], number, profile);
            assert(sets_key(records[i], number, profile));
        }
        assert forall|i: int, j: int, number: int|
            0 <= i < j < records.len() && #[trigger] sets_key(records[i], number, profile) implies !(#[trigger] sets_key(
            records[j],
            number,
            profile,
        )) by {
            what_a_record_sets(records[i], number, profile);
            what_a_record_sets(records[j], number, profile);
            assert(keyed_at(records, config_key(number), i));
            assert(key_exists(number, platform));
            let k = choose|k: int| #[trigger]
                alone_at(records, config_key(number), k) && value_fits(number, setting_value(records[k]), profile);
            if sets_key(records[j], number, profile) {
                assert(keyed_at(records, config_key(number), j));
            }
        }
        assert forall|number: int| #[trigger] key_required(number, platform) implies key_is_set(
            records,
            number,
            profile,
            records.len() as int,
        ) by {
            let k = choose|k: int| #[trigger]
                alone_at(records, config_key(number), k) && value_fits(number, setting_value(records[k]), profile);
            assert(target_setting(records[k], platform));
            what_a_record_sets(records[k], number, profile);
            assert(sets_key(records[k], number, profile));
        }
    }
    if (forall|i: int| 0 <= i < records.len() ==> record_is_known(#[trigger] records[i], profile)) && (forall|i: int, j: int, number: int|
        0 <= i < j < records.len() && #[trigger] sets_key(records[i], number, profile) ==> !(#[trigger] sets_key(
            records[j],
            number,
            profile,
        ))) && (forall|number: int| #[trigger]
        key_required(number, platform) ==> key_is_set(records, number, profile, records.len() as int)) {
        assert forall|i: int| 0 <= i < records.len() implies target_setting(#[trigger] records[i], platform) by {
            let number = choose|number: int| sets_key(records[i], number, profile);
            what_a_record_sets(records[i], number, profile);
        }
        assert forall|number: int, i: int| 0 <= number < 9 && #[trigger] keyed_at(records, config_key(number), i) implies alone_at(
            records,
            config_key(number),
            i,
        ) && value_fits(number, setting_value(records[i]), profile) by {
            a_keyed_record_is_alone(records, profile, number, i);
        }
        assert forall|number: int| #[trigger] key_required(number, platform) implies set_once_and_fits(records, number, profile) by {
            let k = choose|k: int| 0 <= k < records.len() && sets_key(#[trigger] records[k], number, profile);
            what_a_record_sets(records[k], number, profile);
            assert(keyed_at(records, config_key(number), k));
            assert(alone_at(records, config_key(number), k));
        }
        assert forall|number: int| #[trigger] key_exists(number, platform) implies set_nowhere(records, number) || set_once_and_fits(
            records,
            number,
            profile,
        ) by {
            if !set_nowhere(records, number) {
                let k = choose|k: int| #[trigger] keyed_at(records, config_key(number), k);
                assert(alone_at(records, config_key(number), k));
            }
        }
    }
}

proof fn a_keyed_record_is_alone(records: Seq<Seq<u8>>, profile: TargetConfigProfile<'_>, number: int, i: int)
    requires
        0 <= number < 9,
        keyed_at(records, config_key(number), i),
        forall|k: int| 0 <= k < records.len() ==> record_is_known(#[trigger] records[k], profile),
        forall|k: int, j: int, n: int|
            0 <= k < j < records.len() && #[trigger] sets_key(records[k], n, profile) ==> !(#[trigger] sets_key(records[j], n, profile)),
    ensures
        alone_at(records, config_key(number), i),
        value_fits(number, setting_value(records[i]), profile),
{
    a_keyed_record_sets_its_key(records, profile, number, i);
    assert forall|k: int| #[trigger] keyed_at(records, config_key(number), k) implies k == i by {
        a_keyed_record_sets_its_key(records, profile, number, k);
    }
}

proof fn a_keyed_record_sets_its_key(records: Seq<Seq<u8>>, profile: TargetConfigProfile<'_>, number: int, i: int)
    requires
        0 <= number < 9,
        keyed_at(records, config_key(number), i),
        forall|k: int| 0 <= k < records.len() ==> record_is_known(#[trigger] records[k], profile),
    ensures
        sets_key(records[i], number, profile),
        value_fits(number, setting_value(records[i]), profile),
{
    assert(record_is_known(records[i], profile));
    let m = choose|m: int| sets_key(records[i], m, profile);
    what_a_record_sets(records[i], m, profile);
    if m != number {
        keys_differ(m, number);
    }
}

/// The configuration of a target is accepted from its bytes exactly where it is accepted from what Git lists.
pub proof fn configurations_are_judged_alike(output: Seq<u8>, profile: TargetConfigProfile<'_>)
    ensures
        exact_config(output, profile) <==> nul_terminated(output) && config_as_expected(nul_pieces(output), profile),
        config_as_expected(nul_pieces(output), profile) <==> one_measure(nul_pieces(output), profile),
{
    the_listing_is_judged_so(nul_pieces(output), profile);
    the_bytes_are_judged_so(nul_pieces(output), profile);
    if output.len() > 0 {
        assert(config_records(output) == nul_pieces(output));
        if exact_config(output, profile) {
            assert forall|i: int| 0 <= i < nul_pieces(output).len() implies (#[trigger] nul_pieces(output)[i]).len() > 0 by {
                assert(record_is_known(nul_pieces(output)[i], profile));
            }
        }
    } else {
        assert(key_required(0, profile.platform));
        assert(!key_is_set(nul_pieces(output), 0, profile, 0));
    }
}

/// Every target is made by one measure: its format is version 0, it is not bare, it logs references, and it
/// merges by the named driver; it keeps file modes but on Windows, where it allows long paths.
pub proof fn what_a_configuration_says(records: Seq<Seq<u8>>, profile: TargetConfigProfile<'_>)
    requires
        config_as_expected(records, profile),
    ensures
        set_once_to(records, "core.repositoryformatversion"@, "0"@),
        set_once_to(records, "core.bare"@, "false"@),
        set_once_to(records, "core.logallrefupdates"@, "true"@),
        set_once_to(records, "merge.inex.name"@, profile.driver_name@),
        profile.driver_command is Some && set_once_to(records, "merge.inex.driver"@, profile.driver_command->Some_0@),
        profile.platform == HostPlatform::Windows ==> set_once_to(records, "core.filemode"@, "false"@) && set_once_to(
            records,
            "core.longpaths"@,
            "true"@,
        ),
        profile.platform != HostPlatform::Windows ==> set_once_to(records, "core.filemode"@, "true"@),
{
}

/// A key that is set once is set by one record, whose key is that key in small letters, and to that value.
pub proof fn what_is_set_once(records: Seq<Seq<u8>>, key: Seq<char>, value: Seq<char>)
    ensures
        set_once_to(records, key, value) <==> exists|i: int|
            {
                &&& 0 <= i < records.len()
                &&& setting_key(#[trigger] records[i]) == encode_utf8(key)
                &&& setting_value(records[i]) == encode_utf8(value)
                &&& forall|k: int| 0 <= k < records.len() && k != i ==> setting_key(#[trigger] records[k]) != encode_utf8(key)
            },
{
    if set_once_to(records, key, value) {
        let i = choose|i: int| #[trigger] alone_at(records, key, i) && setting_value(records[i]) == encode_utf8(value);
        assert(setting_key(records[i]) == encode_utf8(key));
        assert forall|k: int| 0 <= k < records.len() && k != i implies setting_key(#[trigger] records[k]) != encode_utf8(key) by {
            assert(keyed_at(records, key, k) ==> k == i);
        }
    }
    if exists|i: int|
        {
            &&& 0 <= i < records.len()
            &&& setting_key(#[trigger] records[i]) == encode_utf8(key)
            &&& setting_value(records[i]) == encode_utf8(value)
            &&& forall|k: int| 0 <= k < records.len() && k != i ==> setting_key(#[trigger] records[k]) != encode_utf8(key)
        } {
        let i = choose|i: int|
            {
                &&& 0 <= i < records.len()
                &&& setting_key(#[trigger] records[i]) == encode_utf8(key)
                &&& setting_value(records[i]) == encode_utf8(value)
                &&& forall|k: int| 0 <= k < records.len() && k != i ==> setting_key(#[trigger] records[k]) != encode_utf8(key)
            };
        assert(alone_at(records, key, i));
    }
}

/// A setting that is listed has its key in small letters and its value.
pub proof fn target_settings_are_read_back(key: Seq<u8>, value: Seq<u8>)
    requires
        !key.contains(0x0a),
    ensures
        setting_key(crate::source_laws::setting(key, value)) == crate::source_laws::small(key),
        setting_value(crate::source_laws::setting(key, value)) == value,
{
    crate::source_laws::settings_are_read_back(key, value);
    assert(lowered(key) =~= crate::source_laws::small(key));
}

} // verus!
