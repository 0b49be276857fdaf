//! The configuration of a target repository, as `git config --null --list` prints it.

use crate::bytes::{find_byte, next_index, next_index_facts, slices_view, split_bytes, split_pieces};
use crate::errors::CandidateSealError;
use crate::git_object::NEWLINE;
use crate::portable_path::{equal_ignoring_case, same_ignoring_case};
use crate::text::{text_equal, utf8_text};
use vstd::prelude::*;
use vstd::slice::slice_subrange;
use vstd::string::*;
use vstd::utf8::{encode_utf8, valid_utf8};

verus! {

/// Longest configuration output, in bytes.
pub const MAX_TARGET_CONFIG_OUTPUT_BYTES: usize = 1_048_576;

/// The host that a target lives on.
#[derive(Clone, Copy, Debug, PartialEq, Eq, Structural)]
pub enum HostPlatform {
    Windows,
    Unix,
}

/// The values that a target configuration must have beside the fixed ones.
#[derive(Clone, Copy)]
pub struct TargetConfigProfile<'a> {
    pub platform: HostPlatform,
    pub driver_name: &'a str,
    /// The command of the installed driver. Without one, no setting of it is right.
    pub driver_command: Option<&'a str>,
}

/// Number of keys that a configuration may have.
pub const CONFIG_KEYS: usize = 9;

/// Require a value to be a given one.
pub fn require_config_value(value: &str, expected: &str) -> (r: Result<(), CandidateSealError>)
    ensures
        r == if value@ == expected@ {
            Ok::<(), CandidateSealError>(())
        } else {
            Err(CandidateSealError::InvalidRecord)
        },
{
    if text_equal(value, expected) {
        Ok(())
    } else {
        Err(CandidateSealError::InvalidRecord)
    }
}

/// Require a value to be a boolean.
pub fn require_boolean_config_value(value: &str) -> (r: Result<(), CandidateSealError>)
    ensures
        r == if value@ == "true"@ || value@ == "false"@ {
            Ok::<(), CandidateSealError>(())
        } else {
            Err(CandidateSealError::InvalidRecord)
        },
{
    if text_equal(value, "true") || text_equal(value, "false") {
        Ok(())
    } else {
        Err(CandidateSealError::InvalidRecord)
    }
}

/// The name of a key, by its number. The last three exist on Windows only.
pub open spec fn config_key(number: int) -> Seq<char> {
    if number == 0 {
        "core.repositoryformatversion"@
    } else if number == 1 {
        "core.filemode"@
    } else if number == 2 {
        "core.bare"@
    } else if number == 3 {
        "core.logallrefupdates"@
    } else if number == 4 {
        "merge.inex.name"@
    } else if number == 5 {
        "merge.inex.driver"@
    } else if number == 6 {
        "core.longpaths"@
    } else if number == 7 {
        "core.symlinks"@
    } else {
        "core.ignorecase"@
    }
}

/// A key exists on a platform.
pub open spec fn key_exists(number: int, platform: HostPlatform) -> bool {
    0 <= number < 6 || (platform == HostPlatform::Windows && 0 <= number < 9)
}

/// A key must be there.
pub open spec fn key_required(number: int, platform: HostPlatform) -> bool {
    0 <= number < 6 || (platform == HostPlatform::Windows && number == 6)
}

/// A value is one that a key may have.
pub open spec fn value_fits(number: int, value: Seq<u8>, profile: TargetConfigProfile) -> bool {
    if number == 0 {
        value == encode_utf8("0"@)
    } else if number == 1 {
        value == encode_utf8(
            if profile.platform == HostPlatform::Windows {
                "false"@
            } else {
                "true"@
            },
        )
    } else if number == 2 {
        value == encode_utf8("false"@)
    } else if number == 3 || number == 6 {
        value == encode_utf8("true"@)
    } else if number == 4 {
        value == encode_utf8(profile.driver_name@)
    } else if number == 5 {
        profile.driver_command matches Some(command) && value == encode_utf8(command@)
    } else {
        value == encode_utf8("true"@) || value == encode_utf8("false"@)
    }
}

/// What stands before the first newline.
pub open spec fn record_key(record: Seq<u8>) -> Seq<u8> {
    record.subrange(0, next_index(record, NEWLINE, 0))
}

/// What stands behind the first newline.
pub open spec fn record_value(record: Seq<u8>) -> Seq<u8> {
    record.subrange(next_index(record, NEWLINE, 0) + 1, record.len() as int)
}

/// A record sets a key to a value that it may have. The names of keys ignore ASCII case.
pub open spec fn sets_key(record: Seq<u8>, number: int, profile: TargetConfigProfile) -> bool {
    &&& key_exists(number, profile.platform)
    &&& next_index(record, NEWLINE, 0) < record.len()
    &&& valid_utf8(record_key(record))
    &&& valid_utf8(record_value(record))
    &&& same_ignoring_case(record_key(record), encode_utf8(config_key(number)))
    &&& value_fits(number, record_value(record), profile)
}

/// The records of an output: what stands before each NUL.
pub open spec fn config_records(output: Seq<u8>) -> Seq<Seq<u8>> {
    split_pieces(output.drop_last(), 0)
}

/// An output is exactly a target configuration: every record sets a known key, no key is set
/// twice, and every required key is set.
pub open spec fn exact_config(output: Seq<u8>, profile: TargetConfigProfile) -> bool {
    let records = config_records(output);
    &&& output.len() > 0
    &&& output.last() == 0
    &&& forall|i: int| 0 <= i < records.len() ==> record_is_known(#[trigger] records[i], profile)
    &&& forall|i: int, j: int, number: int|
        0 <= i < j < records.len() && #[trigger] sets_key(records[i], number, profile) ==> !(#[trigger] sets_key(
            records[j],
            number,
            profile,
        ))
    &&& forall|number: int| #[trigger]
        key_required(number, profile.platform) ==> key_is_set(records, number, profile, records.len() as int)
}

/// A record sets some key.
pub open spec fn record_is_known(record: Seq<u8>, profile: TargetConfigProfile) -> bool {
    exists|number: int| sets_key(record, number, profile)
}

/// One of the first `n` records sets a key.
pub open spec fn key_is_set(records: Seq<Seq<u8>>, number: int, profile: TargetConfigProfile, n: int) -> bool {
    exists|i: int| 0 <= i < n && sets_key(#[trigger] records[i], number, profile)
}

/// The keys differ from one another, also when case is ignored.
proof fn keys_differ(key: Seq<u8>, m: int, n: int)
    requires
        0 <= m < 9,
        0 <= n < 9,
        same_ignoring_case(key, encode_utf8(config_key(m))),
        same_ignoring_case(key, encode_utf8(config_key(n))),
    ensures
        m == n,
{
    reveal_keys(m);
    reveal_keys(n);
    let a = encode_utf8(config_key(m));
    let b = encode_utf8(config_key(n));
    assert(a.len() == b.len());
    assert forall|i: int| 0 <= i < a.len() implies crate::portable_path::ascii_lower(#[trigger] a[i]) == crate::portable_path::ascii_lower(
        b[i],
    ) by {
        assert(crate::portable_path::ascii_lower(key[i]) == crate::portable_path::ascii_lower(a[i]));
        assert(crate::portable_path::ascii_lower(key[i]) == crate::portable_path::ascii_lower(b[i]));
    }
    // Keys of equal length differ in their sixth byte.
    if m != n {
        assert(a[5] != b[5]);
    }
}

/// The length of a key, and its sixth byte.
proof fn reveal_keys(number: int)
    requires
        0 <= number < 9,
    ensures
        ({
            let key = encode_utf8(config_key(number));
            &&& key.len() == if number == 0 {
                28int
            } else if number == 1 {
                13
            } else if number == 2 {
                9
            } else if number == 3 {
                21
            } else if number == 4 {
                15
            } else if number == 5 {
                17
            } else if number == 6 {
                14
            } else if number == 7 {
                13
            } else {
                15
            }
            &&& key[5] == if number == 0 {
                0x72u8
            } else if number == 1 {
                0x66
            } else if number == 2 {
                0x62
            } else if number == 3 {
                0x6c
            } else if number == 4 {
                0x2e
            } else if number == 5 {
                0x2e
            } else if number == 6 {
                0x6c
            } else if number == 7 {
                0x73
            } else {
                0x69
            }
        }),
{
    reveal_strlit("core.repositoryformatversion");
    reveal_strlit("core.filemode");
    reveal_strlit("core.bare");
    reveal_strlit("core.logallrefupdates");
    reveal_strlit("merge.inex.name");
    reveal_strlit("merge.inex.driver");
    reveal_strlit("core.longpaths");
    reveal_strlit("core.symlinks");
    reveal_strlit("core.ignorecase");
    vstd::utf8::is_ascii_chars_encode_utf8(config_key(number));
}

/// The number of a key, if it exists on a platform.
fn key_number(key: &[u8], platform: HostPlatform) -> (r: Option<usize>)
    ensures
        r matches Some(n) ==> n < CONFIG_KEYS && key_exists(n as int, platform) && same_ignoring_case(
            key@,
            encode_utf8(config_key(n as int)),
        ),
        r is None ==> forall|n: int|
            key_exists(n, platform) ==> !same_ignoring_case(key@, encode_utf8(#[trigger] config_key(n))),
{
    if equal_ignoring_case(key, "core.repositoryformatversion".as_bytes()) {
        return Some(0);
    }
    if equal_ignoring_case(key, "core.filemode".as_bytes()) {
        return Some(1);
    }
    if equal_ignoring_case(key, "core.bare".as_bytes()) {
        return Some(2);
    }
    if equal_ignoring_case(key, "core.logallrefupdates".as_bytes()) {
        return Some(3);
    }
    if equal_ignoring_case(key, "merge.inex.name".as_bytes()) {
        return Some(4);
    }
    if equal_ignoring_case(key, "merge.inex.driver".as_bytes()) {
        return Some(5);
    }
    if platform == HostPlatform::Windows {
        if equal_ignoring_case(key, "core.longpaths".as_bytes()) {
            return Some(6);
        }
        if equal_ignoring_case(key, "core.symlinks".as_bytes()) {
            return Some(7);
        }
        if equal_ignoring_case(key, "core.ignorecase".as_bytes()) {
            return Some(8);
        }
    }
    None
}

/// Require a value to be one that a key may have.
fn require_key_value(number: usize, value: &str, profile: &TargetConfigProfile<'_>) -> (r: Result<(), CandidateSealError>)
    ensures
        r == if value_fits(number as int, value.spec_bytes(), *profile) {
            Ok::<(), CandidateSealError>(())
        } else {
            Err(CandidateSealError::InvalidRecord)
        },
{
    proof {
        crate::text::encoding_is_injective(value@, "0"@);
        crate::text::encoding_is_injective(value@, "true"@);
        crate::text::encoding_is_injective(value@, "false"@);
        crate::text::encoding_is_injective(value@, profile.driver_name@);
        if let Some(command) = profile.driver_command {
            crate::text::encoding_is_injective(value@, command@);
        }
    }
    if number == 0 {
        require_config_value(value, "0")
    } else if number == 1 {
        if profile.platform == HostPlatform::Windows {
            require_config_value(value, "false")
        } else {
            require_config_value(value, "true")
        }
    } else if number == 2 {
        require_config_value(value, "false")
    } else if number == 3 || number == 6 {
        require_config_value(value, "true")
    } else if number == 4 {
        require_config_value(value, profile.driver_name)
    } else if number == 5 {
        match profile.driver_command {
            Some(command) => require_config_value(value, command),
            None => Err(CandidateSealError::InvalidRecord),
        }
    } else {
        require_boolean_config_value(value)
    }
}

/// The number of the key that a record sets.
fn record_number(record: &[u8], profile: &TargetConfigProfile<'_>) -> (r: Result<usize, CandidateSealError>)
    ensures
        r is Ok <==> record_is_known(record@, *profile),
        r matches Ok(n) ==> n < CONFIG_KEYS && sets_key(record@, n as int, *profile),
        r matches Err(error) ==> error == CandidateSealError::InvalidRecord,
{
    proof {
        next_index_facts(record@, NEWLINE, 0);
    }
    let newline = find_byte(record, NEWLINE, 0);
    if newline == record.len() {
        return Err(CandidateSealError::InvalidRecord);
    }
    let key_bytes = slice_subrange(record, 0, newline);
    let value_bytes = slice_subrange(record, newline + 1, record.len());
    assert(key_bytes@ == record_key(record@));
    assert(value_bytes@ == record_value(record@));
    let key = match utf8_text(key_bytes) {
        Some(key) => key,
        None => {
            return Err(CandidateSealError::InvalidRecord);
        },
    };
    let value = match utf8_text(value_bytes) {
        Some(value) => value,
        None => {
            return Err(CandidateSealError::InvalidRecord);
        },
    };
    let number = match key_number(key.as_bytes(), profile.platform) {
        Some(number) => number,
        None => {
            assert forall|n: int| !sets_key(record@, n, *profile) by {
                if key_exists(n, profile.platform) {
                    let name = config_key(n);
                }
            }
            return Err(CandidateSealError::InvalidRecord);
        },
    };
    proof {
        if record_is_known(record@, *profile) {
            let n = choose|n: int| sets_key(record@, n, *profile);
            keys_differ(record_key(record@), n, number as int);
        }
    }
    require_key_value(number, value, profile)?;
    assert(sets_key(record@, number as int, *profile));
    Ok(number)
}

/// What the first `n` records of an output have set.
pub open spec fn keys_seen(seen: Seq<bool>, records: Seq<Seq<u8>>, profile: TargetConfigProfile, n: int) -> bool {
    &&& seen.len() == CONFIG_KEYS
    &&& forall|number: int|
        0 <= number < CONFIG_KEYS ==> #[trigger] seen[number] == key_is_set(records, number, profile, n)
}

/// Validate the output of `git config --file - --no-includes --null --list` on the bytes of a
/// held configuration file.
pub fn validate_target_config_output(output: &[u8], profile: &TargetConfigProfile<'_>) -> (r: Result<
    (),
    CandidateSealError,
>)
    ensures
        r == if output@.len() > MAX_TARGET_CONFIG_OUTPUT_BYTES {
            Err::<(), CandidateSealError>(CandidateSealError::ResourceLimit)
        } else if exact_config(output@, *profile) {
            Ok(())
        } else {
            Err(CandidateSealError::InvalidRecord)
        },
{
    if output.len() > MAX_TARGET_CONFIG_OUTPUT_BYTES {
        return Err(CandidateSealError::ResourceLimit);
    }
    if output.len() == 0 || output[output.len() - 1] != 0 {
        return Err(CandidateSealError::InvalidRecord);
    }
    let listed = slice_subrange(output, 0, output.len() - 1);
    assert(listed@ =~= output@.drop_last());
    let pieces = split_bytes(listed, 0);
    let ghost records = config_records(output@);
    assert(slices_view(pieces@) == records);
    let mut seen: Vec<bool> = Vec::new();
    while seen.len() < CONFIG_KEYS
        invariant
            seen@.len() <= CONFIG_KEYS,
            forall|k: int| 0 <= k < seen@.len() ==> !(#[trigger] seen@[k]),
        decreases CONFIG_KEYS - seen@.len(),
    {
        seen.push(false);
    }
    let mut i: usize = 0;
    while i < pieces.len()
        invariant
            output@.len() <= MAX_TARGET_CONFIG_OUTPUT_BYTES,
            records == config_records(output@),
            slices_view(pieces@) == records,
            i <= pieces@.len(),
            keys_seen(seen@, records, *profile, i as int),
            forall|k: int| 0 <= k < i ==> record_is_known(#[trigger] records[k], *profile),
            forall|j: int, k: int, number: int|
                0 <= j < k < i && #[trigger] sets_key(records[j], number, *profile) ==> !(#[trigger] sets_key(
                    records[k],
                    number,
                    *profile,
                )),
        decreases pieces@.len() - i,
    {
        let record = pieces[i];
        assert(record@ == records[i as int]);
        let number = match record_number(record, profile) {
            Ok(number) => number,
            Err(error) => {
                assert(!record_is_known(records[i as int], *profile));
                return Err(error);
            },
        };
        if seen[number] {
            proof {
                let k = choose|k: int| 0 <= k < i && sets_key(#[trigger] records[k], number as int, *profile);
                assert(sets_key(records[k], number as int, *profile));
                assert(sets_key(records[i as int], number as int, *profile));
            }
            return Err(CandidateSealError::InvalidRecord);
        }
        let ghost before = seen@;
        seen.set(number, true);
        proof {
            assert forall|m: int| 0 <= m < CONFIG_KEYS implies #[trigger] seen@[m] == key_is_set(
                records,
                m,
                *profile,
                i + 1,
            ) by {
                assert(before[m] == key_is_set(records, m, *profile, i as int));
                if sets_key(records[i as int], m, *profile) {
                    keys_differ(record_key(record@), m, number as int);
                }
                if key_is_set(records, m, *profile, i as int) {
                    let k = choose|k: int| 0 <= k < i && sets_key(#[trigger] records[k], m, *profile);
                    assert(sets_key(records[k], m, *profile));
                }
            }
            assert forall|j: int, k: int, m: int|
                0 <= j < k < i + 1 && #[trigger] sets_key(records[j], m, *profile) implies !(#[trigger] sets_key(
                records[k],
                m,
                *profile,
            )) by {
                if k == i && sets_key(records[k], m, *profile) {
                    keys_differ(record_key(record@), m, number as int);
                    assert(before[m] == key_is_set(records, m, *profile, i as int));
                    assert(sets_key(records[j], m, *profile));
                }
            }
        }
        i = i + 1;
    }
    let complete = seen[0] && seen[1] && seen[2] && seen[3] && seen[4] && seen[5] && (profile.platform
        != HostPlatform::Windows || seen[6]);
    proof {
        if complete {
            assert forall|number: int| #[trigger] key_required(number, profile.platform) implies key_is_set(
                records,
                number,
                *profile,
                records.len() as int,
            ) by {
                assert(seen@[number] == key_is_set(records, number, *profile, records.len() as int));
            }
        } else {
            let missing: int = if !seen@[0] {
                0
            } else if !seen@[1] {
                1
            } else if !seen@[2] {
                2
            } else if !seen@[3] {
                3
            } else if !seen@[4] {
                4
            } else if !seen@[5] {
                5
            } else {
                6
            };
            assert(key_required(missing, profile.platform));
            assert(seen@[missing] == key_is_set(records, missing, *profile, records.len() as int));
        }
    }
    if complete {
        Ok(())
    } else {
        Err(CandidateSealError::InvalidRecord)
    }
}

} // verus!
