//! Portable relative paths: what a sealed path may look like on every supported filesystem.

use crate::bytes::{find_byte, next_index, split_bytes, split_pieces, slices_view};
use crate::errors::CandidateSealError;
use crate::text::{nfc_normalized, text_is_nfc};
use vstd::prelude::*;
use vstd::slice::slice_subrange;
use vstd::string::*;
use vstd::utf8::encode_utf8;

verus! {

/// Longest component, in bytes.
pub const MAX_COMPONENT_BYTES: usize = 255;

/// Most components in one path.
pub const MAX_DEPTH: usize = 128;

/// Most path bytes in one section.
pub const MAX_PATH_BUDGET: usize = 268_435_456;

/// Most path bytes in a path of a physical record.
pub const MAX_PHYSICAL_PATH_BYTES: usize = 1_034;

pub const SLASH: u8 = 0x2f;

pub const BACKSLASH: u8 = 0x5c;

pub const DOT: u8 = 0x2e;

pub const SPACE: u8 = 0x20;

pub const TILDE: u8 = 0x7e;

/// The lowercase form of an ASCII letter; every other byte stays.
pub open spec fn ascii_lower(byte: u8) -> u8 {
    if 0x41 <= byte <= 0x5a {
        (byte + 0x20) as u8
    } else {
        byte
    }
}

/// Equal up to the case of ASCII letters.
pub open spec fn same_ignoring_case(a: Seq<u8>, b: Seq<u8>) -> bool {
    a.len() == b.len() && forall|i: int| 0 <= i < a.len() ==> ascii_lower(a[i]) == ascii_lower(b[i])
}

/// Whether two byte strings are equal up to the case of ASCII letters.
pub fn equal_ignoring_case(a: &[u8], b: &[u8]) -> (r: bool)
    ensures
        r == same_ignoring_case(a@, b@),
{
    if a.len() != b.len() {
        return false;
    }
    let mut i: usize = 0;
    while i < a.len()
        invariant
            i <= a.len(),
            a.len() == b.len(),
            forall|k: int| 0 <= k < i ==> ascii_lower(a[k]) == ascii_lower(b[k]),
        decreases a.len() - i,
    {
        let left: u8 = if 0x41 <= a[i] && a[i] <= 0x5a { a[i] + 0x20 } else { a[i] };
        let right: u8 = if 0x41 <= b[i] && b[i] <= 0x5a { b[i] + 0x20 } else { b[i] };
        if left != right {
            return false;
        }
        i = i + 1;
    }
    true
}

/// A control character of Unicode category Cc begins at `i`: U+0000 to U+001F and U+007F as
/// one byte, U+0080 to U+009F as `C2` and the character's low byte.
pub open spec fn control_at(s: Seq<u8>, i: int) -> bool {
    s[i] < 0x20 || s[i] == 0x7f || (s[i] == 0xc2 && i + 1 < s.len() && 0x80 <= s[i + 1] <= 0x9f)
}

/// One of `<`, `>`, `:`, `"`, `|`, `?` and `*`.
pub open spec fn reserved_byte(byte: u8) -> bool {
    byte == 0x3c || byte == 0x3e || byte == 0x3a || byte == 0x22 || byte == 0x7c || byte == 0x3f || byte == 0x2a
}

/// The character that begins at `i` is a control character or reserved.
pub open spec fn forbidden_at(s: Seq<u8>, i: int) -> bool {
    control_at(s, i) || reserved_byte(s[i])
}

/// Some character of `s` is a control character or reserved.
pub open spec fn has_forbidden_character(s: Seq<u8>) -> bool {
    exists|i: int| 0 <= i < s.len() && forbidden_at(s, i)
}

fn contains_forbidden_character(s: &[u8]) -> (r: bool)
    ensures
        r == has_forbidden_character(s@),
{
    let mut i: usize = 0;
    while i < s.len()
        invariant
            i <= s.len(),
            forall|k: int| 0 <= k < i ==> !forbidden_at(s@, k),
        decreases s.len() - i,
    {
        let byte: u8 = s[i];
        let control: bool = byte < 0x20 || byte == 0x7f || (byte == 0xc2 && s.len() - i > 1 && s[i + 1] >= 0x80
            && s[i + 1] <= 0x9f);
        let reserved: bool = byte == 0x3c || byte == 0x3e || byte == 0x3a || byte == 0x22 || byte == 0x7c
            || byte == 0x3f || byte == 0x2a;
        assert((control || reserved) == forbidden_at(s@, i as int));
        if control || reserved {
            return true;
        }
        i = i + 1;
    }
    false
}

/// `s` without the spaces at its end.
pub open spec fn trim_spaces(s: Seq<u8>) -> Seq<u8>
    decreases s.len(),
{
    if s.len() > 0 && s.last() == SPACE {
        trim_spaces(s.drop_last())
    } else {
        s
    }
}

/// What stands before the first dot of a component, without the spaces at its end.
pub open spec fn basename_of(component: Seq<u8>) -> Seq<u8> {
    trim_spaces(component.subrange(0, next_index(component, DOT, 0)))
}

/// What stands before the first dot of a component, without the spaces at its end.
pub fn basename(component: &[u8]) -> (r: &[u8])
    ensures
        r@ == basename_of(component@),
{
    let dot = find_byte(component, DOT, 0);
    let mut end: usize = dot;
    assert(component@.subrange(0, dot as int) == component@.subrange(0, end as int));
    while end > 0 && component[end - 1] == SPACE
        invariant
            end <= dot <= component.len(),
            trim_spaces(component@.subrange(0, dot as int)) == trim_spaces(
                component@.subrange(0, end as int),
            ),
        decreases end,
    {
        assert(component@.subrange(0, end as int).drop_last() =~= component@.subrange(0, end - 1));
        end = end - 1;
    }
    slice_subrange(component, 0, end)
}

/// A name that Windows keeps for a device: `CON`, `PRN`, `AUX`, `NUL`, `CONIN$`, `CONOUT$`,
/// and `COM` or `LPT` followed by a digit from one to nine or a superscript one, two or three.
pub open spec fn device_basename(name: Seq<u8>) -> bool {
    ||| same_ignoring_case(name, encode_utf8("CON"@))
    ||| same_ignoring_case(name, encode_utf8("PRN"@))
    ||| same_ignoring_case(name, encode_utf8("AUX"@))
    ||| same_ignoring_case(name, encode_utf8("NUL"@))
    ||| same_ignoring_case(name, encode_utf8("CONIN$"@))
    ||| same_ignoring_case(name, encode_utf8("CONOUT$"@))
    ||| {
        &&& name.len() >= 3
        &&& same_ignoring_case(name.subrange(0, 3), encode_utf8("COM"@)) || same_ignoring_case(
            name.subrange(0, 3),
            encode_utf8("LPT"@),
        )
        &&& (name.len() == 4 && 0x31 <= name[3] <= 0x39) || (name.len() == 5 && name[3] == 0xc2 && (name[4] == 0xb9
            || name[4] == 0xb2 || name[4] == 0xb3))
    }
}

/// Whether Windows keeps a name for a device.
pub fn is_windows_device_basename(basename: &[u8]) -> (r: bool)
    ensures
        r == device_basename(basename@),
{
    if equal_ignoring_case(basename, "CON".as_bytes()) || equal_ignoring_case(basename, "PRN".as_bytes())
        || equal_ignoring_case(basename, "AUX".as_bytes()) || equal_ignoring_case(basename, "NUL".as_bytes())
        || equal_ignoring_case(basename, "CONIN$".as_bytes()) || equal_ignoring_case(
        basename,
        "CONOUT$".as_bytes(),
    ) {
        return true;
    }
    if basename.len() < 3 {
        return false;
    }
    let prefix = slice_subrange(basename, 0, 3);
    (equal_ignoring_case(prefix, "COM".as_bytes()) || equal_ignoring_case(prefix, "LPT".as_bytes())) && ((
    basename.len() == 4 && basename[3] >= 0x31 && basename[3] <= 0x39) || (basename.len() == 5 && basename[3] == 0xc2 && (
    basename[4] == 0xb9 || basename[4] == 0xb2 || basename[4] == 0xb3)))
}

/// A name that ends in a tilde and a digit, as generated short names do.
pub open spec fn short_name_like(name: Seq<u8>) -> bool {
    name.len() >= 2 && 0x30 <= name.last() <= 0x39 && name[name.len() - 2] == TILDE
}

/// Why a component is refused, if it is.
pub open spec fn component_error(component: Seq<u8>) -> Option<CandidateSealError> {
    if component.len() > MAX_COMPONENT_BYTES {
        Some(CandidateSealError::ResourceLimit)
    } else if component.len() == 0 || component == seq![DOT] || component == seq![DOT, DOT] || component[0] == SPACE
        || component.last() == DOT || component.last() == SPACE || has_forbidden_character(component)
        || device_basename(basename_of(component)) || short_name_like(basename_of(component)) {
        Some(CandidateSealError::InvalidRecord)
    } else {
        None
    }
}

/// Require one component to be portable.
pub fn validate_component(component: &[u8]) -> (r: Result<(), CandidateSealError>)
    ensures
        r == verdict(component_error(component@)),
{
    if component.len() > MAX_COMPONENT_BYTES {
        return Err(CandidateSealError::ResourceLimit);
    }
    if component.len() == 0 || component[0] == SPACE || component[component.len() - 1] == DOT || component[component.len() - 1]
        == SPACE || contains_forbidden_character(component) {
        return Err(CandidateSealError::InvalidRecord);
    }
    let name = basename(component);
    if is_windows_device_basename(name) {
        return Err(CandidateSealError::InvalidRecord);
    }
    if name.len() >= 2 && name[name.len() - 1] >= 0x30 && name[name.len() - 1] <= 0x39 && name[name.len() - 2] == TILDE {
        return Err(CandidateSealError::InvalidRecord);
    }
    Ok(())
}

/// A refusal as a result.
pub open spec fn verdict(error: Option<CandidateSealError>) -> Result<(), CandidateSealError> {
    match error {
        Some(e) => Err(e),
        None => Ok(()),
    }
}

/// The first refusal among the components from `i` on; a component past the depth bound is
/// refused before it is looked at.
pub open spec fn components_error(components: Seq<Seq<u8>>, i: int) -> Option<CandidateSealError>
    decreases components.len() - i,
{
    if i < 0 || i >= components.len() {
        None
    } else if i >= MAX_DEPTH {
        Some(CandidateSealError::ResourceLimit)
    } else {
        match component_error(components[i]) {
            Some(e) => Some(e),
            None => components_error(components, i + 1),
        }
    }
}

/// Why a path is refused, if it is. The empty path is the root and allowed only where
/// `allow_root` says so.
pub open spec fn path_error(path: Seq<char>, allow_root: bool, maximum: nat) -> Option<CandidateSealError> {
    let bytes = encode_utf8(path);
    if bytes.len() == 0 {
        if allow_root {
            None
        } else {
            Some(CandidateSealError::InvalidRecord)
        }
    } else if bytes.len() > maximum {
        Some(CandidateSealError::ResourceLimit)
    } else if !nfc_normalized(path) || bytes.contains(BACKSLASH) {
        Some(CandidateSealError::InvalidRecord)
    } else {
        components_error(split_pieces(bytes, SLASH), 0)
    }
}

/// Require one path to be portable and within `maximum_path_bytes`.
pub fn validate_path(path: &str, allow_root: bool, maximum_path_bytes: usize) -> (r: Result<
    (),
    CandidateSealError,
>)
    ensures
        r == verdict(path_error(path@, allow_root, maximum_path_bytes as nat)),
{
    let bytes = path.as_bytes();
    if bytes.len() == 0 {
        return if allow_root { Ok(()) } else { Err(CandidateSealError::InvalidRecord) };
    }
    if bytes.len() > maximum_path_bytes {
        return Err(CandidateSealError::ResourceLimit);
    }
    if !text_is_nfc(path) {
        return Err(CandidateSealError::InvalidRecord);
    }
    let backslash = find_byte(bytes, BACKSLASH, 0);
    if backslash < bytes.len() {
        assert(bytes@.contains(BACKSLASH)) by {
            assert(bytes@[backslash as int] == BACKSLASH);
        }
        return Err(CandidateSealError::InvalidRecord);
    }
    assert(!bytes@.contains(BACKSLASH));
    let components = split_bytes(bytes, SLASH);
    let ghost pieces = split_pieces(bytes@, SLASH);
    assert(slices_view(components@) == pieces);
    let mut depth: usize = 0;
    while depth < components.len()
        invariant
            depth <= components.len(),
            slices_view(components@) == pieces,
            path_error(path@, allow_root, maximum_path_bytes as nat) == components_error(pieces, 0),
            components_error(pieces, 0) == components_error(pieces, depth as int),
        decreases components.len() - depth,
    {
        assert(pieces[depth as int] == components@[depth as int]@);
        if depth >= MAX_DEPTH {
            return Err(CandidateSealError::ResourceLimit);
        }
        match validate_component(components[depth]) {
            Ok(()) => {},
            Err(error) => {
                return Err(error);
            },
        }
        depth = depth + 1;
    }
    Ok(())
}

/// A path of a physical record: not the root, and within the physical bound.
pub fn validate_physical_record_path(path: &str) -> (r: Result<(), CandidateSealError>)
    ensures
        r == verdict(path_error(path@, false, MAX_PHYSICAL_PATH_BYTES as nat)),
{
    validate_path(path, false, MAX_PHYSICAL_PATH_BYTES)
}

} // verus!
