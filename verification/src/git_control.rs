//! The exact graph of control files in a repository candidate.
//!
//! Below `.git` stand four fixed files, six structural directories, one empty hooks directory,
//! and the loose objects of the candidate with their fanout directories. Nothing else does.

use crate::bytes::{
    bytes_equal, bytes_less, has_prefix, lex_less, lex_less_irreflexive, lex_less_transitive, lex_less_trichotomy, parts_below,
};
use crate::errors::CandidateSealError;
use crate::git_object::{raw_sha256, NEWLINE};
use crate::digest::sha256_of;
use crate::hex::{
    all_lower_hex, decode_lower_hex_oid, hex_bytes, hex_nibble, hex_round_trip, hex_text, hex_text_round_trip,
    lower_hex_byte, lower_hex_oid, zero_oid, digit_value,
};
use crate::manifest::{AuditedPhysicalKind, PhysicalRecordRef};
use crate::portable_path::SLASH;
use crate::seal::{
    ascends_at, control_role_fits, loose_object_path, objects_ascend, objects_ascend_apart, validate_loose_object_path,
};
use crate::seal_records::{GitControlRole, ObjectRecord};
use crate::text::{encoding_is_injective, strip_text_prefix, text_equal};
use vstd::prelude::*;
use vstd::string::*;
use vstd::utf8::{encode_utf8, is_ascii_chars_encode_utf8};

verus! {

/// The control directory.
pub const GIT_ROOT: &'static str = ".git";

/// What every path below the control directory begins with.
pub const GIT_PREFIX: &'static str = ".git/";

/// What the path of every loose object and fanout directory begins with.
pub const OBJECTS_PREFIX: &'static str = "objects/";

/// The body of `HEAD`.
pub const HEAD_BODY: &'static str = "ref: refs/heads/main\n";

/// The body of the one branch.
pub open spec fn main_ref_text(oid: Seq<u8>) -> Seq<u8> {
    hex_text(oid).push(NEWLINE)
}

/// The body of the one branch.
pub fn main_ref_body(oid: [u8; 20]) -> (body: [u8; 41])
    ensures
        body@ == main_ref_text(oid@),
{
    let encoded = lower_hex_oid(oid);
    let mut body: [u8; 41] = [NEWLINE; 41];
    let mut i: usize = 0;
    while i < 40
        invariant
            i <= 40,
            encoded@ == hex_text(oid@),
            forall|k: int| 0 <= k < i ==> body@[k] == encoded@[k],
        decreases 40 - i,
    {
        body[i] = encoded[i];
        i = i + 1;
    }
    body[40] = NEWLINE;
    assert(body@ =~= main_ref_text(oid@));
    body
}

/// Require a record to be a directory.
pub fn require_directory(kind: AuditedPhysicalKind) -> (r: Result<(), CandidateSealError>)
    ensures
        r == if kind is Directory {
            Ok::<(), CandidateSealError>(())
        } else {
            Err(CandidateSealError::InvalidRecord)
        },
{
    match kind {
        AuditedPhysicalKind::Directory(_) => Ok(()),
        AuditedPhysicalKind::File { .. } => Err(CandidateSealError::InvalidRecord),
    }
}

/// Require a record to be a file.
pub fn require_file(kind: AuditedPhysicalKind) -> (r: Result<(), CandidateSealError>)
    ensures
        r == if kind is File {
            Ok::<(), CandidateSealError>(())
        } else {
            Err(CandidateSealError::InvalidRecord)
        },
{
    match kind {
        AuditedPhysicalKind::Directory(_) => Err(CandidateSealError::InvalidRecord),
        AuditedPhysicalKind::File { .. } => Ok(()),
    }
}

/// A file whose size and digest are those of a body.
pub open spec fn file_with_body(kind: AuditedPhysicalKind, body: Seq<u8>) -> bool {
    kind matches AuditedPhysicalKind::File { size, sha256, .. } && size == body.len() && sha256@ == sha256_of(body)
}

/// Require a record to be a file with a given body.
pub fn require_file_body(kind: AuditedPhysicalKind, body: &[u8]) -> (r: Result<(), CandidateSealError>)
    ensures
        r == if file_with_body(kind, body@) {
            Ok::<(), CandidateSealError>(())
        } else {
            Err(CandidateSealError::InvalidRecord)
        },
{
    match kind {
        AuditedPhysicalKind::Directory(_) => Err(CandidateSealError::InvalidRecord),
        AuditedPhysicalKind::File { size, sha256, .. } => {
            let expected = raw_sha256(body);
            if size == body.len() as u64 && bytes_equal(sha256.as_slice(), expected.as_slice()) {
                Ok(())
            } else {
                Err(CandidateSealError::InvalidRecord)
            }
        },
    }
}

/// Set a bit that was not set before.
pub fn set_once(mask: &mut u8, bit: u8) -> (r: Result<(), CandidateSealError>)
    ensures
        r is Ok <==> *old(mask) & bit == 0,
        r is Ok ==> *final(mask) == *old(mask) | bit,
        r is Err ==> *final(mask) == *old(mask),
        r matches Err(error) ==> error == CandidateSealError::InvalidRecord,
{
    if *mask & bit != 0 {
        return Err(CandidateSealError::InvalidRecord);
    }
    *mask = *mask | bit;
    Ok(())
}

/// A path below the control directory.
pub open spec fn below_git(path: Seq<u8>) -> bool {
    has_prefix(path, encode_utf8(GIT_PREFIX@))
}

/// What stands behind `.git/`.
pub open spec fn git_relative(path: Seq<u8>) -> Seq<u8> {
    path.subrange(5, path.len() as int)
}

/// The length and bytes of the fixed prefixes.
pub proof fn prefix_lengths()
    ensures
        encode_utf8(GIT_PREFIX@) == seq![0x2eu8, 0x67u8, 0x69u8, 0x74u8, 0x2fu8],
        encode_utf8(OBJECTS_PREFIX@) == seq![0x6fu8, 0x62u8, 0x6au8, 0x65u8, 0x63u8, 0x74u8, 0x73u8, 0x2fu8],
{
    reveal_strlit(".git/");
    is_ascii_chars_encode_utf8(GIT_PREFIX@);
    reveal_strlit("objects/");
    is_ascii_chars_encode_utf8(OBJECTS_PREFIX@);
    assert(encode_utf8(GIT_PREFIX@) =~= seq![0x2eu8, 0x67u8, 0x69u8, 0x74u8, 0x2fu8]);
    assert(encode_utf8(OBJECTS_PREFIX@) =~= seq![0x6fu8, 0x62u8, 0x6au8, 0x65u8, 0x63u8, 0x74u8, 0x73u8, 0x2fu8]);
}

/// What stands behind `.git/`, if anything does.
pub fn git_relative_path(path: &str) -> (r: Result<&str, CandidateSealError>)
    ensures
        r is Ok <==> below_git(path.spec_bytes()) && path.spec_bytes().len() > 5,
        r matches Ok(relative) ==> relative.spec_bytes() == git_relative(path.spec_bytes()),
        r matches Err(error) ==> error == CandidateSealError::InvalidRecord,
{
    proof {
        prefix_lengths();
    }
    match strip_text_prefix(path, GIT_PREFIX) {
        Some(relative) => {
            if relative.as_bytes().len() == 0 {
                return Err(CandidateSealError::InvalidRecord);
            }
            Ok(relative)
        },
        None => Err(CandidateSealError::InvalidRecord),
    }
}

/// Require the path and kind of a control record to fit its role.
pub fn require_control_role(path: &str, kind: AuditedPhysicalKind, role: GitControlRole) -> (r: Result<
    (),
    CandidateSealError,
>)
    ensures
        r == if control_role_fits(role, path@, kind is Directory) {
            Ok::<(), CandidateSealError>(())
        } else {
            Err(CandidateSealError::InvalidRecord)
        },
{
    let directory = match kind {
        AuditedPhysicalKind::Directory(_) => true,
        AuditedPhysicalKind::File { .. } => false,
    };
    let valid = match role {
        GitControlRole::Head => text_equal(path, "HEAD") && !directory,
        GitControlRole::Config => text_equal(path, "config") && !directory,
        GitControlRole::Index => text_equal(path, "index") && !directory,
        GitControlRole::MainRef => text_equal(path, "refs/heads/main") && !directory,
        GitControlRole::StructuralDirectory => directory && (text_equal(path, "objects") || text_equal(
            path,
            "objects/info",
        ) || text_equal(path, "objects/pack") || text_equal(path, "refs") || text_equal(path, "refs/heads")
            || text_equal(path, "refs/tags")),
        GitControlRole::EmptyHooks => text_equal(path, "inex-empty-hooks") && directory,
        GitControlRole::LooseObject => validate_loose_object_path(path, directory),
    };
    if valid {
        Ok(())
    } else {
        Err(CandidateSealError::InvalidRecord)
    }
}

/// A path of the length of a fanout directory.
pub open spec fn fanout_shaped(relative: Seq<u8>) -> bool {
    has_prefix(relative, encode_utf8(OBJECTS_PREFIX@)) && relative.len() == 10 && relative[8] != SLASH && relative[9]
        != SLASH
}

/// The first byte of the ids in a fanout directory.
pub open spec fn fanout_byte(relative: Seq<u8>) -> u8 {
    (16 * digit_value(relative[8]) + digit_value(relative[9])) as u8
}

/// The path of a fanout directory, from the control directory.
pub open spec fn fanout_path(byte: u8) -> Seq<u8> {
    encode_utf8(OBJECTS_PREFIX@) + hex_text(seq![byte])
}

/// Read the byte of a fanout directory; a path of another shape is not one.
pub fn loose_fanout(relative: &str, kind: AuditedPhysicalKind) -> (r: Result<Option<u8>, CandidateSealError>)
    ensures
        r == if !fanout_shaped(relative.spec_bytes()) {
            Ok::<Option<u8>, CandidateSealError>(None)
        } else if kind is Directory && lower_hex_byte(relative.spec_bytes()[8]) && lower_hex_byte(relative.spec_bytes()[9]) {
            Ok(Some(fanout_byte(relative.spec_bytes())))
        } else {
            Err(CandidateSealError::InvalidRecord)
        },
{
    proof {
        prefix_lengths();
    }
    let bytes = relative.as_bytes();
    match strip_text_prefix(relative, OBJECTS_PREFIX) {
        None => Ok(None),
        Some(hex) => {
            let digits = hex.as_bytes();
            if digits.len() != 2 || digits[0] == SLASH || digits[1] == SLASH {
                return Ok(None);
            }
            assert(digits@ =~= bytes@.subrange(8, 10));
            require_directory(kind)?;
            let high = hex_nibble(digits[0])?;
            let low = hex_nibble(digits[1])?;
            Ok(Some(16 * high + low))
        },
    }
}

/// The digits in the path of a loose object.
pub open spec fn loose_digits(relative: Seq<u8>) -> Seq<u8> {
    relative.subrange(8, 10) + relative.subrange(11, 49)
}

/// The path of a loose object that exists: forty digits, cut behind the second, that do not
/// spell the zero id.
pub open spec fn loose_file_path(relative: Seq<u8>) -> bool {
    loose_object_path(relative, false) && !zero_oid(hex_bytes(loose_digits(relative)))
}

/// The path of a loose object, from the control directory.
pub open spec fn loose_path(oid: Seq<u8>) -> Seq<u8> {
    encode_utf8(OBJECTS_PREFIX@) + hex_text(oid).subrange(0, 2) + seq![SLASH] + hex_text(oid).subrange(
        2,
        2 * oid.len() as int,
    )
}

/// The path of a loose object spells its id and nothing else.
pub proof fn loose_path_round_trip(oid: Seq<u8>)
    requires
        oid.len() == 20,
    ensures
        loose_object_path(loose_path(oid), false),
        hex_bytes(loose_digits(loose_path(oid))) == oid,
{
    prefix_lengths();
    hex_round_trip(oid);
    let path = loose_path(oid);
    let text = hex_text(oid);
    assert(path.subrange(0, 8) =~= encode_utf8(OBJECTS_PREFIX@));
    assert(path.subrange(8, 10) =~= text.subrange(0, 2));
    assert(path.subrange(11, 49) =~= text.subrange(2, 40));
    assert(loose_digits(path) =~= text);
}

/// A path of a loose object is the path of the id that it spells.
pub proof fn loose_path_is_exact(relative: Seq<u8>)
    requires
        loose_object_path(relative, false),
    ensures
        relative == loose_path(hex_bytes(loose_digits(relative))),
        all_lower_hex(loose_digits(relative)),
{
    prefix_lengths();
    let digits = loose_digits(relative);
    assert forall|i: int| 0 <= i < digits.len() implies lower_hex_byte(#[trigger] digits[i]) by {
        if i < 2 {
            assert(digits[i] == relative.subrange(8, 10)[i]);
        } else {
            assert(digits[i] == relative.subrange(11, 49)[i - 2]);
        }
    }
    hex_text_round_trip(digits);
    assert(digits.subrange(0, 2) =~= relative.subrange(8, 10));
    assert(digits.subrange(2, 40) =~= relative.subrange(11, 49));
    cut_loose_path(relative);
}

/// A path of the length of a loose one is its four parts.
proof fn cut_loose_path(relative: Seq<u8>)
    requires
        relative.len() == 49,
    ensures
        relative == relative.subrange(0, 8) + relative.subrange(8, 10) + seq![relative[10]] + relative.subrange(11, 49),
{
    assert(relative =~= relative.subrange(0, 8) + relative.subrange(8, 10) + seq![relative[10]] + relative.subrange(11, 49));
}

/// A fanout path is the path of its byte.
pub proof fn fanout_path_is_exact(relative: Seq<u8>)
    requires
        fanout_shaped(relative),
        lower_hex_byte(relative[8]),
        lower_hex_byte(relative[9]),
    ensures
        relative == fanout_path(fanout_byte(relative)),
{
    prefix_lengths();
    let digits = relative.subrange(8, 10);
    hex_text_round_trip(digits);
    assert(hex_bytes(digits) =~= seq![fanout_byte(relative)]);
    let rebuilt = fanout_path(fanout_byte(relative));
    assert forall|i: int| 0 <= i < 10 implies relative[i] == rebuilt[i] by {
        if i < 8 {
            assert(relative[i] == relative.subrange(0, 8)[i]);
        } else {
            assert(relative[i] == digits[i - 8]);
        }
    }
    assert(relative =~= rebuilt);
}

/// Read the id of a loose object from its record.
pub fn loose_object_oid(record: PhysicalRecordRef<'_>) -> (r: Result<[u8; 20], CandidateSealError>)
    ensures
        r is Ok <==> record.kind is File && below_git(record.path.spec_bytes()) && loose_file_path(
            git_relative(record.path.spec_bytes()),
        ),
        r matches Ok(oid) ==> git_relative(record.path.spec_bytes()) == loose_path(oid@) && !zero_oid(oid@),
        r matches Err(error) ==> error == CandidateSealError::InvalidRecord,
{
    proof {
        prefix_lengths();
    }
    require_file(record.kind)?;
    let relative = git_relative_path(record.path)?;
    relative_object_oid(relative, record.kind)
}

/// Read the id of a loose object from the path behind `.git/`.
fn relative_object_oid(relative: &str, kind: AuditedPhysicalKind) -> (r: Result<[u8; 20], CandidateSealError>)
    ensures
        r is Ok <==> kind is File && loose_file_path(relative.spec_bytes()),
        r matches Ok(oid) ==> relative.spec_bytes() == loose_path(oid@) && !zero_oid(oid@),
        r matches Err(error) ==> error == CandidateSealError::InvalidRecord,
{
    require_file(kind)?;
    if !validate_loose_object_path(relative, false) {
        return Err(CandidateSealError::InvalidRecord);
    }
    let bytes = relative.as_bytes();
    let mut full: [u8; 40] = [0; 40];
    let mut i: usize = 0;
    while i < 40
        invariant
            i <= 40,
            bytes@ == relative.spec_bytes(),
            bytes@.len() == 49,
            forall|k: int| 0 <= k < i ==> #[trigger] full@[k] == loose_digits(bytes@)[k],
        decreases 40 - i,
    {
        full[i] = if i < 2 {
            bytes[8 + i]
        } else {
            bytes[9 + i]
        };
        i = i + 1;
    }
    assert(full@ =~= loose_digits(bytes@));
    proof {
        loose_path_is_exact(bytes@);
    }
    decode_lower_hex_oid(full.as_slice())
}

/// What a record below `.git` is for.
#[derive(Clone, Copy)]
pub enum ControlSlot {
    Head,
    Config,
    Index,
    MainRef,
    /// One of the structural directories, by its number.
    Scaffold(u8),
    Hooks,
    /// The directory of the objects whose ids begin with a byte.
    Fanout(u8),
    Loose(ObjectRecord),
}

/// The path of a structural directory.
pub open spec fn structural_path(number: int) -> Seq<char> {
    if number == 0 {
        "objects"@
    } else if number == 1 {
        "objects/info"@
    } else if number == 2 {
        "objects/pack"@
    } else if number == 3 {
        "refs"@
    } else if number == 4 {
        "refs/heads"@
    } else {
        "refs/tags"@
    }
}

impl ControlSlot {
    /// The one path of the slot, from the control directory.
    pub open spec fn path(self) -> Seq<u8> {
        match self {
            ControlSlot::Head => encode_utf8("HEAD"@),
            ControlSlot::Config => encode_utf8("config"@),
            ControlSlot::Index => encode_utf8("index"@),
            ControlSlot::MainRef => encode_utf8("refs/heads/main"@),
            ControlSlot::Scaffold(number) => encode_utf8(structural_path(number as int)),
            ControlSlot::Hooks => encode_utf8("inex-empty-hooks"@),
            ControlSlot::Fanout(byte) => fanout_path(byte),
            ControlSlot::Loose(object) => loose_path(object.oid@),
        }
    }

    /// The role of the slot.
    pub open spec fn role(self) -> GitControlRole {
        match self {
            ControlSlot::Head => GitControlRole::Head,
            ControlSlot::Config => GitControlRole::Config,
            ControlSlot::Index => GitControlRole::Index,
            ControlSlot::MainRef => GitControlRole::MainRef,
            ControlSlot::Scaffold(_) => GitControlRole::StructuralDirectory,
            ControlSlot::Hooks => GitControlRole::EmptyHooks,
            ControlSlot::Fanout(_) => GitControlRole::LooseObject,
            ControlSlot::Loose(_) => GitControlRole::LooseObject,
        }
    }

    /// The object in the slot, if there is one.
    pub open spec fn object(self) -> Option<ObjectRecord> {
        match self {
            ControlSlot::Loose(object) => Some(object),
            _ => None,
        }
    }
}

/// The slot of a fixed path and kind, if the path is a fixed one and the kind fits.
#[verifier::opaque]
pub open spec fn fixed_slot(relative: Seq<u8>, kind: AuditedPhysicalKind, commit: Seq<u8>) -> Option<Option<ControlSlot>> {
    if relative == encode_utf8("HEAD"@) {
        Some(
            if file_with_body(kind, encode_utf8(HEAD_BODY@)) {
                Some(ControlSlot::Head)
            } else {
                None
            },
        )
    } else if relative == encode_utf8("config"@) {
        Some(
            if kind is File {
                Some(ControlSlot::Config)
            } else {
                None
            },
        )
    } else if relative == encode_utf8("index"@) {
        Some(
            if kind is File {
                Some(ControlSlot::Index)
            } else {
                None
            },
        )
    } else if relative == encode_utf8("refs/heads/main"@) {
        Some(
            if file_with_body(kind, main_ref_text(commit)) {
                Some(ControlSlot::MainRef)
            } else {
                None
            },
        )
    } else if exists|n: u8| n < 6 && relative == #[trigger] encode_utf8(structural_path(n as int)) {
        let number = choose|n: u8| n < 6 && relative == #[trigger] encode_utf8(structural_path(n as int));
        Some(
            if kind is Directory {
                Some(ControlSlot::Scaffold(number))
            } else {
                None
            },
        )
    } else if relative == encode_utf8("inex-empty-hooks"@) {
        Some(
            if kind is Directory {
                Some(ControlSlot::Hooks)
            } else {
                None
            },
        )
    } else {
        None
    }
}

/// Object `i` has an id.
pub open spec fn object_at_is(objects: Seq<ObjectRecord>, oid: Seq<u8>, i: int) -> bool {
    0 <= i < objects.len() && objects[i].oid@ == oid
}

/// The object with an id, if one is listed.
pub open spec fn listed_object(objects: Seq<ObjectRecord>, oid: Seq<u8>) -> Option<ObjectRecord> {
    if exists|i: int| object_at_is(objects, oid, i) {
        Some(objects[choose|i: int| object_at_is(objects, oid, i)])
    } else {
        None
    }
}

/// The slot of a record below `.git`, if it has one: a fixed path, a fanout directory, or the
/// loose file of a listed object.
pub open spec fn slot_of(
    relative: Seq<u8>,
    kind: AuditedPhysicalKind,
    objects: Seq<ObjectRecord>,
    commit: Seq<u8>,
) -> Option<ControlSlot> {
    match fixed_slot(relative, kind, commit) {
        Some(slot) => slot,
        None => if fanout_shaped(relative) {
            if kind is Directory && lower_hex_byte(relative[8]) && lower_hex_byte(relative[9]) {
                Some(ControlSlot::Fanout(fanout_byte(relative)))
            } else {
                None
            }
        } else if kind is File && loose_file_path(relative) {
            match listed_object(objects, hex_bytes(loose_digits(relative))) {
                Some(object) => Some(ControlSlot::Loose(object)),
                None => None,
            }
        } else {
            None
        },
    }
}

/// A record in a fixed slot stands at the path of the slot.
pub proof fn fixed_slot_path(relative: Seq<u8>, kind: AuditedPhysicalKind, commit: Seq<u8>)
    ensures
        match fixed_slot(relative, kind, commit) {
            Some(Some(slot)) => relative == slot.path() && !(slot is Loose) && !(slot is Fanout) && (slot matches ControlSlot::Scaffold(n) ==> n
                < 6),
            _ => true,
        },
{
    reveal(fixed_slot);
}

/// A loose file in a slot stands at the path of its object.
proof fn loose_slot_path(relative: Seq<u8>, objects: Seq<ObjectRecord>)
    requires
        loose_file_path(relative),
        listed_object(objects, hex_bytes(loose_digits(relative))) is Some,
    ensures
        relative == loose_path(listed_object(objects, hex_bytes(loose_digits(relative)))->0.oid@),
        objects.contains(listed_object(objects, hex_bytes(loose_digits(relative)))->0),
{
    let oid = hex_bytes(loose_digits(relative));
    loose_path_is_exact(relative);
    let i = choose|i: int| object_at_is(objects, oid, i);
    assert(objects[i] == listed_object(objects, oid)->0);
}

/// A record that has a slot stands at the one path of the slot.
pub proof fn slot_path_is_exact(relative: Seq<u8>, kind: AuditedPhysicalKind, objects: Seq<ObjectRecord>, commit: Seq<u8>)
    requires
        slot_of(relative, kind, objects, commit) is Some,
    ensures
        relative == slot_of(relative, kind, objects, commit)->0.path(),
        match slot_of(relative, kind, objects, commit)->0 {
            ControlSlot::Scaffold(number) => number < 6,
            ControlSlot::Loose(object) => objects.contains(object),
            _ => true,
        },
{
    fixed_slot_path(relative, kind, commit);
    if fixed_slot(relative, kind, commit) is None {
        if fanout_shaped(relative) {
            fanout_path_is_exact(relative);
        } else {
            loose_slot_path(relative, objects);
        }
    }
}

/// The structural paths differ from one another, so that a structural directory has one number.
pub proof fn structural_paths_differ(m: u8, n: u8)
    requires
        m < 6,
        n < 6,
        encode_utf8(structural_path(m as int)) == encode_utf8(structural_path(n as int)),
    ensures
        m == n,
{
    encoding_is_injective(structural_path(m as int), structural_path(n as int));
    reveal_strlit("objects");
    reveal_strlit("objects/info");
    reveal_strlit("objects/pack");
    reveal_strlit("refs");
    reveal_strlit("refs/heads");
    reveal_strlit("refs/tags");
    assert("objects/info"@[8] != "objects/pack"@[8]);
    assert("objects"@.len() == 7 && "objects/info"@.len() == 12 && "objects/pack"@.len() == 12);
    assert("refs"@.len() == 4 && "refs/heads"@.len() == 10 && "refs/tags"@.len() == 9);
}

/// A structural path is no other fixed path, and has one slot: its own number, if a directory stands there.
pub proof fn structural_slot(n: u8, kind: AuditedPhysicalKind, commit: Seq<u8>)
    requires
        n < 6,
    ensures
        fixed_slot(encode_utf8(structural_path(n as int)), kind, commit) == Some(
            if kind is Directory {
                Some(ControlSlot::Scaffold(n))
            } else {
                None
            },
        ),
{
    reveal(fixed_slot);
    let relative = encode_utf8(structural_path(n as int));
    encoding_is_injective(structural_path(n as int), "HEAD"@);
    encoding_is_injective(structural_path(n as int), "config"@);
    encoding_is_injective(structural_path(n as int), "index"@);
    encoding_is_injective(structural_path(n as int), "refs/heads/main"@);
    reveal_strlit("HEAD");
    reveal_strlit("config");
    reveal_strlit("index");
    reveal_strlit("refs/heads/main");
    reveal_strlit("objects");
    reveal_strlit("objects/info");
    reveal_strlit("objects/pack");
    reveal_strlit("refs");
    reveal_strlit("refs/heads");
    reveal_strlit("refs/tags");
    assert("HEAD"@[0] == 'H' && "refs"@[0] == 'r');
    assert("HEAD"@.len() == 4 && "config"@.len() == 6 && "index"@.len() == 5 && "refs/heads/main"@.len() == 15);
    assert(relative == encode_utf8(structural_path(n as int)));
    let number = choose|m: u8| m < 6 && relative == #[trigger] encode_utf8(structural_path(m as int));
    structural_paths_differ(number, n);
}

/// Objects in a fixed order.
pub trait SortedObjectSet {
    /// The objects.
    spec fn object_seq(&self) -> Seq<ObjectRecord>;

    /// How many objects there are.
    fn object_count(&self) -> (count: usize)
        ensures
            count == self.object_seq().len(),
    ;

    /// One of the objects.
    fn object_at(&self, index: usize) -> (object: ObjectRecord)
        requires
            index < self.object_seq().len(),
        ensures
            object == self.object_seq()[index as int],
    ;
}

impl SortedObjectSet for Vec<ObjectRecord> {
    open spec fn object_seq(&self) -> Seq<ObjectRecord> {
        self@
    }

    fn object_count(&self) -> (count: usize) {
        self.len()
    }

    fn object_at(&self, index: usize) -> (object: ObjectRecord) {
        self[index]
    }
}

/// Ids in strictly ascending order are ids of different objects.
pub proof fn ascending_ids_differ(objects: Seq<ObjectRecord>, i: int, j: int)
    requires
        objects_ascend(objects),
        0 <= i < objects.len(),
        0 <= j < objects.len(),
        objects[i].oid@ == objects[j].oid@,
    ensures
        i == j,
{
    lex_less_irreflexive(objects[i].oid@);
    if i < j {
        objects_ascend_apart(objects, i, j);
    } else if j < i {
        objects_ascend_apart(objects, j, i);
    }
}

/// An object among ascending ones is the one that is listed under its id.
pub proof fn listed_at(objects: Seq<ObjectRecord>, i: int)
    requires
        objects_ascend(objects),
        0 <= i < objects.len(),
    ensures
        listed_object(objects, objects[i].oid@) == Some(objects[i]),
{
    let oid = objects[i].oid@;
    assert(object_at_is(objects, oid, i));
    let j = choose|j: int| object_at_is(objects, oid, j);
    ascending_ids_differ(objects, i, j);
}

/// Everything below `middle` is below an id that `middle` is below.
proof fn ids_below(objects: Seq<ObjectRecord>, middle: int, oid: Seq<u8>)
    requires
        objects_ascend(objects),
        0 <= middle < objects.len(),
        lex_less(objects[middle].oid@, oid),
    ensures
        forall|i: int| 0 <= i <= middle ==> lex_less((#[trigger] objects[i]).oid@, oid),
{
    assert forall|i: int| 0 <= i <= middle implies lex_less((#[trigger] objects[i]).oid@, oid) by {
        if i < middle {
            objects_ascend_apart(objects, i, middle);
            lex_less_transitive(objects[i].oid@, objects[middle].oid@, oid);
        }
    }
}

/// Everything above `middle` is above an id that `middle` is above.
proof fn ids_above(objects: Seq<ObjectRecord>, middle: int, oid: Seq<u8>)
    requires
        objects_ascend(objects),
        0 <= middle < objects.len(),
        lex_less(oid, objects[middle].oid@),
    ensures
        forall|i: int| middle <= i < objects.len() ==> lex_less(oid, (#[trigger] objects[i]).oid@),
{
    assert forall|i: int| middle <= i < objects.len() implies lex_less(oid, (#[trigger] objects[i]).oid@) by {
        if middle < i {
            objects_ascend_apart(objects, middle, i);
            lex_less_transitive(oid, objects[middle].oid@, objects[i].oid@);
        }
    }
}

/// The place of an id among ascending objects.
pub fn find_object_place<S: SortedObjectSet>(objects: &S, oid: &[u8; 20]) -> (found: Option<usize>)
    requires
        objects_ascend(objects.object_seq()),
    ensures
        found matches Some(i) ==> object_at_is(objects.object_seq(), oid@, i as int),
        found is None ==> forall|i: int| !object_at_is(objects.object_seq(), oid@, i),
{
    let ghost all = objects.object_seq();
    let mut low: usize = 0;
    let mut high: usize = objects.object_count();
    while low < high
        invariant
            all == objects.object_seq(),
            low <= high <= all.len(),
            objects_ascend(all),
            forall|i: int| 0 <= i < low ==> lex_less((#[trigger] all[i]).oid@, oid@),
            forall|i: int| high <= i < all.len() ==> lex_less(oid@, (#[trigger] all[i]).oid@),
        decreases high - low,
    {
        let middle: usize = low + (high - low) / 2;
        let record = objects.object_at(middle);
        if bytes_equal(record.oid.as_slice(), oid.as_slice()) {
            return Some(middle);
        }
        if bytes_less(record.oid.as_slice(), oid.as_slice()) {
            proof {
                ids_below(all, middle as int, oid@);
            }
            low = middle + 1;
        } else {
            proof {
                lex_less_trichotomy(record.oid@, oid@);
                ids_above(all, middle as int, oid@);
            }
            high = middle;
        }
    }
    assert forall|i: int| !object_at_is(all, oid@, i) by {
        lex_less_irreflexive(oid@);
        if 0 <= i < low {
            assert(lex_less(all[i].oid@, oid@));
        } else if low <= i < all.len() {
            assert(lex_less(oid@, all[i].oid@));
        }
    }
    None
}

/// Find an object by its id among ascending objects.
pub fn find_object<S: SortedObjectSet>(objects: &S, oid: &[u8; 20]) -> (found: Option<ObjectRecord>)
    requires
        objects_ascend(objects.object_seq()),
    ensures
        found == listed_object(objects.object_seq(), oid@),
{
    match find_object_place(objects, oid) {
        Some(place) => {
            proof {
                listed_at(objects.object_seq(), place as int);
            }
            Some(objects.object_at(place))
        },
        None => None,
    }
}

/// The number of a structural directory, if the path is one.
fn structural_number(relative: &str) -> (r: Option<u8>)
    ensures
        r matches Some(n) ==> n < 6 && relative@ == structural_path(n as int),
        r is None ==> forall|n: u8| n < 6 ==> relative@ != #[trigger] structural_path(n as int),
{
    if text_equal(relative, "objects") {
        Some(0)
    } else if text_equal(relative, "objects/info") {
        Some(1)
    } else if text_equal(relative, "objects/pack") {
        Some(2)
    } else if text_equal(relative, "refs") {
        Some(3)
    } else if text_equal(relative, "refs/heads") {
        Some(4)
    } else if text_equal(relative, "refs/tags") {
        Some(5)
    } else {
        None
    }
}

/// The slot at a fixed path, or nothing if the path is not a fixed one.
fn classify_fixed(relative: &str, kind: AuditedPhysicalKind, commit_oid: [u8; 20]) -> (r: Option<
    Result<ControlSlot, CandidateSealError>,
>)
    ensures
        match fixed_slot(relative.spec_bytes(), kind, commit_oid@) {
            None => r is None,
            Some(None) => r == Some(Err::<ControlSlot, CandidateSealError>(CandidateSealError::InvalidRecord)),
            Some(Some(slot)) => r == Some(Ok::<ControlSlot, CandidateSealError>(slot)),
        },
{
    proof {
        reveal(fixed_slot);
        encoding_is_injective(relative@, "HEAD"@);
        encoding_is_injective(relative@, "config"@);
        encoding_is_injective(relative@, "index"@);
        encoding_is_injective(relative@, "refs/heads/main"@);
        encoding_is_injective(relative@, "inex-empty-hooks"@);
    }
    if text_equal(relative, "HEAD") {
        return match require_file_body(kind, HEAD_BODY.as_bytes()) {
            Ok(()) => Some(Ok(ControlSlot::Head)),
            Err(error) => Some(Err(error)),
        };
    }
    if text_equal(relative, "config") {
        return match require_file(kind) {
            Ok(()) => Some(Ok(ControlSlot::Config)),
            Err(error) => Some(Err(error)),
        };
    }
    if text_equal(relative, "index") {
        return match require_file(kind) {
            Ok(()) => Some(Ok(ControlSlot::Index)),
            Err(error) => Some(Err(error)),
        };
    }
    if text_equal(relative, "refs/heads/main") {
        let body = main_ref_body(commit_oid);
        return match require_file_body(kind, body.as_slice()) {
            Ok(()) => Some(Ok(ControlSlot::MainRef)),
            Err(error) => Some(Err(error)),
        };
    }
    match structural_number(relative) {
        Some(number) => {
            proof {
                assert(relative.spec_bytes() == encode_utf8(structural_path(number as int)));
                let n = choose|n: u8| n < 6 && relative.spec_bytes() == #[trigger] encode_utf8(structural_path(n as int));
                structural_paths_differ(n, number);
            }
            return match require_directory(kind) {
                Ok(()) => Some(Ok(ControlSlot::Scaffold(number))),
                Err(error) => Some(Err(error)),
            };
        },
        None => {
            assert forall|n: u8| n < 6 implies relative.spec_bytes() != #[trigger] encode_utf8(structural_path(n as int)) by {
                encoding_is_injective(relative@, structural_path(n as int));
            }
        },
    }
    if text_equal(relative, "inex-empty-hooks") {
        return match require_directory(kind) {
            Ok(()) => Some(Ok(ControlSlot::Hooks)),
            Err(error) => Some(Err(error)),
        };
    }
    None
}

/// The slot of a record below `.git`.
pub fn classify_control<S: SortedObjectSet>(
    relative: &str,
    kind: AuditedPhysicalKind,
    objects: &S,
    commit_oid: [u8; 20],
) -> (r: Result<ControlSlot, CandidateSealError>)
    requires
        objects_ascend(objects.object_seq()),
    ensures
        match slot_of(relative.spec_bytes(), kind, objects.object_seq(), commit_oid@) {
            Some(slot) => r == Ok::<ControlSlot, CandidateSealError>(slot),
            None => r == Err::<ControlSlot, CandidateSealError>(CandidateSealError::InvalidRecord),
        },
{
    if let Some(fixed) = classify_fixed(relative, kind, commit_oid) {
        return fixed;
    }
    match loose_fanout(relative, kind)? {
        Some(byte) => Ok(ControlSlot::Fanout(byte)),
        None => {
            let oid = relative_object_oid(relative, kind)?;
            proof {
                loose_path_round_trip(oid@);
            }
            match find_object(objects, &oid) {
                Some(object) => Ok(ControlSlot::Loose(object)),
                None => Err(CandidateSealError::InvalidRecord),
            }
        },
    }
}

/// The order of the paths of loose objects is the order of their ids.
pub proof fn loose_paths_order_ids(a: Seq<u8>, b: Seq<u8>)
    requires
        a.len() == 20,
        b.len() == 20,
        lex_less(encode_utf8(GIT_PREFIX@) + loose_path(a), encode_utf8(GIT_PREFIX@) + loose_path(b)),
    ensures
        lex_less(a, b),
{
    prefix_lengths();
    let pa = encode_utf8(GIT_PREFIX@) + loose_path(a);
    let pb = encode_utf8(GIT_PREFIX@) + loose_path(b);
    let k = choose|k: int| parts_below(pa, pb, k);
    assert(pa.len() == 54 && pb.len() == 54);
    assert(k < 54);
    let t = if k < 15 {
        k - 13
    } else {
        k - 14
    };
    assert(forall|i: int| 0 <= i < 2 ==> pa[13 + i] == hex_text(a)[i] && pb[13 + i] == hex_text(b)[i]);
    assert(forall|i: int| 2 <= i < 40 ==> pa[14 + i] == hex_text(a)[i] && pb[14 + i] == hex_text(b)[i]);
    assert(k >= 13 && k != 15);
    assert forall|i: int| 0 <= i < t implies #[trigger] hex_text(a)[i] == hex_text(b)[i] by {
        if i < 2 {
            assert(pa[13 + i] == pb[13 + i]);
        } else {
            assert(pa[14 + i] == pb[14 + i]);
        }
    }
    assert(hex_text(a)[t] < hex_text(b)[t]);
    hex_order(a, b, t);
}

/// Where the texts of two ids part, the ids part the same way.
proof fn hex_order(a: Seq<u8>, b: Seq<u8>, t: int)
    requires
        a.len() == b.len(),
        0 <= t < 2 * a.len(),
        forall|i: int| 0 <= i < t ==> #[trigger] hex_text(a)[i] == hex_text(b)[i],
        hex_text(a)[t] < hex_text(b)[t],
    ensures
        lex_less(a, b),
{
    let j = t / 2;
    assert forall|i: int| 0 <= i < j implies a[i] == b[i] by {
        assert((2 * i) / 2 == i && (2 * i) % 2 == 0);
        assert((2 * i + 1) / 2 == i && (2 * i + 1) % 2 == 1);
        assert(hex_text(a)[2 * i] == hex_text(b)[2 * i]);
        assert(hex_text(a)[2 * i + 1] == hex_text(b)[2 * i + 1]);
        assert(a[i] / 16 == b[i] / 16 && a[i] % 16 == b[i] % 16);
    }
    if t % 2 == 0 {
        assert(a[j] / 16 < b[j] / 16);
    } else {
        assert((2 * j) / 2 == j && (2 * j) % 2 == 0);
        assert(hex_text(a)[2 * j] == hex_text(b)[2 * j]);
        assert(a[j] / 16 == b[j] / 16);
        assert(a[j] % 16 < b[j] % 16);
    }
    assert(a[j] < b[j]);
    assert(parts_below(a, b, j));
}

/// Every object of `a` is listed in `b`.
pub open spec fn all_listed(a: Seq<ObjectRecord>, b: Seq<ObjectRecord>) -> bool {
    forall|i: int| 0 <= i < a.len() ==> b.contains(#[trigger] a[i])
}

/// The place of an ascending object among the listed ones is at least its own.
pub proof fn places_grow(a: Seq<ObjectRecord>, b: Seq<ObjectRecord>, i: int)
    requires
        objects_ascend(a),
        objects_ascend(b),
        all_listed(a, b),
        0 <= i < a.len(),
    ensures
        forall|j: int| 0 <= j < b.len() && #[trigger] b[j] == a[i] ==> j >= i,
    decreases i,
{
    if i > 0 {
        places_grow(a, b, i - 1);
        assert(b.contains(a[i - 1]));
        let before = choose|j: int| 0 <= j < b.len() && #[trigger] b[j] == a[i - 1];
        assert(ascends_at(a, i));
        assert forall|j: int| 0 <= j < b.len() && #[trigger] b[j] == a[i] implies j >= i by {
            lex_less_trichotomy(a[i - 1].oid@, a[i].oid@);
            lex_less_irreflexive(a[i].oid@);
            if j < before {
                objects_ascend_apart(b, j, before);
            }
        }
    }
}

proof fn places_stay(a: Seq<ObjectRecord>, b: Seq<ObjectRecord>, i: int)
    requires
        objects_ascend(a),
        objects_ascend(b),
        all_listed(a, b),
        a.len() == b.len(),
        0 <= i < a.len(),
    ensures
        forall|j: int| 0 <= j < b.len() && #[trigger] b[j] == a[i] ==> j <= i,
    decreases a.len() - i,
{
    if i + 1 < a.len() {
        places_stay(a, b, i + 1);
        assert(b.contains(a[i + 1]));
        let after = choose|j: int| 0 <= j < b.len() && #[trigger] b[j] == a[i + 1];
        assert(ascends_at(a, i + 1));
        assert forall|j: int| 0 <= j < b.len() && #[trigger] b[j] == a[i] implies j <= i by {
            lex_less_trichotomy(a[i].oid@, a[i + 1].oid@);
            lex_less_irreflexive(a[i].oid@);
            if after < j {
                objects_ascend_apart(b, after, j);
            }
        }
    }
}

/// As many ascending objects as are listed, all of them listed, are the listed ones.
pub proof fn ascending_members_are_all(a: Seq<ObjectRecord>, b: Seq<ObjectRecord>)
    requires
        objects_ascend(a),
        objects_ascend(b),
        all_listed(a, b),
        a.len() == b.len(),
    ensures
        a == b,
{
    assert forall|i: int| 0 <= i < a.len() implies a[i] == b[i] by {
        assert(b.contains(a[i]));
        let j = choose|j: int| 0 <= j < b.len() && #[trigger] b[j] == a[i];
        places_grow(a, b, i);
        places_stay(a, b, i);
    }
    assert(a =~= b);
}

} // verus!
