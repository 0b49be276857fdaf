//! The scan that holds a manifest to the exact graph of control files.

use crate::bytes::{bytes_less, lex_less, lex_less_irreflexive};
use crate::errors::CandidateSealError;
use crate::git_control::{
    all_listed, ascending_members_are_all, below_git, classify_control, git_relative, loose_paths_order_ids,
    prefix_lengths, set_once, slot_of, slot_path_is_exact, ControlSlot, SortedObjectSet, GIT_PREFIX, GIT_ROOT,
};
use crate::git_object::{object_record_error, validate_object_record, MAX_RAW_OBJECT_BYTES};
use crate::manifest::{
    paths_ascend, AuditedPhysicalKind, AuditedPhysicalRecord, MarkerFreePhysicalManifest, PhysicalRecordId,
};
use crate::seal::{ascends_at, objects_ascend};
use crate::seal_records::{GitControlRole, ObjectRecord, MAX_GIT_CONTROL_RECORDS, MAX_OBJECT_RECORDS};
use crate::text::strip_text_prefix;
use vstd::prelude::*;
use vstd::string::*;
use vstd::utf8::encode_utf8;

verus! {

proof fn or_test(mask: u8, bit: u8, probe: u8)
    by (bit_vector)
    ensures
        ((mask | bit) & probe != 0) == (mask & probe != 0 || bit & probe != 0),
        (mask & probe == 0 && bit & probe == 0) ==> (mask | bit) & probe == 0,
        0u8 & probe == 0,
{
}

proof fn single_bits()
    by (bit_vector)
    ensures
        1u8 & 1u8 != 0,
        1u8 & 2u8 == 0,
        1u8 & 4u8 == 0,
        1u8 & 8u8 == 0,
        1u8 & 16u8 == 0,
        1u8 & 32u8 == 0,
        2u8 & 1u8 == 0,
        2u8 & 2u8 != 0,
        2u8 & 4u8 == 0,
        2u8 & 8u8 == 0,
        2u8 & 16u8 == 0,
        2u8 & 32u8 == 0,
        4u8 & 1u8 == 0,
        4u8 & 2u8 == 0,
        4u8 & 4u8 != 0,
        4u8 & 8u8 == 0,
        4u8 & 16u8 == 0,
        4u8 & 32u8 == 0,
        8u8 & 1u8 == 0,
        8u8 & 2u8 == 0,
        8u8 & 4u8 == 0,
        8u8 & 8u8 != 0,
        8u8 & 16u8 == 0,
        8u8 & 32u8 == 0,
        16u8 & 1u8 == 0,
        16u8 & 2u8 == 0,
        16u8 & 4u8 == 0,
        16u8 & 8u8 == 0,
        16u8 & 16u8 != 0,
        16u8 & 32u8 == 0,
        32u8 & 1u8 == 0,
        32u8 & 2u8 == 0,
        32u8 & 4u8 == 0,
        32u8 & 8u8 == 0,
        32u8 & 16u8 == 0,
        32u8 & 32u8 != 0,
        1u8 & 0xf0u8 == 0,
        2u8 & 0xf0u8 == 0,
        4u8 & 0xf0u8 == 0,
        8u8 & 0xf0u8 == 0,
        1u8 & 0xc0u8 == 0,
        2u8 & 0xc0u8 == 0,
        4u8 & 0xc0u8 == 0,
        8u8 & 0xc0u8 == 0,
        16u8 & 0xc0u8 == 0,
        32u8 & 0xc0u8 == 0,
{
}

proof fn four_bits(mask: u8)
    by (bit_vector)
    requires
        mask & 0xf0 == 0,
    ensures
        (mask == 0xf) == (mask & 1 != 0 && mask & 2 != 0 && mask & 4 != 0 && mask & 8 != 0),
{
}

proof fn six_bits(mask: u8)
    by (bit_vector)
    requires
        mask & 0xc0 == 0,
    ensures
        (mask == 0x3f) == (mask & 1 != 0 && mask & 2 != 0 && mask & 4 != 0 && mask & 8 != 0 && mask & 16 != 0 && mask & 32
            != 0),
{
}

/// The bit of a structural directory.
pub open spec fn scaffold_bit(number: u8) -> u8 {
    if number == 0 {
        1
    } else if number == 1 {
        2
    } else if number == 2 {
        4
    } else if number == 3 {
        8
    } else if number == 4 {
        16
    } else {
        32
    }
}

fn bit_of_scaffold(number: u8) -> (bit: u8)
    ensures
        bit == scaffold_bit(number),
{
    if number == 0 {
        1
    } else if number == 1 {
        2
    } else if number == 2 {
        4
    } else if number == 3 {
        8
    } else if number == 4 {
        16
    } else {
        32
    }
}

/// A slot that is no loose object; the structural directories are numbered from zero to five.
pub open spec fn unique_slot(slot: ControlSlot) -> bool {
    match slot {
        ControlSlot::Scaffold(number) => number < 6,
        ControlSlot::Loose(_) => false,
        _ => true,
    }
}

/// What a scan has met so far.
pub struct ControlTally {
    pub fixed_files: u8,
    pub structural_directories: u8,
    pub hooks: bool,
    pub fanout: Vec<bool>,
    pub loose_objects: usize,
}

impl ControlTally {
    /// Only the bits in use are set.
    pub open spec fn wf(self) -> bool {
        &&& self.fixed_files & 0xf0 == 0
        &&& self.structural_directories & 0xc0 == 0
        &&& self.fanout@.len() == 256
    }

    /// The slot has been met.
    pub open spec fn has(self, slot: ControlSlot) -> bool {
        match slot {
            ControlSlot::Head => self.fixed_files & 1 != 0,
            ControlSlot::Config => self.fixed_files & 2 != 0,
            ControlSlot::Index => self.fixed_files & 4 != 0,
            ControlSlot::MainRef => self.fixed_files & 8 != 0,
            ControlSlot::Scaffold(number) => self.structural_directories & scaffold_bit(number) != 0,
            ControlSlot::Hooks => self.hooks,
            ControlSlot::Fanout(byte) => self.fanout@[byte as int],
            ControlSlot::Loose(_) => false,
        }
    }

    /// Nothing met yet.
    pub fn new() -> (tally: ControlTally)
        ensures
            tally.wf(),
            forall|slot: ControlSlot| !(#[trigger] tally.has(slot)),
            tally.loose_objects == 0,
    {
        let fanout = no_fanout();
        let tally = ControlTally { fixed_files: 0, structural_directories: 0, hooks: false, fanout, loose_objects: 0 };
        proof {
            or_test(0, 0, 0xf0);
            or_test(0, 0, 0xc0);
            assert forall|slot: ControlSlot| !(#[trigger] tally.has(slot)) by {
                or_test(0, 0, 1);
                or_test(0, 0, 2);
                or_test(0, 0, 4);
                or_test(0, 0, 8);
                if let ControlSlot::Scaffold(number) = slot {
                    or_test(0, 0, scaffold_bit(number));
                }
            }
        }
        tally
    }

    /// Meet a slot; every slot but those of loose objects is met once.
    pub fn mark(&mut self, slot: ControlSlot) -> (r: Result<(), CandidateSealError>)
        requires
            old(self).wf(),
            unique_slot(slot) || slot is Loose,
            old(self).loose_objects < usize::MAX,
        ensures
            r is Ok <==> !old(self).has(slot),
            r matches Err(error) ==> error == CandidateSealError::InvalidRecord && *final(self) == *old(self),
            r is Ok ==> final(self).wf(),
            r is Ok ==> forall|other: ControlSlot|
                unique_slot(other) ==> #[trigger] final(self).has(other) == (old(self).has(other) || other == slot),
            r is Ok ==> final(self).loose_objects == old(self).loose_objects + if slot is Loose {
                1int
            } else {
                0int
            },
    {
        proof {
            single_bits();
        }
        match slot {
            ControlSlot::Head => self.mark_file(1),
            ControlSlot::Config => self.mark_file(2),
            ControlSlot::Index => self.mark_file(4),
            ControlSlot::MainRef => self.mark_file(8),
            ControlSlot::Scaffold(number) => {
                let bit = bit_of_scaffold(number);
                let ghost mask = self.structural_directories;
                set_once(&mut self.structural_directories, bit)?;
                proof {
                    or_test(mask, bit, 0xc0);
                    assert forall|n: u8| n < 6 implies (self.structural_directories & #[trigger] scaffold_bit(n) != 0) == (mask
                        & scaffold_bit(n) != 0 || n == number) by {
                        or_test(mask, bit, scaffold_bit(n));
                    }
                }
                Ok(())
            },
            ControlSlot::Hooks => {
                if self.hooks {
                    return Err(CandidateSealError::InvalidRecord);
                }
                self.hooks = true;
                Ok(())
            },
            ControlSlot::Fanout(byte) => {
                if self.fanout[byte as usize] {
                    return Err(CandidateSealError::InvalidRecord);
                }
                self.fanout.set(byte as usize, true);
                Ok(())
            },
            ControlSlot::Loose(_) => {
                self.loose_objects = self.loose_objects + 1;
                Ok(())
            },
        }
    }

    fn mark_file(&mut self, bit: u8) -> (r: Result<(), CandidateSealError>)
        requires
            old(self).wf(),
            bit == 1 || bit == 2 || bit == 4 || bit == 8,
        ensures
            r is Ok <==> old(self).fixed_files & bit == 0,
            r matches Err(error) ==> error == CandidateSealError::InvalidRecord && *final(self) == *old(self),
            r is Ok ==> final(self).wf(),
            r is Ok ==> (final(self).fixed_files & 1 != 0) == (old(self).fixed_files & 1 != 0 || bit == 1),
            r is Ok ==> (final(self).fixed_files & 2 != 0) == (old(self).fixed_files & 2 != 0 || bit == 2),
            r is Ok ==> (final(self).fixed_files & 4 != 0) == (old(self).fixed_files & 4 != 0 || bit == 4),
            r is Ok ==> (final(self).fixed_files & 8 != 0) == (old(self).fixed_files & 8 != 0 || bit == 8),
            final(self).structural_directories == old(self).structural_directories,
            final(self).hooks == old(self).hooks,
            final(self).fanout == old(self).fanout,
            final(self).loose_objects == old(self).loose_objects,
    {
        let ghost mask = self.fixed_files;
        set_once(&mut self.fixed_files, bit)?;
        proof {
            single_bits();
            or_test(mask, bit, 1);
            or_test(mask, bit, 2);
            or_test(mask, bit, 4);
            or_test(mask, bit, 8);
            or_test(mask, bit, 0xf0);
        }
        Ok(())
    }

    /// Every fixed file and directory has been met.
    pub open spec fn has_skeleton(self) -> bool {
        &&& self.has(ControlSlot::Head)
        &&& self.has(ControlSlot::Config)
        &&& self.has(ControlSlot::Index)
        &&& self.has(ControlSlot::MainRef)
        &&& self.has(ControlSlot::Scaffold(0))
        &&& self.has(ControlSlot::Scaffold(1))
        &&& self.has(ControlSlot::Scaffold(2))
        &&& self.has(ControlSlot::Scaffold(3))
        &&& self.has(ControlSlot::Scaffold(4))
        &&& self.has(ControlSlot::Scaffold(5))
        &&& self.has(ControlSlot::Hooks)
    }

    fn skeleton_is_met(&self) -> (r: bool)
        requires
            self.wf(),
        ensures
            r == self.has_skeleton(),
    {
        proof {
            four_bits(self.fixed_files);
            six_bits(self.structural_directories);
        }
        self.fixed_files == 0xf && self.structural_directories == 0x3f && self.hooks
    }
}

/// No fanout directory at all.
fn no_fanout() -> (fanout: Vec<bool>)
    ensures
        fanout@.len() == 256,
        forall|i: int| 0 <= i < 256 ==> !(#[trigger] fanout@[i]),
{
    let mut fanout: Vec<bool> = Vec::new();
    while fanout.len() < 256
        invariant
            fanout@.len() <= 256,
            forall|i: int| 0 <= i < fanout@.len() ==> !(#[trigger] fanout@[i]),
        decreases 256 - fanout@.len(),
    {
        fanout.push(false);
    }
    fanout
}

/// One record below `.git` with its role and its object.
#[derive(Clone, Copy)]
pub struct ControlEntry {
    pub physical: PhysicalRecordId,
    pub role: GitControlRole,
    pub object: Option<ObjectRecord>,
}

/// What is asked of every entry on the way.
pub trait ControlVisitor {
    /// The visitor may be asked.
    spec fn ready(&self) -> bool;

    /// An entry is admitted behind `count` others.
    spec fn admits(&self, count: nat, entry: ControlEntry) -> bool;

    /// Whether an entry is admitted behind `count` others.
    fn visit(&self, count: usize, entry: ControlEntry) -> (admitted: bool)
        requires
            self.ready(),
        ensures
            admitted == self.admits(count as nat, entry),
    ;
}

/// The visitor that admits everything.
pub struct AdmitAll;

impl ControlVisitor for AdmitAll {
    open spec fn ready(&self) -> bool {
        true
    }

    open spec fn admits(&self, count: nat, entry: ControlEntry) -> bool {
        true
    }

    fn visit(&self, count: usize, entry: ControlEntry) -> (admitted: bool) {
        true
    }
}

/// A record below `.git`.
pub open spec fn is_control(record: AuditedPhysicalRecord) -> bool {
    below_git(encode_utf8(record.path@))
}

/// The slot of a record below `.git`, if it has one.
#[verifier::opaque]
pub open spec fn record_slot(record: AuditedPhysicalRecord, objects: Seq<ObjectRecord>, commit: Seq<u8>) -> Option<ControlSlot> {
    slot_of(git_relative(encode_utf8(record.path@)), record.kind, objects, commit)
}

/// How many of the first `n` records stand below `.git`.
pub open spec fn controls_before(records: Seq<AuditedPhysicalRecord>, n: int) -> nat
    decreases n,
{
    if n <= 0 {
        0
    } else {
        controls_before(records, n - 1) + if is_control(records[n - 1]) {
            1nat
        } else {
            0nat
        }
    }
}

/// The entry of record `i` in a slot.
pub open spec fn entry_at(i: int, slot: ControlSlot) -> ControlEntry {
    ControlEntry { physical: PhysicalRecordId(i as usize), role: slot.role(), object: slot.object() }
}

/// The entries of the first `n` records.
pub open spec fn entries_before(
    records: Seq<AuditedPhysicalRecord>,
    objects: Seq<ObjectRecord>,
    commit: Seq<u8>,
    n: int,
) -> Seq<ControlEntry>
    decreases n,
{
    if n <= 0 {
        Seq::empty()
    } else if is_control(records[n - 1]) {
        entries_before(records, objects, commit, n - 1).push(
            entry_at(n - 1, record_slot(records[n - 1], objects, commit)->0),
        )
    } else {
        entries_before(records, objects, commit, n - 1)
    }
}

/// The loose objects among the first `n` records, in the order of the records.
pub open spec fn loose_before(
    records: Seq<AuditedPhysicalRecord>,
    objects: Seq<ObjectRecord>,
    commit: Seq<u8>,
    n: int,
) -> Seq<ObjectRecord>
    decreases n,
{
    if n <= 0 {
        Seq::empty()
    } else {
        let before = loose_before(records, objects, commit, n - 1);
        if is_control(records[n - 1]) {
            match record_slot(records[n - 1], objects, commit) {
                Some(ControlSlot::Loose(object)) => before.push(object),
                _ => before,
            }
        } else {
            before
        }
    }
}

/// Record `i` is the one in a slot.
pub open spec fn in_slot(
    records: Seq<AuditedPhysicalRecord>,
    objects: Seq<ObjectRecord>,
    commit: Seq<u8>,
    slot: ControlSlot,
    i: int,
) -> bool {
    is_control(records[i]) && record_slot(records[i], objects, commit) == Some(slot)
}

/// One of the first `n` records is in a slot.
pub open spec fn met(
    records: Seq<AuditedPhysicalRecord>,
    objects: Seq<ObjectRecord>,
    commit: Seq<u8>,
    slot: ControlSlot,
    n: int,
) -> bool {
    exists|i: int| 0 <= i < n && in_slot(records, objects, commit, slot, i)
}

/// Why the records from `i` on are refused, if they are.
pub open spec fn entries_error<V: ControlVisitor>(
    records: Seq<AuditedPhysicalRecord>,
    objects: Seq<ObjectRecord>,
    commit: Seq<u8>,
    visitor: V,
    i: int,
) -> Option<CandidateSealError>
    decreases records.len() - i,
{
    if i >= records.len() {
        None
    } else if !is_control(records[i]) {
        entries_error(records, objects, commit, visitor, i + 1)
    } else if controls_before(records, i) >= MAX_GIT_CONTROL_RECORDS {
        Some(CandidateSealError::ResourceLimit)
    } else {
        match record_slot(records[i], objects, commit) {
            None => Some(CandidateSealError::InvalidRecord),
            Some(slot) => if visitor.admits(controls_before(records, i), entry_at(i, slot)) {
                entries_error(records, objects, commit, visitor, i + 1)
            } else {
                Some(CandidateSealError::InvalidRecord)
            },
        }
    }
}

/// Why the objects from `i` on are refused, if they are.
pub open spec fn object_set_error(objects: Seq<ObjectRecord>, i: int) -> Option<CandidateSealError>
    decreases objects.len() - i,
{
    if i >= objects.len() {
        None
    } else if object_record_error(objects[i], MAX_RAW_OBJECT_BYTES) is Some {
        object_record_error(objects[i], MAX_RAW_OBJECT_BYTES)
    } else if i > 0 && !ascends_at(objects, i) {
        Some(CandidateSealError::NonCanonicalOrder)
    } else {
        object_set_error(objects, i + 1)
    }
}

/// Some object has an id that begins with a byte.
pub open spec fn first_byte_listed(objects: Seq<ObjectRecord>, byte: u8) -> bool {
    exists|i: int| 0 <= i < objects.len() && (#[trigger] objects[i]).oid@[0] == byte
}

/// How many of the first `n` bytes some id begins with.
pub open spec fn fanout_total(objects: Seq<ObjectRecord>, n: int) -> nat
    decreases n,
{
    if n <= 0 {
        0
    } else {
        fanout_total(objects, n - 1) + if first_byte_listed(objects, (n - 1) as u8) {
            1nat
        } else {
            0nat
        }
    }
}

/// Every fixed slot is met.
pub open spec fn skeleton_met(records: Seq<AuditedPhysicalRecord>, objects: Seq<ObjectRecord>, commit: Seq<u8>) -> bool {
    let n = records.len() as int;
    &&& met(records, objects, commit, ControlSlot::Head, n)
    &&& met(records, objects, commit, ControlSlot::Config, n)
    &&& met(records, objects, commit, ControlSlot::Index, n)
    &&& met(records, objects, commit, ControlSlot::MainRef, n)
    &&& met(records, objects, commit, ControlSlot::Scaffold(0), n)
    &&& met(records, objects, commit, ControlSlot::Scaffold(1), n)
    &&& met(records, objects, commit, ControlSlot::Scaffold(2), n)
    &&& met(records, objects, commit, ControlSlot::Scaffold(3), n)
    &&& met(records, objects, commit, ControlSlot::Scaffold(4), n)
    &&& met(records, objects, commit, ControlSlot::Scaffold(5), n)
    &&& met(records, objects, commit, ControlSlot::Hooks, n)
}

/// Nothing is missing: the fixed slots, a fanout directory for each first byte and no other,
/// and as many loose files as objects.
pub open spec fn graph_complete(records: Seq<AuditedPhysicalRecord>, objects: Seq<ObjectRecord>, commit: Seq<u8>) -> bool {
    let n = records.len() as int;
    &&& skeleton_met(records, objects, commit)
    &&& forall|byte: u8| #[trigger]
        met(records, objects, commit, ControlSlot::Fanout(byte), n) == first_byte_listed(objects, byte)
    &&& loose_before(records, objects, commit, n).len() == objects.len()
    &&& controls_before(records, n) == 11 + fanout_total(objects, 256) + objects.len()
}

/// The control directory is listed as a directory.
pub open spec fn has_git_directory(records: Seq<AuditedPhysicalRecord>) -> bool {
    exists|i: int| 0 <= i < records.len() && (#[trigger] records[i]).path@ == GIT_ROOT@ && records[i].kind is Directory
}

/// Why the control graph of a manifest is refused, if it is.
pub open spec fn scan_error<V: ControlVisitor>(
    records: Seq<AuditedPhysicalRecord>,
    objects: Seq<ObjectRecord>,
    commit: Seq<u8>,
    visitor: V,
) -> Option<CandidateSealError> {
    if objects.len() > MAX_OBJECT_RECORDS {
        Some(CandidateSealError::ResourceLimit)
    } else if !has_git_directory(records) {
        Some(CandidateSealError::InvalidRecord)
    } else if object_set_error(objects, 0) is Some {
        object_set_error(objects, 0)
    } else if entries_error(records, objects, commit, visitor, 0) is Some {
        entries_error(records, objects, commit, visitor, 0)
    } else if !graph_complete(records, objects, commit) {
        Some(CandidateSealError::InvalidRecord)
    } else {
        None
    }
}

/// Ascending paths are different paths.
proof fn same_path_same_place(records: Seq<AuditedPhysicalRecord>, i: int, j: int)
    requires
        paths_ascend(records),
        0 <= i < records.len(),
        0 <= j < records.len(),
        encode_utf8(records[i].path@) == encode_utf8(records[j].path@),
    ensures
        i == j,
{
    lex_less_irreflexive(encode_utf8(records[i].path@));
    if i < j {
        assert(lex_less(encode_utf8(records[i].path@), encode_utf8(records[j].path@)));
    } else if j < i {
        assert(lex_less(encode_utf8(records[j].path@), encode_utf8(records[i].path@)));
    }
}

/// A path below `.git` is the prefix and the rest.
proof fn path_is_prefix_and_rest(path: Seq<u8>)
    requires
        below_git(path),
    ensures
        path == encode_utf8(GIT_PREFIX@) + git_relative(path),
{
    prefix_lengths();
    assert(path =~= path.subrange(0, 5) + git_relative(path));
}

/// A slot holds one record.
pub proof fn slot_holds_one(
    records: Seq<AuditedPhysicalRecord>,
    objects: Seq<ObjectRecord>,
    commit: Seq<u8>,
    slot: ControlSlot,
    i: int,
    j: int,
)
    requires
        paths_ascend(records),
        0 <= i < records.len(),
        0 <= j < records.len(),
        in_slot(records, objects, commit, slot, i),
        in_slot(records, objects, commit, slot, j),
    ensures
        i == j,
{
    reveal(record_slot);
    let a = encode_utf8(records[i].path@);
    let b = encode_utf8(records[j].path@);
    slot_path_is_exact(git_relative(a), records[i].kind, objects, commit);
    slot_path_is_exact(git_relative(b), records[j].kind, objects, commit);
    path_is_prefix_and_rest(a);
    path_is_prefix_and_rest(b);
    same_path_same_place(records, i, j);
}

/// The slots of records are the numbered ones and those of listed objects.
proof fn slots_are_known(record: AuditedPhysicalRecord, objects: Seq<ObjectRecord>, commit: Seq<u8>)
    ensures
        match record_slot(record, objects, commit) {
            Some(ControlSlot::Scaffold(number)) => number < 6,
            Some(ControlSlot::Loose(object)) => objects.contains(object),
            _ => true,
        },
{
    reveal(record_slot);
    if record_slot(record, objects, commit) is Some {
        slot_path_is_exact(git_relative(encode_utf8(record.path@)), record.kind, objects, commit);
    }
}

/// Of two loose files, the one with the lower path has the lower id.
proof fn loose_records_order_ids(
    records: Seq<AuditedPhysicalRecord>,
    objects: Seq<ObjectRecord>,
    commit: Seq<u8>,
    m: int,
    n: int,
    lower: ObjectRecord,
    upper: ObjectRecord,
)
    requires
        paths_ascend(records),
        0 <= m < n < records.len(),
        in_slot(records, objects, commit, ControlSlot::Loose(lower), m),
        in_slot(records, objects, commit, ControlSlot::Loose(upper), n),
    ensures
        lex_less(lower.oid@, upper.oid@),
{
    reveal(record_slot);
    let a = encode_utf8(records[m].path@);
    let b = encode_utf8(records[n].path@);
    slot_path_is_exact(git_relative(a), records[m].kind, objects, commit);
    slot_path_is_exact(git_relative(b), records[n].kind, objects, commit);
    path_is_prefix_and_rest(a);
    path_is_prefix_and_rest(b);
    loose_paths_order_ids(lower.oid@, upper.oid@);
}

proof fn loose_come_from_records(records: Seq<AuditedPhysicalRecord>, objects: Seq<ObjectRecord>, commit: Seq<u8>, n: int)
    requires
        paths_ascend(records),
        0 <= n <= records.len(),
    ensures
        all_listed(loose_before(records, objects, commit, n), objects),
        objects_ascend(loose_before(records, objects, commit, n)),
        loose_before(records, objects, commit, n).len() > 0 ==> met(
            records,
            objects,
            commit,
            ControlSlot::Loose(loose_before(records, objects, commit, n).last()),
            n,
        ),
    decreases n,
{
    if n > 0 {
        loose_come_from_records(records, objects, commit, n - 1);
        let before = loose_before(records, objects, commit, n - 1);
        let now = loose_before(records, objects, commit, n);
        let i = n - 1;
        if now != before {
            let slot = record_slot(records[i], objects, commit)->0;
            let object = slot->Loose_0;
            assert(now == before.push(object));
            slots_are_known(records[i], objects, commit);
            assert(in_slot(records, objects, commit, slot, i));
            if before.len() > 0 {
                let last = ControlSlot::Loose(before.last());
                let m = choose|m: int| 0 <= m < n - 1 && in_slot(records, objects, commit, last, m);
                loose_records_order_ids(records, objects, commit, m, i, before.last(), object);
            }
            assert forall|k: int| 0 < k < now.len() implies #[trigger] ascends_at(now, k) by {
                if k < before.len() {
                    assert(ascends_at(before, k));
                }
            }
            assert forall|k: int| 0 <= k < now.len() implies objects.contains(#[trigger] now[k]) by {
                if k < before.len() {
                    assert(now[k] == before[k]);
                }
            }
        } else if before.len() > 0 {
            let last = ControlSlot::Loose(before.last());
            let m = choose|m: int| 0 <= m < n - 1 && in_slot(records, objects, commit, last, m);
            assert(in_slot(records, objects, commit, last, m));
        }
    }
}

/// In a complete graph the loose files, in the order of their paths, are the objects: every
/// object has its one file, and no other loose file stands there.
pub proof fn loose_files_are_the_objects(records: Seq<AuditedPhysicalRecord>, objects: Seq<ObjectRecord>, commit: Seq<u8>)
    requires
        paths_ascend(records),
        objects_ascend(objects),
        graph_complete(records, objects, commit),
    ensures
        loose_before(records, objects, commit, records.len() as int) == objects,
{
    loose_come_from_records(records, objects, commit, records.len() as int);
    ascending_members_are_all(loose_before(records, objects, commit, records.len() as int), objects);
}

proof fn met_step(
    records: Seq<AuditedPhysicalRecord>,
    objects: Seq<ObjectRecord>,
    commit: Seq<u8>,
    slot: ControlSlot,
    n: int,
)
    requires
        0 <= n < records.len(),
    ensures
        met(records, objects, commit, slot, n + 1) == (met(records, objects, commit, slot, n) || in_slot(
            records,
            objects,
            commit,
            slot,
            n,
        )),
{
    if met(records, objects, commit, slot, n) {
        let i = choose|i: int| 0 <= i < n && in_slot(records, objects, commit, slot, i);
        assert(in_slot(records, objects, commit, slot, i));
    }
}

/// A tally knows what the first `n` records hold.
pub open spec fn tally_knows(
    tally: ControlTally,
    records: Seq<AuditedPhysicalRecord>,
    objects: Seq<ObjectRecord>,
    commit: Seq<u8>,
    n: int,
) -> bool {
    &&& tally.wf()
    &&& forall|slot: ControlSlot|
        unique_slot(slot) ==> #[trigger] tally.has(slot) == met(records, objects, commit, slot, n)
    &&& tally.loose_objects == loose_before(records, objects, commit, n).len()
}

proof fn tally_passes_over(
    tally: ControlTally,
    records: Seq<AuditedPhysicalRecord>,
    objects: Seq<ObjectRecord>,
    commit: Seq<u8>,
    n: int,
)
    requires
        0 <= n < records.len(),
        tally_knows(tally, records, objects, commit, n),
        !is_control(records[n]),
    ensures
        tally_knows(tally, records, objects, commit, n + 1),
{
    assert forall|slot: ControlSlot| unique_slot(slot) implies #[trigger] tally.has(slot) == met(
        records,
        objects,
        commit,
        slot,
        n + 1,
    ) by {
        met_step(records, objects, commit, slot, n);
    }
}

/// Meet the slot of record `n`.
fn mark_record(
    tally: &mut ControlTally,
    slot: ControlSlot,
    Ghost(records): Ghost<Seq<AuditedPhysicalRecord>>,
    Ghost(objects): Ghost<Seq<ObjectRecord>>,
    Ghost(commit): Ghost<Seq<u8>>,
    Ghost(n): Ghost<int>,
) -> (r: Result<(), CandidateSealError>)
    requires
        paths_ascend(records),
        0 <= n < records.len() <= usize::MAX,
        tally_knows(*old(tally), records, objects, commit, n),
        in_slot(records, objects, commit, slot, n),
        loose_before(records, objects, commit, n).len() <= n,
    ensures
        r is Ok,
        tally_knows(*final(tally), records, objects, commit, n + 1),
        loose_before(records, objects, commit, n + 1).len() <= n + 1,
{
    let ghost before = *tally;
    proof {
        slots_are_known(records[n], objects, commit);
        if unique_slot(slot) && tally.has(slot) {
            let i = choose|i: int| 0 <= i < n && in_slot(records, objects, commit, slot, i);
            slot_holds_one(records, objects, commit, slot, i, n);
        }
    }
    let r = tally.mark(slot);
    proof {
        assert forall|other: ControlSlot| unique_slot(other) implies #[trigger] tally.has(other) == met(
            records,
            objects,
            commit,
            other,
            n + 1,
        ) by {
            met_step(records, objects, commit, other, n);
            assert(before.has(other) == met(records, objects, commit, other, n));
        }
    }
    r
}

/// The entry of a record in a slot.
fn control_entry(id: usize, slot: ControlSlot) -> (entry: ControlEntry)
    ensures
        entry == entry_at(id as int, slot),
{
    let physical = PhysicalRecordId(id);
    match slot {
        ControlSlot::Head => ControlEntry { physical, role: GitControlRole::Head, object: None },
        ControlSlot::Config => ControlEntry { physical, role: GitControlRole::Config, object: None },
        ControlSlot::Index => ControlEntry { physical, role: GitControlRole::Index, object: None },
        ControlSlot::MainRef => ControlEntry { physical, role: GitControlRole::MainRef, object: None },
        ControlSlot::Scaffold(_) => ControlEntry { physical, role: GitControlRole::StructuralDirectory, object: None },
        ControlSlot::Hooks => ControlEntry { physical, role: GitControlRole::EmptyHooks, object: None },
        ControlSlot::Fanout(_) => ControlEntry { physical, role: GitControlRole::LooseObject, object: None },
        ControlSlot::Loose(object) => ControlEntry { physical, role: GitControlRole::LooseObject, object: Some(object) },
    }
}

/// Require valid objects in ascending order, and list the first bytes of their ids.
fn check_object_set<S: SortedObjectSet>(objects: &S) -> (r: Result<Vec<bool>, CandidateSealError>)
    ensures
        match object_set_error(objects.object_seq(), 0) {
            Some(error) => r == Err::<Vec<bool>, CandidateSealError>(error),
            None => r is Ok,
        },
        r matches Ok(fanout) ==> {
            &&& fanout@.len() == 256
            &&& forall|byte: u8| #[trigger] fanout@[byte as int] == first_byte_listed(objects.object_seq(), byte)
            &&& objects_ascend(objects.object_seq())
        },
{
    let ghost all = objects.object_seq();
    let mut fanout = no_fanout();
    let count = objects.object_count();
    let mut i: usize = 0;
    while i < count
        invariant
            all == objects.object_seq(),
            count == all.len(),
            i <= count,
            fanout@.len() == 256,
            object_set_error(all, 0) == object_set_error(all, i as int),
            forall|k: int| 0 < k < i ==> #[trigger] ascends_at(all, k),
            forall|byte: u8| #[trigger]
                fanout@[byte as int] == exists|k: int| 0 <= k < i && (#[trigger] all[k]).oid@[0] == byte,
        decreases count - i,
    {
        let object = objects.object_at(i);
        match validate_object_record(object) {
            Ok(()) => {},
            Err(error) => {
                return Err(error);
            },
        }
        if i > 0 {
            let previous = objects.object_at(i - 1);
            if !bytes_less(previous.oid.as_slice(), object.oid.as_slice()) {
                return Err(CandidateSealError::NonCanonicalOrder);
            }
        }
        let first: u8 = object.oid[0];
        let ghost before = fanout@;
        fanout.set(first as usize, true);
        assert forall|byte: u8| #[trigger]
            fanout@[byte as int] == exists|k: int| 0 <= k < i + 1 && (#[trigger] all[k]).oid@[0] == byte by {
            if before[byte as int] {
                let k = choose|k: int| 0 <= k < i && (#[trigger] all[k]).oid@[0] == byte;
                assert(all[k].oid@[0] == byte);
            }
            if byte == first {
                assert(all[i as int].oid@[0] == byte);
            }
        }
        i = i + 1;
    }
    Ok(fanout)
}

/// Whether two lists of fanout directories are the same.
fn same_fanout(a: &Vec<bool>, b: &Vec<bool>) -> (r: bool)
    requires
        a@.len() == 256,
        b@.len() == 256,
    ensures
        r == forall|byte: u8| #[trigger] a@[byte as int] == b@[byte as int],
{
    let mut i: usize = 0;
    while i < 256
        invariant
            i <= 256,
            a@.len() == 256,
            b@.len() == 256,
            forall|k: int| 0 <= k < i ==> a@[k] == b@[k],
        decreases 256 - i,
    {
        if a[i] != b[i] {
            assert(a@[(i as u8) as int] != b@[(i as u8) as int]);
            return false;
        }
        i = i + 1;
    }
    true
}

/// How many fanout directories are listed.
fn count_fanout(fanout: &Vec<bool>, Ghost(objects): Ghost<Seq<ObjectRecord>>) -> (count: usize)
    requires
        fanout@.len() == 256,
        forall|byte: u8| #[trigger] fanout@[byte as int] == first_byte_listed(objects, byte),
    ensures
        count == fanout_total(objects, 256),
        count <= 256,
{
    let mut count: usize = 0;
    let mut i: usize = 0;
    while i < 256
        invariant
            i <= 256,
            count <= i,
            fanout@.len() == 256,
            forall|byte: u8| #[trigger] fanout@[byte as int] == first_byte_listed(objects, byte),
            count == fanout_total(objects, i as int),
        decreases 256 - i,
    {
        assert(fanout@[(i as u8) as int] == first_byte_listed(objects, i as u8));
        if fanout[i] {
            count = count + 1;
        }
        i = i + 1;
    }
    count
}

/// List the entries of the records below `.git` in order, and what they are.
fn scan_entries<S: SortedObjectSet, V: ControlVisitor>(
    physical: &MarkerFreePhysicalManifest,
    objects: &S,
    commit_oid: [u8; 20],
    visitor: &V,
) -> (r: Result<(Vec<ControlEntry>, ControlTally), CandidateSealError>)
    requires
        physical.wf(),
        visitor.ready(),
        objects_ascend(objects.object_seq()),
    ensures
        match entries_error(physical.records@, objects.object_seq(), commit_oid@, *visitor, 0) {
            Some(error) => r matches Err(e) && e == error,
            None => r is Ok,
        },
        r matches Ok((entries, tally)) ==> {
            let n = physical.records@.len() as int;
            &&& entries@ == entries_before(physical.records@, objects.object_seq(), commit_oid@, n)
            &&& entries@.len() == controls_before(physical.records@, n)
            &&& entries@.len() <= MAX_GIT_CONTROL_RECORDS
            &&& tally_knows(tally, physical.records@, objects.object_seq(), commit_oid@, n)
        },
{
    let ghost records = physical.records@;
    let ghost all = objects.object_seq();
    let ghost commit = commit_oid@;
    let mut tally = ControlTally::new();
    let mut entries: Vec<ControlEntry> = Vec::new();
    let mut i: usize = 0;
    while i < physical.records.len()
        invariant
            physical.wf(),
            visitor.ready(),
            records == physical.records@,
            all == objects.object_seq(),
            commit == commit_oid@,
            objects_ascend(all),
            i <= records.len(),
            entries_error(records, all, commit, *visitor, 0) == entries_error(records, all, commit, *visitor, i as int),
            entries@ == entries_before(records, all, commit, i as int),
            entries@.len() == controls_before(records, i as int),
            entries@.len() <= MAX_GIT_CONTROL_RECORDS,
            tally_knows(tally, records, all, commit, i as int),
            loose_before(records, all, commit, i as int).len() <= i,
        decreases records.len() - i,
    {
        let path = physical.records[i].path.as_str();
        let kind = physical.records[i].kind;
        match strip_text_prefix(path, GIT_PREFIX) {
            None => {
                proof {
                    tally_passes_over(tally, records, all, commit, i as int);
                }
            },
            Some(relative) => {
                proof {
                    prefix_lengths();
                    reveal(record_slot);
                }
                if entries.len() >= MAX_GIT_CONTROL_RECORDS {
                    return Err(CandidateSealError::ResourceLimit);
                }
                let slot = classify_control(relative, kind, objects, commit_oid)?;
                let entry = control_entry(i, slot);
                if !visitor.visit(entries.len(), entry) {
                    return Err(CandidateSealError::InvalidRecord);
                }
                mark_record(&mut tally, slot, Ghost(records), Ghost(all), Ghost(commit), Ghost(i as int))?;
                entries.push(entry);
            },
        }
        i = i + 1;
    }
    Ok((entries, tally))
}

/// Whether a tally of a whole manifest is that of a complete graph.
fn tally_is_complete<S: SortedObjectSet>(
    tally: &ControlTally,
    controls: usize,
    expected_fanout: &Vec<bool>,
    objects: &S,
    Ghost(records): Ghost<Seq<AuditedPhysicalRecord>>,
    Ghost(commit): Ghost<Seq<u8>>,
) -> (r: bool)
    requires
        tally_knows(*tally, records, objects.object_seq(), commit, records.len() as int),
        controls == controls_before(records, records.len() as int),
        objects.object_seq().len() <= MAX_OBJECT_RECORDS,
        expected_fanout@.len() == 256,
        forall|byte: u8| #[trigger] expected_fanout@[byte as int] == first_byte_listed(objects.object_seq(), byte),
    ensures
        r == graph_complete(records, objects.object_seq(), commit),
{
    let ghost all = objects.object_seq();
    let ghost n = records.len() as int;
    let listed = count_fanout(expected_fanout, Ghost(all));
    let same = same_fanout(&tally.fanout, expected_fanout);
    proof {
        assert forall|byte: u8| tally.fanout@[byte as int] == #[trigger] met(
            records,
            all,
            commit,
            ControlSlot::Fanout(byte),
            n,
        ) by {
            assert(tally.has(ControlSlot::Fanout(byte)) == tally.fanout@[byte as int]);
        }
        assert(tally.has_skeleton() == skeleton_met(records, all, commit));
        if same {
            assert forall|byte: u8| #[trigger]
                met(records, all, commit, ControlSlot::Fanout(byte), n) == first_byte_listed(all, byte) by {
                assert(tally.fanout@[byte as int] == expected_fanout@[byte as int]);
            }
        } else {
            let byte = choose|byte: u8| tally.fanout@[byte as int] != expected_fanout@[byte as int];
            assert(met(records, all, commit, ControlSlot::Fanout(byte), n) != first_byte_listed(all, byte));
        }
    }
    tally.skeleton_is_met() && same && tally.loose_objects == objects.object_count() && controls == 11 + listed
        + objects.object_count()
}

/// Hold a manifest to the exact graph of control files, and list its entries in order.
pub fn scan_exact_git_control<S: SortedObjectSet, V: ControlVisitor>(
    physical: &MarkerFreePhysicalManifest,
    objects: &S,
    commit_oid: [u8; 20],
    visitor: &V,
) -> (r: Result<Vec<ControlEntry>, CandidateSealError>)
    requires
        physical.wf(),
        visitor.ready(),
    ensures
        match scan_error(physical.records@, objects.object_seq(), commit_oid@, *visitor) {
            Some(error) => r matches Err(e) && e == error,
            None => r matches Ok(entries) && entries@ == entries_before(
                physical.records@,
                objects.object_seq(),
                commit_oid@,
                physical.records@.len() as int,
            ),
        },
        r matches Ok(entries) ==> entries@.len() == controls_before(physical.records@, physical.records@.len() as int)
            && entries@.len() <= MAX_GIT_CONTROL_RECORDS,
{
    if objects.object_count() > MAX_OBJECT_RECORDS {
        return Err(CandidateSealError::ResourceLimit);
    }
    require_git_directory(physical)?;
    let expected_fanout = check_object_set(objects)?;
    let (entries, tally) = scan_entries(physical, objects, commit_oid, visitor)?;
    if !tally_is_complete(
        &tally,
        entries.len(),
        &expected_fanout,
        objects,
        Ghost(physical.records@),
        Ghost(commit_oid@),
    ) {
        return Err(CandidateSealError::InvalidRecord);
    }
    Ok(entries)
}

/// Require the control directory to be listed as a directory.
fn require_git_directory(physical: &MarkerFreePhysicalManifest) -> (r: Result<(), CandidateSealError>)
    requires
        physical.wf(),
    ensures
        r == if has_git_directory(physical.records@) {
            Ok::<(), CandidateSealError>(())
        } else {
            Err(CandidateSealError::InvalidRecord)
        },
{
    let ghost records = physical.records@;
    match physical.find(GIT_ROOT) {
        Some(root) => {
            let ghost at = root.id.0 as int;
            proof {
                if has_git_directory(records) {
                    let i = choose|i: int|
                        0 <= i < records.len() && (#[trigger] records[i]).path@ == GIT_ROOT@ && records[i].kind is Directory;
                    same_path_same_place(records, i, at);
                }
            }
            match root.kind {
                AuditedPhysicalKind::Directory(_) => {
                    assert(records[at].path@ == GIT_ROOT@);
                    Ok(())
                },
                AuditedPhysicalKind::File { .. } => Err(CandidateSealError::InvalidRecord),
            }
        },
        None => Err(CandidateSealError::InvalidRecord),
    }
}

/// A slot that a complete graph fills.
pub open spec fn required_slot(slot: ControlSlot, objects: Seq<ObjectRecord>) -> bool {
    match slot {
        ControlSlot::Scaffold(number) => number < 6,
        ControlSlot::Fanout(byte) => first_byte_listed(objects, byte),
        ControlSlot::Loose(object) => objects.contains(object),
        _ => true,
    }
}

/// Record `i` stands at a path below `.git`.
pub open spec fn stands_at(records: Seq<AuditedPhysicalRecord>, i: int, relative: Seq<u8>) -> bool {
    0 <= i < records.len() && is_control(records[i]) && git_relative(encode_utf8(records[i].path@)) == relative
}

/// Every record below `.git` in an accepted manifest has a slot, and its entry is admitted.
pub proof fn accepted_records_have_slots<V: ControlVisitor>(
    records: Seq<AuditedPhysicalRecord>,
    objects: Seq<ObjectRecord>,
    commit: Seq<u8>,
    visitor: V,
    from: int,
    i: int,
)
    requires
        0 <= from <= i < records.len(),
        entries_error(records, objects, commit, visitor, from) is None,
        is_control(records[i]),
    ensures
        record_slot(records[i], objects, commit) is Some,
        visitor.admits(controls_before(records, i), entry_at(i, record_slot(records[i], objects, commit)->0)),
    decreases i - from,
{
    if from < i {
        accepted_records_have_slots(records, objects, commit, visitor, from + 1, i);
    }
}

proof fn loose_member_is_met(
    records: Seq<AuditedPhysicalRecord>,
    objects: Seq<ObjectRecord>,
    commit: Seq<u8>,
    n: int,
    k: int,
)
    requires
        0 <= n <= records.len(),
        0 <= k < loose_before(records, objects, commit, n).len(),
    ensures
        met(records, objects, commit, ControlSlot::Loose(loose_before(records, objects, commit, n)[k]), n),
    decreases n,
{
    let before = loose_before(records, objects, commit, n - 1);
    let slot = ControlSlot::Loose(loose_before(records, objects, commit, n)[k]);
    if k < before.len() {
        loose_member_is_met(records, objects, commit, n - 1, k);
        let i = choose|i: int| 0 <= i < n - 1 && in_slot(records, objects, commit, slot, i);
        assert(in_slot(records, objects, commit, slot, i));
    } else {
        assert(in_slot(records, objects, commit, slot, n - 1));
    }
}

/// Accepted objects are in ascending order of their ids.
pub proof fn objects_set_ascends(objects: Seq<ObjectRecord>, from: int)
    requires
        0 <= from <= objects.len(),
        object_set_error(objects, from) is None,
        forall|k: int| 0 < k < from ==> #[trigger] ascends_at(objects, k),
    ensures
        objects_ascend(objects),
    decreases objects.len() - from,
{
    if from < objects.len() {
        objects_set_ascends(objects, from + 1);
    }
}

/// An accepted control graph is exact: something stands at a path below `.git` if and only if
/// a fixed file or directory, a fanout directory or a loose object of the candidate belongs there.
pub proof fn accepted_graph_is_exact<V: ControlVisitor>(
    records: Seq<AuditedPhysicalRecord>,
    objects: Seq<ObjectRecord>,
    commit: Seq<u8>,
    visitor: V,
    relative: Seq<u8>,
)
    requires
        paths_ascend(records),
        scan_error(records, objects, commit, visitor) is None,
    ensures
        (exists|i: int| stands_at(records, i, relative)) <==> (exists|slot: ControlSlot|
            required_slot(slot, objects) && #[trigger] slot.path() == relative),
{
    let n = records.len() as int;
    objects_set_ascends(objects, 0);
    loose_files_are_the_objects(records, objects, commit);
    if exists|i: int| stands_at(records, i, relative) {
        let i = choose|i: int| stands_at(records, i, relative);
        accepted_records_have_slots(records, objects, commit, visitor, 0, i);
        slots_are_known(records[i], objects, commit);
        let slot = record_slot(records[i], objects, commit)->0;
        assert(in_slot(records, objects, commit, slot, i));
        assert(slot.path() == relative) by {
            reveal(record_slot);
            slot_path_is_exact(relative, records[i].kind, objects, commit);
        }
        if let ControlSlot::Fanout(byte) = slot {
            assert(met(records, objects, commit, ControlSlot::Fanout(byte), n));
        }
        assert(required_slot(slot, objects));
    }
    if exists|slot: ControlSlot| required_slot(slot, objects) && #[trigger] slot.path() == relative {
        let slot = choose|slot: ControlSlot| required_slot(slot, objects) && #[trigger] slot.path() == relative;
        assert(met(records, objects, commit, slot, n)) by {
            match slot {
                ControlSlot::Scaffold(number) => {
                    assert(number == 0 || number == 1 || number == 2 || number == 3 || number == 4 || number == 5);
                },
                ControlSlot::Fanout(byte) => {
                    assert(met(records, objects, commit, ControlSlot::Fanout(byte), n) == first_byte_listed(objects, byte));
                },
                ControlSlot::Loose(object) => {
                    let k = choose|k: int| 0 <= k < objects.len() && objects[k] == object;
                    loose_member_is_met(records, objects, commit, n, k);
                },
                _ => {},
            }
        }
        let i = choose|i: int| 0 <= i < n && in_slot(records, objects, commit, slot, i);
        assert(git_relative(encode_utf8(records[i].path@)) == slot.path()) by {
            reveal(record_slot);
            slot_path_is_exact(git_relative(encode_utf8(records[i].path@)), records[i].kind, objects, commit);
        }
        assert(stands_at(records, i, relative));
    }
}

} // verus!
