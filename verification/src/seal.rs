//! Canonical repository-candidate-seal-v1 stream encoding.
//!
//! The encoder consumes already audited, role-typed records. Its checks are defense in depth:
//! that the sections describe one complete repository is for the collectors to establish.

use crate::bytes::{
    all_zero, bytes_equal, bytes_less, has_prefix, has_suffix, lex_less, lex_less_irreflexive, lex_less_transitive,
    lex_less_trichotomy, starts_with,
};
use crate::digest::{sha256_finalize, sha256_input, sha256_new, sha256_of, sha256_update, Sha256Stream};
use crate::errors::CandidateSealError;
use crate::hex::{all_lower_hex, is_all_lower_hex};
use crate::identity::{PublicationIdentityScheme, SealIdentity};
use crate::portable_path::{path_error, validate_path, verdict, MAX_PATH_BUDGET, MAX_PHYSICAL_PATH_BYTES, SLASH};
use crate::seal_records::{
    be16, be32, be64, directory_bytes, empty_body_sha256, file_bytes, framed, path_bytes, prefix_bytes, section_bytes,
    terminator_bytes, CandidateSealContext, CandidateSealManifest, GitControlRecord, GitControlRecordKind, GitControlRole,
    HeadRefsRecord, IndexRecord, ObjectKind, ObjectRecord, PhysicalRecord, PhysicalRecordKind, PrivateBaselineRecord,
    RootCommitRecord, TreeRecord, WorktreeClass, WorktreeRecord, DOMAIN, MAX_BODY_BYTES, MAX_GIT_CONTROL_RECORDS,
    MAX_OBJECT_RECORDS, MAX_PATH_BYTES, MAX_PHYSICAL_RECORDS, MAX_TRACKED_RECORDS, REGULAR_MODE, VERSION,
};
use crate::text::{text_ends_with, text_equal};
use vstd::prelude::*;
use vstd::slice::slice_subrange;
use vstd::string::*;
use vstd::utf8::{encode_utf8, is_ascii_chars_encode_utf8};

verus! {

/// Where the bytes of a stream go.
pub trait SealSink {
    /// What the sink has taken so far.
    spec fn taken(&self) -> Seq<u8>;

    /// Append bytes to the stream.
    fn put(&mut self, bytes: &[u8])
        ensures
            final(self).taken() == old(self).taken() + bytes@,
    ;
}

/// A sink that only digests.
pub struct DigestSink(pub Sha256Stream);

impl SealSink for DigestSink {
    open spec fn taken(&self) -> Seq<u8> {
        sha256_input(self.0)
    }

    fn put(&mut self, bytes: &[u8]) {
        sha256_update(&mut self.0, bytes);
    }
}

/// A sink that keeps the stream.
pub struct VecSink(pub Vec<u8>);

impl SealSink for VecSink {
    open spec fn taken(&self) -> Seq<u8> {
        self.0@
    }

    fn put(&mut self, bytes: &[u8]) {
        self.0.extend_from_slice(bytes);
        assert(self.0@ =~= old(self).0@ + bytes@);
    }
}

/// `after` is `before` with something appended.
#[verifier::opaque]
pub open spec fn extends(before: Seq<u8>, after: Seq<u8>) -> bool {
    before.len() <= after.len() && after.subrange(0, before.len() as int) == before
}

proof fn appended_extends(a: Seq<u8>, b: Seq<u8>)
    ensures
        extends(a, a + b),
{
    reveal(extends);
    assert((a + b).subrange(0, a.len() as int) =~= a);
}

proof fn extends_transitive(a: Seq<u8>, b: Seq<u8>, c: Seq<u8>)
    requires
        extends(a, b),
        extends(b, c),
    ensures
        extends(a, c),
{
    reveal(extends);
    assert(c.subrange(0, a.len() as int) =~= b.subrange(0, a.len() as int));
}

proof fn append_associative(a: Seq<u8>, b: Seq<u8>, c: Seq<u8>)
    ensures
        (a + b) + c == a + (b + c),
{
    assert((a + b) + c =~= a + (b + c));
}

proof fn append_parts(start: Seq<u8>, a: Seq<u8>, b: Seq<u8>, c: Seq<u8>, d: Seq<u8>, e: Seq<u8>)
    ensures
        start + a + b + c + d + e == start + (a + b + c + d + e),
{
    append_associative(start, a, b);
    append_associative(start, a + b, c);
    append_associative(start, a + b + c, d);
    append_associative(start, a + b + c + d, e);
}

/// Append two bytes, most significant first.
pub fn put_u16<S: SealSink>(sink: &mut S, value: u16)
    ensures
        final(sink).taken() == old(sink).taken() + be16(value),
{
    let bytes: [u8; 2] = [(value / 0x100) as u8, (value % 0x100) as u8];
    assert(bytes@ =~= be16(value));
    sink.put(bytes.as_slice());
}

/// Append four bytes, most significant first.
pub fn put_u32<S: SealSink>(sink: &mut S, value: u32)
    ensures
        final(sink).taken() == old(sink).taken() + be32(value),
{
    let bytes: [u8; 4] = [
        (value / 0x100_0000) as u8,
        (value / 0x1_0000 % 0x100) as u8,
        (value / 0x100 % 0x100) as u8,
        (value % 0x100) as u8,
    ];
    assert(bytes@ =~= be32(value));
    sink.put(bytes.as_slice());
}

/// Append eight bytes, most significant first.
pub fn put_u64<S: SealSink>(sink: &mut S, value: u64)
    ensures
        final(sink).taken() == old(sink).taken() + be64(value),
{
    put_u32(sink, (value / 0x1_0000_0000) as u32);
    put_u32(sink, (value % 0x1_0000_0000) as u32);
    assert(sink.taken() =~= old(sink).taken() + be64(value));
}

/// Append one byte.
fn put_byte<S: SealSink>(sink: &mut S, value: u8)
    ensures
        final(sink).taken() == old(sink).taken() + seq![value],
{
    let bytes: [u8; 1] = [value];
    assert(bytes@ =~= seq![value]);
    sink.put(bytes.as_slice());
}

/// Append a path behind its length.
pub fn put_path<S: SealSink>(sink: &mut S, path: &str) -> (r: Result<(), CandidateSealError>)
    ensures
        r is Ok <==> path.spec_bytes().len() <= 0xffff,
        r is Ok ==> final(sink).taken() == old(sink).taken() + path_bytes(path@),
        r matches Err(error) ==> error == CandidateSealError::ResourceLimit && final(sink).taken() == old(sink).taken(),
{
    let bytes = path.as_bytes();
    if bytes.len() > 0xffff {
        return Err(CandidateSealError::ResourceLimit);
    }
    put_u16(sink, bytes.len() as u16);
    sink.put(bytes);
    assert(sink.taken() =~= old(sink).taken() + path_bytes(path@));
    Ok(())
}

/// The payload length of a record with a path and `fixed` other bytes.
pub fn path_payload_length(path: &str, fixed: u32) -> (r: Result<u32, CandidateSealError>)
    ensures
        r is Ok <==> path.spec_bytes().len() + fixed <= u32::MAX,
        r matches Ok(length) ==> length == path.spec_bytes().len() + fixed,
        r matches Err(error) ==> error == CandidateSealError::ResourceLimit,
{
    let length = path.as_bytes().len();
    if length > u32::MAX as usize {
        return Err(CandidateSealError::ResourceLimit);
    }
    match fixed.checked_add(length as u32) {
        Some(total) => Ok(total),
        None => Err(CandidateSealError::ResourceLimit),
    }
}

/// Require a body to be within the bound.
pub fn validate_raw_size(size: u64) -> (r: Result<(), CandidateSealError>)
    ensures
        r == verdict(raw_size_error(size)),
{
    if size <= MAX_BODY_BYTES {
        Ok(())
    } else {
        Err(CandidateSealError::ResourceLimit)
    }
}

/// Why a body size is refused, if it is.
pub open spec fn raw_size_error(size: u64) -> Option<CandidateSealError> {
    if size <= MAX_BODY_BYTES {
        None
    } else {
        Some(CandidateSealError::ResourceLimit)
    }
}

/// The first of two refusals.
pub open spec fn first_error(a: Option<CandidateSealError>, b: Option<CandidateSealError>) -> Option<CandidateSealError> {
    if a is Some {
        a
    } else {
        b
    }
}

/// Why a record count is refused, if it is.
pub open spec fn count_error(count: nat, maximum: nat) -> Option<CandidateSealError> {
    if count > maximum || count > u32::MAX {
        Some(CandidateSealError::ResourceLimit)
    } else {
        None
    }
}

/// Append a section header for a count that fits.
pub fn section_header_infallible<S: SealSink>(sink: &mut S, tag: u8, count: u32)
    ensures
        final(sink).taken() == old(sink).taken() + section_bytes(tag, count as nat, Seq::empty()),
{
    put_byte(sink, tag);
    put_u32(sink, count);
    assert(sink.taken() =~= old(sink).taken() + section_bytes(tag, count as nat, Seq::empty()));
}

/// Append a section header, unless there are too many records.
pub fn section_header<S: SealSink>(sink: &mut S, tag: u8, count: usize, maximum: usize) -> (r: Result<
    (),
    CandidateSealError,
>)
    ensures
        r == verdict(count_error(count as nat, maximum as nat)),
        r is Ok ==> final(sink).taken() == old(sink).taken() + section_bytes(tag, count as nat, Seq::empty()),
        r is Err ==> final(sink).taken() == old(sink).taken(),
{
    if count > maximum || count > u32::MAX as usize {
        return Err(CandidateSealError::ResourceLimit);
    }
    section_header_infallible(sink, tag, count as u32);
    Ok(())
}

/// A record with a path.
pub trait PathRecord {
    /// The path of the record.
    spec fn path_text(&self) -> Seq<char>;

    /// The path of the record.
    fn record_path(&self) -> (path: &str)
        ensures
            path@ == self.path_text(),
    ;
}

impl<'a> PathRecord for PhysicalRecord<'a> {
    open spec fn path_text(&self) -> Seq<char> {
        self.path@
    }

    fn record_path(&self) -> (path: &str) {
        self.path
    }
}

impl<'a> PathRecord for WorktreeRecord<'a> {
    open spec fn path_text(&self) -> Seq<char> {
        self.path@
    }

    fn record_path(&self) -> (path: &str) {
        self.path
    }
}

impl<'a> PathRecord for IndexRecord<'a> {
    open spec fn path_text(&self) -> Seq<char> {
        self.path@
    }

    fn record_path(&self) -> (path: &str) {
        self.path
    }
}

impl<'a> PathRecord for TreeRecord<'a> {
    open spec fn path_text(&self) -> Seq<char> {
        self.path@
    }

    fn record_path(&self) -> (path: &str) {
        self.path
    }
}

impl<'a> PathRecord for GitControlRecord<'a> {
    open spec fn path_text(&self) -> Seq<char> {
        self.path@
    }

    fn record_path(&self) -> (path: &str) {
        self.path
    }
}

/// How many bytes the first `n` paths take together.
pub open spec fn path_total<T: PathRecord>(records: Seq<T>, n: int) -> nat
    decreases n,
{
    if n <= 0 {
        0
    } else {
        path_total(records, n - 1) + encode_utf8(records[n - 1].path_text()).len()
    }
}

/// Why the path of record `i` is refused, if it is: by itself, by its place behind the
/// record before, or by the bytes that the paths up to it take.
pub open spec fn path_record_error<T: PathRecord>(
    records: Seq<T>,
    i: int,
    allow_root: bool,
    maximum: nat,
) -> Option<CandidateSealError> {
    if path_error(records[i].path_text(), allow_root, maximum) is Some {
        path_error(records[i].path_text(), allow_root, maximum)
    } else if i > 0 && !lex_less(encode_utf8(records[i - 1].path_text()), encode_utf8(records[i].path_text())) {
        Some(CandidateSealError::NonCanonicalOrder)
    } else if path_total(records, i + 1) > MAX_PATH_BUDGET {
        Some(CandidateSealError::ResourceLimit)
    } else {
        None
    }
}

/// The first refusal among the paths from record `i` on.
pub open spec fn path_records_error<T: PathRecord>(
    records: Seq<T>,
    i: int,
    allow_root: bool,
    maximum: nat,
) -> Option<CandidateSealError>
    decreases records.len() - i,
{
    if i < 0 || i >= records.len() {
        None
    } else {
        match path_record_error(records, i, allow_root, maximum) {
            Some(e) => Some(e),
            None => path_records_error(records, i + 1, allow_root, maximum),
        }
    }
}

/// Without a refusal every path is portable, bounded and behind the one before it.
pub proof fn accepted_paths<T: PathRecord>(records: Seq<T>, i: int, allow_root: bool, maximum: nat)
    requires
        0 <= i <= records.len(),
        path_records_error(records, i, allow_root, maximum) is None,
    ensures
        forall|j: int| i <= j < records.len() ==> #[trigger] path_record_error(records, j, allow_root, maximum) is None,
    decreases records.len() - i,
{
    if i < records.len() {
        accepted_paths(records, i + 1, allow_root, maximum);
    }
}

/// Accepted paths are strictly ascending, whatever their distance.
pub proof fn accepted_paths_ascend<T: PathRecord>(records: Seq<T>, allow_root: bool, maximum: nat, i: int, j: int)
    requires
        path_records_error(records, 0, allow_root, maximum) is None,
        0 <= i < j < records.len(),
    ensures
        lex_less(encode_utf8(records[i].path_text()), encode_utf8(records[j].path_text())),
    decreases j - i,
{
    accepted_paths(records, 0, allow_root, maximum);
    assert(path_record_error(records, j, allow_root, maximum) is None);
    if i + 1 < j {
        accepted_paths_ascend(records, allow_root, maximum, i, j - 1);
        lex_less_transitive(
            encode_utf8(records[i].path_text()),
            encode_utf8(records[j - 1].path_text()),
            encode_utf8(records[j].path_text()),
        );
    }
}

/// Require the paths of a section to be portable, strictly ascending and within the budget.
pub fn validate_path_records<T: PathRecord>(records: &[T], allow_root: bool, maximum_path_bytes: usize) -> (r: Result<
    (),
    CandidateSealError,
>)
    ensures
        r == verdict(path_records_error(records@, 0, allow_root, maximum_path_bytes as nat)),
{
    let mut budget: usize = 0;
    let mut i: usize = 0;
    while i < records.len()
        invariant
            i <= records.len(),
            budget == path_total(records@, i as int),
            path_records_error(records@, 0, allow_root, maximum_path_bytes as nat) == path_records_error(
                records@,
                i as int,
                allow_root,
                maximum_path_bytes as nat,
            ),
        decreases records.len() - i,
    {
        let candidate = records[i].record_path();
        match validate_path(candidate, allow_root, maximum_path_bytes) {
            Ok(()) => {},
            Err(error) => {
                return Err(error);
            },
        }
        if i > 0 && !bytes_less(records[i - 1].record_path().as_bytes(), candidate.as_bytes()) {
            return Err(CandidateSealError::NonCanonicalOrder);
        }
        match budget.checked_add(candidate.as_bytes().len()) {
            Some(total) => {
                if total > MAX_PATH_BUDGET {
                    return Err(CandidateSealError::ResourceLimit);
                }
                budget = total;
            },
            None => {
                return Err(CandidateSealError::ResourceLimit);
            },
        }
        i = i + 1;
    }
    Ok(())
}

fn put_directory<S: SealSink>(sink: &mut S, identity: SealIdentity)
    ensures
        final(sink).taken() == old(sink).taken() + directory_bytes(identity),
{
    put_byte(sink, 1);
    sink.put(identity.bytes.as_slice());
    put_u64(sink, 0);
    let zeros: [u8; 32] = [
        0, 0, 0, 0, 0, 0, 0, 0, 0, 0, 0, 0, 0, 0, 0, 0, 0, 0, 0, 0, 0, 0, 0, 0, 0, 0, 0, 0, 0, 0, 0, 0,
    ];
    assert(zeros@ =~= Seq::new(32, |i: int| 0u8));
    sink.put(zeros.as_slice());
    assert(sink.taken() =~= old(sink).taken() + directory_bytes(identity));
}

fn put_file<S: SealSink>(sink: &mut S, identity: SealIdentity, size: u64, sha256: [u8; 32])
    ensures
        final(sink).taken() == old(sink).taken() + file_bytes(identity, size, sha256@),
{
    put_byte(sink, 2);
    sink.put(identity.bytes.as_slice());
    put_u64(sink, size);
    sink.put(sha256.as_slice());
    assert(sink.taken() =~= old(sink).taken() + file_bytes(identity, size, sha256@));
}

/// A record of a section.
pub trait SealRecord {
    /// The framed bytes of the record.
    spec fn frame(&self) -> Seq<u8>;

    /// Why the record is refused on its own, if it is.
    spec fn refusal(&self) -> Option<CandidateSealError>;

    /// The record's path, if it has one, fits its length field.
    spec fn path_fits(&self) -> bool;

    /// Append the record.
    fn put_record<S: SealSink>(&self, sink: &mut S) -> (r: Result<(), CandidateSealError>)
        requires
            self.path_fits(),
        ensures
            r == verdict(self.refusal()),
            r is Ok ==> final(sink).taken() == old(sink).taken() + self.frame(),
            extends(old(sink).taken(), final(sink).taken()),
    ;
}

/// The framed bytes of the first `n` records.
pub open spec fn records_bytes<T: SealRecord>(records: Seq<T>, n: nat) -> Seq<u8>
    decreases n,
{
    if n == 0 {
        Seq::empty()
    } else {
        records_bytes(records, (n - 1) as nat) + records[n - 1].frame()
    }
}

/// The first refusal among the records from `i` on.
pub open spec fn records_error<T: SealRecord>(records: Seq<T>, i: int) -> Option<CandidateSealError>
    decreases records.len() - i,
{
    if i < 0 || i >= records.len() {
        None
    } else {
        first_error(records[i].refusal(), records_error(records, i + 1))
    }
}

fn put_records<S: SealSink, T: SealRecord>(sink: &mut S, records: &[T]) -> (r: Result<(), CandidateSealError>)
    requires
        forall|i: int| 0 <= i < records.len() ==> (#[trigger] records[i]).path_fits(),
    ensures
        r == verdict(records_error(records@, 0)),
        r is Ok ==> final(sink).taken() == old(sink).taken() + records_bytes(records@, records@.len()),
        extends(old(sink).taken(), final(sink).taken()),
{
    let ghost start = sink.taken();
    assert(start + Seq::<u8>::empty() =~= start);
    let mut i: usize = 0;
    while i < records.len()
        invariant
            i <= records.len(),
            start == old(sink).taken(),
            sink.taken() == start + records_bytes(records@, i as nat),
            forall|j: int| 0 <= j < records.len() ==> (#[trigger] records[j]).path_fits(),
            records_error(records@, 0) == records_error(records@, i as int),
        decreases records.len() - i,
    {
        let ghost before = sink.taken();
        proof {
            appended_extends(start, records_bytes(records@, i as nat));
            append_associative(start, records_bytes(records@, i as nat), records@[i as int].frame());
        }
        match records[i].put_record(sink) {
            Ok(()) => {},
            Err(error) => {
                proof {
                    extends_transitive(start, before, sink.taken());
                }
                return Err(error);
            },
        }
        i = i + 1;
    }
    proof {
        appended_extends(start, records_bytes(records@, records@.len()));
    }
    Ok(())
}

/// A length, a path and the rest of a payload, appended one after another, are one frame.
proof fn frame_record(start: Seq<u8>, length: u32, path: Seq<u8>, rest: Seq<u8>)
    requires
        length == path.len() + rest.len(),
    ensures
        ((start + be32(length)) + path) + rest == start + framed(path + rest),
        extends(start, start + framed(path + rest)),
{
    append_associative(start + be32(length), path, rest);
    append_associative(start, be32(length), path + rest);
    appended_extends(start, framed(path + rest));
}

/// Append the length of a payload and its path.
fn put_frame_start<S: SealSink>(sink: &mut S, path: &str, fixed: u32)
    requires
        path.spec_bytes().len() <= 0xffff,
        2 <= fixed <= 0xffff,
    ensures
        final(sink).taken() == (old(sink).taken() + be32((fixed - 2 + path_bytes(path@).len()) as u32)) + path_bytes(path@),
        extends(old(sink).taken(), final(sink).taken()),
{
    let ghost start = sink.taken();
    if let Ok(length) = path_payload_length(path, fixed) {
        put_u32(sink, length);
        let written = put_path(sink, path);
        proof {
            append_associative(start, be32(length), path_bytes(path@));
            appended_extends(start, be32(length) + path_bytes(path@));
        }
    }
}

impl<'a> SealRecord for PhysicalRecord<'a> {
    open spec fn frame(&self) -> Seq<u8> {
        self.encoded()
    }

    open spec fn refusal(&self) -> Option<CandidateSealError> {
        match self.kind {
            PhysicalRecordKind::Directory(_) => None,
            PhysicalRecordKind::File { size, .. } => raw_size_error(size),
        }
    }

    open spec fn path_fits(&self) -> bool {
        encode_utf8(self.path@).len() <= 0xffff
    }

    fn put_record<S: SealSink>(&self, sink: &mut S) -> (r: Result<(), CandidateSealError>) {
        let ghost start = sink.taken();
        let ghost path = path_bytes(self.path@);
        put_frame_start(sink, self.path, 67);
        match self.kind {
            PhysicalRecordKind::Directory(identity) => {
                put_directory(sink, identity.0);
                proof {
                    frame_record(start, (65 + path.len()) as u32, path, directory_bytes(identity.0));
                }
            },
            PhysicalRecordKind::File { identity, size, sha256 } => {
                if size > MAX_BODY_BYTES {
                    return Err(CandidateSealError::ResourceLimit);
                }
                put_file(sink, identity.0, size, sha256);
                proof {
                    frame_record(start, (65 + path.len()) as u32, path, file_bytes(identity.0, size, sha256@));
                }
            },
        }
        Ok(())
    }
}

/// Why a section of records with paths is refused, if it is: for its count, for its paths, or
/// for one of its records.
pub open spec fn section_error<T: PathRecord + SealRecord>(
    records: Seq<T>,
    maximum_records: nat,
    allow_root: bool,
    maximum_path: nat,
) -> Option<CandidateSealError> {
    first_error(
        count_error(records.len(), maximum_records),
        first_error(path_records_error(records, 0, allow_root, maximum_path), records_error(records, 0)),
    )
}

fn encode_section<S: SealSink, T: PathRecord + SealRecord>(
    sink: &mut S,
    tag: u8,
    records: &[T],
    maximum_records: usize,
    allow_root: bool,
    maximum_path: usize,
) -> (r: Result<(), CandidateSealError>)
    requires
        maximum_path <= 0xffff,
        forall|i: int|
            0 <= i < records.len() ==> (#[trigger] records[i]).path_fits() == (encode_utf8(records[i].path_text()).len()
                <= 0xffff),
    ensures
        r == verdict(section_error(records@, maximum_records as nat, allow_root, maximum_path as nat)),
        r is Ok ==> final(sink).taken() == old(sink).taken() + section_bytes(
            tag,
            records@.len(),
            records_bytes(records@, records@.len()),
        ),
        extends(old(sink).taken(), final(sink).taken()),
{
    let ghost start = sink.taken();
    let ghost header = section_bytes(tag, records@.len(), Seq::empty());
    let ghost body = records_bytes(records@, records@.len());
    proof {
        assert(start + Seq::<u8>::empty() =~= start);
        appended_extends(start, Seq::empty());
        appended_extends(start, header);
        append_associative(start, header, body);
        assert(header + body =~= section_bytes(tag, records@.len(), body));
    }
    section_header(sink, tag, records.len(), maximum_records)?;
    let ghost headed = sink.taken();
    validate_path_records(records, allow_root, maximum_path)?;
    proof {
        accepted_paths(records@, 0, allow_root, maximum_path as nat);
        assert forall|i: int| 0 <= i < records.len() implies (#[trigger] records[i]).path_fits() by {
            assert(path_record_error(records@, i, allow_root, maximum_path as nat) is None);
        }
    }
    let r = put_records(sink, records);
    proof {
        extends_transitive(start, headed, sink.taken());
    }
    r
}

/// Why the physical section is refused, if it is.
pub open spec fn physical_error(records: Seq<PhysicalRecord>) -> Option<CandidateSealError> {
    section_error(records, MAX_PHYSICAL_RECORDS as nat, true, MAX_PHYSICAL_PATH_BYTES as nat)
}

/// Append the section of physical records.
pub fn encode_physical<S: SealSink>(sink: &mut S, records: &[PhysicalRecord<'_>]) -> (r: Result<(), CandidateSealError>)
    ensures
        r == verdict(physical_error(records@)),
        r is Ok ==> final(sink).taken() == old(sink).taken() + section_bytes(
            1,
            records@.len(),
            records_bytes(records@, records@.len()),
        ),
        extends(old(sink).taken(), final(sink).taken()),
{
    encode_section(sink, 1, records, MAX_PHYSICAL_RECORDS, true, MAX_PHYSICAL_PATH_BYTES)
}

/// The metadata files that every vault repository tracks.
#[derive(Clone, Copy, Debug, PartialEq, Eq, Structural)]
pub struct ManagedMetadata {
    pub attributes: bool,
    pub ignore: bool,
    pub vault: bool,
}

/// The name of a managed metadata file.
pub open spec fn managed_name(path: Seq<char>) -> bool {
    path == ".gitattributes"@ || path == ".gitignore"@ || path == "vault.json"@
}

/// The path of a record is one that its class allows.
pub open spec fn class_allows(class: WorktreeClass, path: Seq<char>) -> bool {
    match class {
        WorktreeClass::ManagedMetadata => managed_name(path),
        WorktreeClass::MarkdownEnvelope => has_suffix(encode_utf8(path), encode_utf8(".md.enc"@)),
        WorktreeClass::AssetEnvelope => has_suffix(encode_utf8(path), encode_utf8(".asset.enc"@)),
    }
}

impl ManagedMetadata {
    /// The file was met before.
    pub open spec fn seen(self, path: Seq<char>) -> bool {
        ||| path == ".gitattributes"@ && self.attributes
        ||| path == ".gitignore"@ && self.ignore
        ||| path == "vault.json"@ && self.vault
    }

    /// What has been met once `record` was looked at.
    pub open spec fn after(self, record: WorktreeRecord) -> ManagedMetadata {
        if record.class == WorktreeClass::ManagedMetadata {
            ManagedMetadata {
                attributes: self.attributes || record.path@ == ".gitattributes"@,
                ignore: self.ignore || record.path@ == ".gitignore"@,
                vault: self.vault || record.path@ == "vault.json"@,
            }
        } else {
            self
        }
    }
}

/// Whether the path of a record is one that its class allows.
fn class_admits(class: WorktreeClass, path: &str) -> (r: bool)
    ensures
        r == class_allows(class, path@),
{
    match class {
        WorktreeClass::ManagedMetadata => text_equal(path, ".gitattributes") || text_equal(path, ".gitignore")
            || text_equal(path, "vault.json"),
        WorktreeClass::MarkdownEnvelope => text_ends_with(path, ".md.enc"),
        WorktreeClass::AssetEnvelope => text_ends_with(path, ".asset.enc"),
    }
}

/// Require the path of a record to fit its class, and each metadata file to come once.
pub fn validate_worktree_class(record: &WorktreeRecord<'_>, metadata: &mut ManagedMetadata) -> (r: Result<
    (),
    CandidateSealError,
>)
    ensures
        r is Ok <==> class_allows(record.class, record.path@) && !(record.class == WorktreeClass::ManagedMetadata
            && old(metadata).seen(record.path@)),
        r matches Err(error) ==> error == CandidateSealError::InvalidRecord && *final(metadata) == *old(metadata),
        r is Ok ==> *final(metadata) == old(metadata).after(*record),
{
    if !class_admits(record.class, record.path) {
        return Err(CandidateSealError::InvalidRecord);
    }
    if record.class == WorktreeClass::ManagedMetadata {
        let attributes = text_equal(record.path, ".gitattributes");
        let ignore = text_equal(record.path, ".gitignore");
        let vault = text_equal(record.path, "vault.json");
        if (attributes && metadata.attributes) || (ignore && metadata.ignore) || (vault && metadata.vault) {
            return Err(CandidateSealError::InvalidRecord);
        }
        metadata.attributes = metadata.attributes || attributes;
        metadata.ignore = metadata.ignore || ignore;
        metadata.vault = metadata.vault || vault;
    }
    Ok(())
}

/// Why an object id is refused, if it is: the zero id names no object.
pub open spec fn oid_error(oid: Seq<u8>) -> Option<CandidateSealError> {
    if forall|i: int| 0 <= i < oid.len() ==> oid[i] == 0 {
        Some(CandidateSealError::InvalidRecord)
    } else {
        None
    }
}

fn worktree_class_tag(class: WorktreeClass) -> (tag: u8)
    ensures
        tag == class.tag(),
{
    match class {
        WorktreeClass::ManagedMetadata => 1,
        WorktreeClass::MarkdownEnvelope => 2,
        WorktreeClass::AssetEnvelope => 3,
    }
}

fn object_kind_tag(kind: ObjectKind) -> (tag: u8)
    ensures
        tag == kind.tag(),
{
    match kind {
        ObjectKind::Blob => 1,
        ObjectKind::Tree => 2,
        ObjectKind::Commit => 3,
    }
}

fn git_control_role_tag(role: GitControlRole) -> (tag: u8)
    ensures
        tag == role.tag(),
{
    match role {
        GitControlRole::Head => 1,
        GitControlRole::Config => 2,
        GitControlRole::Index => 3,
        GitControlRole::MainRef => 4,
        GitControlRole::LooseObject => 5,
        GitControlRole::StructuralDirectory => 6,
        GitControlRole::EmptyHooks => 7,
    }
}

impl<'a> SealRecord for WorktreeRecord<'a> {
    open spec fn frame(&self) -> Seq<u8> {
        self.encoded()
    }

    open spec fn refusal(&self) -> Option<CandidateSealError> {
        if !class_allows(self.class, self.path@) {
            Some(CandidateSealError::InvalidRecord)
        } else {
            first_error(raw_size_error(self.size), oid_error(self.blob_oid@))
        }
    }

    open spec fn path_fits(&self) -> bool {
        encode_utf8(self.path@).len() <= 0xffff
    }

    fn put_record<S: SealSink>(&self, sink: &mut S) -> (r: Result<(), CandidateSealError>) {
        let ghost start = sink.taken();
        proof {
            assert(start + Seq::<u8>::empty() =~= start);
            appended_extends(start, Seq::empty());
        }
        if !class_admits(self.class, self.path) {
            return Err(CandidateSealError::InvalidRecord);
        }
        validate_raw_size(self.size)?;
        if all_zero(self.blob_oid.as_slice()) {
            return Err(CandidateSealError::InvalidRecord);
        }
        let ghost path = path_bytes(self.path@);
        put_frame_start(sink, self.path, 91);
        let ghost head = sink.taken();
        let ghost rest = seq![self.class.tag()] + be32(REGULAR_MODE) + self.identity.0.bytes@ + be64(self.size)
            + self.sha256@ + self.blob_oid@;
        put_byte(sink, worktree_class_tag(self.class));
        put_u32(sink, REGULAR_MODE);
        sink.put(self.identity.0.bytes.as_slice());
        put_u64(sink, self.size);
        sink.put(self.sha256.as_slice());
        sink.put(self.blob_oid.as_slice());
        proof {
            assert(sink.taken() =~= head + rest);
            frame_record(start, (89 + path.len()) as u32, path, rest);
        }
        Ok(())
    }
}

impl<'a> SealRecord for IndexRecord<'a> {
    open spec fn frame(&self) -> Seq<u8> {
        self.encoded()
    }

    open spec fn refusal(&self) -> Option<CandidateSealError> {
        oid_error(self.blob_oid@)
    }

    open spec fn path_fits(&self) -> bool {
        encode_utf8(self.path@).len() <= 0xffff
    }

    fn put_record<S: SealSink>(&self, sink: &mut S) -> (r: Result<(), CandidateSealError>) {
        let ghost start = sink.taken();
        proof {
            assert(start + Seq::<u8>::empty() =~= start);
            appended_extends(start, Seq::empty());
        }
        if all_zero(self.blob_oid.as_slice()) {
            return Err(CandidateSealError::InvalidRecord);
        }
        let ghost path = path_bytes(self.path@);
        put_frame_start(sink, self.path, 31);
        let ghost head = sink.taken();
        let ghost rest = be32(REGULAR_MODE) + seq![0u8] + be32(0) + self.blob_oid@;
        put_u32(sink, REGULAR_MODE);
        put_byte(sink, 0);
        put_u32(sink, 0);
        sink.put(self.blob_oid.as_slice());
        proof {
            assert(sink.taken() =~= head + rest);
            frame_record(start, (29 + path.len()) as u32, path, rest);
        }
        Ok(())
    }
}

impl<'a> SealRecord for TreeRecord<'a> {
    open spec fn frame(&self) -> Seq<u8> {
        self.encoded()
    }

    open spec fn refusal(&self) -> Option<CandidateSealError> {
        first_error(oid_error(self.tree_oid@), raw_size_error(self.raw_size))
    }

    open spec fn path_fits(&self) -> bool {
        encode_utf8(self.path@).len() <= 0xffff
    }

    fn put_record<S: SealSink>(&self, sink: &mut S) -> (r: Result<(), CandidateSealError>) {
        let ghost start = sink.taken();
        proof {
            assert(start + Seq::<u8>::empty() =~= start);
            appended_extends(start, Seq::empty());
        }
        if all_zero(self.tree_oid.as_slice()) {
            return Err(CandidateSealError::InvalidRecord);
        }
        validate_raw_size(self.raw_size)?;
        let ghost path = path_bytes(self.path@);
        put_frame_start(sink, self.path, 62);
        let ghost head = sink.taken();
        let ghost rest = self.tree_oid@ + be64(self.raw_size) + self.raw_sha256@;
        sink.put(self.tree_oid.as_slice());
        put_u64(sink, self.raw_size);
        sink.put(self.raw_sha256.as_slice());
        proof {
            assert(sink.taken() =~= head + rest);
            frame_record(start, (60 + path.len()) as u32, path, rest);
        }
        Ok(())
    }
}

impl SealRecord for ObjectRecord {
    open spec fn frame(&self) -> Seq<u8> {
        self.encoded()
    }

    open spec fn refusal(&self) -> Option<CandidateSealError> {
        first_error(oid_error(self.oid@), raw_size_error(self.raw_size))
    }

    open spec fn path_fits(&self) -> bool {
        true
    }

    fn put_record<S: SealSink>(&self, sink: &mut S) -> (r: Result<(), CandidateSealError>) {
        let ghost start = sink.taken();
        proof {
            assert(start + Seq::<u8>::empty() =~= start);
            appended_extends(start, Seq::empty());
        }
        if all_zero(self.oid.as_slice()) {
            return Err(CandidateSealError::InvalidRecord);
        }
        validate_raw_size(self.raw_size)?;
        put_u32(sink, 61);
        sink.put(self.oid.as_slice());
        put_byte(sink, object_kind_tag(self.kind));
        put_u64(sink, self.raw_size);
        sink.put(self.raw_sha256.as_slice());
        proof {
            assert(sink.taken() =~= start + self.encoded());
            appended_extends(start, self.encoded());
        }
        Ok(())
    }
}

/// A loose object below `objects/`: a two-digit directory, or a file of 38 digits in one.
pub open spec fn loose_object_path(path: Seq<u8>, directory: bool) -> bool {
    &&& has_prefix(path, encode_utf8("objects/"@))
    &&& if directory {
        path.len() == 10 && all_lower_hex(path.subrange(8, 10))
    } else {
        &&& path.len() == 49
        &&& all_lower_hex(path.subrange(8, 10))
        &&& path[10] == SLASH
        &&& all_lower_hex(path.subrange(11, 49))
    }
}

/// Whether a path names a loose object or its directory.
pub fn validate_loose_object_path(path: &str, directory: bool) -> (r: bool)
    ensures
        r == loose_object_path(path.spec_bytes(), directory),
{
    let bytes = path.as_bytes();
    if !starts_with(bytes, "objects/".as_bytes()) {
        return false;
    }
    proof {
        reveal_strlit("objects/");
        is_ascii_chars_encode_utf8("objects/"@);
    }
    if directory {
        return bytes.len() == 10 && is_all_lower_hex(slice_subrange(bytes, 8, 10));
    }
    bytes.len() == 49 && is_all_lower_hex(slice_subrange(bytes, 8, 10)) && bytes[10] == SLASH && is_all_lower_hex(
        slice_subrange(bytes, 11, 49),
    )
}

/// A directory that every fresh repository has.
pub open spec fn structural_directory(path: Seq<char>) -> bool {
    ||| path == "objects"@
    ||| path == "objects/info"@
    ||| path == "objects/pack"@
    ||| path == "refs"@
    ||| path == "refs/heads"@
    ||| path == "refs/tags"@
}

/// The role of a control record fits its path and kind.
pub open spec fn control_role_fits(role: GitControlRole, path: Seq<char>, directory: bool) -> bool {
    match role {
        GitControlRole::Head => path == "HEAD"@ && !directory,
        GitControlRole::Config => path == "config"@ && !directory,
        GitControlRole::Index => path == "index"@ && !directory,
        GitControlRole::MainRef => path == "refs/heads/main"@ && !directory,
        GitControlRole::StructuralDirectory => directory && structural_directory(path),
        GitControlRole::EmptyHooks => path == "inex-empty-hooks"@ && directory,
        GitControlRole::LooseObject => loose_object_path(encode_utf8(path), directory),
    }
}

impl<'a> GitControlRecord<'a> {
    /// The record is of a directory.
    pub open spec fn is_directory(self) -> bool {
        self.kind is Directory
    }
}

/// Require the role of a control record to fit its path and kind.
pub fn validate_git_control_role(record: &GitControlRecord<'_>) -> (r: Result<(), CandidateSealError>)
    ensures
        r is Ok <==> control_role_fits(record.role, record.path@, record.is_directory()),
        r matches Err(error) ==> error == CandidateSealError::InvalidRecord,
{
    let directory = match record.kind {
        GitControlRecordKind::Directory(_) => true,
        GitControlRecordKind::File { .. } => false,
    };
    let path = record.path;
    let valid = match record.role {
        GitControlRole::Head => text_equal(path, "HEAD") && !directory,
        GitControlRole::Config => text_equal(path, "config") && !directory,
        GitControlRole::Index => text_equal(path, "index") && !directory,
        GitControlRole::MainRef => text_equal(path, "refs/heads/main") && !directory,
        GitControlRole::StructuralDirectory => directory && (text_equal(path, "objects") || text_equal(
            path,
            "objects/info",
        ) || text_equal(path, "objects/pack") || text_equal(path, "refs") || text_equal(path, "refs/heads")
            || text_equal(path, "refs/tags")),
        GitControlRole::EmptyHooks => text_equal(path, "inex-empty-hooks") && directory,
        GitControlRole::LooseObject => validate_loose_object_path(path, directory),
    };
    if valid {
        Ok(())
    } else {
        Err(CandidateSealError::InvalidRecord)
    }
}

impl<'a> SealRecord for GitControlRecord<'a> {
    open spec fn frame(&self) -> Seq<u8> {
        self.encoded()
    }

    open spec fn refusal(&self) -> Option<CandidateSealError> {
        if !control_role_fits(self.role, self.path@, self.is_directory()) {
            Some(CandidateSealError::InvalidRecord)
        } else {
            match self.kind {
                GitControlRecordKind::Directory(_) => None,
                GitControlRecordKind::File { size, .. } => raw_size_error(size),
            }
        }
    }

    open spec fn path_fits(&self) -> bool {
        encode_utf8(self.path@).len() <= 0xffff
    }

    fn put_record<S: SealSink>(&self, sink: &mut S) -> (r: Result<(), CandidateSealError>) {
        let ghost start = sink.taken();
        proof {
            assert(start + Seq::<u8>::empty() =~= start);
            appended_extends(start, Seq::empty());
        }
        validate_git_control_role(self)?;
        let ghost path = path_bytes(self.path@);
        put_frame_start(sink, self.path, 68);
        let ghost head = sink.taken();
        let ghost tag = seq![self.role.tag()];
        put_byte(sink, git_control_role_tag(self.role));
        proof {
            appended_extends(head, tag);
            extends_transitive(start, head, head + tag);
        }
        match self.kind {
            GitControlRecordKind::Directory(identity) => {
                put_directory(sink, identity.0);
                proof {
                    append_associative(head, tag, directory_bytes(identity.0));
                    frame_record(start, (66 + path.len()) as u32, path, tag + directory_bytes(identity.0));
                }
            },
            GitControlRecordKind::File { identity, size, sha256 } => {
                if size > MAX_BODY_BYTES {
                    return Err(CandidateSealError::ResourceLimit);
                }
                put_file(sink, identity.0, size, sha256);
                proof {
                    append_associative(head, tag, file_bytes(identity.0, size, sha256@));
                    frame_record(start, (66 + path.len()) as u32, path, tag + file_bytes(identity.0, size, sha256@));
                }
            },
        }
        Ok(())
    }
}

/// Some record is the managed metadata file of that name.
pub open spec fn metadata_present(records: Seq<WorktreeRecord>, n: int, name: Seq<char>) -> bool {
    exists|i: int|
        0 <= i < n && (#[trigger] records[i]).class == WorktreeClass::ManagedMetadata && records[i].path@ == name
}

/// Why the worktree section is refused, if it is: as any section, or because one of the three
/// metadata files is missing.
pub open spec fn worktree_error(records: Seq<WorktreeRecord>) -> Option<CandidateSealError> {
    first_error(
        section_error(records, MAX_TRACKED_RECORDS as nat, false, MAX_PATH_BYTES as nat),
        if metadata_present(records, records.len() as int, ".gitattributes"@) && metadata_present(
            records,
            records.len() as int,
            ".gitignore"@,
        ) && metadata_present(records, records.len() as int, "vault.json"@) {
            None
        } else {
            Some(CandidateSealError::InvalidRecord)
        },
    )
}

proof fn accepted_records<T: SealRecord>(records: Seq<T>, i: int)
    requires
        0 <= i <= records.len(),
        records_error(records, i) is None,
    ensures
        forall|j: int| i <= j < records.len() ==> (#[trigger] records[j]).refusal() is None,
    decreases records.len() - i,
{
    if i < records.len() {
        accepted_records(records, i + 1);
    }
}

/// Append the section of worktree records.
pub fn encode_worktree<S: SealSink>(sink: &mut S, records: &[WorktreeRecord<'_>]) -> (r: Result<(), CandidateSealError>)
    ensures
        r == verdict(worktree_error(records@)),
        r is Ok ==> final(sink).taken() == old(sink).taken() + section_bytes(
            2,
            records@.len(),
            records_bytes(records@, records@.len()),
        ),
        extends(old(sink).taken(), final(sink).taken()),
{
    encode_section(sink, 2, records, MAX_TRACKED_RECORDS, false, MAX_PATH_BYTES)?;
    proof {
        accepted_records(records@, 0);
    }
    let mut metadata = ManagedMetadata { attributes: false, ignore: false, vault: false };
    let mut i: usize = 0;
    while i < records.len()
        invariant
            i <= records.len(),
            path_records_error(records@, 0, false, MAX_PATH_BYTES as nat) is None,
            forall|j: int| 0 <= j < records.len() ==> (#[trigger] records@[j]).refusal() is None,
            metadata.attributes == metadata_present(records@, i as int, ".gitattributes"@),
            metadata.ignore == metadata_present(records@, i as int, ".gitignore"@),
            metadata.vault == metadata_present(records@, i as int, "vault.json"@),
        decreases records.len() - i,
    {
        proof {
            let record = records@[i as int];
            assert(record.refusal() is None);
            assert forall|name: Seq<char>| record.path@ == name implies !(#[trigger] metadata_present(
                records@,
                i as int,
                name,
            )) by {
                if metadata_present(records@, i as int, name) {
                    let j = choose|j: int|
                        0 <= j < i && (#[trigger] records@[j]).class == WorktreeClass::ManagedMetadata && records@[j].path@
                            == name;
                    accepted_paths_ascend(records@, false, MAX_PATH_BYTES as nat, j, i as int);
                    lex_less_irreflexive(encode_utf8(name));
                }
            }
            metadata_grows(records@, i as int, ".gitattributes"@);
            metadata_grows(records@, i as int, ".gitignore"@);
            metadata_grows(records@, i as int, "vault.json"@);
        }
        let checked = validate_worktree_class(&records[i], &mut metadata);
        assert(checked is Ok);
        i = i + 1;
    }
    if metadata.attributes && metadata.ignore && metadata.vault {
        Ok(())
    } else {
        Err(CandidateSealError::InvalidRecord)
    }
}

proof fn metadata_grows(records: Seq<WorktreeRecord>, i: int, name: Seq<char>)
    requires
        0 <= i < records.len(),
    ensures
        metadata_present(records, i + 1, name) == (metadata_present(records, i, name) || (records[i].class
            == WorktreeClass::ManagedMetadata && records[i].path@ == name)),
{
    if metadata_present(records, i, name) {
        let j = choose|j: int|
            0 <= j < i && (#[trigger] records[j]).class == WorktreeClass::ManagedMetadata && records[j].path@ == name;
        assert(records[j].class == WorktreeClass::ManagedMetadata);
    }
}

/// Append the section of index records.
pub fn encode_index<S: SealSink>(sink: &mut S, records: &[IndexRecord<'_>]) -> (r: Result<(), CandidateSealError>)
    ensures
        r == verdict(section_error(records@, MAX_TRACKED_RECORDS as nat, false, MAX_PATH_BYTES as nat)),
        r is Ok ==> final(sink).taken() == old(sink).taken() + section_bytes(
            4,
            records@.len(),
            records_bytes(records@, records@.len()),
        ),
        extends(old(sink).taken(), final(sink).taken()),
{
    encode_section(sink, 4, records, MAX_TRACKED_RECORDS, false, MAX_PATH_BYTES)
}

/// Append the section of tree records.
pub fn encode_trees<S: SealSink>(sink: &mut S, records: &[TreeRecord<'_>]) -> (r: Result<(), CandidateSealError>)
    ensures
        r == verdict(section_error(records@, MAX_PHYSICAL_RECORDS as nat, true, MAX_PATH_BYTES as nat)),
        r is Ok ==> final(sink).taken() == old(sink).taken() + section_bytes(
            5,
            records@.len(),
            records_bytes(records@, records@.len()),
        ),
        extends(old(sink).taken(), final(sink).taken()),
{
    encode_section(sink, 5, records, MAX_PHYSICAL_RECORDS, true, MAX_PATH_BYTES)
}

/// Append the section of Git control records.
pub fn encode_git_control<S: SealSink>(sink: &mut S, records: &[GitControlRecord<'_>]) -> (r: Result<
    (),
    CandidateSealError,
>)
    ensures
        r == verdict(section_error(records@, MAX_GIT_CONTROL_RECORDS as nat, false, MAX_PATH_BYTES as nat)),
        r is Ok ==> final(sink).taken() == old(sink).taken() + section_bytes(
            8,
            records@.len(),
            records_bytes(records@, records@.len()),
        ),
        extends(old(sink).taken(), final(sink).taken()),
{
    encode_section(sink, 8, records, MAX_GIT_CONTROL_RECORDS, false, MAX_PATH_BYTES)
}

/// Why the section of objects is refused, if it is.
pub open spec fn objects_error(records: Seq<ObjectRecord>) -> Option<CandidateSealError> {
    first_error(count_error(records.len(), MAX_OBJECT_RECORDS as nat), records_error(records, 0))
}

/// Append the section of object records.
pub fn encode_objects<S: SealSink>(sink: &mut S, records: &[ObjectRecord]) -> (r: Result<(), CandidateSealError>)
    ensures
        r == verdict(objects_error(records@)),
        r is Ok ==> final(sink).taken() == old(sink).taken() + section_bytes(
            7,
            records@.len(),
            records_bytes(records@, records@.len()),
        ),
        extends(old(sink).taken(), final(sink).taken()),
{
    let ghost start = sink.taken();
    let ghost header = section_bytes(7, records@.len(), Seq::empty());
    let ghost body = records_bytes(records@, records@.len());
    proof {
        assert(start + Seq::<u8>::empty() =~= start);
        appended_extends(start, Seq::empty());
        appended_extends(start, header);
        append_associative(start, header, body);
        assert(header + body =~= section_bytes(7, records@.len(), body));
    }
    section_header(sink, 7, records.len(), MAX_OBJECT_RECORDS)?;
    let ghost headed = sink.taken();
    let r = put_records(sink, records);
    proof {
        extends_transitive(start, headed, sink.taken());
    }
    r
}

/// Append the section with the one branch.
pub fn encode_head_refs<S: SealSink>(sink: &mut S, record: HeadRefsRecord)
    ensures
        final(sink).taken() == old(sink).taken() + section_bytes(3, 1, record.encoded()),
{
    let ghost start = sink.taken();
    proof {
        reveal_strlit("refs/heads/main");
        is_ascii_chars_encode_utf8("refs/heads/main"@);
    }
    section_header_infallible(sink, 3, 1);
    put_u32(sink, 63);
    put_byte(sink, 1);
    put_u16(sink, 15);
    sink.put("refs/heads/main".as_bytes());
    put_u32(sink, 1);
    put_u16(sink, 15);
    sink.put("refs/heads/main".as_bytes());
    sink.put(record.commit_oid.as_slice());
    put_u32(sink, 0);
    assert(sink.taken() =~= start + section_bytes(3, 1, record.encoded()));
}

/// Append the section with the root commit.
pub fn encode_root_commit<S: SealSink>(sink: &mut S, record: RootCommitRecord)
    ensures
        final(sink).taken() == old(sink).taken() + section_bytes(6, 1, record.encoded()),
{
    let ghost start = sink.taken();
    section_header_infallible(sink, 6, 1);
    put_u32(sink, 84);
    sink.put(record.commit_oid.as_slice());
    sink.put(record.tree_oid.as_slice());
    put_u32(sink, 0);
    put_u64(sink, record.raw_size);
    sink.put(record.raw_sha256.as_slice());
    assert(sink.taken() =~= start + section_bytes(6, 1, record.encoded()));
}

/// Append the section with the empty mutation lock.
pub fn encode_private_baseline<S: SealSink>(sink: &mut S, record: PrivateBaselineRecord)
    ensures
        final(sink).taken() == old(sink).taken() + section_bytes(9, 1, record.encoded()),
{
    let ghost start = sink.taken();
    proof {
        reveal_strlit("mutation.lock");
        is_ascii_chars_encode_utf8("mutation.lock"@);
    }
    section_header_infallible(sink, 9, 1);
    put_u32(sink, 80);
    put_u16(sink, 13);
    sink.put("mutation.lock".as_bytes());
    put_byte(sink, 2);
    sink.put(record.identity.0.bytes.as_slice());
    put_u64(sink, 0);
    let digest = empty_body_sha256();
    sink.put(digest.as_slice());
    assert(sink.taken() =~= start + section_bytes(9, 1, record.encoded()));
}

/// How many of the first `n` physical records are directories.
pub open spec fn directory_records(records: Seq<PhysicalRecord>, n: int) -> nat
    decreases n,
{
    if n <= 0 {
        0
    } else {
        directory_records(records, n - 1) + if records[n - 1].kind is Directory {
            1nat
        } else {
            0nat
        }
    }
}

fn count_directory_records(records: &[PhysicalRecord<'_>]) -> (count: usize)
    ensures
        count == directory_records(records@, records@.len() as int),
{
    let mut count: usize = 0;
    let mut i: usize = 0;
    while i < records.len()
        invariant
            i <= records.len(),
            count <= i,
            count == directory_records(records@, i as int),
        decreases records.len() - i,
    {
        if let PhysicalRecordKind::Directory(_) = records[i].kind {
            count = count + 1;
        }
        i = i + 1;
    }
    count
}

/// The sections agree in number and at their roots.
pub open spec fn manifest_shape(manifest: CandidateSealManifest) -> bool {
    &&& manifest.physical@.len() > 0
    &&& manifest.trees@.len() > 0
    &&& encode_utf8(manifest.physical@[0].path@).len() == 0
    &&& manifest.physical@[0].kind is Directory
    &&& encode_utf8(manifest.trees@[0].path@).len() == 0
    &&& manifest.trees@.len() <= directory_records(manifest.physical@, manifest.physical@.len() as int)
    &&& manifest.worktree@.len() == manifest.index@.len()
    &&& manifest.head_refs.commit_oid@ == manifest.root_commit.commit_oid@
    &&& manifest.trees@[0].tree_oid@ == manifest.root_commit.tree_oid@
}

/// Worktree and index hold the same paths with the same blobs.
pub open spec fn worktree_matches_index(manifest: CandidateSealManifest) -> bool {
    forall|i: int|
        0 <= i < manifest.worktree@.len() ==> (#[trigger] manifest.worktree@[i]).path@ == manifest.index@[i].path@
            && manifest.worktree@[i].blob_oid@ == manifest.index@[i].blob_oid@
}

/// Every identity is of the scheme of the seal.
pub open spec fn identities_match(scheme: PublicationIdentityScheme, manifest: CandidateSealManifest) -> bool {
    &&& forall|i: int|
        0 <= i < manifest.physical@.len() ==> (#[trigger] manifest.physical@[i]).seal_identity().scheme == scheme
    &&& forall|i: int| 0 <= i < manifest.worktree@.len() ==> (#[trigger] manifest.worktree@[i]).identity.0.scheme == scheme
    &&& forall|i: int|
        0 <= i < manifest.git_control@.len() ==> (#[trigger] manifest.git_control@[i]).seal_identity().scheme == scheme
    &&& manifest.private_baseline.identity.0.scheme == scheme
}

/// The objects are in strictly ascending order of their ids.
pub open spec fn objects_ascend(objects: Seq<ObjectRecord>) -> bool {
    forall|i: int| 0 < i < objects.len() ==> #[trigger] ascends_at(objects, i)
}

/// The id of an object is above the one before it.
pub open spec fn ascends_at(objects: Seq<ObjectRecord>, i: int) -> bool {
    lex_less(objects[i - 1].oid@, objects[i].oid@)
}

/// Some object has this id, kind, size and digest.
pub open spec fn object_listed(
    objects: Seq<ObjectRecord>,
    oid: Seq<u8>,
    kind: ObjectKind,
    size: u64,
    sha256: Seq<u8>,
) -> bool {
    exists|i: int|
        0 <= i < objects.len() && (#[trigger] objects[i]).oid@ == oid && objects[i].kind == kind && objects[i].raw_size
            == size && objects[i].raw_sha256@ == sha256
}

/// Why the references between sections and objects are refused, if they are.
pub open spec fn object_references_error(manifest: CandidateSealManifest) -> Option<CandidateSealError> {
    if !objects_ascend(manifest.objects@) {
        Some(CandidateSealError::NonCanonicalOrder)
    } else if (forall|i: int|
        0 <= i < manifest.worktree@.len() ==> {
            let record = #[trigger] manifest.worktree@[i];
            object_listed(manifest.objects@, record.blob_oid@, ObjectKind::Blob, record.size, record.sha256@)
        }) && (forall|i: int|
        0 <= i < manifest.trees@.len() ==> {
            let record = #[trigger] manifest.trees@[i];
            object_listed(manifest.objects@, record.tree_oid@, ObjectKind::Tree, record.raw_size, record.raw_sha256@)
        }) && object_listed(
        manifest.objects@,
        manifest.root_commit.commit_oid@,
        ObjectKind::Commit,
        manifest.root_commit.raw_size,
        manifest.root_commit.raw_sha256@,
    ) {
        None
    } else {
        Some(CandidateSealError::InvalidRecord)
    }
}

/// Why a manifest is refused before anything is encoded, if it is.
pub open spec fn manifest_error(scheme: PublicationIdentityScheme, manifest: CandidateSealManifest) -> Option<
    CandidateSealError,
> {
    if !manifest_shape(manifest) {
        Some(CandidateSealError::InvalidRecord)
    } else if raw_size_error(manifest.root_commit.raw_size) is Some {
        raw_size_error(manifest.root_commit.raw_size)
    } else if !worktree_matches_index(manifest) {
        Some(CandidateSealError::InvalidRecord)
    } else if !identities_match(scheme, manifest) {
        Some(CandidateSealError::InvalidContext)
    } else {
        object_references_error(manifest)
    }
}

/// Strictly ascending neighbours make a strictly ascending whole.
pub proof fn objects_ascend_apart(objects: Seq<ObjectRecord>, i: int, j: int)
    requires
        objects_ascend(objects),
        0 <= i < j < objects.len(),
    ensures
        lex_less(objects[i].oid@, objects[j].oid@),
    decreases j - i,
{
    assert(ascends_at(objects, j));
    if i + 1 < j {
        objects_ascend_apart(objects, i, j - 1);
        lex_less_transitive(objects[i].oid@, objects[j - 1].oid@, objects[j].oid@);
    }
}

/// Find an object by its id among ascending objects.
pub fn find_object_index(objects: &[ObjectRecord], oid: &[u8; 20]) -> (found: Option<usize>)
    requires
        objects_ascend(objects@),
    ensures
        found matches Some(i) ==> i < objects.len() && objects@[i as int].oid@ == oid@,
        found is None ==> forall|i: int| 0 <= i < objects.len() ==> (#[trigger] objects@[i]).oid@ != oid@,
{
    let mut low: usize = 0;
    let mut high: usize = objects.len();
    while low < high
        invariant
            low <= high <= objects.len(),
            objects_ascend(objects@),
            forall|i: int| 0 <= i < low ==> lex_less((#[trigger] objects@[i]).oid@, oid@),
            forall|i: int| high <= i < objects.len() ==> lex_less(oid@, (#[trigger] objects@[i]).oid@),
        decreases high - low,
    {
        let middle: usize = low + (high - low) / 2;
        let candidate = objects[middle].oid;
        if bytes_equal(candidate.as_slice(), oid.as_slice()) {
            return Some(middle);
        }
        if bytes_less(candidate.as_slice(), oid.as_slice()) {
            assert forall|i: int| 0 <= i < middle + 1 implies lex_less((#[trigger] objects@[i]).oid@, oid@) by {
                if i < middle {
                    objects_ascend_apart(objects@, i, middle as int);
                    lex_less_transitive(objects@[i].oid@, objects@[middle as int].oid@, oid@);
                }
            }
            low = middle + 1;
        } else {
            proof {
                lex_less_trichotomy(candidate@, oid@);
            }
            assert forall|i: int| middle <= i < objects.len() implies lex_less(oid@, (#[trigger] objects@[i]).oid@) by {
                if i > middle {
                    objects_ascend_apart(objects@, middle as int, i);
                    lex_less_transitive(oid@, objects@[middle as int].oid@, objects@[i].oid@);
                }
            }
            high = middle;
        }
    }
    assert forall|i: int| 0 <= i < objects.len() implies (#[trigger] objects@[i]).oid@ != oid@ by {
        lex_less_irreflexive(oid@);
        if i < low {
            assert(lex_less(objects@[i].oid@, oid@));
        } else {
            assert(lex_less(oid@, objects@[i].oid@));
        }
    }
    None
}

fn object_is_listed(objects: &[ObjectRecord], oid: &[u8; 20], kind: ObjectKind, size: u64, sha256: &[u8; 32]) -> (r: bool)
    requires
        objects_ascend(objects@),
    ensures
        r == object_listed(objects@, oid@, kind, size, sha256@),
{
    match find_object_index(objects, oid) {
        Some(i) => {
            let object = objects[i];
            let r = object.kind == kind && object.raw_size == size && bytes_equal(
                object.raw_sha256.as_slice(),
                sha256.as_slice(),
            );
            proof {
                if object_listed(objects@, oid@, kind, size, sha256@) {
                    let j = choose|j: int|
                        0 <= j < objects@.len() && (#[trigger] objects@[j]).oid@ == oid@ && objects@[j].kind == kind
                            && objects@[j].raw_size == size && objects@[j].raw_sha256@ == sha256@;
                    lex_less_irreflexive(oid@);
                    if j < i {
                        objects_ascend_apart(objects@, j, i as int);
                    } else if i < j {
                        objects_ascend_apart(objects@, i as int, j);
                    }
                }
                if r {
                    assert(objects@[i as int].oid@ == oid@);
                }
            }
            r
        },
        None => false,
    }
}

/// Require objects in ascending order, and every referenced object among them.
pub fn validate_object_references(manifest: &CandidateSealManifest<'_>) -> (r: Result<(), CandidateSealError>)
    ensures
        r == verdict(object_references_error(*manifest)),
{
    let objects = manifest.objects;
    let mut i: usize = 1;
    while i < objects.len()
        invariant
            1 <= i,
            objects@ == manifest.objects@,
            forall|k: int| 0 < k < i && k < objects.len() ==> #[trigger] ascends_at(objects@, k),
        decreases objects.len() - i,
    {
        if !bytes_less(objects[i - 1].oid.as_slice(), objects[i].oid.as_slice()) {
            assert(!ascends_at(objects@, i as int));
            return Err(CandidateSealError::NonCanonicalOrder);
        }
        i = i + 1;
    }
    assert(objects_ascend(objects@));
    let mut w: usize = 0;
    while w < manifest.worktree.len()
        invariant
            w <= manifest.worktree.len(),
            objects@ == manifest.objects@,
            objects_ascend(objects@),
            forall|k: int|
                0 <= k < w ==> {
                    let record = #[trigger] manifest.worktree@[k];
                    object_listed(manifest.objects@, record.blob_oid@, ObjectKind::Blob, record.size, record.sha256@)
                },
        decreases manifest.worktree.len() - w,
    {
        let record = manifest.worktree[w];
        if !object_is_listed(objects, &record.blob_oid, ObjectKind::Blob, record.size, &record.sha256) {
            assert(manifest.worktree@[w as int] == record);
            return Err(CandidateSealError::InvalidRecord);
        }
        w = w + 1;
    }
    let mut t: usize = 0;
    while t < manifest.trees.len()
        invariant
            t <= manifest.trees.len(),
            objects@ == manifest.objects@,
            objects_ascend(objects@),
            forall|k: int|
                0 <= k < t ==> {
                    let record = #[trigger] manifest.trees@[k];
                    object_listed(manifest.objects@, record.tree_oid@, ObjectKind::Tree, record.raw_size, record.raw_sha256@)
                },
        decreases manifest.trees.len() - t,
    {
        let record = manifest.trees[t];
        if !object_is_listed(objects, &record.tree_oid, ObjectKind::Tree, record.raw_size, &record.raw_sha256) {
            assert(manifest.trees@[t as int] == record);
            return Err(CandidateSealError::InvalidRecord);
        }
        t = t + 1;
    }
    let commit = manifest.root_commit;
    if !object_is_listed(objects, &commit.commit_oid, ObjectKind::Commit, commit.raw_size, &commit.raw_sha256) {
        return Err(CandidateSealError::InvalidRecord);
    }
    Ok(())
}

/// Require every identity to be of the scheme of the seal.
pub fn validate_identity_schemes(scheme: PublicationIdentityScheme, manifest: &CandidateSealManifest<'_>) -> (r: Result<
    (),
    CandidateSealError,
>)
    ensures
        r is Ok <==> identities_match(scheme, *manifest),
        r matches Err(error) ==> error == CandidateSealError::InvalidContext,
{
    let mut i: usize = 0;
    while i < manifest.physical.len()
        invariant
            i <= manifest.physical.len(),
            forall|k: int| 0 <= k < i ==> (#[trigger] manifest.physical@[k]).seal_identity().scheme == scheme,
        decreases manifest.physical.len() - i,
    {
        let identity = match manifest.physical[i].kind {
            PhysicalRecordKind::Directory(identity) => identity.0,
            PhysicalRecordKind::File { identity, .. } => identity.0,
        };
        if identity.scheme != scheme {
            assert(manifest.physical@[i as int].seal_identity().scheme != scheme);
            return Err(CandidateSealError::InvalidContext);
        }
        i = i + 1;
    }
    let mut w: usize = 0;
    while w < manifest.worktree.len()
        invariant
            w <= manifest.worktree.len(),
            forall|k: int| 0 <= k < w ==> (#[trigger] manifest.worktree@[k]).identity.0.scheme == scheme,
        decreases manifest.worktree.len() - w,
    {
        if manifest.worktree[w].identity.0.scheme != scheme {
            assert(manifest.worktree@[w as int].identity.0.scheme != scheme);
            return Err(CandidateSealError::InvalidContext);
        }
        w = w + 1;
    }
    let mut g: usize = 0;
    while g < manifest.git_control.len()
        invariant
            g <= manifest.git_control.len(),
            forall|k: int| 0 <= k < g ==> (#[trigger] manifest.git_control@[k]).seal_identity().scheme == scheme,
        decreases manifest.git_control.len() - g,
    {
        let identity = match manifest.git_control[g].kind {
            GitControlRecordKind::Directory(identity) => identity.0,
            GitControlRecordKind::File { identity, .. } => identity.0,
        };
        if identity.scheme != scheme {
            assert(manifest.git_control@[g as int].seal_identity().scheme != scheme);
            return Err(CandidateSealError::InvalidContext);
        }
        g = g + 1;
    }
    if manifest.private_baseline.identity.0.scheme != scheme {
        return Err(CandidateSealError::InvalidContext);
    }
    Ok(())
}

/// Require the sections of a manifest to agree with one another.
pub fn validate_manifest(scheme: PublicationIdentityScheme, manifest: &CandidateSealManifest<'_>) -> (r: Result<
    (),
    CandidateSealError,
>)
    ensures
        r == verdict(manifest_error(scheme, *manifest)),
{
    if manifest.physical.len() == 0 || manifest.trees.len() == 0 {
        return Err(CandidateSealError::InvalidRecord);
    }
    let rooted = match manifest.physical[0].kind {
        PhysicalRecordKind::Directory(_) => manifest.physical[0].path.as_bytes().len() == 0,
        PhysicalRecordKind::File { .. } => false,
    };
    if !rooted || manifest.trees[0].path.as_bytes().len() != 0 {
        return Err(CandidateSealError::InvalidRecord);
    }
    if manifest.trees.len() > count_directory_records(manifest.physical) || manifest.worktree.len() != manifest.index.len()
        || !bytes_equal(manifest.head_refs.commit_oid.as_slice(), manifest.root_commit.commit_oid.as_slice()) || !bytes_equal(
        manifest.trees[0].tree_oid.as_slice(),
        manifest.root_commit.tree_oid.as_slice(),
    ) {
        return Err(CandidateSealError::InvalidRecord);
    }
    assert(manifest_shape(*manifest));
    validate_raw_size(manifest.root_commit.raw_size)?;
    let mut i: usize = 0;
    while i < manifest.worktree.len()
        invariant
            i <= manifest.worktree.len(),
            manifest.worktree.len() == manifest.index.len(),
            manifest_shape(*manifest),
            raw_size_error(manifest.root_commit.raw_size) is None,
            forall|k: int|
                0 <= k < i ==> (#[trigger] manifest.worktree@[k]).path@ == manifest.index@[k].path@
                    && manifest.worktree@[k].blob_oid@ == manifest.index@[k].blob_oid@,
        decreases manifest.worktree.len() - i,
    {
        let worktree = manifest.worktree[i];
        let index = manifest.index[i];
        if !text_equal(worktree.path, index.path) || !bytes_equal(worktree.blob_oid.as_slice(), index.blob_oid.as_slice()) {
            assert(manifest.worktree@[i as int] == worktree);
            return Err(CandidateSealError::InvalidRecord);
        }
        i = i + 1;
    }
    assert(worktree_matches_index(*manifest));
    validate_identity_schemes(scheme, manifest)?;
    validate_object_references(manifest)
}

/// The first half of a stream: the prefix, the files on disk and in the worktree, and the branch.
pub open spec fn file_stream(context: CandidateSealContext, manifest: CandidateSealManifest) -> Seq<u8> {
    prefix_bytes(context)
        + section_bytes(1, manifest.physical@.len(), records_bytes(manifest.physical@, manifest.physical@.len()))
        + section_bytes(2, manifest.worktree@.len(), records_bytes(manifest.worktree@, manifest.worktree@.len()))
        + section_bytes(3, 1, manifest.head_refs.encoded())
        + section_bytes(4, manifest.index@.len(), records_bytes(manifest.index@, manifest.index@.len()))
}

/// The second half of a stream: the Git objects and control files, the lock, and the terminator.
pub open spec fn object_stream(manifest: CandidateSealManifest) -> Seq<u8> {
    section_bytes(5, manifest.trees@.len(), records_bytes(manifest.trees@, manifest.trees@.len()))
        + section_bytes(6, 1, manifest.root_commit.encoded())
        + section_bytes(7, manifest.objects@.len(), records_bytes(manifest.objects@, manifest.objects@.len()))
        + section_bytes(8, manifest.git_control@.len(), records_bytes(manifest.git_control@, manifest.git_control@.len()))
        + section_bytes(9, 1, manifest.private_baseline.encoded())
        + terminator_bytes()
}

/// The whole stream that a seal is the digest of.
pub open spec fn seal_stream(context: CandidateSealContext, manifest: CandidateSealManifest) -> Seq<u8> {
    file_stream(context, manifest) + object_stream(manifest)
}

/// Why the sections of the first half are refused, if they are.
pub open spec fn file_sections_error(manifest: CandidateSealManifest) -> Option<CandidateSealError> {
    first_error(
        physical_error(manifest.physical@),
        first_error(
            worktree_error(manifest.worktree@),
            section_error(manifest.index@, MAX_TRACKED_RECORDS as nat, false, MAX_PATH_BYTES as nat),
        ),
    )
}

/// Why the sections of the second half are refused, if they are.
pub open spec fn object_sections_error(manifest: CandidateSealManifest) -> Option<CandidateSealError> {
    first_error(
        section_error(manifest.trees@, MAX_PHYSICAL_RECORDS as nat, true, MAX_PATH_BYTES as nat),
        first_error(
            objects_error(manifest.objects@),
            section_error(manifest.git_control@, MAX_GIT_CONTROL_RECORDS as nat, false, MAX_PATH_BYTES as nat),
        ),
    )
}

/// Why a candidate gets no seal, if it gets none.
pub open spec fn seal_error(context: CandidateSealContext, manifest: CandidateSealManifest) -> Option<CandidateSealError> {
    if forall|i: int| 0 <= i < 16 ==> context.publication_id@[i] == 0 {
        Some(CandidateSealError::InvalidContext)
    } else {
        first_error(
            manifest_error(context.scheme, manifest),
            first_error(file_sections_error(manifest), object_sections_error(manifest)),
        )
    }
}

fn encode_prefix<S: SealSink>(sink: &mut S, context: CandidateSealContext)
    ensures
        final(sink).taken() == old(sink).taken() + prefix_bytes(context),
{
    let ghost start = sink.taken();
    proof {
        reveal_strlit("inex.repository-import.v1");
        is_ascii_chars_encode_utf8(DOMAIN@);
    }
    sink.put("INEXCS1\0".as_bytes());
    put_u16(sink, VERSION);
    put_u16(sink, context.scheme_wire_value);
    put_u16(sink, 25);
    sink.put(DOMAIN.as_bytes());
    sink.put(context.publication_id.as_slice());
    assert(sink.taken() =~= start + prefix_bytes(context));
}

#[verifier::rlimit(40)]
fn encode_file_sections<S: SealSink>(
    sink: &mut S,
    context: CandidateSealContext,
    manifest: &CandidateSealManifest<'_>,
) -> (r: Result<(), CandidateSealError>)
    ensures
        r == verdict(file_sections_error(*manifest)),
        r is Ok ==> final(sink).taken() == old(sink).taken() + file_stream(context, *manifest),
{
    let ghost start = sink.taken();
    encode_prefix(sink, context);
    encode_physical(sink, manifest.physical)?;
    encode_worktree(sink, manifest.worktree)?;
    encode_head_refs(sink, manifest.head_refs);
    encode_index(sink, manifest.index)?;
    proof {
        let p = prefix_bytes(context);
        let s1 = section_bytes(1, manifest.physical@.len(), records_bytes(manifest.physical@, manifest.physical@.len()));
        let s2 = section_bytes(2, manifest.worktree@.len(), records_bytes(manifest.worktree@, manifest.worktree@.len()));
        let s3 = section_bytes(3, 1, manifest.head_refs.encoded());
        let s4 = section_bytes(4, manifest.index@.len(), records_bytes(manifest.index@, manifest.index@.len()));
        append_parts(start, p, s1, s2, s3, s4);
    }
    Ok(())
}

#[verifier::rlimit(40)]
fn encode_object_sections<S: SealSink>(sink: &mut S, manifest: &CandidateSealManifest<'_>) -> (r: Result<
    (),
    CandidateSealError,
>)
    ensures
        r == verdict(object_sections_error(*manifest)),
        r is Ok ==> final(sink).taken() == old(sink).taken() + object_stream(*manifest),
{
    let ghost start = sink.taken();
    encode_trees(sink, manifest.trees)?;
    encode_root_commit(sink, manifest.root_commit);
    encode_objects(sink, manifest.objects)?;
    encode_git_control(sink, manifest.git_control)?;
    encode_private_baseline(sink, manifest.private_baseline);
    let terminator: [u8; 5] = [0xff, 0, 0, 0, 0];
    assert(terminator@ =~= terminator_bytes());
    sink.put(terminator.as_slice());
    proof {
        let s5 = section_bytes(5, manifest.trees@.len(), records_bytes(manifest.trees@, manifest.trees@.len()));
        let s6 = section_bytes(6, 1, manifest.root_commit.encoded());
        let s7 = section_bytes(7, manifest.objects@.len(), records_bytes(manifest.objects@, manifest.objects@.len()));
        let s8 = section_bytes(
            8,
            manifest.git_control@.len(),
            records_bytes(manifest.git_control@, manifest.git_control@.len()),
        );
        let s9 = section_bytes(9, 1, manifest.private_baseline.encoded());
        append_parts(start, s5, s6, s7, s8, s9);
        append_associative(start, s5 + s6 + s7 + s8 + s9, terminator_bytes());
    }
    Ok(())
}

/// Append the whole stream of a candidate, unless the candidate is refused.
pub fn encode_stream<S: SealSink>(
    sink: &mut S,
    context: CandidateSealContext,
    manifest: CandidateSealManifest<'_>,
) -> (r: Result<(), CandidateSealError>)
    ensures
        r == verdict(seal_error(context, manifest)),
        r is Ok ==> final(sink).taken() == old(sink).taken() + seal_stream(context, manifest),
{
    if all_zero(context.publication_id.as_slice()) {
        return Err(CandidateSealError::InvalidContext);
    }
    validate_manifest(context.scheme, &manifest)?;
    let ghost start = sink.taken();
    encode_file_sections(sink, context, &manifest)?;
    encode_object_sections(sink, &manifest)?;
    proof {
        append_associative(start, file_stream(context, manifest), object_stream(manifest));
    }
    Ok(())
}

/// Incrementally encode and hash one canonical repository candidate seal.
pub fn encode_candidate_seal_v1(context: CandidateSealContext, manifest: CandidateSealManifest<'_>) -> (r: Result<
    [u8; 32],
    CandidateSealError,
>)
    ensures
        match seal_error(context, manifest) {
            Some(error) => r == Err::<[u8; 32], CandidateSealError>(error),
            None => r matches Ok(digest) && digest@ == sha256_of(seal_stream(context, manifest)),
        },
{
    let mut sink = DigestSink(sha256_new());
    encode_stream(&mut sink, context, manifest)?;
    assert(sink.taken() =~= seal_stream(context, manifest));
    Ok(sha256_finalize(sink.0))
}

} // verus!
