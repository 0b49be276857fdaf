//! The stream of a seal can be read back: two candidates that both get a seal have one stream if
//! and only if they agree in every record.

use crate::identity::SealIdentity;
use crate::portable_path::MAX_PHYSICAL_PATH_BYTES;
use crate::seal::{
    accepted_paths, path_record_error, records_bytes, seal_error, seal_stream, section_error, PathRecord, SealRecord,
};
use crate::seal_records::{
    be16, be32, be64, directory_bytes, empty_sha256, file_bytes, framed, path_bytes, prefix_bytes, section_bytes, terminator_bytes,
    CandidateSealContext, CandidateSealManifest, GitControlRecord, GitControlRecordKind, HeadRefsRecord, IndexRecord,
    ObjectRecord, PhysicalRecord, PhysicalRecordKind, PrivateBaselineRecord, RootCommitRecord, TreeRecord, WorktreeRecord,
    DOMAIN, MAX_GIT_CONTROL_RECORDS, MAX_PATH_BYTES, MAX_PHYSICAL_RECORDS, MAX_TRACKED_RECORDS, REGULAR_MODE, VERSION,
};
use crate::text::encoding_is_injective;
use vstd::prelude::*;
use vstd::utf8::encode_utf8;

verus! {

/// Two parts of one length, each before some rest, are equal if the wholes are, and so are the
/// rests.
pub proof fn cut(a: Seq<u8>, x: Seq<u8>, b: Seq<u8>, y: Seq<u8>)
    requires
        a.len() == b.len(),
        a + x == b + y,
    ensures
        a == b,
        x == y,
{
    let whole = a + x;
    assert(a =~= whole.subrange(0, a.len() as int));
    assert(b =~= whole.subrange(0, a.len() as int));
    assert(x =~= whole.subrange(a.len() as int, whole.len() as int));
    assert(y =~= whole.subrange(a.len() as int, whole.len() as int));
}

proof fn be16_read_back(a: u16, b: u16)
    requires
        be16(a) == be16(b),
    ensures
        a == b,
{
    assert(be16(a)[0] == be16(b)[0]);
    assert(be16(a)[1] == be16(b)[1]);
}

proof fn be32_read_back(a: u32, b: u32)
    requires
        be32(a) == be32(b),
    ensures
        a == b,
{
    assert(be32(a)[0] == be32(b)[0]);
    assert(be32(a)[1] == be32(b)[1]);
    assert(be32(a)[2] == be32(b)[2]);
    assert(be32(a)[3] == be32(b)[3]);
}

proof fn be64_read_back(a: u64, b: u64)
    requires
        be64(a) == be64(b),
    ensures
        a == b,
{
    let high_a = (a / 0x1_0000_0000) as u32;
    let high_b = (b / 0x1_0000_0000) as u32;
    let low_a = (a % 0x1_0000_0000) as u32;
    let low_b = (b % 0x1_0000_0000) as u32;
    cut(be32(high_a), be32(low_a), be32(high_b), be32(low_b));
    be32_read_back(high_a, high_b);
    be32_read_back(low_a, low_b);
}

proof fn frame_cut(p: Seq<u8>, x: Seq<u8>, q: Seq<u8>, y: Seq<u8>)
    requires
        p.len() <= u32::MAX,
        q.len() <= u32::MAX,
        framed(p) + x == framed(q) + y,
    ensures
        p == q,
        x == y,
{
    let head_p = be32(p.len() as u32);
    let head_q = be32(q.len() as u32);
    assert(framed(p) + x =~= head_p + (p + x));
    assert(framed(q) + y =~= head_q + (q + y));
    cut(head_p, p + x, head_q, q + y);
    be32_read_back(p.len() as u32, q.len() as u32);
    cut(p, x, q, y);
}

proof fn path_cut(p: Seq<char>, x: Seq<u8>, q: Seq<char>, y: Seq<u8>)
    requires
        encode_utf8(p).len() <= 0xffff,
        encode_utf8(q).len() <= 0xffff,
        path_bytes(p) + x == path_bytes(q) + y,
    ensures
        p == q,
        x == y,
{
    let bytes_p = encode_utf8(p);
    let bytes_q = encode_utf8(q);
    let head_p = be16(bytes_p.len() as u16);
    let head_q = be16(bytes_q.len() as u16);
    assert(path_bytes(p) + x =~= head_p + (bytes_p + x));
    assert(path_bytes(q) + y =~= head_q + (bytes_q + y));
    cut(head_p, bytes_p + x, head_q, bytes_q + y);
    be16_read_back(bytes_p.len() as u16, bytes_q.len() as u16);
    cut(bytes_p, x, bytes_q, y);
    encoding_is_injective(p, q);
}

/// A record whose bytes can be read back.
pub trait ReadableRecord: SealRecord {
    /// The bytes in the frame of the record.
    spec fn payload(&self) -> Seq<u8>;

    /// Both records say the same.
    spec fn same_record(&self, other: &Self) -> bool;

    /// The frame holds the payload, whose length fits.
    proof fn frame_holds_payload(&self)
        ensures
            self.frame() == framed(self.payload()),
            self.path_fits() ==> self.payload().len() <= u32::MAX,
    ;

    /// One payload has one meaning, and one meaning has one payload.
    proof fn payload_read_back(&self, other: &Self)
        requires
            self.path_fits(),
            other.path_fits(),
        ensures
            self.payload() == other.payload() <==> self.same_record(other),
    ;
}

/// The bytes of a directory are those of another if and only if the identities are.
proof fn directory_read_back(a: SealIdentity, b: SealIdentity)
    ensures
        directory_bytes(a) == directory_bytes(b) <==> a.bytes@ == b.bytes@,
{
    let tag = seq![1u8];
    let rest = be64(0) + Seq::new(32, |i: int| 0u8);
    assert(directory_bytes(a) =~= tag + (a.bytes@ + rest));
    assert(directory_bytes(b) =~= tag + (b.bytes@ + rest));
    if directory_bytes(a) == directory_bytes(b) {
        cut(tag, a.bytes@ + rest, tag, b.bytes@ + rest);
        cut(a.bytes@, rest, b.bytes@, rest);
    }
}

/// The bytes of a file are those of another if and only if identity, size and digest are.
proof fn file_read_back(a: SealIdentity, size_a: u64, digest_a: Seq<u8>, b: SealIdentity, size_b: u64, digest_b: Seq<u8>)
    requires
        digest_a.len() == digest_b.len(),
    ensures
        file_bytes(a, size_a, digest_a) == file_bytes(b, size_b, digest_b) <==> a.bytes@ == b.bytes@ && size_a == size_b
            && digest_a == digest_b,
{
    let tag = seq![2u8];
    assert(file_bytes(a, size_a, digest_a) =~= tag + (a.bytes@ + (be64(size_a) + digest_a)));
    assert(file_bytes(b, size_b, digest_b) =~= tag + (b.bytes@ + (be64(size_b) + digest_b)));
    if file_bytes(a, size_a, digest_a) == file_bytes(b, size_b, digest_b) {
        cut(tag, a.bytes@ + (be64(size_a) + digest_a), tag, b.bytes@ + (be64(size_b) + digest_b));
        cut(a.bytes@, be64(size_a) + digest_a, b.bytes@, be64(size_b) + digest_b);
        cut(be64(size_a), digest_a, be64(size_b), digest_b);
        be64_read_back(size_a, size_b);
    }
}

/// A directory never has the bytes of a file.
proof fn directory_is_no_file(a: SealIdentity, b: SealIdentity, size: u64, digest: Seq<u8>)
    ensures
        directory_bytes(a) != file_bytes(b, size, digest),
{
    assert(directory_bytes(a)[0] == 1u8);
    assert(file_bytes(b, size, digest)[0] == 2u8);
}

/// Two kinds of physical records say the same.
pub open spec fn same_physical_kind(a: PhysicalRecordKind, b: PhysicalRecordKind) -> bool {
    match (a, b) {
        (PhysicalRecordKind::Directory(x), PhysicalRecordKind::Directory(y)) => x.0.bytes@ == y.0.bytes@,
        (
            PhysicalRecordKind::File { identity: x, size: m, sha256: d },
            PhysicalRecordKind::File { identity: y, size: n, sha256: e },
        ) => x.0.bytes@ == y.0.bytes@ && m == n && d@ == e@,
        _ => false,
    }
}

/// The bytes of the kind of a physical record.
pub open spec fn physical_kind_bytes(kind: PhysicalRecordKind) -> Seq<u8> {
    match kind {
        PhysicalRecordKind::Directory(identity) => directory_bytes(identity.0),
        PhysicalRecordKind::File { identity, size, sha256 } => file_bytes(identity.0, size, sha256@),
    }
}

impl<'a> ReadableRecord for PhysicalRecord<'a> {
    open spec fn payload(&self) -> Seq<u8> {
        path_bytes(self.path@) + physical_kind_bytes(self.kind)
    }

    open spec fn same_record(&self, other: &Self) -> bool {
        self.path@ == other.path@ && same_physical_kind(self.kind, other.kind)
    }

    proof fn frame_holds_payload(&self) {
    }

    proof fn payload_read_back(&self, other: &Self) {
        let a = physical_kind_bytes(self.kind);
        let b = physical_kind_bytes(other.kind);
        if self.payload() == other.payload() {
            path_cut(self.path@, a, other.path@, b);
        }
        match (self.kind, other.kind) {
            (PhysicalRecordKind::Directory(x), PhysicalRecordKind::Directory(y)) => {
                directory_read_back(x.0, y.0);
            },
            (
                PhysicalRecordKind::File { identity: x, size: m, sha256: d },
                PhysicalRecordKind::File { identity: y, size: n, sha256: e },
            ) => {
                file_read_back(x.0, m, d@, y.0, n, e@);
            },
            (PhysicalRecordKind::Directory(x), PhysicalRecordKind::File { identity, size, sha256 }) => {
                directory_is_no_file(x.0, identity.0, size, sha256@);
            },
            (PhysicalRecordKind::File { identity, size, sha256 }, PhysicalRecordKind::Directory(y)) => {
                directory_is_no_file(y.0, identity.0, size, sha256@);
            },
        }
    }
}

impl<'a> ReadableRecord for WorktreeRecord<'a> {
    open spec fn payload(&self) -> Seq<u8> {
        path_bytes(self.path@) + (seq![self.class.tag()] + be32(REGULAR_MODE) + self.identity.0.bytes@ + be64(self.size)
            + self.sha256@ + self.blob_oid@)
    }

    open spec fn same_record(&self, other: &Self) -> bool {
        self.path@ == other.path@ && self.class == other.class && self.identity.0.bytes@ == other.identity.0.bytes@
            && self.size == other.size && self.sha256@ == other.sha256@ && self.blob_oid@ == other.blob_oid@
    }

    proof fn frame_holds_payload(&self) {
    }

    proof fn payload_read_back(&self, other: &Self) {
        let mode = be32(REGULAR_MODE);
        let a5 = self.sha256@ + self.blob_oid@;
        let b5 = other.sha256@ + other.blob_oid@;
        let a4 = be64(self.size) + a5;
        let b4 = be64(other.size) + b5;
        let a3 = self.identity.0.bytes@ + a4;
        let b3 = other.identity.0.bytes@ + b4;
        let a2 = mode + a3;
        let b2 = mode + b3;
        let a1 = seq![self.class.tag()] + a2;
        let b1 = seq![other.class.tag()] + b2;
        assert(self.payload() =~= path_bytes(self.path@) + a1);
        assert(other.payload() =~= path_bytes(other.path@) + b1);
        if self.payload() == other.payload() {
            path_cut(self.path@, a1, other.path@, b1);
            cut(seq![self.class.tag()], a2, seq![other.class.tag()], b2);
            assert(seq![self.class.tag()][0] == seq![other.class.tag()][0]);
            cut(mode, a3, mode, b3);
            cut(self.identity.0.bytes@, a4, other.identity.0.bytes@, b4);
            cut(be64(self.size), a5, be64(other.size), b5);
            be64_read_back(self.size, other.size);
            cut(self.sha256@, self.blob_oid@, other.sha256@, other.blob_oid@);
        }
    }
}

impl<'a> ReadableRecord for IndexRecord<'a> {
    open spec fn payload(&self) -> Seq<u8> {
        path_bytes(self.path@) + (be32(REGULAR_MODE) + seq![0u8] + be32(0) + self.blob_oid@)
    }

    open spec fn same_record(&self, other: &Self) -> bool {
        self.path@ == other.path@ && self.blob_oid@ == other.blob_oid@
    }

    proof fn frame_holds_payload(&self) {
    }

    proof fn payload_read_back(&self, other: &Self) {
        let head = be32(REGULAR_MODE) + seq![0u8] + be32(0);
        if self.payload() == other.payload() {
            path_cut(self.path@, head + self.blob_oid@, other.path@, head + other.blob_oid@);
            cut(head, self.blob_oid@, head, other.blob_oid@);
        }
    }
}

impl<'a> ReadableRecord for TreeRecord<'a> {
    open spec fn payload(&self) -> Seq<u8> {
        path_bytes(self.path@) + (self.tree_oid@ + be64(self.raw_size) + self.raw_sha256@)
    }

    open spec fn same_record(&self, other: &Self) -> bool {
        self.path@ == other.path@ && self.tree_oid@ == other.tree_oid@ && self.raw_size == other.raw_size && self.raw_sha256@
            == other.raw_sha256@
    }

    proof fn frame_holds_payload(&self) {
    }

    proof fn payload_read_back(&self, other: &Self) {
        let a = be64(self.raw_size) + self.raw_sha256@;
        let b = be64(other.raw_size) + other.raw_sha256@;
        assert(self.payload() =~= path_bytes(self.path@) + (self.tree_oid@ + a));
        assert(other.payload() =~= path_bytes(other.path@) + (other.tree_oid@ + b));
        if self.payload() == other.payload() {
            path_cut(self.path@, self.tree_oid@ + a, other.path@, other.tree_oid@ + b);
            cut(self.tree_oid@, a, other.tree_oid@, b);
            cut(be64(self.raw_size), self.raw_sha256@, be64(other.raw_size), other.raw_sha256@);
            be64_read_back(self.raw_size, other.raw_size);
        }
    }
}

impl ReadableRecord for ObjectRecord {
    open spec fn payload(&self) -> Seq<u8> {
        self.oid@ + seq![self.kind.tag()] + be64(self.raw_size) + self.raw_sha256@
    }

    open spec fn same_record(&self, other: &Self) -> bool {
        self.same(*other)
    }

    proof fn frame_holds_payload(&self) {
    }

    proof fn payload_read_back(&self, other: &Self) {
        let a2 = be64(self.raw_size) + self.raw_sha256@;
        let b2 = be64(other.raw_size) + other.raw_sha256@;
        let a1 = seq![self.kind.tag()] + a2;
        let b1 = seq![other.kind.tag()] + b2;
        assert(self.payload() =~= self.oid@ + a1);
        assert(other.payload() =~= other.oid@ + b1);
        if self.payload() == other.payload() {
            cut(self.oid@, a1, other.oid@, b1);
            cut(seq![self.kind.tag()], a2, seq![other.kind.tag()], b2);
            assert(seq![self.kind.tag()][0] == seq![other.kind.tag()][0]);
            cut(be64(self.raw_size), self.raw_sha256@, be64(other.raw_size), other.raw_sha256@);
            be64_read_back(self.raw_size, other.raw_size);
        }
    }
}

/// Two kinds of control records say the same.
pub open spec fn same_control_kind(a: GitControlRecordKind, b: GitControlRecordKind) -> bool {
    match (a, b) {
        (GitControlRecordKind::Directory(x), GitControlRecordKind::Directory(y)) => x.0.bytes@ == y.0.bytes@,
        (
            GitControlRecordKind::File { identity: x, size: m, sha256: d },
            GitControlRecordKind::File { identity: y, size: n, sha256: e },
        ) => x.0.bytes@ == y.0.bytes@ && m == n && d@ == e@,
        _ => false,
    }
}

/// The bytes of the kind of a control record.
pub open spec fn control_kind_bytes(kind: GitControlRecordKind) -> Seq<u8> {
    match kind {
        GitControlRecordKind::Directory(identity) => directory_bytes(identity.0),
        GitControlRecordKind::File { identity, size, sha256 } => file_bytes(identity.0, size, sha256@),
    }
}

impl<'a> ReadableRecord for GitControlRecord<'a> {
    open spec fn payload(&self) -> Seq<u8> {
        path_bytes(self.path@) + (seq![self.role.tag()] + control_kind_bytes(self.kind))
    }

    open spec fn same_record(&self, other: &Self) -> bool {
        self.path@ == other.path@ && self.role == other.role && same_control_kind(self.kind, other.kind)
    }

    proof fn frame_holds_payload(&self) {
    }

    proof fn payload_read_back(&self, other: &Self) {
        let a = control_kind_bytes(self.kind);
        let b = control_kind_bytes(other.kind);
        if self.payload() == other.payload() {
            path_cut(self.path@, seq![self.role.tag()] + a, other.path@, seq![other.role.tag()] + b);
            cut(seq![self.role.tag()], a, seq![other.role.tag()], b);
            assert(seq![self.role.tag()][0] == seq![other.role.tag()][0]);
        }
        match (self.kind, other.kind) {
            (GitControlRecordKind::Directory(x), GitControlRecordKind::Directory(y)) => {
                directory_read_back(x.0, y.0);
            },
            (
                GitControlRecordKind::File { identity: x, size: m, sha256: d },
                GitControlRecordKind::File { identity: y, size: n, sha256: e },
            ) => {
                file_read_back(x.0, m, d@, y.0, n, e@);
            },
            (GitControlRecordKind::Directory(x), GitControlRecordKind::File { identity, size, sha256 }) => {
                directory_is_no_file(x.0, identity.0, size, sha256@);
            },
            (GitControlRecordKind::File { identity, size, sha256 }, GitControlRecordKind::Directory(y)) => {
                directory_is_no_file(y.0, identity.0, size, sha256@);
            },
        }
    }
}

/// Two lists say the same, record by record.
pub open spec fn same_records<T: ReadableRecord>(a: Seq<T>, b: Seq<T>) -> bool {
    a.len() == b.len() && forall|i: int| 0 <= i < a.len() ==> (#[trigger] a[i]).same_record(&b[i])
}

/// Every path of a list fits.
pub open spec fn all_fit<T: ReadableRecord>(records: Seq<T>) -> bool {
    forall|i: int| 0 <= i < records.len() ==> (#[trigger] records[i]).path_fits()
}

/// The first records of two lists, each before some rest, say the same if the wholes are equal,
/// and the rests are equal.
proof fn records_cut<T: ReadableRecord>(a: Seq<T>, x: Seq<u8>, b: Seq<T>, y: Seq<u8>, n: nat)
    requires
        all_fit(a),
        all_fit(b),
        n <= a.len(),
        n <= b.len(),
        records_bytes(a, n) + x == records_bytes(b, n) + y,
    ensures
        forall|i: int| 0 <= i < n ==> (#[trigger] a[i]).same_record(&b[i]),
        x == y,
    decreases n,
{
    if n == 0 {
        assert(records_bytes(a, n) + x =~= x);
        assert(records_bytes(b, n) + y =~= y);
    } else {
        let k = (n - 1) as nat;
        let last_a = a[k as int];
        let last_b = b[k as int];
        assert(records_bytes(a, n) + x =~= records_bytes(a, k) + (last_a.frame() + x));
        assert(records_bytes(b, n) + y =~= records_bytes(b, k) + (last_b.frame() + y));
        records_cut(a, last_a.frame() + x, b, last_b.frame() + y, k);
        last_a.frame_holds_payload();
        last_b.frame_holds_payload();
        frame_cut(last_a.payload(), x, last_b.payload(), y);
        last_a.payload_read_back(&last_b);
    }
}

/// Lists that say the same have the same bytes.
proof fn same_records_same_bytes<T: ReadableRecord>(a: Seq<T>, b: Seq<T>, n: nat)
    requires
        all_fit(a),
        all_fit(b),
        same_records(a, b),
        n <= a.len(),
    ensures
        records_bytes(a, n) == records_bytes(b, n),
    decreases n,
{
    if n > 0 {
        let k = (n - 1) as nat;
        same_records_same_bytes(a, b, k);
        a[k as int].frame_holds_payload();
        b[k as int].frame_holds_payload();
        a[k as int].payload_read_back(&b[k as int]);
    }
}

/// A section of a stream.
pub open spec fn section_of<T: ReadableRecord>(tag: u8, records: Seq<T>) -> Seq<u8> {
    section_bytes(tag, records.len(), records_bytes(records, records.len()))
}

/// Two sections of one tag, each before some rest, are equal if and only if they say the same.
proof fn section_cut<T: ReadableRecord>(tag: u8, a: Seq<T>, x: Seq<u8>, b: Seq<T>, y: Seq<u8>)
    requires
        all_fit(a),
        all_fit(b),
        a.len() <= u32::MAX,
        b.len() <= u32::MAX,
    ensures
        section_of(tag, a) + x == section_of(tag, b) + y <==> same_records(a, b) && x == y,
{
    let body_a = records_bytes(a, a.len());
    let body_b = records_bytes(b, b.len());
    let count_a = be32(a.len() as u32);
    let count_b = be32(b.len() as u32);
    if section_of(tag, a) + x == section_of(tag, b) + y {
        assert(section_of(tag, a) + x =~= seq![tag] + (count_a + (body_a + x)));
        assert(section_of(tag, b) + y =~= seq![tag] + (count_b + (body_b + y)));
        cut(seq![tag], count_a + (body_a + x), seq![tag], count_b + (body_b + y));
        cut(count_a, body_a + x, count_b, body_b + y);
        be32_read_back(a.len() as u32, b.len() as u32);
        records_cut(a, x, b, y, a.len());
    }
    if same_records(a, b) {
        same_records_same_bytes(a, b, a.len());
    }
}

proof fn same_frames(p: Seq<u8>, q: Seq<u8>)
    requires
        p.len() == q.len(),
    ensures
        framed(p) == framed(q) <==> p == q,
{
    if framed(p) == framed(q) {
        cut(be32(p.len() as u32), p, be32(q.len() as u32), q);
    }
}

/// Two branches have the same bytes if and only if they are at one commit.
proof fn head_refs_read_back(a: HeadRefsRecord, b: HeadRefsRecord)
    ensures
        a.encoded().len() == b.encoded().len(),
        a.encoded() == b.encoded() <==> a.commit_oid@ == b.commit_oid@,
{
    let head = seq![1u8] + path_bytes("refs/heads/main"@) + be32(1) + path_bytes("refs/heads/main"@);
    let p = head + a.commit_oid@ + be32(0);
    let q = head + b.commit_oid@ + be32(0);
    assert(a.encoded() == framed(p));
    assert(b.encoded() == framed(q));
    same_frames(p, q);
    if p == q {
        assert(p =~= head + (a.commit_oid@ + be32(0)));
        assert(q =~= head + (b.commit_oid@ + be32(0)));
        cut(head, a.commit_oid@ + be32(0), head, b.commit_oid@ + be32(0));
        cut(a.commit_oid@, be32(0), b.commit_oid@, be32(0));
    }
}

/// Two root commits say the same.
pub open spec fn same_root_commit(a: RootCommitRecord, b: RootCommitRecord) -> bool {
    a.commit_oid@ == b.commit_oid@ && a.tree_oid@ == b.tree_oid@ && a.raw_size == b.raw_size && a.raw_sha256@ == b.raw_sha256@
}

proof fn root_commit_read_back(a: RootCommitRecord, b: RootCommitRecord)
    ensures
        a.encoded().len() == b.encoded().len(),
        a.encoded() == b.encoded() <==> same_root_commit(a, b),
{
    let p3 = be64(a.raw_size) + a.raw_sha256@;
    let q3 = be64(b.raw_size) + b.raw_sha256@;
    let p = a.commit_oid@ + (a.tree_oid@ + (be32(0) + p3));
    let q = b.commit_oid@ + (b.tree_oid@ + (be32(0) + q3));
    assert(a.commit_oid@ + a.tree_oid@ + be32(0) + be64(a.raw_size) + a.raw_sha256@ =~= p);
    assert(b.commit_oid@ + b.tree_oid@ + be32(0) + be64(b.raw_size) + b.raw_sha256@ =~= q);
    same_frames(p, q);
    if p == q {
        cut(a.commit_oid@, a.tree_oid@ + (be32(0) + p3), b.commit_oid@, b.tree_oid@ + (be32(0) + q3));
        cut(a.tree_oid@, be32(0) + p3, b.tree_oid@, be32(0) + q3);
        cut(be32(0), p3, be32(0), q3);
        cut(be64(a.raw_size), a.raw_sha256@, be64(b.raw_size), b.raw_sha256@);
        be64_read_back(a.raw_size, b.raw_size);
    }
}

proof fn baseline_read_back(a: PrivateBaselineRecord, b: PrivateBaselineRecord)
    ensures
        a.encoded().len() == b.encoded().len(),
        a.encoded() == b.encoded() <==> a.identity.0.bytes@ == b.identity.0.bytes@,
{
    let digest = empty_sha256();
    let head = path_bytes("mutation.lock"@);
    let p = file_bytes(a.identity.0, 0, digest);
    let q = file_bytes(b.identity.0, 0, digest);
    same_frames(head + p, head + q);
    file_read_back(a.identity.0, 0, digest, b.identity.0, 0, digest);
    if head + p == head + q {
        cut(head, p, head, q);
    }
}

/// Two parts of one length before some rest.
proof fn fixed_cut(tag: u8, a: Seq<u8>, x: Seq<u8>, b: Seq<u8>, y: Seq<u8>)
    requires
        a.len() == b.len(),
    ensures
        section_bytes(tag, 1, a) + x == section_bytes(tag, 1, b) + y <==> a == b && x == y,
{
    let head = seq![tag] + be32(1);
    if section_bytes(tag, 1, a) + x == section_bytes(tag, 1, b) + y {
        assert(section_bytes(tag, 1, a) + x =~= head + (a + x));
        assert(section_bytes(tag, 1, b) + y =~= head + (b + y));
        cut(head, a + x, head, b + y);
        cut(a, x, b, y);
    }
}

/// Two manifests say the same in every record of every section.
pub open spec fn same_manifest(a: CandidateSealManifest, b: CandidateSealManifest) -> bool {
    &&& same_records(a.physical@, b.physical@)
    &&& same_records(a.worktree@, b.worktree@)
    &&& a.head_refs.commit_oid@ == b.head_refs.commit_oid@
    &&& same_records(a.index@, b.index@)
    &&& same_records(a.trees@, b.trees@)
    &&& same_root_commit(a.root_commit, b.root_commit)
    &&& same_records(a.objects@, b.objects@)
    &&& same_records(a.git_control@, b.git_control@)
    &&& a.private_baseline.identity.0.bytes@ == b.private_baseline.identity.0.bytes@
}

/// Every section can be read back.
pub open spec fn readable(m: CandidateSealManifest) -> bool {
    &&& all_fit(m.physical@) && m.physical@.len() <= u32::MAX
    &&& all_fit(m.worktree@) && m.worktree@.len() <= u32::MAX
    &&& all_fit(m.index@) && m.index@.len() <= u32::MAX
    &&& all_fit(m.trees@) && m.trees@.len() <= u32::MAX
    &&& all_fit(m.objects@) && m.objects@.len() <= u32::MAX
    &&& all_fit(m.git_control@) && m.git_control@.len() <= u32::MAX
}

proof fn accepted_section_fits<T: PathRecord + ReadableRecord>(records: Seq<T>, maximum: nat, allow_root: bool, bound: nat)
    requires
        section_error(records, maximum, allow_root, bound) is None,
        bound <= 0xffff,
        maximum <= u32::MAX,
        forall|i: int|
            0 <= i < records.len() ==> (#[trigger] records[i]).path_fits() == (encode_utf8(records[i].path_text()).len()
                <= 0xffff),
    ensures
        all_fit(records),
        records.len() <= u32::MAX,
{
    accepted_paths(records, 0, allow_root, bound);
    assert forall|i: int| 0 <= i < records.len() implies (#[trigger] records[i]).path_fits() by {
        assert(path_record_error(records, i, allow_root, bound) is None);
    }
}

/// A candidate that gets a seal can be read back.
pub proof fn sealed_is_readable(context: CandidateSealContext, m: CandidateSealManifest)
    requires
        seal_error(context, m) is None,
    ensures
        readable(m),
{
    accepted_section_fits(
        m.physical@,
        MAX_PHYSICAL_RECORDS as nat,
        true,
        MAX_PHYSICAL_PATH_BYTES as nat,
    );
    let path = MAX_PATH_BYTES as nat;
    accepted_section_fits(m.worktree@, MAX_TRACKED_RECORDS as nat, false, path);
    accepted_section_fits(m.index@, MAX_TRACKED_RECORDS as nat, false, path);
    accepted_section_fits(m.trees@, MAX_PHYSICAL_RECORDS as nat, true, path);
    accepted_section_fits(m.git_control@, MAX_GIT_CONTROL_RECORDS as nat, false, path);
}

/// The sections from the last on, each with what follows it.
pub open spec fn tail9(m: CandidateSealManifest) -> Seq<u8> {
    section_bytes(9, 1, m.private_baseline.encoded()) + terminator_bytes()
}

pub open spec fn tail7(m: CandidateSealManifest) -> Seq<u8> {
    section_of(7, m.objects@) + (section_of(8, m.git_control@) + tail9(m))
}

pub open spec fn tail5(m: CandidateSealManifest) -> Seq<u8> {
    section_of(5, m.trees@) + (section_bytes(6, 1, m.root_commit.encoded()) + tail7(m))
}

pub open spec fn tail3(m: CandidateSealManifest) -> Seq<u8> {
    section_bytes(3, 1, m.head_refs.encoded()) + (section_of(4, m.index@) + tail5(m))
}

pub open spec fn tail1(m: CandidateSealManifest) -> Seq<u8> {
    section_of(1, m.physical@) + (section_of(2, m.worktree@) + tail3(m))
}

proof fn five_parts(a: Seq<u8>, b: Seq<u8>, c: Seq<u8>, d: Seq<u8>, e: Seq<u8>, x: Seq<u8>)
    ensures
        a + b + c + d + e + x == a + (b + (c + (d + (e + x)))),
{
    assert(a + b + c + d + e + x =~= a + (b + (c + (d + (e + x)))));
}

/// A stream is its prefix, and then section by section.
proof fn stream_in_parts(context: CandidateSealContext, m: CandidateSealManifest)
    ensures
        seal_stream(context, m) == prefix_bytes(context) + tail1(m),
{
    five_parts(
        section_of(5, m.trees@),
        section_bytes(6, 1, m.root_commit.encoded()),
        section_of(7, m.objects@),
        section_of(8, m.git_control@),
        section_bytes(9, 1, m.private_baseline.encoded()),
        terminator_bytes(),
    );
    five_parts(
        prefix_bytes(context),
        section_of(1, m.physical@),
        section_of(2, m.worktree@),
        section_bytes(3, 1, m.head_refs.encoded()),
        section_of(4, m.index@),
        tail5(m),
    );
}

/// Two prefixes are equal if and only if scheme and publication id are.
proof fn prefix_read_back(a: CandidateSealContext, b: CandidateSealContext)
    ensures
        prefix_bytes(a).len() == prefix_bytes(b).len(),
        prefix_bytes(a) == prefix_bytes(b) <==> a.scheme_wire_value == b.scheme_wire_value && a.publication_id@
            == b.publication_id@,
{
    let head = encode_utf8("INEXCS1\0"@) + be16(VERSION);
    let domain = path_bytes(DOMAIN@);
    let rest_a = domain + a.publication_id@;
    let rest_b = domain + b.publication_id@;
    assert(prefix_bytes(a) =~= head + (be16(a.scheme_wire_value) + rest_a));
    assert(prefix_bytes(b) =~= head + (be16(b.scheme_wire_value) + rest_b));
    if prefix_bytes(a) == prefix_bytes(b) {
        cut(head, be16(a.scheme_wire_value) + rest_a, head, be16(b.scheme_wire_value) + rest_b);
        cut(be16(a.scheme_wire_value), rest_a, be16(b.scheme_wire_value), rest_b);
        be16_read_back(a.scheme_wire_value, b.scheme_wire_value);
        cut(domain, a.publication_id@, domain, b.publication_id@);
    }
}

proof fn tails_read_back(a: CandidateSealManifest, b: CandidateSealManifest)
    requires
        readable(a),
        readable(b),
    ensures
        tail1(a) == tail1(b) <==> same_manifest(a, b),
{
    head_refs_read_back(a.head_refs, b.head_refs);
    root_commit_read_back(a.root_commit, b.root_commit);
    baseline_read_back(a.private_baseline, b.private_baseline);
    fixed_cut(9, a.private_baseline.encoded(), terminator_bytes(), b.private_baseline.encoded(), terminator_bytes());
    section_cut(8, a.git_control@, tail9(a), b.git_control@, tail9(b));
    section_cut(
        7,
        a.objects@,
        section_of(8, a.git_control@) + tail9(a),
        b.objects@,
        section_of(8, b.git_control@) + tail9(b),
    );
    fixed_cut(6, a.root_commit.encoded(), tail7(a), b.root_commit.encoded(), tail7(b));
    section_cut(
        5,
        a.trees@,
        section_bytes(6, 1, a.root_commit.encoded()) + tail7(a),
        b.trees@,
        section_bytes(6, 1, b.root_commit.encoded()) + tail7(b),
    );
    section_cut(4, a.index@, tail5(a), b.index@, tail5(b));
    fixed_cut(
        3,
        a.head_refs.encoded(),
        section_of(4, a.index@) + tail5(a),
        b.head_refs.encoded(),
        section_of(4, b.index@) + tail5(b),
    );
    section_cut(2, a.worktree@, tail3(a), b.worktree@, tail3(b));
    section_cut(
        1,
        a.physical@,
        section_of(2, a.worktree@) + tail3(a),
        b.physical@,
        section_of(2, b.worktree@) + tail3(b),
    );
}

/// Two candidates that both get a seal have one stream if and only if they have the same scheme
/// and publication id and agree in every record of every section. No two candidates share a
/// stream, and a candidate has no second one.
pub proof fn streams_tell_candidates_apart(
    context: CandidateSealContext,
    manifest: CandidateSealManifest,
    other_context: CandidateSealContext,
    other: CandidateSealManifest,
)
    requires
        seal_error(context, manifest) is None,
        seal_error(other_context, other) is None,
    ensures
        seal_stream(context, manifest) == seal_stream(other_context, other) <==> {
            &&& context.scheme_wire_value == other_context.scheme_wire_value
            &&& context.publication_id@ == other_context.publication_id@
            &&& same_manifest(manifest, other)
        },
{
    sealed_is_readable(context, manifest);
    sealed_is_readable(other_context, other);
    stream_in_parts(context, manifest);
    stream_in_parts(other_context, other);
    prefix_read_back(context, other_context);
    tails_read_back(manifest, other);
    if seal_stream(context, manifest) == seal_stream(other_context, other) {
        cut(prefix_bytes(context), tail1(manifest), prefix_bytes(other_context), tail1(other));
    }
}

} // verus!
