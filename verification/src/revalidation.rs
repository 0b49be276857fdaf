//! Reading physical manifests, and walking a target again against one.
//!
//! A walk keeps one bit for each record, so that it holds no second list of paths: the target
//! is what the manifest says when every entry met is a record, no record is met twice, and none
//! is left out.

use crate::bytes::{bytes_equal, lex_less, lex_less_irreflexive, lex_less_transitive, lex_less_trichotomy, parts_below};
use crate::errors::{CandidateSealError, RepositoryImportError};
use crate::identity::{
    CandidateDirectoryIdentity, CandidateFileIdentity, FilesystemDirectoryIdentity, FilesystemFileIdentity,
    PublicationIdentityScheme,
};
use crate::manifest::{
    paths_ascend, record_path_total, AuditedPhysicalKind, AuditedPhysicalRecord, MarkerFreePhysicalManifest,
    PhysicalRecordId, PhysicalRecordRef, MAX_PHYSICAL_DEPTH, MAX_PHYSICAL_PATH_BUDGET,
};
use crate::portable_path::{MAX_PHYSICAL_PATH_BYTES, SLASH};
use crate::seal_records::{PhysicalRecord, PhysicalRecordKind, PrivateBaselineRecord};
use crate::text::encoding_is_injective;
use std::cmp::Ordering;
use vstd::prelude::*;
use vstd::string::*;
use vstd::utf8::encode_utf8;

verus! {

/// How one path stands to another.
#[derive(Clone, Copy, Debug, PartialEq, Eq, Structural)]
pub enum PathOrder {
    Before,
    Same,
    After,
}

/// The path of a child: its name behind the parent's path, with a slash between unless the
/// parent is the root.
pub open spec fn child_path(parent: Seq<u8>, name: Seq<u8>) -> Seq<u8> {
    if parent.len() == 0 {
        name
    } else {
        parent + seq![SLASH] + name
    }
}

/// How a path stands to another, in bytes.
pub open spec fn path_order(a: Seq<u8>, b: Seq<u8>) -> PathOrder {
    if lex_less(a, b) {
        PathOrder::Before
    } else if a == b {
        PathOrder::Same
    } else {
        PathOrder::After
    }
}

/// Hold a record's path against the path of a child, without putting the latter together.
pub fn order_to_child(record_path: &str, parent_path: &str, child_name: &str) -> (order: PathOrder)
    ensures
        order == path_order(record_path.spec_bytes(), child_path(parent_path.spec_bytes(), child_name.spec_bytes())),
{
    let record = record_path.as_bytes();
    let parent = parent_path.as_bytes();
    let name = child_name.as_bytes();
    let ghost child = child_path(parent@, name@);
    let mut i: usize = 0;
    loop
        invariant
            i <= record.len(),
            i <= child.len(),
            child == child_path(parent@, name@),
            record@ == record_path.spec_bytes(),
            parent@ == parent_path.spec_bytes(),
            name@ == child_name.spec_bytes(),
            forall|k: int| 0 <= k < i ==> record@[k] == child[k],
        decreases record.len() - i,
    {
        let at_end: bool = if parent.len() == 0 {
            i == name.len()
        } else {
            i > parent.len() && i - parent.len() - 1 == name.len()
        };
        assert(at_end == (i == child.len()));
        if at_end {
            if i == record.len() {
                assert(record@ =~= child);
                proof {
                    lex_less_irreflexive(child);
                }
                return PathOrder::Same;
            }
            assert(parts_below(child, record@, i as int));
            proof {
                lex_less_trichotomy(record@, child);
                lex_less_irreflexive(child);
            }
            return PathOrder::After;
        }
        if i == record.len() {
            assert(parts_below(record@, child, i as int));
            return PathOrder::Before;
        }
        let expected: u8 = if parent.len() == 0 {
            name[i]
        } else if i < parent.len() {
            parent[i]
        } else if i == parent.len() {
            SLASH
        } else {
            name[i - parent.len() - 1]
        };
        assert(expected == child[i as int]);
        if record[i] < expected {
            assert(parts_below(record@, child, i as int));
            return PathOrder::Before;
        }
        if expected < record[i] {
            assert(parts_below(child, record@, i as int));
            proof {
                lex_less_trichotomy(record@, child);
                lex_less_irreflexive(child);
            }
            return PathOrder::After;
        }
        i = i + 1;
    }
}

/// The standard ordering of a record's path against the path of a child.
pub fn compare_record_path_to_child(record_path: &str, parent_path: &str, child_name: &str) -> (order: Ordering)
    ensures
        order == match path_order(
            record_path.spec_bytes(),
            child_path(parent_path.spec_bytes(), child_name.spec_bytes()),
        ) {
            PathOrder::Before => Ordering::Less,
            PathOrder::Same => Ordering::Equal,
            PathOrder::After => Ordering::Greater,
        },
{
    match order_to_child(record_path, parent_path, child_name) {
        PathOrder::Before => Ordering::Less,
        PathOrder::Same => Ordering::Equal,
        PathOrder::After => Ordering::Greater,
    }
}

/// The place of a child among ascending records.
fn find_child(records: &Vec<AuditedPhysicalRecord>, parent_path: &str, child_name: &str) -> (found: Option<usize>)
    requires
        paths_ascend(records@),
    ensures
        found matches Some(i) ==> i < records@.len() && encode_utf8(records@[i as int].path@) == child_path(
            parent_path.spec_bytes(),
            child_name.spec_bytes(),
        ),
        found is None ==> forall|i: int|
            0 <= i < records@.len() ==> encode_utf8((#[trigger] records@[i]).path@) != child_path(
                parent_path.spec_bytes(),
                child_name.spec_bytes(),
            ),
{
    let ghost child = child_path(parent_path.spec_bytes(), child_name.spec_bytes());
    let mut low: usize = 0;
    let mut high: usize = records.len();
    while low < high
        invariant
            paths_ascend(records@),
            child == child_path(parent_path.spec_bytes(), child_name.spec_bytes()),
            low <= high <= records@.len(),
            forall|k: int| 0 <= k < low ==> lex_less(encode_utf8(#[trigger] records@[k].path@), child),
            forall|k: int| high <= k < records@.len() ==> lex_less(child, encode_utf8(#[trigger] records@[k].path@)),
        decreases high - low,
    {
        let middle: usize = low + (high - low) / 2;
        let ghost found = encode_utf8(records@[middle as int].path@);
        match order_to_child(records[middle].path.as_str(), parent_path, child_name) {
            PathOrder::Same => {
                return Some(middle);
            },
            PathOrder::Before => {
                assert forall|k: int| 0 <= k < middle + 1 implies lex_less(encode_utf8(#[trigger] records@[k].path@), child) by {
                    if k < middle {
                        assert(lex_less(encode_utf8(records@[k].path@), encode_utf8(records@[middle as int].path@)));
                        lex_less_transitive(encode_utf8(records@[k].path@), found, child);
                    }
                }
                low = middle + 1;
            },
            PathOrder::After => {
                proof {
                    lex_less_trichotomy(found, child);
                }
                assert forall|k: int| middle <= k < records@.len() implies lex_less(
                    child,
                    encode_utf8(#[trigger] records@[k].path@),
                ) by {
                    if k > middle {
                        assert(lex_less(encode_utf8(records@[middle as int].path@), encode_utf8(records@[k].path@)));
                        lex_less_transitive(child, found, encode_utf8(records@[k].path@));
                    }
                }
                high = middle;
            },
        }
    }
    assert forall|i: int| 0 <= i < records@.len() implies encode_utf8((#[trigger] records@[i]).path@) != child by {
        lex_less_irreflexive(child);
        if i < low {
            assert(lex_less(encode_utf8(records@[i].path@), child));
        } else {
            assert(lex_less(child, encode_utf8(records@[i].path@)));
        }
    }
    None
}

/// Seal roles projected from one audited physical manifest.
pub struct CandidatePhysicalProjection<'a> {
    pub physical: Vec<PhysicalRecord<'a>>,
    pub private_baseline: PrivateBaselineRecord,
}

/// The scheme of the identity in a record.
pub open spec fn record_scheme(kind: AuditedPhysicalKind) -> PublicationIdentityScheme {
    match kind {
        AuditedPhysicalKind::Directory(identity) => identity.scheme,
        AuditedPhysicalKind::File { identity, .. } => identity.scheme,
    }
}

/// A seal record says what a manifest record says.
pub open spec fn projects(sealed: PhysicalRecord, record: AuditedPhysicalRecord) -> bool {
    &&& sealed.path@ == record.path@
    &&& match record.kind {
        AuditedPhysicalKind::Directory(identity) => {
            sealed.kind matches PhysicalRecordKind::Directory(bound) && bound.0.scheme == identity.scheme && bound.0.bytes
                == identity.wire
        },
        AuditedPhysicalKind::File { identity, size, sha256 } => {
            sealed.kind matches PhysicalRecordKind::File { identity: bound, size: s, sha256: d } && bound.0.scheme
                == identity.scheme && bound.0.bytes == identity.wire && s == size && d == sha256
        },
    }
}

/// How many of the first `n` records are directories.
pub open spec fn directories_before(records: Seq<AuditedPhysicalRecord>, n: int) -> nat
    decreases n,
{
    if n <= 0 {
        0
    } else {
        directories_before(records, n - 1) + if records[n - 1].kind is Directory {
            1nat
        } else {
            0nat
        }
    }
}

impl MarkerFreePhysicalManifest {
    /// The identity of the target root.
    pub fn root_identity(&self) -> (identity: &FilesystemDirectoryIdentity)
        ensures
            *identity == self.root_identity,
    {
        &self.root_identity
    }

    /// The identity of the private directory.
    pub fn local_identity(&self) -> (identity: &FilesystemDirectoryIdentity)
        ensures
            *identity == self.local_identity,
    {
        &self.local_identity
    }

    /// The identity of the mutation lock.
    pub fn lock_identity(&self) -> (identity: &FilesystemFileIdentity)
        ensures
            *identity == self.lock_identity,
    {
        &self.lock_identity
    }

    /// The record with a given id.
    pub fn record(&self, id: PhysicalRecordId) -> (r: Option<PhysicalRecordRef<'_>>)
        ensures
            r is Some <==> id.0 < self.records@.len(),
            r matches Some(record) ==> record.id == id && record.path@ == self.records@[id.0 as int].path@ && record.kind
                == self.records@[id.0 as int].kind,
    {
        if id.0 < self.records.len() {
            let record = &self.records[id.0];
            Some(PhysicalRecordRef { id, path: record.path.as_str(), kind: record.kind })
        } else {
            None
        }
    }

    /// The record with a given path.
    pub fn find(&self, path: &str) -> (r: Option<PhysicalRecordRef<'_>>)
        requires
            self.wf(),
        ensures
            r is Some <==> exists|i: int| 0 <= i < self.records@.len() && (#[trigger] self.records@[i]).path@ == path@,
            r matches Some(record) ==> {
                &&& record.id.0 < self.records@.len()
                &&& record.path@ == path@
                &&& self.records@[record.id.0 as int].path@ == path@
                &&& record.kind == self.records@[record.id.0 as int].kind
            },
    {
        proof {
            assert forall|i: int| 0 <= i < self.records@.len() implies (encode_utf8((#[trigger] self.records@[i]).path@)
                == path.spec_bytes()) == (self.records@[i].path@ == path@) by {
                encoding_is_injective(self.records@[i].path@, path@);
            }
            reveal_strlit("");
            assert(""@ =~= Seq::<char>::empty());
            assert(child_path("".spec_bytes(), path.spec_bytes()) == path.spec_bytes());
        }
        match find_child(&self.records, "", path) {
            Some(i) => {
                let record = &self.records[i];
                assert(self.records@[i as int].path@ == path@);
                Some(PhysicalRecordRef { id: PhysicalRecordId(i), path: record.path.as_str(), kind: record.kind })
            },
            None => None,
        }
    }

    /// Number of directory records, the target root among them.
    pub fn directory_count(&self) -> (count: usize)
        ensures
            count == directories_before(self.records@, self.records@.len() as int),
    {
        let mut count: usize = 0;
        let mut i: usize = 0;
        while i < self.records.len()
            invariant
                i <= self.records@.len(),
                count <= i,
                count == directories_before(self.records@, i as int),
            decreases self.records@.len() - i,
        {
            if let AuditedPhysicalKind::Directory(_) = self.records[i].kind {
                count = count + 1;
            }
            i = i + 1;
        }
        count
    }

    /// Path bytes that the manifest retains.
    pub fn retained_path_bytes(&self) -> (total: usize)
        requires
            self.wf(),
        ensures
            total == record_path_total(self.records@, self.records@.len() as int),
    {
        let mut total: usize = 0;
        let mut i: usize = 0;
        while i < self.records.len()
            invariant
                i <= self.records@.len(),
                total == record_path_total(self.records@, i as int),
                record_path_total(self.records@, self.records@.len() as int) <= usize::MAX,
            decreases self.records@.len() - i,
        {
            proof {
                record_path_total_monotone(self.records@, i + 1, self.records@.len() as int);
            }
            total = total + self.records[i].path.as_str().as_bytes().len();
            i = i + 1;
        }
        total
    }

    /// Bind all identities to the scheme of a seal.
    pub fn project(&self, scheme: PublicationIdentityScheme) -> (r: Result<CandidatePhysicalProjection<'_>, CandidateSealError>)
        ensures
            r is Ok <==> self.lock_identity.scheme == scheme && forall|i: int|
                0 <= i < self.records@.len() ==> record_scheme((#[trigger] self.records@[i]).kind) == scheme,
            r matches Err(error) ==> error == CandidateSealError::InvalidContext,
            r matches Ok(projection) ==> {
                &&& projection.physical@.len() == self.records@.len()
                &&& forall|i: int|
                    0 <= i < self.records@.len() ==> projects(#[trigger] projection.physical@[i], self.records@[i])
                &&& projection.private_baseline.identity.0.scheme == scheme
                &&& projection.private_baseline.identity.0.bytes == self.lock_identity.wire
            },
    {
        let mut physical: Vec<PhysicalRecord<'_>> = Vec::new();
        let mut i: usize = 0;
        while i < self.records.len()
            invariant
                i <= self.records@.len(),
                physical@.len() == i,
                forall|k: int| 0 <= k < i ==> record_scheme((#[trigger] self.records@[k]).kind) == scheme,
                forall|k: int| 0 <= k < i ==> projects(#[trigger] physical@[k], self.records@[k]),
            decreases self.records@.len() - i,
        {
            let record = &self.records[i];
            let kind = match record.kind {
                AuditedPhysicalKind::Directory(identity) => {
                    match CandidateDirectoryIdentity::from_observed(&identity, scheme) {
                        Ok(bound) => PhysicalRecordKind::Directory(bound),
                        Err(error) => {
                            assert(record_scheme(self.records@[i as int].kind) != scheme);
                            return Err(error);
                        },
                    }
                },
                AuditedPhysicalKind::File { identity, size, sha256 } => {
                    match CandidateFileIdentity::from_observed(&identity, scheme) {
                        Ok(bound) => PhysicalRecordKind::File { identity: bound, size, sha256 },
                        Err(error) => {
                            assert(record_scheme(self.records@[i as int].kind) != scheme);
                            return Err(error);
                        },
                    }
                },
            };
            physical.push(PhysicalRecord { path: record.path.as_str(), kind });
            i = i + 1;
        }
        let lock = CandidateFileIdentity::from_observed(&self.lock_identity, scheme)?;
        Ok(CandidatePhysicalProjection { physical, private_baseline: PrivateBaselineRecord { identity: lock } })
    }
}

proof fn record_path_total_monotone(records: Seq<AuditedPhysicalRecord>, m: int, n: int)
    requires
        0 <= m <= n,
    ensures
        record_path_total(records, m) <= record_path_total(records, n),
    decreases n,
{
    if m < n {
        record_path_total_monotone(records, m, n - 1);
    }
}

/// The bit of record `i` is set.
pub open spec fn seen_in(words: Seq<u64>, i: int) -> bool {
    0 <= i && i / 64 < words.len() && (words[i / 64] >> ((i % 64) as u64)) & 1 == 1
}

/// Set the bit of a record that was not met before.
pub fn mark_physical_record_seen(seen: &mut Vec<u64>, id: PhysicalRecordId) -> (r: Result<(), RepositoryImportError>)
    ensures
        r is Ok <==> id.0 / 64 < old(seen)@.len() && !seen_in(old(seen)@, id.0 as int),
        r matches Err(error) ==> error == RepositoryImportError::TargetAuditFailed && final(seen)@ == old(seen)@,
        final(seen)@.len() == old(seen)@.len(),
        r is Ok ==> forall|i: int| #[trigger]
            seen_in(final(seen)@, i) == (i == id.0 || seen_in(old(seen)@, i)),
{
    let word: usize = id.0 / 64;
    if word >= seen.len() {
        return Err(RepositoryImportError::TargetAuditFailed);
    }
    let shift: u64 = (id.0 % 64) as u64;
    let value: u64 = seen[word];
    if (value >> shift) & 1 == 1 {
        return Err(RepositoryImportError::TargetAuditFailed);
    }
    let marked: u64 = value | (1u64 << shift);
    let ghost before = seen@;
    seen.set(word, marked);
    proof {
        assert((marked >> shift) & 1 == 1) by (bit_vector)
            requires
                shift < 64,
                marked == value | (1u64 << shift),
        ;
        assert((value >> shift) & 1 != 1 ==> !((value >> shift) & 1 == 1));
        assert forall|i: int| #[trigger] seen_in(seen@, i) == (i == id.0 || seen_in(before, i)) by {
            if 0 <= i && i / 64 == word {
                let other: u64 = (i % 64) as u64;
                if i != id.0 {
                    assert(other != shift) by {
                        assert(i == 64 * (i / 64) + i % 64);
                        assert(id.0 == 64 * (id.0 / 64) + id.0 % 64);
                    }
                    assert((marked >> other) & 1 == (value >> other) & 1) by (bit_vector)
                        requires
                            shift < 64,
                            other < 64,
                            other != shift,
                            marked == value | (1u64 << shift),
                    ;
                }
            }
        }
    }
    Ok(())
}

/// How many of the first `n` records were met.
pub open spec fn seen_count(words: Seq<u64>, n: int) -> nat
    decreases n,
{
    if n <= 0 {
        0
    } else {
        seen_count(words, n - 1) + if seen_in(words, n - 1) {
            1nat
        } else {
            0nat
        }
    }
}

/// The path bytes of the records among the first `n` that were met.
pub open spec fn seen_path_total(words: Seq<u64>, records: Seq<AuditedPhysicalRecord>, n: int) -> nat
    decreases n,
{
    if n <= 0 {
        0
    } else {
        seen_path_total(words, records, n - 1) + if seen_in(words, n - 1) {
            encode_utf8(records[n - 1].path@).len()
        } else {
            0nat
        }
    }
}

/// Meeting one more record raises the count by one, and the bytes by its path.
proof fn marking_counts(before: Seq<u64>, after: Seq<u64>, records: Seq<AuditedPhysicalRecord>, id: int, n: int)
    requires
        0 <= id,
        !seen_in(before, id),
        forall|i: int| #[trigger] seen_in(after, i) == (i == id || seen_in(before, i)),
    ensures
        seen_count(after, n) == seen_count(before, n) + if id < n {
            1nat
        } else {
            0nat
        },
        seen_path_total(after, records, n) == seen_path_total(before, records, n) + if id < n {
            encode_utf8(records[id].path@).len()
        } else {
            0nat
        },
    decreases n,
{
    if n > 0 {
        marking_counts(before, after, records, id, n - 1);
        assert(seen_in(after, n - 1) == (n - 1 == id || seen_in(before, n - 1)));
    }
}

/// No more records can be met than there are; all are met exactly when the count says so.
pub proof fn full_count_means_all(words: Seq<u64>, n: int)
    requires
        0 <= n,
    ensures
        seen_count(words, n) <= n,
        seen_count(words, n) == n <==> forall|i: int| 0 <= i < n ==> #[trigger] seen_in(words, i),
    decreases n,
{
    if n > 0 {
        full_count_means_all(words, n - 1);
    }
}

/// When all records were met, so were all their bytes.
proof fn full_bytes(words: Seq<u64>, records: Seq<AuditedPhysicalRecord>, n: int)
    requires
        0 <= n <= records.len(),
        forall|i: int| 0 <= i < n ==> #[trigger] seen_in(words, i),
    ensures
        seen_path_total(words, records, n) == record_path_total(records, n),
    decreases n,
{
    if n > 0 {
        full_bytes(words, records, n - 1);
        assert(seen_in(words, n - 1));
    }
}

proof fn nothing_seen(words: Seq<u64>, records: Seq<AuditedPhysicalRecord>, n: int)
    requires
        forall|i: int| !(#[trigger] seen_in(words, i)),
    ensures
        seen_count(words, n) == 0,
        seen_path_total(words, records, n) == 0,
    decreases n,
{
    if n > 0 {
        nothing_seen(words, records, n - 1);
        assert(!seen_in(words, n - 1));
    }
}

/// A walk over a target that is held against a manifest.
pub struct PhysicalWalk {
    pub seen: Vec<u64>,
    pub observed_records: usize,
    pub observed_path_bytes: usize,
}

impl PhysicalWalk {
    /// The counters say what the bits say, and only records of the manifest are marked.
    pub open spec fn wf(self, manifest: MarkerFreePhysicalManifest) -> bool {
        &&& self.seen@.len() * 64 >= manifest.records@.len()
        &&& self.observed_records == seen_count(self.seen@, manifest.records@.len() as int)
        &&& self.observed_path_bytes == seen_path_total(self.seen@, manifest.records@, manifest.records@.len() as int)
        &&& self.observed_path_bytes <= MAX_PHYSICAL_PATH_BUDGET
    }

    /// The record was met.
    pub open spec fn met(self, id: PhysicalRecordId) -> bool {
        seen_in(self.seen@, id.0 as int)
    }
}

proof fn zero_word_has_no_bit(shift: u64)
    requires
        shift < 64,
    ensures
        (0u64 >> shift) & 1 != 1,
{
    assert((0u64 >> shift) & 1 != 1) by (bit_vector)
        requires
            shift < 64,
    ;
}

/// Begin a walk at the root, which must be the manifest's.
pub fn begin_current_walk(manifest: &MarkerFreePhysicalManifest, observed_root: &FilesystemDirectoryIdentity) -> (r: Result<
    PhysicalWalk,
    RepositoryImportError,
>)
    requires
        manifest.wf(),
    ensures
        r is Ok <==> observed_root.same(manifest.root_identity) && manifest.records@.len() + 63 <= usize::MAX,
        r matches Err(error) ==> error == if observed_root.same(manifest.root_identity) {
            RepositoryImportError::ResourceLimit
        } else {
            RepositoryImportError::TargetAuditFailed
        },
        r matches Ok(walk) ==> walk.wf(*manifest) && walk.observed_path_bytes == 0 && forall|id: PhysicalRecordId| #[trigger]
            walk.met(id) == (id.0 == 0),
{
    if !observed_root.matches(&manifest.root_identity) {
        return Err(RepositoryImportError::TargetAuditFailed);
    }
    let words: usize = match manifest.records.len().checked_add(63) {
        Some(total) => total / 64,
        None => {
            return Err(RepositoryImportError::ResourceLimit);
        },
    };
    let mut seen: Vec<u64> = Vec::new();
    let mut i: usize = 0;
    while i < words
        invariant
            i <= words,
            seen@.len() == i,
            forall|k: int| 0 <= k < i ==> #[trigger] seen@[k] == 0,
        decreases words - i,
    {
        seen.push(0);
        i = i + 1;
    }
    assert forall|k: int| !(#[trigger] seen_in(seen@, k)) by {
        if 0 <= k && k / 64 < seen@.len() {
            zero_word_has_no_bit((k % 64) as u64);
            assert(seen@[k / 64] == 0);
        }
    }
    let ghost before = seen@;
    let marked = mark_physical_record_seen(&mut seen, PhysicalRecordId(0));
    assert(marked is Ok);
    proof {
        nothing_seen(before, manifest.records@, manifest.records@.len() as int);
        marking_counts(before, seen@, manifest.records@, 0, manifest.records@.len() as int);
        assert(encode_utf8(manifest.records@[0].path@).len() == 0);
    }
    let walk = PhysicalWalk { seen, observed_records: 1, observed_path_bytes: 0 };
    assert forall|id: PhysicalRecordId| #[trigger] walk.met(id) == (id.0 == 0) by {
        assert(seen_in(walk.seen@, id.0 as int) == (id.0 == 0 || seen_in(before, id.0 as int)));
    }
    Ok(walk)
}

/// Why a directory may not be entered, if it may not.
pub open spec fn enter_error(manifest: MarkerFreePhysicalManifest, parent: PhysicalRecordId, depth: usize) -> Option<
    RepositoryImportError,
> {
    if depth > MAX_PHYSICAL_DEPTH {
        Some(RepositoryImportError::ResourceLimit)
    } else if parent.0 >= manifest.records@.len() || !(manifest.records@[parent.0 as int].kind is Directory) {
        Some(RepositoryImportError::TargetAuditFailed)
    } else {
        None
    }
}

/// Record `i` is the child of that name below `parent`.
pub open spec fn child_at(manifest: MarkerFreePhysicalManifest, parent: PhysicalRecordId, name: Seq<u8>, i: int) -> bool {
    0 <= i < manifest.records@.len() && encode_utf8(manifest.records@[i].path@) == child_path(
        encode_utf8(manifest.records@[parent.0 as int].path@),
        name,
    )
}

impl PhysicalWalk {
    /// Why record `i` may not be met now, if it may not.
    pub open spec fn visit_refusal(self, manifest: MarkerFreePhysicalManifest, i: int) -> Option<RepositoryImportError> {
        let length = encode_utf8(manifest.records@[i].path@).len();
        if length > MAX_PHYSICAL_PATH_BYTES {
            Some(RepositoryImportError::ResourceLimit)
        } else if seen_in(self.seen@, i) {
            Some(RepositoryImportError::TargetAuditFailed)
        } else if self.observed_path_bytes + length > MAX_PHYSICAL_PATH_BUDGET {
            Some(RepositoryImportError::ResourceLimit)
        } else {
            None
        }
    }

    /// Require a directory to be one that the walk may enter.
    pub fn enter_directory(&self, manifest: &MarkerFreePhysicalManifest, parent: PhysicalRecordId, depth: usize) -> (r: Result<
        (),
        RepositoryImportError,
    >)
        requires
            self.wf(*manifest),
        ensures
            match enter_error(*manifest, parent, depth) {
                Some(error) => r == Err::<(), RepositoryImportError>(error),
                None => r is Ok,
            },
    {
        proof {
            full_count_means_all(self.seen@, manifest.records@.len() as int);
        }
        if depth > MAX_PHYSICAL_DEPTH || self.observed_records > manifest.records.len() {
            return Err(RepositoryImportError::ResourceLimit);
        }
        if parent.0 >= manifest.records.len() {
            return Err(RepositoryImportError::TargetAuditFailed);
        }
        match manifest.records[parent.0].kind {
            AuditedPhysicalKind::Directory(_) => Ok(()),
            AuditedPhysicalKind::File { .. } => Err(RepositoryImportError::TargetAuditFailed),
        }
    }

    /// Meet one entry of a directory: it must be a record that was not met before.
    pub fn visit_child(&mut self, manifest: &MarkerFreePhysicalManifest, parent: PhysicalRecordId, name: &str) -> (r: Result<
        PhysicalRecordId,
        RepositoryImportError,
    >)
        requires
            manifest.wf(),
            old(self).wf(*manifest),
            parent.0 < manifest.records@.len(),
        ensures
            r matches Ok(id) ==> {
                &&& final(self).wf(*manifest)
                &&& child_at(*manifest, parent, name.spec_bytes(), id.0 as int)
                &&& !old(self).met(id)
                &&& forall|other: PhysicalRecordId| #[trigger]
                    final(self).met(other) == (other == id || old(self).met(other))
                &&& final(self).observed_path_bytes == old(self).observed_path_bytes + encode_utf8(
                    manifest.records@[id.0 as int].path@,
                ).len()
            },
            forall|i: int| #[trigger]
                child_at(*manifest, parent, name.spec_bytes(), i) ==> match old(self).visit_refusal(*manifest, i) {
                    Some(error) => r == Err::<PhysicalRecordId, RepositoryImportError>(error),
                    None => r matches Ok(id) && id.0 == i,
                },
            (forall|i: int| !(#[trigger] child_at(*manifest, parent, name.spec_bytes(), i))) ==> r == Err::<
                PhysicalRecordId,
                RepositoryImportError,
            >(RepositoryImportError::TargetAuditFailed),
    {
        let index = match find_child(&manifest.records, manifest.records[parent.0].path.as_str(), name) {
            Some(index) => index,
            None => {
                assert forall|i: int| !(#[trigger] child_at(*manifest, parent, name.spec_bytes(), i)) by {
                    if 0 <= i < manifest.records@.len() {
                        assert(encode_utf8(manifest.records@[i].path@) != child_path(
                            encode_utf8(manifest.records@[parent.0 as int].path@),
                            name.spec_bytes(),
                        ));
                    }
                }
                return Err(RepositoryImportError::TargetAuditFailed);
            },
        };
        assert(child_at(*manifest, parent, name.spec_bytes(), index as int));
        assert forall|i: int| #[trigger] child_at(*manifest, parent, name.spec_bytes(), i) implies i == index by {
            lex_less_irreflexive(encode_utf8(manifest.records@[i].path@));
            if i < index {
                assert(lex_less(encode_utf8(manifest.records@[i].path@), encode_utf8(manifest.records@[index as int].path@)));
            } else if index < i {
                assert(lex_less(encode_utf8(manifest.records@[index as int].path@), encode_utf8(manifest.records@[i].path@)));
            }
        }
        let length = manifest.records[index].path.as_str().as_bytes().len();
        if length > MAX_PHYSICAL_PATH_BYTES {
            return Err(RepositoryImportError::ResourceLimit);
        }
        let ghost before = self.seen@;
        mark_physical_record_seen(&mut self.seen, PhysicalRecordId(index))?;
        proof {
            marking_counts(before, self.seen@, manifest.records@, index as int, manifest.records@.len() as int);
            full_count_means_all(self.seen@, manifest.records@.len() as int);
            assert(self.observed_records + 1 == seen_count(self.seen@, manifest.records@.len() as int));
        }
        let records: usize = manifest.records.len();
        assert(self.observed_records < records);
        self.observed_records = self.observed_records + 1;
        match self.observed_path_bytes.checked_add(length) {
            Some(total) => {
                if total > MAX_PHYSICAL_PATH_BUDGET {
                    return Err(RepositoryImportError::ResourceLimit);
                }
                self.observed_path_bytes = total;
            },
            None => {
                return Err(RepositoryImportError::ResourceLimit);
            },
        }
        assert forall|other: PhysicalRecordId| #[trigger] self.met(other) == (other == PhysicalRecordId(index) || old(
            self,
        ).met(other)) by {
            assert(seen_in(self.seen@, other.0 as int) == (other.0 == index || seen_in(before, other.0 as int)));
        }
        Ok(PhysicalRecordId(index))
    }

    /// End a walk: every record must have been met.
    pub fn require_current_exact(&self, manifest: &MarkerFreePhysicalManifest) -> (r: Result<(), RepositoryImportError>)
        requires
            manifest.wf(),
            self.wf(*manifest),
        ensures
            r is Ok <==> forall|i: int| 0 <= i < manifest.records@.len() ==> #[trigger] seen_in(self.seen@, i),
            r matches Err(error) ==> error == RepositoryImportError::TargetAuditFailed,
    {
        proof {
            full_count_means_all(self.seen@, manifest.records@.len() as int);
            if forall|i: int| 0 <= i < manifest.records@.len() ==> #[trigger] seen_in(self.seen@, i) {
                full_bytes(self.seen@, manifest.records@, manifest.records@.len() as int);
            }
        }
        if self.observed_records != manifest.records.len() || self.observed_path_bytes != manifest.retained_path_bytes() {
            return Err(RepositoryImportError::TargetAuditFailed);
        }
        Ok(())
    }
}

/// Require an opened directory to be the one of its record.
pub fn match_directory(manifest: &MarkerFreePhysicalManifest, id: PhysicalRecordId, observed: &FilesystemDirectoryIdentity) -> (r:
    Result<(), RepositoryImportError>)
    requires
        id.0 < manifest.records@.len(),
    ensures
        r is Ok <==> (manifest.records@[id.0 as int].kind matches AuditedPhysicalKind::Directory(expected) && expected.same(
            *observed,
        )),
        r matches Err(error) ==> error == RepositoryImportError::TargetAuditFailed,
{
    match manifest.records[id.0].kind {
        AuditedPhysicalKind::Directory(expected) => {
            if expected.matches(observed) {
                Ok(())
            } else {
                Err(RepositoryImportError::TargetAuditFailed)
            }
        },
        AuditedPhysicalKind::File { .. } => Err(RepositoryImportError::TargetAuditFailed),
    }
}

/// Require a read file to be the one of its record, with its body.
pub fn match_file(
    manifest: &MarkerFreePhysicalManifest,
    id: PhysicalRecordId,
    observed: &FilesystemFileIdentity,
    observed_size: u64,
    observed_sha256: &[u8; 32],
) -> (r: Result<(), RepositoryImportError>)
    requires
        id.0 < manifest.records@.len(),
    ensures
        r is Ok <==> (manifest.records@[id.0 as int].kind matches AuditedPhysicalKind::File { identity, size, sha256 }
            && identity.same(*observed) && size == observed_size && sha256@ == observed_sha256@),
        r matches Err(error) ==> error == RepositoryImportError::TargetAuditFailed,
{
    match manifest.records[id.0].kind {
        AuditedPhysicalKind::Directory(_) => Err(RepositoryImportError::TargetAuditFailed),
        AuditedPhysicalKind::File { identity, size, sha256 } => {
            if identity.matches(observed) && size == observed_size && bytes_equal(
                sha256.as_slice(),
                observed_sha256.as_slice(),
            ) {
                Ok(())
            } else {
                Err(RepositoryImportError::TargetAuditFailed)
            }
        },
    }
}

} // verus!
