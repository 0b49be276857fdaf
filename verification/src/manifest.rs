//! Marker-free physical evidence for a repository candidate.
//!
//! A manifest lists one complete target root: every directory and file below it, in ascending
//! order of their paths' bytes, behind the root itself. The only private state in it is the
//! empty mutation lock.

use crate::bytes::{
    bytes_equal, bytes_less, find_byte, has_prefix, lex_less, lex_less_irreflexive, lex_less_transitive, next_index,
    split_bytes, split_pieces, slices_view, starts_with,
};
use crate::errors::{audit_failure, map_candidate_path_error, RepositoryImportError};
use crate::identity::{FilesystemDirectoryIdentity, FilesystemFileIdentity};
use crate::portable_path::{path_error, validate_physical_record_path, MAX_PHYSICAL_PATH_BYTES, SLASH};
use crate::seal_records::{empty_body_sha256, empty_sha256};
use crate::text::text_equal;
use crate::text_map::TextMap;
use vstd::prelude::*;
use vstd::slice::slice_subrange;
use vstd::string::*;
use vstd::utf8::encode_utf8;

verus! {

/// The private directory of a vault.
pub const VAULT_LOCAL_DIRECTORY: &'static str = ".vault-local";

/// The mutation lock in the private directory.
pub const VAULT_MUTATION_LOCK_FILE: &'static str = "mutation.lock";

/// The mutation lock, from the vault's root.
pub const VAULT_MUTATION_LOCK_PATH: &'static str = ".vault-local/mutation.lock";

/// What every path below the private directory begins with.
pub const VAULT_LOCAL_PREFIX: &'static str = ".vault-local/";

pub const MAX_PHYSICAL_RECORDS: usize = 1_000_000;

pub const MAX_PHYSICAL_DEPTH: usize = 128;

pub const MAX_PHYSICAL_PATH_BUDGET: usize = 268_435_456;

pub const MAX_PHYSICAL_FILE_BYTES: u64 = 71_303_168;

/// Bounds on one physical manifest.
#[derive(Clone, Copy)]
pub struct PhysicalManifestLimits {
    pub records: usize,
    pub path_bytes: usize,
    pub depth: usize,
    pub path_budget: usize,
    pub file_bytes: u64,
}

/// The frozen bounds.
pub fn v1_limits() -> (limits: PhysicalManifestLimits)
    ensures
        limits == frozen_limits(),
{
    PhysicalManifestLimits {
        records: MAX_PHYSICAL_RECORDS,
        path_bytes: MAX_PHYSICAL_PATH_BYTES,
        depth: MAX_PHYSICAL_DEPTH,
        path_budget: MAX_PHYSICAL_PATH_BUDGET,
        file_bytes: MAX_PHYSICAL_FILE_BYTES,
    }
}

/// Whether a namespace entry is a directory or a file.
#[derive(Clone, Copy)]
pub enum NamespaceKind {
    Directory(FilesystemDirectoryIdentity),
    File(FilesystemFileIdentity),
}

/// One entry of an inventoried namespace.
pub struct NamespaceSeal {
    pub relative_path: String,
    pub kind: NamespaceKind,
    pub size: u64,
    pub sha256: Option<[u8; 32]>,
}

/// The portable case-fold keys of a path and of its first component.
pub struct FoldedPath {
    pub key: String,
    pub top_level_key: String,
}

/// What an audited record is, with its identity and body.
#[derive(Clone, Copy)]
pub enum AuditedPhysicalKind {
    Directory(FilesystemDirectoryIdentity),
    File { identity: FilesystemFileIdentity, size: u64, sha256: [u8; 32] },
}

/// One record of a physical manifest.
pub struct AuditedPhysicalRecord {
    pub path: String,
    pub kind: AuditedPhysicalKind,
}

/// Stable index into one physical manifest.
#[derive(Clone, Copy, Debug, PartialEq, Eq, Structural)]
pub struct PhysicalRecordId(pub usize);

/// Borrowed read-only view of one physical record.
#[derive(Clone, Copy)]
pub struct PhysicalRecordRef<'a> {
    pub id: PhysicalRecordId,
    pub path: &'a str,
    pub kind: AuditedPhysicalKind,
}

/// Target evidence collected before any publication marker exists.
///
/// Evidence that was built on a manifest is good only together with that very manifest: another collection
/// is another manifest, though it may say the same.
pub struct MarkerFreePhysicalManifest {
    pub root_identity: FilesystemDirectoryIdentity,
    pub local_identity: FilesystemDirectoryIdentity,
    pub lock_identity: FilesystemFileIdentity,
    pub records: Vec<AuditedPhysicalRecord>,
}

/// `std::ptr::eq` on two references: whether both lead to one manifest. If they do, what they lead to is the
/// same. Of references that lead to two manifests nothing is claimed, which may say the same all the same:
/// where a manifest lies in memory is no value.
#[verifier::external_body]
pub(crate) fn is_one_manifest(a: &MarkerFreePhysicalManifest, b: &MarkerFreePhysicalManifest) -> (r: bool)
    ensures
        r ==> *a == *b,
{
    std::ptr::eq(a, b)
}

/// Paths in strictly ascending order of their bytes.
pub open spec fn paths_ascend(records: Seq<AuditedPhysicalRecord>) -> bool {
    forall|i: int, j: int|
        0 <= i < j < records.len() ==> lex_less(
            encode_utf8(#[trigger] records[i].path@),
            encode_utf8(#[trigger] records[j].path@),
        )
}

impl MarkerFreePhysicalManifest {
    /// The root comes first, and the paths ascend.
    pub open spec fn wf(self) -> bool {
        &&& self.records@.len() > 0
        &&& self.records@[0].path@ == Seq::<char>::empty()
        &&& self.records@[0].kind == AuditedPhysicalKind::Directory(self.root_identity)
        &&& paths_ascend(self.records@)
        &&& record_path_total(self.records@, self.records@.len() as int) <= usize::MAX
    }
}

/// The bytes of the first `n` record paths together.
pub open spec fn record_path_total(records: Seq<AuditedPhysicalRecord>, n: int) -> nat
    decreases n,
{
    if n <= 0 {
        0
    } else {
        record_path_total(records, n - 1) + encode_utf8(records[n - 1].path@).len()
    }
}

proof fn record_path_total_prefix(a: Seq<AuditedPhysicalRecord>, b: Seq<AuditedPhysicalRecord>, n: int)
    requires
        0 <= n <= a.len(),
        n <= b.len(),
        forall|i: int| 0 <= i < n ==> a[i] == b[i],
    ensures
        record_path_total(a, n) == record_path_total(b, n),
    decreases n,
{
    if n > 0 {
        record_path_total_prefix(a, b, n - 1);
    }
}

/// The bytes of the first `n` paths together.
pub open spec fn seal_path_total(seals: Seq<NamespaceSeal>, n: int) -> nat
    decreases n,
{
    if n <= 0 {
        0
    } else {
        seal_path_total(seals, n - 1) + encode_utf8(seals[n - 1].relative_path@).len()
    }
}

/// What stands before the first slash.
pub open spec fn top_level_of(path: Seq<u8>) -> Seq<u8> {
    path.subrange(0, next_index(path, SLASH, 0))
}

/// The case-fold keys of the first `n` seals.
pub open spec fn keys_before(folds: Seq<FoldedPath>, n: int) -> Set<Seq<char>> {
    Set::new(|key: Seq<char>| exists|j: int| 0 <= j < n && (#[trigger] folds[j]).key@ == key)
}

/// The verdict on one path of an inventory, given what came before it.
pub open spec fn audited_path_verdict(
    path: Seq<char>,
    fold: FoldedPath,
    previous: Seq<char>,
    budget: nat,
    folded: Set<Seq<char>>,
    private_key: Seq<char>,
    limits: PhysicalManifestLimits,
) -> Result<(), RepositoryImportError> {
    let bytes = encode_utf8(path);
    if bytes.len() > limits.path_bytes {
        Err(RepositoryImportError::ResourceLimit)
    } else if path_error(path, false, MAX_PHYSICAL_PATH_BYTES as nat) is Some {
        Err(audit_failure(path_error(path, false, MAX_PHYSICAL_PATH_BYTES as nat)->0))
    } else if split_pieces(bytes, SLASH).len() > limits.depth {
        Err(RepositoryImportError::ResourceLimit)
    } else if !lex_less(encode_utf8(previous), bytes) {
        Err(RepositoryImportError::TargetAuditFailed)
    } else if budget + bytes.len() > limits.path_budget {
        Err(RepositoryImportError::ResourceLimit)
    } else if folded.contains(fold.key@) {
        Err(RepositoryImportError::TargetAuditFailed)
    } else if fold.top_level_key@ == private_key && top_level_of(bytes) != encode_utf8(VAULT_LOCAL_DIRECTORY@) {
        Err(RepositoryImportError::TargetAuditFailed)
    } else {
        Ok(())
    }
}

/// The verdict on the path of seal `i`, given the seals before it.
pub open spec fn seal_path_verdict(
    seals: Seq<NamespaceSeal>,
    folds: Seq<FoldedPath>,
    private_key: Seq<char>,
    limits: PhysicalManifestLimits,
    i: int,
) -> Result<(), RepositoryImportError> {
    audited_path_verdict(
        seals[i].relative_path@,
        folds[i],
        if i == 0 {
            Seq::<char>::empty()
        } else {
            seals[i - 1].relative_path@
        },
        seal_path_total(seals, i),
        keys_before(folds, i),
        private_key,
        limits,
    )
}

/// Why the kind and body of a seal are refused, if they are: a directory has no body, a file
/// has one within the bound, and below the private directory stands the empty lock alone.
pub open spec fn audited_kind_error(seal: NamespaceSeal, limits: PhysicalManifestLimits) -> Option<RepositoryImportError> {
    let path = seal.relative_path@;
    let private = has_prefix(encode_utf8(path), encode_utf8(VAULT_LOCAL_PREFIX@));
    match seal.kind {
        NamespaceKind::Directory(_) => if seal.size != 0 || seal.sha256 is Some || private {
            Some(RepositoryImportError::TargetAuditFailed)
        } else {
            None
        },
        NamespaceKind::File(_) => if seal.sha256 is None {
            Some(RepositoryImportError::TargetAuditFailed)
        } else if seal.size > limits.file_bytes {
            Some(RepositoryImportError::ResourceLimit)
        } else if path == VAULT_LOCAL_DIRECTORY@ {
            Some(RepositoryImportError::TargetAuditFailed)
        } else if path == VAULT_MUTATION_LOCK_PATH@ {
            if seal.size != 0 || seal.sha256->0@ != empty_sha256() {
                Some(RepositoryImportError::TargetAuditFailed)
            } else {
                None
            }
        } else if private {
            Some(RepositoryImportError::TargetAuditFailed)
        } else {
            None
        },
    }
}

/// The first refusal among the seals from `i` on.
pub open spec fn seals_error(
    seals: Seq<NamespaceSeal>,
    folds: Seq<FoldedPath>,
    private_key: Seq<char>,
    limits: PhysicalManifestLimits,
    i: int,
) -> Option<RepositoryImportError>
    decreases seals.len() - i,
{
    if i < 0 || i >= seals.len() {
        None
    } else if seal_path_verdict(seals, folds, private_key, limits, i) is Err {
        Some(seal_path_verdict(seals, folds, private_key, limits, i)->Err_0)
    } else if audited_kind_error(seals[i], limits) is Some {
        audited_kind_error(seals[i], limits)
    } else {
        seals_error(seals, folds, private_key, limits, i + 1)
    }
}

/// Some seal is the private directory with this identity.
pub open spec fn local_directory_at(seals: Seq<NamespaceSeal>, i: int) -> bool {
    seals[i].relative_path@ == VAULT_LOCAL_DIRECTORY@ && seals[i].kind is Directory
}

/// Seal `i` is the mutation lock.
pub open spec fn mutation_lock_at(seals: Seq<NamespaceSeal>, i: int) -> bool {
    seals[i].relative_path@ == VAULT_MUTATION_LOCK_PATH@ && seals[i].kind is File
}

/// Why an inventory is refused, if it is.
pub open spec fn physical_audit_error(
    seals: Seq<NamespaceSeal>,
    folds: Seq<FoldedPath>,
    private_key: Seq<char>,
    limits: PhysicalManifestLimits,
) -> Option<RepositoryImportError> {
    if seals.len() + 1 > limits.records {
        Some(RepositoryImportError::ResourceLimit)
    } else if seals_error(seals, folds, private_key, limits, 0) is Some {
        seals_error(seals, folds, private_key, limits, 0)
    } else if !(exists|i: int| 0 <= i < seals.len() && local_directory_at(seals, i)) || !(exists|i: int|
        0 <= i < seals.len() && mutation_lock_at(seals, i)) {
        Some(RepositoryImportError::TargetAuditFailed)
    } else {
        None
    }
}

/// The kind of record that an accepted seal becomes.
pub open spec fn audited_kind(seal: NamespaceSeal) -> AuditedPhysicalKind {
    match seal.kind {
        NamespaceKind::Directory(identity) => AuditedPhysicalKind::Directory(identity),
        NamespaceKind::File(identity) => AuditedPhysicalKind::File { identity, size: seal.size, sha256: seal.sha256->0 },
    }
}

/// The records of an accepted inventory: the root, and behind it every seal.
pub open spec fn records_match_seals(
    records: Seq<AuditedPhysicalRecord>,
    root_identity: FilesystemDirectoryIdentity,
    seals: Seq<NamespaceSeal>,
    n: int,
) -> bool {
    &&& records.len() == n + 1
    &&& records[0].path@ == Seq::<char>::empty()
    &&& records[0].kind == AuditedPhysicalKind::Directory(root_identity)
    &&& forall|i: int|
        0 <= i < n ==> (#[trigger] records[i + 1]).path@ == seals[i].relative_path@ && records[i + 1].kind == audited_kind(
            seals[i],
        )
}

/// Require one path of an inventory to be portable, in order, within the bounds and free of
/// case-fold collisions.
pub fn validate_audited_physical_path(
    path: &str,
    fold: &FoldedPath,
    previous: &str,
    path_budget: &mut usize,
    folded_paths: &mut TextMap<()>,
    private_key: &str,
    limits: PhysicalManifestLimits,
) -> (r: Result<(), RepositoryImportError>)
    requires
        old(folded_paths).wf(),
    ensures
        final(folded_paths).wf(),
        r == audited_path_verdict(
            path@,
            *fold,
            previous@,
            *old(path_budget) as nat,
            old(folded_paths)@.dom(),
            private_key@,
            limits,
        ),
        r is Ok ==> *final(path_budget) == *old(path_budget) + path.spec_bytes().len() && final(folded_paths)@ == old(
            folded_paths,
        )@.insert(fold.key@, ()),
{
    if path.as_bytes().len() > limits.path_bytes {
        return Err(RepositoryImportError::ResourceLimit);
    }
    match validate_physical_record_path(path) {
        Ok(()) => {},
        Err(error) => {
            return Err(map_candidate_path_error(error));
        },
    }
    let components = split_bytes(path.as_bytes(), SLASH);
    assert(components@.len() == slices_view(components@).len());
    if components.len() > limits.depth {
        return Err(RepositoryImportError::ResourceLimit);
    }
    if !bytes_less(previous.as_bytes(), path.as_bytes()) {
        return Err(RepositoryImportError::TargetAuditFailed);
    }
    match path_budget.checked_add(path.as_bytes().len()) {
        Some(total) => {
            if total > limits.path_budget {
                return Err(RepositoryImportError::ResourceLimit);
            }
            *path_budget = total;
        },
        None => {
            return Err(RepositoryImportError::ResourceLimit);
        },
    }
    if !folded_paths.insert_new(fold.key.clone(), ()) {
        return Err(RepositoryImportError::TargetAuditFailed);
    }
    let slash = find_byte(path.as_bytes(), SLASH, 0);
    let top_level = slice_subrange(path.as_bytes(), 0, slash);
    if text_equal(fold.top_level_key.as_str(), private_key) && !bytes_equal(top_level, VAULT_LOCAL_DIRECTORY.as_bytes()) {
        return Err(RepositoryImportError::TargetAuditFailed);
    }
    Ok(())
}

/// Require one entry of an inventory to have a kind and body that its place allows.
fn audit_seal_kind(seal: &NamespaceSeal, limits: PhysicalManifestLimits) -> (r: Result<
    AuditedPhysicalKind,
    RepositoryImportError,
>)
    ensures
        match audited_kind_error(*seal, limits) {
            Some(error) => r == Err::<AuditedPhysicalKind, RepositoryImportError>(error),
            None => r == Ok::<AuditedPhysicalKind, RepositoryImportError>(audited_kind(*seal)),
        },
{
    let path = seal.relative_path.as_str();
    let private = starts_with(path.as_bytes(), VAULT_LOCAL_PREFIX.as_bytes());
    match seal.kind {
        NamespaceKind::Directory(identity) => {
            if seal.size != 0 || seal.sha256.is_some() || private {
                return Err(RepositoryImportError::TargetAuditFailed);
            }
            Ok(AuditedPhysicalKind::Directory(identity))
        },
        NamespaceKind::File(identity) => {
            match seal.sha256 {
                None => Err(RepositoryImportError::TargetAuditFailed),
                Some(sha256) => {
                    if seal.size > limits.file_bytes {
                        return Err(RepositoryImportError::ResourceLimit);
                    }
                    if text_equal(path, VAULT_LOCAL_DIRECTORY) {
                        return Err(RepositoryImportError::TargetAuditFailed);
                    }
                    if text_equal(path, VAULT_MUTATION_LOCK_PATH) {
                        let empty = empty_body_sha256();
                        if seal.size != 0 || !bytes_equal(sha256.as_slice(), empty.as_slice()) {
                            return Err(RepositoryImportError::TargetAuditFailed);
                        }
                    } else if private {
                        return Err(RepositoryImportError::TargetAuditFailed);
                    }
                    Ok(AuditedPhysicalKind::File { identity, size: seal.size, sha256 })
                },
            }
        },
    }
}

/// An audited inventory: its records, and the identities of the private directory and the lock.
pub struct AuditedNamespace {
    pub records: Vec<AuditedPhysicalRecord>,
    pub local_identity: FilesystemDirectoryIdentity,
    pub lock_identity: FilesystemFileIdentity,
}

impl AuditedNamespace {
    /// The namespace is what the seals say.
    pub open spec fn describes(self, root_identity: FilesystemDirectoryIdentity, seals: Seq<NamespaceSeal>) -> bool {
        &&& records_match_seals(self.records@, root_identity, seals, seals.len() as int)
        &&& paths_ascend(self.records@)
        &&& record_path_total(self.records@, self.records@.len() as int) <= usize::MAX
        &&& exists|i: int|
            0 <= i < seals.len() && #[trigger] local_directory_at(seals, i) && seals[i].kind == NamespaceKind::Directory(
                self.local_identity,
            )
        &&& exists|i: int|
            0 <= i < seals.len() && #[trigger] mutation_lock_at(seals, i) && seals[i].kind == NamespaceKind::File(
                self.lock_identity,
            )
    }
}

proof fn push_keeps_order(records: Seq<AuditedPhysicalRecord>, next: AuditedPhysicalRecord)
    requires
        records.len() > 0,
        paths_ascend(records),
        lex_less(encode_utf8(records.last().path@), encode_utf8(next.path@)),
    ensures
        paths_ascend(records.push(next)),
{
    let after = records.push(next);
    assert forall|i: int, j: int| 0 <= i < j < after.len() implies lex_less(
        encode_utf8(#[trigger] after[i].path@),
        encode_utf8(#[trigger] after[j].path@),
    ) by {
        if j == records.len() {
            if i < records.len() - 1 {
                assert(lex_less(encode_utf8(records[i].path@), encode_utf8(records.last().path@)));
                lex_less_transitive(
                    encode_utf8(records[i].path@),
                    encode_utf8(records.last().path@),
                    encode_utf8(next.path@),
                );
            }
        } else {
            assert(after[i] == records[i] && after[j] == records[j]);
        }
    }
}

/// Audit a complete inventory of a target root.
#[verifier::loop_isolation(false)]
pub fn audit_physical_seals(
    root_identity: &FilesystemDirectoryIdentity,
    seals: &[NamespaceSeal],
    folds: &[FoldedPath],
    private_key: &str,
    limits: PhysicalManifestLimits,
) -> (r: Result<AuditedNamespace, RepositoryImportError>)
    requires
        seals.len() == folds.len(),
    ensures
        match physical_audit_error(seals@, folds@, private_key@, limits) {
            Some(error) => r matches Err(e) && e == error,
            None => r matches Ok(audited) && audited.describes(*root_identity, seals@),
        },
{
    if seals.len() >= limits.records {
        return Err(RepositoryImportError::ResourceLimit);
    }
    let mut records: Vec<AuditedPhysicalRecord> = Vec::new();
    records.push(AuditedPhysicalRecord { path: String::new(), kind: AuditedPhysicalKind::Directory(*root_identity) });
    let mut folded_paths: TextMap<()> = TextMap::new();
    let mut path_budget: usize = 0;
    let mut local_identity: Option<FilesystemDirectoryIdentity> = None;
    let mut lock_identity: Option<FilesystemFileIdentity> = None;
    assert(folded_paths@.dom() =~= keys_before(folds@, 0));
    assert(record_path_total(records@, 1) == 0) by {
        assert(record_path_total(records@, 0) == 0);
    }
    let mut i: usize = 0;
    while i < seals.len()
        invariant
            i <= seals.len(),
            folded_paths.wf(),
            folded_paths@.dom() =~= keys_before(folds@, i as int),
            path_budget == seal_path_total(seals@, i as int),
            path_budget == record_path_total(records@, i + 1),
            records_match_seals(records@, *root_identity, seals@, i as int),
            paths_ascend(records@),
            seals_error(seals@, folds@, private_key@, limits, 0) == seals_error(
                seals@,
                folds@,
                private_key@,
                limits,
                i as int,
            ),
            local_identity is Some <==> exists|k: int| 0 <= k < i && #[trigger] local_directory_at(seals@, k),
            local_identity matches Some(identity) ==> exists|k: int|
                0 <= k < i && #[trigger] local_directory_at(seals@, k) && seals@[k].kind == NamespaceKind::Directory(
                    identity,
                ),
            lock_identity is Some <==> exists|k: int| 0 <= k < i && #[trigger] mutation_lock_at(seals@, k),
            lock_identity matches Some(identity) ==> exists|k: int|
                0 <= k < i && #[trigger] mutation_lock_at(seals@, k) && seals@[k].kind == NamespaceKind::File(identity),
        decreases seals.len() - i,
    {
        let seal = &seals[i];
        let ghost before = folded_paths@.dom();
        assert(records@[i as int].path@ == (if i == 0 {
            Seq::<char>::empty()
        } else {
            seals@[i - 1].relative_path@
        })) by {
            if i > 0 {
                assert(records@[(i - 1) + 1].path@ == seals@[i - 1].relative_path@);
            }
        }
        validate_audited_physical_path(
            seal.relative_path.as_str(),
            &folds[i],
            records[i].path.as_str(),
            &mut path_budget,
            &mut folded_paths,
            private_key,
            limits,
        )?;
        let kind = audit_seal_kind(seal, limits)?;
        proof {
            assert(keys_before(folds@, i + 1) =~= before.insert(folds@[i as int].key@)) by {
                assert forall|key: Seq<char>| keys_before(folds@, i + 1).contains(key) == before.insert(
                    folds@[i as int].key@,
                ).contains(key) by {
                    if keys_before(folds@, i as int).contains(key) {
                        let j = choose|j: int| 0 <= j < i && (#[trigger] folds@[j]).key@ == key;
                        assert(folds@[j].key@ == key);
                    }
                    assert(folds@[i as int].key@ == folds@[i as int].key@);
                }
            }
            assert(seals_error(seals@, folds@, private_key@, limits, i as int) == seals_error(
                seals@,
                folds@,
                private_key@,
                limits,
                i + 1,
            ));
        }
        match kind {
            AuditedPhysicalKind::Directory(identity) => {
                if text_equal(seal.relative_path.as_str(), VAULT_LOCAL_DIRECTORY) {
                    local_identity = Some(identity);
                    assert(local_directory_at(seals@, i as int));
                }
            },
            AuditedPhysicalKind::File { identity, .. } => {
                if text_equal(seal.relative_path.as_str(), VAULT_MUTATION_LOCK_PATH) {
                    lock_identity = Some(identity);
                    assert(mutation_lock_at(seals@, i as int));
                }
            },
        }
        let record = AuditedPhysicalRecord { path: seal.relative_path.clone(), kind };
        proof {
            push_keeps_order(records@, record);
            record_path_total_prefix(records@, records@.push(record), i + 1);
        }
        records.push(record);
        i = i + 1;
    }
    match (local_identity, lock_identity) {
        (Some(local_identity), Some(lock_identity)) => Ok(AuditedNamespace { records, local_identity, lock_identity }),
        _ => Err(RepositoryImportError::TargetAuditFailed),
    }
}

/// What a look at a target root and its private directory gave, before and after the private
/// directory was inventoried. An identity that could not be read is missing.
pub struct PrivateStateObservation {
    pub root_before: Option<FilesystemDirectoryIdentity>,
    pub local_before: Option<FilesystemDirectoryIdentity>,
    pub private_entries: Vec<NamespaceSeal>,
    pub root_after: Option<FilesystemDirectoryIdentity>,
    pub local_after: Option<FilesystemDirectoryIdentity>,
}

/// An observed identity is there and is the expected one.
pub open spec fn observed_directory(
    observed: Option<FilesystemDirectoryIdentity>,
    expected: FilesystemDirectoryIdentity,
) -> bool {
    observed matches Some(identity) && identity.same(expected)
}

fn directory_observed(observed: &Option<FilesystemDirectoryIdentity>, expected: &FilesystemDirectoryIdentity) -> (r: bool)
    ensures
        r == observed_directory(*observed, *expected),
{
    match observed {
        Some(identity) => identity.matches(expected),
        None => false,
    }
}

/// The private directory holds the empty lock with its identity and nothing else.
pub open spec fn lock_alone(entries: Seq<NamespaceSeal>, lock_identity: FilesystemFileIdentity) -> bool {
    &&& entries.len() == 1
    &&& entries[0].relative_path@ == VAULT_MUTATION_LOCK_FILE@
    &&& entries[0].size == 0
    &&& entries[0].sha256 matches Some(digest) && digest@ == empty_sha256()
    &&& entries[0].kind matches NamespaceKind::File(identity) && identity.same(lock_identity)
}

impl PrivateStateObservation {
    /// Root and private directory kept their identities, and the lock stands alone.
    pub open spec fn confirms(
        self,
        root_identity: FilesystemDirectoryIdentity,
        local_identity: FilesystemDirectoryIdentity,
        lock_identity: FilesystemFileIdentity,
    ) -> bool {
        &&& observed_directory(self.root_before, root_identity)
        &&& observed_directory(self.local_before, local_identity)
        &&& lock_alone(self.private_entries@, lock_identity)
        &&& observed_directory(self.root_after, root_identity)
        &&& observed_directory(self.local_after, local_identity)
    }
}

/// Require the private state of a target to be the empty lock still.
pub fn verify_current_private_state(
    observed: &PrivateStateObservation,
    root_identity: &FilesystemDirectoryIdentity,
    local_identity: &FilesystemDirectoryIdentity,
    lock_identity: &FilesystemFileIdentity,
) -> (r: Result<(), RepositoryImportError>)
    ensures
        r is Ok <==> observed.confirms(*root_identity, *local_identity, *lock_identity),
        r matches Err(error) ==> error == RepositoryImportError::TargetAuditFailed,
{
    if !directory_observed(&observed.root_before, root_identity) || !directory_observed(
        &observed.local_before,
        local_identity,
    ) {
        return Err(RepositoryImportError::TargetAuditFailed);
    }
    if observed.private_entries.len() != 1 {
        return Err(RepositoryImportError::TargetAuditFailed);
    }
    let lock = &observed.private_entries[0];
    let empty = match lock.sha256 {
        Some(digest) => {
            let expected = empty_body_sha256();
            bytes_equal(digest.as_slice(), expected.as_slice())
        },
        None => false,
    };
    let same = match lock.kind {
        NamespaceKind::File(identity) => identity.matches(lock_identity),
        NamespaceKind::Directory(_) => false,
    };
    if !text_equal(lock.relative_path.as_str(), VAULT_MUTATION_LOCK_FILE) || lock.size != 0 || !empty || !same
        || !directory_observed(&observed.root_after, root_identity) || !directory_observed(
        &observed.local_after,
        local_identity,
    ) {
        return Err(RepositoryImportError::TargetAuditFailed);
    }
    Ok(())
}

/// Everything that a collector reads from a target root, in the order in which it reads it.
pub struct PhysicalObservation {
    pub root_identity: FilesystemDirectoryIdentity,
    pub seals: Vec<NamespaceSeal>,
    pub folds: Vec<FoldedPath>,
    pub private_key: String,
    pub root_after_inventory: Option<FilesystemDirectoryIdentity>,
    pub private_state: PrivateStateObservation,
    /// No directory of the inventory has an alternate data stream.
    pub directories_plain: bool,
}

impl PhysicalObservation {
    /// Why the observed target gets no manifest, if it gets none.
    pub open spec fn refusal(self, limits: PhysicalManifestLimits) -> Option<RepositoryImportError> {
        if !observed_directory(self.root_after_inventory, self.root_identity) {
            Some(RepositoryImportError::TargetAuditFailed)
        } else if physical_audit_error(self.seals@, self.folds@, self.private_key@, limits) is Some {
            physical_audit_error(self.seals@, self.folds@, self.private_key@, limits)
        } else if !(exists|local: FilesystemDirectoryIdentity, lock: FilesystemFileIdentity|
            {
                &&& self.names_private(local, lock)
                &&& self.private_state.confirms(self.root_identity, local, lock)
            }) || !self.directories_plain {
            Some(RepositoryImportError::TargetAuditFailed)
        } else {
            None
        }
    }

    /// The inventory has the private directory and the lock under these identities.
    pub open spec fn names_private(self, local: FilesystemDirectoryIdentity, lock: FilesystemFileIdentity) -> bool {
        &&& exists|i: int|
            0 <= i < self.seals@.len() && #[trigger] local_directory_at(self.seals@, i) && self.seals@[i].kind
                == NamespaceKind::Directory(local)
        &&& exists|i: int|
            0 <= i < self.seals@.len() && #[trigger] mutation_lock_at(self.seals@, i) && self.seals@[i].kind
                == NamespaceKind::File(lock)
    }
}

/// A path stands in an accepted inventory at one place only.
proof fn seal_is_unique(
    records: Seq<AuditedPhysicalRecord>,
    root_identity: FilesystemDirectoryIdentity,
    seals: Seq<NamespaceSeal>,
    i: int,
    j: int,
)
    requires
        records_match_seals(records, root_identity, seals, seals.len() as int),
        paths_ascend(records),
        0 <= i < seals.len(),
        0 <= j < seals.len(),
        seals[i].relative_path@ == seals[j].relative_path@,
    ensures
        i == j,
{
    assert(records[i + 1].path@ == seals[i].relative_path@);
    assert(records[j + 1].path@ == seals[j].relative_path@);
    lex_less_irreflexive(encode_utf8(seals[i].relative_path@));
    if i < j {
        assert(lex_less(encode_utf8(records[i + 1].path@), encode_utf8(records[j + 1].path@)));
    } else if j < i {
        assert(lex_less(encode_utf8(records[j + 1].path@), encode_utf8(records[i + 1].path@)));
    }
}

/// Build a manifest from what a collector read, within given bounds.
pub fn collect_marker_free_physical_manifest_with_limits(
    observation: &PhysicalObservation,
    limits: PhysicalManifestLimits,
) -> (r: Result<MarkerFreePhysicalManifest, RepositoryImportError>)
    requires
        observation.seals@.len() == observation.folds@.len(),
    ensures
        match observation.refusal(limits) {
            Some(error) => r matches Err(e) && e == error,
            None => r matches Ok(manifest) && {
                &&& manifest.wf()
                &&& manifest.root_identity == observation.root_identity
                &&& observation.names_private(manifest.local_identity, manifest.lock_identity)
                &&& records_match_seals(
                    manifest.records@,
                    observation.root_identity,
                    observation.seals@,
                    observation.seals@.len() as int,
                )
            },
        },
{
    if !directory_observed(&observation.root_after_inventory, &observation.root_identity) {
        return Err(RepositoryImportError::TargetAuditFailed);
    }
    let audited = audit_physical_seals(
        &observation.root_identity,
        observation.seals.as_slice(),
        observation.folds.as_slice(),
        observation.private_key.as_str(),
        limits,
    )?;
    let confirmed = verify_current_private_state(
        &observation.private_state,
        &observation.root_identity,
        &audited.local_identity,
        &audited.lock_identity,
    );
    proof {
        assert(observation.names_private(audited.local_identity, audited.lock_identity));
        assert forall|local: FilesystemDirectoryIdentity, lock: FilesystemFileIdentity| #[trigger]
            observation.names_private(local, lock) implies local == audited.local_identity && lock
            == audited.lock_identity by {
            let seals = observation.seals@;
            let a = choose|i: int|
                0 <= i < seals.len() && #[trigger] local_directory_at(seals, i) && seals[i].kind == NamespaceKind::Directory(
                    local,
                );
            let b = choose|i: int|
                0 <= i < seals.len() && #[trigger] local_directory_at(seals, i) && seals[i].kind == NamespaceKind::Directory(
                    audited.local_identity,
                );
            seal_is_unique(audited.records@, observation.root_identity, seals, a, b);
            let c = choose|i: int|
                0 <= i < seals.len() && #[trigger] mutation_lock_at(seals, i) && seals[i].kind == NamespaceKind::File(lock);
            let d = choose|i: int|
                0 <= i < seals.len() && #[trigger] mutation_lock_at(seals, i) && seals[i].kind == NamespaceKind::File(
                    audited.lock_identity,
                );
            seal_is_unique(audited.records@, observation.root_identity, seals, c, d);
        }
    }
    match confirmed {
        Ok(()) => {},
        Err(error) => {
            return Err(error);
        },
    }
    if !observation.directories_plain {
        return Err(RepositoryImportError::TargetAuditFailed);
    }
    Ok(
        MarkerFreePhysicalManifest {
            root_identity: observation.root_identity,
            local_identity: audited.local_identity,
            lock_identity: audited.lock_identity,
            records: audited.records,
        },
    )
}

/// The frozen bounds, as a specification.
pub open spec fn frozen_limits() -> PhysicalManifestLimits {
    PhysicalManifestLimits {
        records: MAX_PHYSICAL_RECORDS,
        path_bytes: MAX_PHYSICAL_PATH_BYTES,
        depth: MAX_PHYSICAL_DEPTH,
        path_budget: MAX_PHYSICAL_PATH_BUDGET,
        file_bytes: MAX_PHYSICAL_FILE_BYTES,
    }
}

/// Build a manifest from what a collector read, within the frozen bounds.
pub fn collect_marker_free_physical_manifest(observation: &PhysicalObservation) -> (r: Result<
    MarkerFreePhysicalManifest,
    RepositoryImportError,
>)
    requires
        observation.seals@.len() == observation.folds@.len(),
    ensures
        match observation.refusal(frozen_limits()) {
            Some(error) => r matches Err(e) && e == error,
            None => r matches Ok(manifest) && {
                &&& manifest.wf()
                &&& manifest.root_identity == observation.root_identity
                &&& observation.names_private(manifest.local_identity, manifest.lock_identity)
                &&& records_match_seals(
                    manifest.records@,
                    observation.root_identity,
                    observation.seals@,
                    observation.seals@.len() as int,
                )
            },
        },
{
    collect_marker_free_physical_manifest_with_limits(observation, v1_limits())
}

} // verus!
