//! Tracked files and trees of a candidate, bound to the records of its physical manifest.

use crate::errors::CandidateSealError;
use crate::identity::{CandidateFileIdentity, PublicationIdentityScheme};
use crate::manifest::{
    is_one_manifest, AuditedPhysicalKind, AuditedPhysicalRecord, MarkerFreePhysicalManifest, PhysicalRecordId,
};
use crate::seal_records::{IndexRecord, ObjectKind, ObjectRecord, TreeRecord, WorktreeClass, WorktreeRecord};
use vstd::prelude::*;

verus! {

/// One tracked file: the record of its file, its class and its blob.
#[derive(Clone, Copy)]
pub struct FreshTrackedEntry {
    pub file: PhysicalRecordId,
    pub class: WorktreeClass,
    pub blob_oid: [u8; 20],
}

/// One directory of the worktree: its record and its tree.
#[derive(Clone, Copy)]
pub struct FreshTreeEntry {
    pub directory: PhysicalRecordId,
    pub tree_oid: [u8; 20],
    pub raw_size: u64,
    pub raw_sha256: [u8; 32],
}

/// Tracked files, permanently bound to one physical manifest.
pub struct FreshTrackedManifest<'physical> {
    pub physical: &'physical MarkerFreePhysicalManifest,
    pub entries: Vec<FreshTrackedEntry>,
}

/// Trees, permanently bound to one physical manifest.
pub struct FreshTreeManifest<'physical> {
    pub physical: &'physical MarkerFreePhysicalManifest,
    pub entries: Vec<FreshTreeEntry>,
}

/// The record of a tracked file, if it is listed as a file.
pub open spec fn tracked_file(records: Seq<AuditedPhysicalRecord>, entry: FreshTrackedEntry) -> bool {
    entry.file.0 < records.len() && records[entry.file.0 as int].kind is File
}

/// The blob of a tracked file.
pub open spec fn tracked_blob(records: Seq<AuditedPhysicalRecord>, entry: FreshTrackedEntry) -> ObjectRecord {
    let kind = records[entry.file.0 as int].kind;
    ObjectRecord {
        oid: entry.blob_oid,
        kind: ObjectKind::Blob,
        raw_size: kind->size,
        raw_sha256: kind->sha256,
    }
}

/// The blobs of tracked files, in their order.
pub open spec fn tracked_blobs(records: Seq<AuditedPhysicalRecord>, entries: Seq<FreshTrackedEntry>) -> Seq<ObjectRecord> {
    entries.map_values(|entry: FreshTrackedEntry| tracked_blob(records, entry))
}

/// Why the tracked files from `i` on cannot be sealed under a scheme, if they cannot.
pub open spec fn tracked_error(
    records: Seq<AuditedPhysicalRecord>,
    entries: Seq<FreshTrackedEntry>,
    scheme: PublicationIdentityScheme,
    i: int,
) -> Option<CandidateSealError>
    decreases entries.len() - i,
{
    if i >= entries.len() {
        None
    } else if !tracked_file(records, entries[i]) {
        Some(CandidateSealError::InvalidRecord)
    } else if records[entries[i].file.0 as int].kind->File_identity.scheme != scheme {
        Some(CandidateSealError::InvalidContext)
    } else {
        tracked_error(records, entries, scheme, i + 1)
    }
}

/// A worktree record says what a tracked file and its record say.
pub open spec fn worktree_projects(sealed: WorktreeRecord, record: AuditedPhysicalRecord, entry: FreshTrackedEntry) -> bool {
    &&& sealed.path@ == record.path@
    &&& sealed.class == entry.class
    &&& sealed.blob_oid == entry.blob_oid
    &&& record.kind matches AuditedPhysicalKind::File { identity, size, sha256 } && sealed.identity.0.scheme
        == identity.scheme && sealed.identity.0.bytes == identity.wire && sealed.size == size && sealed.sha256 == sha256
}

/// An index record says what a tracked file and its record say.
pub open spec fn index_projects(sealed: IndexRecord, record: AuditedPhysicalRecord, entry: FreshTrackedEntry) -> bool {
    sealed.path@ == record.path@ && sealed.blob_oid == entry.blob_oid
}

impl<'physical> FreshTrackedManifest<'physical> {
    /// Whether the tracked files were collected on a given manifest.
    pub fn is_bound_to(&self, physical: &MarkerFreePhysicalManifest) -> (r: bool)
        ensures
            r ==> *self.physical == *physical,
    {
        is_one_manifest(self.physical, physical)
    }

    /// The blobs of the tracked files, in their order.
    pub fn blob_objects(&self) -> (r: Result<Vec<ObjectRecord>, CandidateSealError>)
        ensures
            r is Ok <==> forall|i: int|
                0 <= i < self.entries@.len() ==> tracked_file(self.physical.records@, #[trigger] self.entries@[i]),
            r matches Ok(blobs) ==> blobs@ == tracked_blobs(self.physical.records@, self.entries@),
            r matches Err(error) ==> error == CandidateSealError::InvalidRecord,
    {
        let ghost records = self.physical.records@;
        let mut blobs: Vec<ObjectRecord> = Vec::new();
        let mut i: usize = 0;
        while i < self.entries.len()
            invariant
                records == self.physical.records@,
                i <= self.entries@.len(),
                blobs@.len() == i,
                forall|k: int| 0 <= k < i ==> tracked_file(records, #[trigger] self.entries@[k]),
                forall|k: int| 0 <= k < i ==> #[trigger] blobs@[k] == tracked_blob(records, self.entries@[k]),
            decreases self.entries@.len() - i,
        {
            let entry = self.entries[i];
            match self.physical.record(entry.file) {
                Some(record) => {
                    match record.kind {
                        AuditedPhysicalKind::File { size, sha256, .. } => {
                            blobs.push(
                                ObjectRecord { oid: entry.blob_oid, kind: ObjectKind::Blob, raw_size: size, raw_sha256: sha256 },
                            );
                        },
                        AuditedPhysicalKind::Directory(_) => {
                            assert(!tracked_file(records, self.entries@[i as int]));
                            return Err(CandidateSealError::InvalidRecord);
                        },
                    }
                },
                None => {
                    assert(!tracked_file(records, self.entries@[i as int]));
                    return Err(CandidateSealError::InvalidRecord);
                },
            }
            i = i + 1;
        }
        assert(blobs@ =~= tracked_blobs(records, self.entries@));
        Ok(blobs)
    }

    /// Seal records of the worktree and of the index, under a scheme.
    pub fn project(&self, scheme: PublicationIdentityScheme) -> (r: Result<
        (Vec<WorktreeRecord<'physical>>, Vec<IndexRecord<'physical>>),
        CandidateSealError,
    >)
        ensures
            match tracked_error(self.physical.records@, self.entries@, scheme, 0) {
                Some(error) => r matches Err(e) && e == error,
                None => r is Ok,
            },
            r matches Ok((worktree, index)) ==> {
                &&& worktree@.len() == self.entries@.len()
                &&& index@.len() == self.entries@.len()
                &&& forall|i: int|
                    0 <= i < worktree@.len() ==> worktree_projects(
                        #[trigger] worktree@[i],
                        self.physical.records@[self.entries@[i].file.0 as int],
                        self.entries@[i],
                    )
                &&& forall|i: int|
                    0 <= i < index@.len() ==> index_projects(
                        #[trigger] index@[i],
                        self.physical.records@[self.entries@[i].file.0 as int],
                        self.entries@[i],
                    )
            },
    {
        let physical = self.physical;
        let ghost records = physical.records@;
        let mut worktree: Vec<WorktreeRecord<'physical>> = Vec::new();
        let mut index: Vec<IndexRecord<'physical>> = Vec::new();
        let mut i: usize = 0;
        while i < self.entries.len()
            invariant
                physical == self.physical,
                records == physical.records@,
                i <= self.entries@.len(),
                worktree@.len() == i,
                index@.len() == i,
                tracked_error(records, self.entries@, scheme, 0) == tracked_error(records, self.entries@, scheme, i as int),
                forall|k: int|
                    0 <= k < i ==> worktree_projects(
                        #[trigger] worktree@[k],
                        records[self.entries@[k].file.0 as int],
                        self.entries@[k],
                    ),
                forall|k: int|
                    0 <= k < i ==> index_projects(
                        #[trigger] index@[k],
                        records[self.entries@[k].file.0 as int],
                        self.entries@[k],
                    ),
            decreases self.entries@.len() - i,
        {
            let entry = self.entries[i];
            match physical.record(entry.file) {
                Some(record) => {
                    match record.kind {
                        AuditedPhysicalKind::File { identity, size, sha256 } => {
                            let bound = match CandidateFileIdentity::from_observed(&identity, scheme) {
                                Ok(bound) => bound,
                                Err(error) => {
                                    return Err(error);
                                },
                            };
                            worktree.push(
                                WorktreeRecord {
                                    path: record.path,
                                    class: entry.class,
                                    identity: bound,
                                    size,
                                    sha256,
                                    blob_oid: entry.blob_oid,
                                },
                            );
                            index.push(IndexRecord { path: record.path, blob_oid: entry.blob_oid });
                        },
                        AuditedPhysicalKind::Directory(_) => {
                            return Err(CandidateSealError::InvalidRecord);
                        },
                    }
                },
                None => {
                    return Err(CandidateSealError::InvalidRecord);
                },
            }
            i = i + 1;
        }
        Ok((worktree, index))
    }
}

/// The record of a tree, if it is listed as a directory.
pub open spec fn tree_directory(records: Seq<AuditedPhysicalRecord>, entry: FreshTreeEntry) -> bool {
    entry.directory.0 < records.len() && records[entry.directory.0 as int].kind is Directory
}

/// The tree objects, in their order.
pub open spec fn tree_objects_of(entries: Seq<FreshTreeEntry>) -> Seq<ObjectRecord> {
    entries.map_values(
        |entry: FreshTreeEntry|
            ObjectRecord {
                oid: entry.tree_oid,
                kind: ObjectKind::Tree,
                raw_size: entry.raw_size,
                raw_sha256: entry.raw_sha256,
            },
    )
}

/// Every tree stands on a directory.
pub open spec fn trees_stand(records: Seq<AuditedPhysicalRecord>, entries: Seq<FreshTreeEntry>) -> bool {
    forall|i: int| 0 <= i < entries.len() ==> tree_directory(records, #[trigger] entries[i])
}

/// A tree record says what a tree and its directory say.
pub open spec fn tree_projects(sealed: TreeRecord, record: AuditedPhysicalRecord, entry: FreshTreeEntry) -> bool {
    sealed.path@ == record.path@ && sealed.tree_oid == entry.tree_oid && sealed.raw_size == entry.raw_size
        && sealed.raw_sha256 == entry.raw_sha256
}

impl<'physical> FreshTreeManifest<'physical> {
    /// Whether the trees were built on a given manifest.
    pub fn is_bound_to(&self, physical: &MarkerFreePhysicalManifest) -> (r: bool)
        ensures
            r ==> *self.physical == *physical,
    {
        is_one_manifest(self.physical, physical)
    }

    /// The tree objects, in their order.
    pub fn tree_objects(&self) -> (trees: Vec<ObjectRecord>)
        ensures
            trees@ == tree_objects_of(self.entries@),
    {
        let mut trees: Vec<ObjectRecord> = Vec::new();
        let mut i: usize = 0;
        while i < self.entries.len()
            invariant
                i <= self.entries@.len(),
                trees@.len() == i,
                forall|k: int| 0 <= k < i ==> #[trigger] trees@[k] == tree_objects_of(self.entries@)[k],
            decreases self.entries@.len() - i,
        {
            let entry = self.entries[i];
            trees.push(
                ObjectRecord {
                    oid: entry.tree_oid,
                    kind: ObjectKind::Tree,
                    raw_size: entry.raw_size,
                    raw_sha256: entry.raw_sha256,
                },
            );
            i = i + 1;
        }
        assert(trees@ =~= tree_objects_of(self.entries@));
        trees
    }

    /// Seal records of the trees.
    pub fn project(&self) -> (r: Result<Vec<TreeRecord<'physical>>, CandidateSealError>)
        ensures
            r is Ok <==> trees_stand(self.physical.records@, self.entries@),
            r matches Err(error) ==> error == CandidateSealError::InvalidRecord,
            r matches Ok(trees) ==> {
                &&& trees@.len() == self.entries@.len()
                &&& forall|i: int|
                    0 <= i < trees@.len() ==> tree_projects(
                        #[trigger] trees@[i],
                        self.physical.records@[self.entries@[i].directory.0 as int],
                        self.entries@[i],
                    )
            },
    {
        let physical = self.physical;
        let ghost records = physical.records@;
        let mut trees: Vec<TreeRecord<'physical>> = Vec::new();
        let mut i: usize = 0;
        while i < self.entries.len()
            invariant
                physical == self.physical,
                records == physical.records@,
                i <= self.entries@.len(),
                trees@.len() == i,
                forall|k: int| 0 <= k < i ==> tree_directory(records, #[trigger] self.entries@[k]),
                forall|k: int|
                    0 <= k < i ==> tree_projects(
                        #[trigger] trees@[k],
                        records[self.entries@[k].directory.0 as int],
                        self.entries@[k],
                    ),
            decreases self.entries@.len() - i,
        {
            let entry = self.entries[i];
            match physical.record(entry.directory) {
                Some(record) => {
                    match record.kind {
                        AuditedPhysicalKind::Directory(_) => {
                            trees.push(
                                TreeRecord {
                                    path: record.path,
                                    tree_oid: entry.tree_oid,
                                    raw_size: entry.raw_size,
                                    raw_sha256: entry.raw_sha256,
                                },
                            );
                        },
                        AuditedPhysicalKind::File { .. } => {
                            assert(!tree_directory(records, self.entries@[i as int]));
                            return Err(CandidateSealError::InvalidRecord);
                        },
                    }
                },
                None => {
                    assert(!tree_directory(records, self.entries@[i as int]));
                    return Err(CandidateSealError::InvalidRecord);
                },
            }
            i = i + 1;
        }
        Ok(trees)
    }
}

} // verus!
