//! The objects that a target must hold, from its files, its trees and its one commit.

use crate::bytes::bytes_equal;
use crate::digest::{sha256_digest, sha256_of};
use crate::errors::RepositoryImportError;
use crate::git_object::{append, typed_oid};
use crate::git_output::{require_sha1_oid, sha1_text};
use crate::hex::{decimal_text, decimal_u64, hex_text};
use crate::identity::FilesystemFileIdentity;
use crate::seal_records::ObjectKind;
use crate::target_tree::{CanonicalTreeObject, TargetBlobs};
use crate::text::{encoding_is_injective, text_equal};
use crate::text_map::{entry_in_view, key_index, same_keys_in_order, TextEntry, TextMap};
use crate::tree_body::{typed_git_object_oid, MAX_TARGET_OBJECT_BYTES};
use vstd::prelude::*;
use vstd::string::*;
use vstd::utf8::encode_utf8;

verus! {

/// One tracked file of a target, under its path with slashes.
pub struct TargetTrackedEntry {
    pub relative_path: String,
    pub size: u64,
    pub sha256: [u8; 32],
    pub blob_oid: String,
    pub identity: FilesystemFileIdentity,
}

/// What an object of a target is.
pub struct ObjectDescriptor {
    pub object_type: String,
    pub size: u64,
}

/// What an object of a target must be.
#[derive(Clone, Copy)]
pub struct TargetObjectExpectation {
    pub object_type: &'static str,
    pub size: u64,
    pub sha256: [u8; 32],
}

impl TargetObjectExpectation {
    /// Both expect the same.
    pub open spec fn same(self, other: TargetObjectExpectation) -> bool {
        self.object_type@ == other.object_type@ && self.size == other.size && self.sha256@ == other.sha256@
    }

    /// Whether both expect the same.
    pub fn matches(&self, other: &TargetObjectExpectation) -> (r: bool)
        ensures
            r == self.same(*other),
    {
        text_equal(self.object_type, other.object_type) && self.size == other.size && bytes_equal(
            self.sha256.as_slice(),
            other.sha256.as_slice(),
        )
    }

    /// The expectation in diagnostics, where its digest does not appear.
    pub open spec fn redacted_text(self) -> Seq<u8> {
        encode_utf8("TargetObjectExpectation { object_type: \""@) + encode_utf8(self.object_type@) + encode_utf8(
            "\", size: "@,
        ) + decimal_text(self.size as nat) + encode_utf8(", sha256: \"[REDACTED]\" }"@)
    }

    /// The expectation in diagnostics, where its digest does not appear.
    pub fn redacted(&self) -> (text: Vec<u8>)
        ensures
            text@ == self.redacted_text(),
    {
        let mut text: Vec<u8> = Vec::new();
        append(&mut text, "TargetObjectExpectation { object_type: \"".as_bytes());
        append(&mut text, self.object_type.as_bytes());
        append(&mut text, "\", size: ".as_bytes());
        append(&mut text, decimal_u64(self.size).as_slice());
        append(&mut text, ", sha256: \"[REDACTED]\" }".as_bytes());
        assert(text@ =~= self.redacted_text());
        text
    }
}

/// Two tracked files have one path.
pub open spec fn path_repeats(tracked_entries: Seq<TargetTrackedEntry>, i: int, j: int) -> bool {
    0 <= i < j < tracked_entries.len() && tracked_entries[i].relative_path@ == tracked_entries[j].relative_path@
}

/// No two tracked files have one path.
pub open spec fn paths_differ(entries: Seq<TargetTrackedEntry>) -> bool {
    forall|i: int, j: int| !#[trigger] path_repeats(entries, i, j)
}

/// The map holds exactly the first `n` files.
pub open spec fn manifest_holds(blobs: TargetBlobs, entries: Seq<TargetTrackedEntry>, n: int) -> bool {
    &&& forall|path: Seq<char>| #[trigger]
        blobs.dom().contains(path) <==> exists|i: int| 0 <= i < n && (#[trigger] entries[i]).relative_path@ == path
    &&& forall|i: int|
        0 <= i < n ==> blobs[(#[trigger] entries[i]).relative_path@].0@ == entries[i].blob_oid@
            && blobs[entries[i].relative_path@].1 == entries[i].size
}

/// Object id and size of every tracked file, by path.
pub fn target_blob_manifest(entries: &Vec<TargetTrackedEntry>) -> (r: Result<TextMap<(String, u64)>, RepositoryImportError>)
    ensures
        r is Ok <==> paths_differ(entries@),
        r matches Ok(manifest) ==> manifest.wf() && manifest_holds(manifest@, entries@, entries@.len() as int),
        r matches Err(error) ==> error == RepositoryImportError::TargetAuditFailed,
{
    let mut manifest: TextMap<(String, u64)> = TextMap::new();
    let mut i: usize = 0;
    while i < entries.len()
        invariant
            manifest.wf(),
            i <= entries@.len(),
            manifest_holds(manifest@, entries@, i as int),
            forall|a: int, b: int| b < i ==> !#[trigger] path_repeats(entries@, a, b),
        decreases entries@.len() - i,
    {
        let ghost before = manifest@;
        let path = entries[i].relative_path.clone();
        let ghost text = entries@[i as int].relative_path@;
        let inserted = manifest.insert_new(path, (entries[i].blob_oid.clone(), entries[i].size));
        if !inserted {
            proof {
                assert(before.dom().contains(text));
                let k = choose|k: int| 0 <= k < i && (#[trigger] entries@[k]).relative_path@ == text;
                assert(path_repeats(entries@, k, i as int));
            }
            return Err(RepositoryImportError::TargetAuditFailed);
        }
        proof {
            assert forall|a: int, b: int| b < i + 1 implies !#[trigger] path_repeats(entries@, a, b) by {
                if path_repeats(entries@, a, b) && b == i {
                    assert(entries@[a].relative_path@ == text);
                    assert(before.dom().contains(text));
                }
            }
            assert forall|path: Seq<char>| #[trigger]
                manifest@.dom().contains(path) <==> exists|k: int|
                    0 <= k < i + 1 && (#[trigger] entries@[k]).relative_path@ == path by {
                if before.dom().contains(path) {
                    let k = choose|k: int| 0 <= k < i && (#[trigger] entries@[k]).relative_path@ == path;
                    assert(entries@[k].relative_path@ == path);
                }
                if path == text {
                    assert(entries@[i as int].relative_path@ == path);
                }
            }
            assert forall|k: int| 0 <= k < i + 1 implies manifest@[(#[trigger] entries@[k]).relative_path@].0@
                == entries@[k].blob_oid@ && manifest@[entries@[k].relative_path@].1 == entries@[k].size by {
                if k < i {
                    assert(before.dom().contains(entries@[k].relative_path@));
                    assert(entries@[k].relative_path@ != text);
                }
            }
        }
        i = i + 1;
    }
    Ok(manifest)
}

/// The same keys, with the object ids of the trees.
pub open spec fn oids_of_trees(
    oids: Map<Seq<char>, String>,
    trees: Map<Seq<char>, CanonicalTreeObject>,
) -> bool {
    &&& oids.dom() == trees.dom()
    &&& forall|path: Seq<char>| #[trigger] trees.dom().contains(path) ==> oids[path]@ == trees[path].oid@
}

/// The object ids of the trees, by path.
pub fn canonical_target_tree_oids(expected_trees: &TextMap<CanonicalTreeObject>) -> (oids: TextMap<String>)
    requires
        expected_trees.wf(),
    ensures
        oids.wf(),
        oids_of_trees(oids@, expected_trees@),
{
    let mut entries: Vec<TextEntry<String>> = Vec::new();
    let ghost trees = expected_trees.entries@;
    let mut i: usize = 0;
    while i < expected_trees.entries.len()
        invariant
            trees == expected_trees.entries@,
            i <= trees.len(),
            entries@.len() == i,
            forall|k: int| 0 <= k < i ==> (#[trigger] entries@[k]).key@ == trees[k].key@ && entries@[k].value@ == trees[k].value.oid@,
        decreases trees.len() - i,
    {
        entries.push(
            TextEntry { key: expected_trees.entries[i].key.clone(), value: expected_trees.entries[i].value.oid.clone() },
        );
        i = i + 1;
    }
    let oids = TextMap { entries };
    proof {
        same_keys_in_order(oids, *expected_trees);
        assert forall|path: Seq<char>| #[trigger] expected_trees@.dom().contains(path) implies oids@[path]@
            == expected_trees@[path].oid@ by {
            let k = key_index(trees, path);
            entry_in_view(*expected_trees, k);
            entry_in_view(oids, k);
        }
    }
    oids
}

/// Expect an object. The same object may be expected more than once, but always alike.
pub fn insert_target_object_expectation(
    objects: &mut TextMap<TargetObjectExpectation>,
    oid: &str,
    expectation: TargetObjectExpectation,
) -> (r: Result<(), RepositoryImportError>)
    requires
        old(objects).wf(),
    ensures
        final(objects).wf(),
        r is Ok <==> sha1_text(oid.spec_bytes()) && (old(objects)@.dom().contains(oid@) ==> old(objects)@[oid@].same(expectation)),
        r is Ok ==> final(objects)@ == if old(objects)@.dom().contains(oid@) {
            old(objects)@
        } else {
            old(objects)@.insert(oid@, expectation)
        },
        r matches Err(error) ==> error == RepositoryImportError::TargetAuditFailed && *final(objects) == *old(objects),
{
    if require_sha1_oid(oid).is_err() {
        return Err(RepositoryImportError::TargetAuditFailed);
    }
    match objects.get(oid) {
        Some(existing) => {
            return if existing.matches(&expectation) {
                Ok(())
            } else {
                Err(RepositoryImportError::TargetAuditFailed)
            };
        },
        None => {},
    }
    let _ = objects.insert_new(oid.to_owned(), expectation);
    Ok(())
}

/// One object that is expected, with what it must be.
pub struct Wish {
    pub oid: Seq<char>,
    pub object_type: Seq<char>,
    pub size: u64,
    pub sha256: Seq<u8>,
}

/// An expectation says what a wish says.
pub open spec fn meets(expectation: TargetObjectExpectation, wish: Wish) -> bool {
    expectation.object_type@ == wish.object_type && expectation.size == wish.size && expectation.sha256@ == wish.sha256
}

/// What the tracked files are expected to be.
pub open spec fn blob_wishes(entries: Seq<TargetTrackedEntry>) -> Seq<Wish> {
    Seq::new(
        entries.len(),
        |i: int|
            Wish {
                oid: entries[i].blob_oid@,
                object_type: "blob"@,
                size: entries[i].size,
                sha256: entries[i].sha256@,
            },
    )
}

/// What the trees are expected to be.
pub open spec fn tree_wishes(trees: Seq<TextEntry<CanonicalTreeObject>>) -> Seq<Wish> {
    Seq::new(
        trees.len(),
        |i: int|
            Wish {
                oid: trees[i].value.oid@,
                object_type: "tree"@,
                size: trees[i].value.size,
                sha256: trees[i].value.sha256@,
            },
    )
}

/// What the commit is expected to be.
pub open spec fn commit_wish(oid: Seq<char>, body: Seq<u8>) -> Wish {
    Wish { oid, object_type: "commit"@, size: body.len() as u64, sha256: sha256_of(body) }
}

/// Two wishes for one object differ.
pub open spec fn wishes_clash(wishes: Seq<Wish>, i: int, j: int) -> bool {
    0 <= i < j < wishes.len() && wishes[i].oid == wishes[j].oid && wishes[i] != wishes[j]
}

/// Every wish names an object, and those for one object are alike.
pub open spec fn wishes_agree(wishes: Seq<Wish>) -> bool {
    &&& forall|i: int| 0 <= i < wishes.len() ==> sha1_text(encode_utf8((#[trigger] wishes[i]).oid))
    &&& forall|i: int, j: int| !#[trigger] wishes_clash(wishes, i, j)
}

/// The map holds what is wished, and nothing else.
pub open spec fn wishes_held(objects: Map<Seq<char>, TargetObjectExpectation>, wishes: Seq<Wish>) -> bool {
    &&& forall|oid: Seq<char>| #[trigger]
        objects.dom().contains(oid) <==> exists|i: int| 0 <= i < wishes.len() && (#[trigger] wishes[i]).oid == oid
    &&& forall|i: int| 0 <= i < wishes.len() ==> meets(objects[(#[trigger] wishes[i]).oid], wishes[i])
}

/// Add one wish to those that are held.
fn take_wish(
    objects: &mut TextMap<TargetObjectExpectation>,
    oid: &str,
    expectation: TargetObjectExpectation,
    Ghost(wishes): Ghost<Seq<Wish>>,
    Ghost(wish): Ghost<Wish>,
) -> (r: Result<(), RepositoryImportError>)
    requires
        old(objects).wf(),
        wishes_agree(wishes),
        wishes_held(old(objects)@, wishes),
        wish.oid == oid@,
        meets(expectation, wish),
    ensures
        r is Ok <==> wishes_agree(wishes.push(wish)),
        r is Ok ==> final(objects).wf() && wishes_held(final(objects)@, wishes.push(wish)),
        r matches Err(error) ==> error == RepositoryImportError::TargetAuditFailed,
{
    let ghost before = objects@;
    let ghost more = wishes.push(wish);
    let r = insert_target_object_expectation(objects, oid, expectation);
    proof {
        if before.dom().contains(oid@) {
            let k = choose|k: int| 0 <= k < wishes.len() && (#[trigger] wishes[k]).oid == oid@;
            assert(meets(before[wishes[k].oid], wishes[k]));
            if !before[oid@].same(expectation) {
                assert(more[k] == wishes[k] && more[wishes.len() as int] == wish);
                assert(wishes_clash(more, k, wishes.len() as int));
            } else {
                assert(wishes[k].object_type == wish.object_type);
                assert(wishes[k] == wish);
            }
        }
        if r is Ok {
            assert forall|i: int| 0 <= i < more.len() implies sha1_text(encode_utf8((#[trigger] more[i]).oid)) by {
                if i < wishes.len() {
                    assert(more[i] == wishes[i]);
                }
            }
            assert forall|i: int, j: int| !#[trigger] wishes_clash(more, i, j) by {
                if wishes_clash(more, i, j) {
                    if j < wishes.len() {
                        assert(wishes_clash(wishes, i, j));
                    } else {
                        assert(more[i] == wishes[i]);
                        assert(before.dom().contains(oid@));
                        assert(meets(before[wishes[i].oid], wishes[i]));
                    }
                }
            }
            assert forall|id: Seq<char>| #[trigger]
                objects@.dom().contains(id) <==> exists|i: int| 0 <= i < more.len() && (#[trigger] more[i]).oid == id by {
                if before.dom().contains(id) {
                    let k = choose|k: int| 0 <= k < wishes.len() && (#[trigger] wishes[k]).oid == id;
                    assert(more[k].oid == id);
                }
                if id == oid@ {
                    assert(more[wishes.len() as int].oid == id);
                }
                if exists|i: int| 0 <= i < more.len() && (#[trigger] more[i]).oid == id {
                    let k = choose|k: int| 0 <= k < more.len() && (#[trigger] more[k]).oid == id;
                    if k < wishes.len() {
                        assert(wishes[k].oid == id);
                    }
                }
            }
            assert forall|i: int| 0 <= i < more.len() implies meets(objects@[(#[trigger] more[i]).oid], more[i]) by {
                if i < wishes.len() {
                    assert(more[i] == wishes[i]);
                    assert(meets(before[wishes[i].oid], wishes[i]));
                    assert(before.dom().contains(wishes[i].oid));
                }
            }
        } else {
            assert(more[wishes.len() as int] == wish);
        }
    }
    r
}

/// Why no expectations come of what is known of a target, if none do.
pub open spec fn expectations_error(
    entries: Seq<TargetTrackedEntry>,
    trees: Seq<TextEntry<CanonicalTreeObject>>,
    root_commit_oid: Seq<char>,
    commit_bytes: Seq<u8>,
) -> Option<RepositoryImportError> {
    let wishes = blob_wishes(entries) + tree_wishes(trees);
    if !wishes_agree(wishes) {
        Some(RepositoryImportError::TargetAuditFailed)
    } else if commit_bytes.len() > MAX_TARGET_OBJECT_BYTES {
        Some(RepositoryImportError::ResourceLimit)
    } else if encode_utf8(root_commit_oid) != hex_text(typed_oid(ObjectKind::Commit, commit_bytes.len() as u64, commit_bytes))
        || !wishes_agree(wishes.push(commit_wish(root_commit_oid, commit_bytes))) {
        Some(RepositoryImportError::TargetAuditFailed)
    } else {
        None
    }
}

/// Wishes that disagree early disagree altogether.
proof fn early_disagreement(wishes: Seq<Wish>, n: int)
    requires
        0 <= n <= wishes.len(),
        wishes_agree(wishes),
    ensures
        wishes_agree(wishes.subrange(0, n)),
{
    let early = wishes.subrange(0, n);
    assert forall|i: int| 0 <= i < early.len() implies sha1_text(encode_utf8((#[trigger] early[i]).oid)) by {
        assert(early[i] == wishes[i]);
    }
    assert forall|i: int, j: int| !#[trigger] wishes_clash(early, i, j) by {
        if wishes_clash(early, i, j) {
            assert(wishes_clash(wishes, i, j));
        }
    }
}

/// The objects that a target must hold: one blob for each tracked file, the trees, and the commit,
/// whose id must be that of its bytes.
pub fn expected_target_object_expectations(
    entries: &Vec<TargetTrackedEntry>,
    trees: &TextMap<CanonicalTreeObject>,
    root_commit_oid: &str,
    commit_bytes: &[u8],
) -> (r: Result<TextMap<TargetObjectExpectation>, RepositoryImportError>)
    ensures
        match expectations_error(entries@, trees.entries@, root_commit_oid@, commit_bytes@) {
            Some(error) => r matches Err(e) && e == error,
            None => r matches Ok(objects) && objects.wf() && wishes_held(
                objects@,
                (blob_wishes(entries@) + tree_wishes(trees.entries@)).push(commit_wish(root_commit_oid@, commit_bytes@)),
            ),
        },
{
    let ghost blobs = blob_wishes(entries@);
    let ghost all = blobs + tree_wishes(trees.entries@);
    let mut objects: TextMap<TargetObjectExpectation> = TextMap::new();
    let mut i: usize = 0;
    assert(all.subrange(0, 0) =~= Seq::<Wish>::empty());
    while i < entries.len()
        invariant
            blobs == blob_wishes(entries@),
            all == blobs + tree_wishes(trees.entries@),
            i <= entries@.len(),
            objects.wf(),
            wishes_agree(all.subrange(0, i as int)),
            wishes_held(objects@, all.subrange(0, i as int)),
        decreases entries@.len() - i,
    {
        let ghost wish = all[i as int];
        let expectation = TargetObjectExpectation { object_type: "blob", size: entries[i].size, sha256: entries[i].sha256 };
        proof {
            assert(all.subrange(0, i + 1) =~= all.subrange(0, i as int).push(wish));
            if wishes_agree(all) {
                early_disagreement(all, i + 1);
            }
        }
        take_wish(&mut objects, entries[i].blob_oid.as_str(), expectation, Ghost(all.subrange(0, i as int)), Ghost(wish))?;
        i = i + 1;
    }
    let mut j: usize = 0;
    while j < trees.entries.len()
        invariant
            blobs == blob_wishes(entries@),
            all == blobs + tree_wishes(trees.entries@),
            j <= trees.entries@.len(),
            objects.wf(),
            wishes_agree(all.subrange(0, entries@.len() + j)),
            wishes_held(objects@, all.subrange(0, entries@.len() + j)),
        decreases trees.entries@.len() - j,
    {
        let ghost n = entries@.len() + j;
        let ghost wish = all[n];
        let expectation = TargetObjectExpectation {
            object_type: "tree",
            size: trees.entries[j].value.size,
            sha256: trees.entries[j].value.sha256,
        };
        proof {
            assert(all.subrange(0, n + 1) =~= all.subrange(0, n).push(wish));
            assert(wish == tree_wishes(trees.entries@)[j as int]);
            if wishes_agree(all) {
                early_disagreement(all, n + 1);
            }
        }
        take_wish(&mut objects, trees.entries[j].value.oid.as_str(), expectation, Ghost(all.subrange(0, n)), Ghost(wish))?;
        j = j + 1;
    }
    assert(all.subrange(0, all.len() as int) =~= all);
    proof {
        reveal_strlit("commit");
        reveal_strlit("blob");
        reveal_strlit("tree");
    }
    let observed = typed_git_object_oid("commit", commit_bytes)?;
    proof {
        encoding_is_injective(observed@, root_commit_oid@);
    }
    if !text_equal(observed.as_str(), root_commit_oid) {
        return Err(RepositoryImportError::TargetAuditFailed);
    }
    let expectation = TargetObjectExpectation {
        object_type: "commit",
        size: commit_bytes.len() as u64,
        sha256: sha256_digest(commit_bytes),
    };
    take_wish(
        &mut objects,
        root_commit_oid,
        expectation,
        Ghost(all),
        Ghost(commit_wish(root_commit_oid@, commit_bytes@)),
    )?;
    Ok(objects)
}

} // verus!
