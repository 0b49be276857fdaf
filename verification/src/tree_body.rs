//! Tree objects as Git writes them.

use crate::bytes::{bytes_equal, bytes_less, to_vec};
use crate::errors::RepositoryImportError;
use crate::git_object::{typed_object_oid, typed_oid};
use crate::git_output::sha1_text;
use crate::hex::{hex_bytes, hex_oid_bytes, hex_text};
use crate::portable_path::SLASH;
use crate::seal_records::ObjectKind;
use crate::sorting::{keys_in_order, sort_keyed, Keyed};
use crate::source_tree::oid_string;
use crate::text::text_equal;
use crate::wiped::WipedBytes;
use vstd::prelude::*;
use vstd::string::*;
use vstd::utf8::encode_utf8;

verus! {

/// Longest object of a target, in bytes.
pub const MAX_TARGET_OBJECT_BYTES: usize = 71_303_168;

/// The length of an object that a target may have.
pub fn validate_target_object_stream_length(size: u64) -> (r: Result<usize, RepositoryImportError>)
    ensures
        r is Ok <==> size <= MAX_TARGET_OBJECT_BYTES,
        r matches Ok(length) ==> length == size,
        r matches Err(error) ==> error == RepositoryImportError::ResourceLimit,
{
    if size <= MAX_TARGET_OBJECT_BYTES as u64 {
        Ok(size as usize)
    } else {
        Err(RepositoryImportError::ResourceLimit)
    }
}

/// Read an object id from its lowercase hexadecimal text.
pub fn decode_sha1_oid(oid: &str) -> (r: Result<[u8; 20], RepositoryImportError>)
    ensures
        r is Ok <==> sha1_text(oid.spec_bytes()),
        r matches Ok(bytes) ==> bytes@ == hex_bytes(oid.spec_bytes()),
        r matches Err(error) ==> error == RepositoryImportError::TargetAuditFailed,
{
    match hex_oid_bytes(oid.as_bytes()) {
        Ok(bytes) => Ok(bytes),
        Err(_) => Err(RepositoryImportError::TargetAuditFailed),
    }
}

/// The kind of object that a text names.
pub open spec fn named_kind(object_type: Seq<char>) -> Option<ObjectKind> {
    if object_type == "blob"@ {
        Some(ObjectKind::Blob)
    } else if object_type == "tree"@ {
        Some(ObjectKind::Tree)
    } else if object_type == "commit"@ {
        Some(ObjectKind::Commit)
    } else {
        None
    }
}

/// The kind of object that a text names.
pub fn object_kind_named(object_type: &str) -> (kind: Option<ObjectKind>)
    ensures
        kind == named_kind(object_type@),
{
    if text_equal(object_type, "blob") {
        Some(ObjectKind::Blob)
    } else if text_equal(object_type, "tree") {
        Some(ObjectKind::Tree)
    } else if text_equal(object_type, "commit") {
        Some(ObjectKind::Commit)
    } else {
        None
    }
}

/// The object id of a body, in lowercase hexadecimal.
pub fn typed_git_object_oid(object_type: &str, body: &[u8]) -> (r: Result<String, RepositoryImportError>)
    ensures
        match named_kind(object_type@) {
            None => r matches Err(error) && error == RepositoryImportError::TargetAuditFailed,
            Some(kind) => if body@.len() > MAX_TARGET_OBJECT_BYTES {
                r matches Err(error) && error == RepositoryImportError::ResourceLimit
            } else {
                r matches Ok(oid) && encode_utf8(oid@) == hex_text(typed_oid(kind, body@.len() as u64, body@))
            },
        },
{
    let kind = match object_kind_named(object_type) {
        Some(kind) => kind,
        None => {
            return Err(RepositoryImportError::TargetAuditFailed);
        },
    };
    let size: u64 = body.len() as u64;
    validate_target_object_stream_length(size)?;
    Ok(oid_string(typed_object_oid(kind, size, body)))
}

/// One entry of a tree.
pub struct CanonicalTreeEntry {
    pub name: String,
    pub oid: String,
    pub directory: bool,
}

/// What one entry of a tree says: its name, the text of its object id, and whether it is a directory.
pub struct TreeItem {
    pub name: Seq<u8>,
    pub oid: Seq<u8>,
    pub directory: bool,
}

/// What an entry is ordered by: its name, with a slash behind that of a directory.
pub open spec fn tree_key(name: Seq<u8>, directory: bool) -> Seq<u8> {
    if directory {
        name.push(SLASH)
    } else {
        name
    }
}

fn tree_sort_key(name: &str, directory: bool) -> (key: Vec<u8>)
    ensures
        key@ == tree_key(name.spec_bytes(), directory),
{
    let mut key = to_vec(name.as_bytes());
    if directory {
        key.push(SLASH);
    }
    key
}

impl Keyed for CanonicalTreeEntry {
    open spec fn key(&self) -> Seq<u8> {
        tree_key(encode_utf8(self.name@), self.directory)
    }

    fn below(&self, other: &Self) -> (r: bool) {
        let key = tree_sort_key(self.name.as_str(), self.directory);
        let other_key = tree_sort_key(other.name.as_str(), other.directory);
        bytes_less(key.as_slice(), other_key.as_slice())
    }
}

impl CanonicalTreeEntry {
    /// What the entry says.
    pub open spec fn item(self) -> TreeItem {
        TreeItem { name: encode_utf8(self.name@), oid: encode_utf8(self.oid@), directory: self.directory }
    }
}

/// What the entries say.
pub open spec fn tree_items(entries: Seq<CanonicalTreeEntry>) -> Seq<TreeItem> {
    Seq::new(entries.len(), |i: int| entries[i].item())
}

/// The mode of an entry, with the space behind it.
pub open spec fn mode_text(directory: bool) -> Seq<char> {
    if directory {
        "40000 "@
    } else {
        "100644 "@
    }
}

/// One entry as a tree holds it: mode, name, a zero byte, and the object id.
pub open spec fn tree_part(item: TreeItem) -> Seq<u8> {
    encode_utf8(mode_text(item.directory)) + item.name + seq![0u8] + hex_bytes(item.oid)
}

/// The first `n` entries as a tree holds them.
pub open spec fn tree_body(items: Seq<TreeItem>, n: int) -> Seq<u8>
    decreases n,
{
    if n <= 0 {
        Seq::empty()
    } else {
        tree_body(items, n - 1) + tree_part(items[n - 1])
    }
}

/// An entry has the name of the next one.
pub open spec fn same_name_at(items: Seq<TreeItem>, i: int) -> bool {
    0 <= i < items.len() - 1 && items[i].name == items[i + 1].name
}

/// Two neighbours have one name.
pub open spec fn neighbours_share_name(items: Seq<TreeItem>) -> bool {
    exists|i: int| #[trigger] same_name_at(items, i)
}

/// Why the entries from `i` on are not written, if they are not: an object id is malformed, or the
/// tree becomes too long.
pub open spec fn tree_items_error(items: Seq<TreeItem>, i: int) -> Option<RepositoryImportError>
    decreases items.len() - i,
{
    if i >= items.len() {
        None
    } else if !sha1_text(items[i].oid) {
        Some(RepositoryImportError::TargetAuditFailed)
    } else if tree_body(items, i + 1).len() > MAX_TARGET_OBJECT_BYTES {
        Some(RepositoryImportError::ResourceLimit)
    } else {
        tree_items_error(items, i + 1)
    }
}

/// Why ordered entries make no tree, if they do not.
pub open spec fn tree_error(items: Seq<TreeItem>) -> Option<RepositoryImportError> {
    if neighbours_share_name(items) {
        Some(RepositoryImportError::TargetAuditFailed)
    } else {
        tree_items_error(items, 0)
    }
}

fn has_neighbours_of_one_name(entries: &Vec<CanonicalTreeEntry>) -> (r: bool)
    ensures
        r == neighbours_share_name(tree_items(entries@)),
{
    let ghost items = tree_items(entries@);
    let mut i: usize = 1;
    while i < entries.len()
        invariant
            items == tree_items(entries@),
            1 <= i,
            forall|k: int| 0 <= k < i - 1 ==> !#[trigger] same_name_at(items, k),
        decreases entries@.len() - i,
    {
        if bytes_equal(entries[i - 1].name.as_str().as_bytes(), entries[i].name.as_str().as_bytes()) {
            assert(same_name_at(items, i - 1));
            return true;
        }
        i = i + 1;
    }
    assert forall|k: int| !#[trigger] same_name_at(items, k) by {}
    false
}

/// Write ordered entries.
fn write_tree(entries: &Vec<CanonicalTreeEntry>) -> (r: Result<WipedBytes, RepositoryImportError>)
    ensures
        match tree_items_error(tree_items(entries@), 0) {
            Some(error) => r matches Err(e) && e == error,
            None => r matches Ok(body) && body@ == tree_body(tree_items(entries@), entries@.len() as int),
        },
{
    let ghost items = tree_items(entries@);
    let mut body = WipedBytes::new(Vec::new());
    let separator: [u8; 1] = [0];
    assert(separator@ =~= seq![0u8]);
    let mut i: usize = 0;
    while i < entries.len()
        invariant
            items == tree_items(entries@),
            separator@ == seq![0u8],
            i <= entries@.len(),
            body@ == tree_body(items, i as int),
            tree_items_error(items, 0) == tree_items_error(items, i as int),
        decreases entries@.len() - i,
    {
        let oid = decode_sha1_oid(entries[i].oid.as_str())?;
        let mode: &'static str = if entries[i].directory {
            "40000 "
        } else {
            "100644 "
        };
        body.append(mode.as_bytes());
        body.append(entries[i].name.as_str().as_bytes());
        body.append(separator.as_slice());
        body.append(oid.as_slice());
        proof {
            assert(body@ =~= tree_body(items, i as int) + tree_part(items[i as int]));
        }
        if body.len() > MAX_TARGET_OBJECT_BYTES {
            return Err(RepositoryImportError::ResourceLimit);
        }
        i = i + 1;
    }
    Ok(body)
}

/// Put the entries of a tree in their canonical order and write them.
pub fn serialize_canonical_tree(entries: &mut Vec<CanonicalTreeEntry>) -> (r: Result<WipedBytes, RepositoryImportError>)
    ensures
        final(entries)@.to_multiset() == old(entries)@.to_multiset(),
        keys_in_order(final(entries)@),
        match tree_error(tree_items(final(entries)@)) {
            Some(error) => r matches Err(e) && e == error,
            None => r matches Ok(body) && body@ == tree_body(tree_items(final(entries)@), final(entries)@.len() as int),
        },
{
    sort_keyed(entries);
    if has_neighbours_of_one_name(entries) {
        return Err(RepositoryImportError::TargetAuditFailed);
    }
    write_tree(entries)
}

} // verus!
