//! The bytes of a source: attributes that change them, and proof that they are what Git holds.

use crate::bytes::{bytes_equal, ends_with, find_byte, has_prefix, has_suffix, next_index, slices_view, starts_with};
use crate::digest::sha256_of;
use crate::errors::RepositoryImportError;
use crate::git_object::{append, raw_sha256};
use crate::git_output::{
    first_line, is_one_line, is_possible_lfs_pointer, nul_pieces, nul_records, nul_terminated, one_line, without_line_end,
    LFS_POINTER_LINE,
};
use crate::manifest::NamespaceSeal;
use crate::portable_path::{equal_ignoring_case, same_ignoring_case, SLASH};
use crate::source_checks::CommandOutput;
use crate::source_tree::SourceTreeEntry;
use crate::text_map::{TextEntry, TextMap};
use vstd::prelude::*;
use vstd::slice::slice_subrange;
use vstd::string::*;
use vstd::utf8::encode_utf8;

verus! {

/// Longest body that may be a Git LFS pointer, in bytes.
pub const MAX_LFS_POINTER_BYTES: usize = 4096;

/// The paths of the first `n` entries, each ended by a NUL.
pub open spec fn attribute_input<V>(entries: Seq<TextEntry<V>>, n: int) -> Seq<u8>
    decreases n,
{
    if n <= 0 {
        Seq::empty()
    } else {
        attribute_input(entries, n - 1) + encode_utf8(entries[n - 1].key@) + seq![0u8]
    }
}

/// What is asked of `git check-attr`: every path of a tree, in order, ended by a NUL.
pub fn attribute_query(tree: &TextMap<SourceTreeEntry>) -> (input: Vec<u8>)
    ensures
        input@ == attribute_input(tree.entries@, tree.entries@.len() as int),
{
    let nul: [u8; 1] = [0];
    assert(nul@ =~= seq![0u8]);
    let mut input: Vec<u8> = Vec::new();
    let mut i: usize = 0;
    while i < tree.entries.len()
        invariant
            nul@ == seq![0u8],
            i <= tree.entries@.len(),
            input@ == attribute_input(tree.entries@, i as int),
        decreases tree.entries@.len() - i,
    {
        append(&mut input, tree.entries[i].key.as_str().as_bytes());
        append(&mut input, nul.as_slice());
        i = i + 1;
    }
    input
}

/// One of the attributes that were asked for.
pub open spec fn asked_attribute(name: Seq<u8>) -> bool {
    name == encode_utf8("filter"@) || name == encode_utf8("working-tree-encoding"@) || name == encode_utf8("ident"@)
}

/// A value that leaves bytes as they are.
pub open spec fn inert_value(value: Seq<u8>) -> bool {
    value == encode_utf8("unspecified"@) || value == encode_utf8("unset"@)
}

/// Why the answers from triple `t` on are refused, if they are.
pub open spec fn attribute_error(records: Seq<Seq<u8>>, t: int) -> Option<RepositoryImportError>
    decreases records.len() - 3 * t,
{
    if t < 0 || 3 * t + 2 >= records.len() {
        None
    } else if !asked_attribute(records[3 * t + 1]) {
        Some(RepositoryImportError::MalformedGitOutput)
    } else if !inert_value(records[3 * t + 2]) {
        Some(RepositoryImportError::ContentFilterUnsupported)
    } else {
        attribute_error(records, t + 1)
    }
}

/// Why the answers for a number of paths are refused, if they are.
pub open spec fn attributes_error(output: Seq<u8>, path_count: nat) -> Option<RepositoryImportError> {
    if !nul_terminated(output) || nul_pieces(output).len() != 9 * path_count {
        Some(RepositoryImportError::MalformedGitOutput)
    } else {
        attribute_error(nul_pieces(output), 0)
    }
}

/// Judge the output of `git check-attr --cached -z --stdin filter working-tree-encoding ident`:
/// three answers for each path, and none that changes content.
pub fn reject_source_attributes(output: &[u8], path_count: usize) -> (r: Result<(), RepositoryImportError>)
    ensures
        match attributes_error(output@, path_count as nat) {
            Some(error) => r matches Err(e) && e == error,
            None => r is Ok,
        },
{
    let records = nul_records(output)?;
    let ghost all = nul_pieces(output@);
    assert(all.len() == records@.len());
    if records.len() % 9 != 0 || records.len() / 9 != path_count {
        return Err(RepositoryImportError::MalformedGitOutput);
    }
    let count: usize = records.len() / 3;
    let mut t: usize = 0;
    while t < count
        invariant
            slices_view(records@) == all,
            all == nul_pieces(output@),
            all.len() == records@.len(),
            nul_terminated(output@),
            all.len() == 9 * path_count,
            count == records@.len() / 3,
            t <= count,
            attribute_error(all, 0) == attribute_error(all, t as int),
        decreases count - t,
    {
        assert(3 * t + 2 < records@.len());
        assert(all[3 * t + 1] == records@[3 * t + 1]@);
        assert(all[3 * t + 2] == records@[3 * t + 2]@);
        let name = records[3 * t + 1];
        let value = records[3 * t + 2];
        if !bytes_equal(name, "filter".as_bytes()) && !bytes_equal(name, "working-tree-encoding".as_bytes()) && !bytes_equal(
            name,
            "ident".as_bytes(),
        ) {
            return Err(RepositoryImportError::MalformedGitOutput);
        }
        if !bytes_equal(value, "unspecified".as_bytes()) && !bytes_equal(value, "unset".as_bytes()) {
            return Err(RepositoryImportError::ContentFilterUnsupported);
        }
        t = t + 1;
    }
    Ok(())
}

/// Why the hash that Git gives for a body is refused, if it is.
pub open spec fn hash_error(hash: CommandOutput, oid: Seq<char>) -> Option<RepositoryImportError> {
    match hash {
        Err(error) => Some(error),
        Ok(output) => if !is_one_line(output@) {
            Some(RepositoryImportError::MalformedGitOutput)
        } else if without_line_end(output@) != encode_utf8(oid) {
            Some(RepositoryImportError::SourceChanged)
        } else {
            None
        },
    }
}

/// Why the blob that Git gives for a body is refused, if it is.
pub open spec fn blob_error(raw: CommandOutput, size: u64, sha256: Seq<u8>, bytes: Seq<u8>) -> Option<RepositoryImportError> {
    match raw {
        Err(error) => Some(error),
        Ok(output) => if output@ != bytes || output@.len() != size || sha256_of(output@) != sha256 {
            Some(RepositoryImportError::SourceChanged)
        } else if output@.len() <= MAX_LFS_POINTER_BYTES && first_line(output@) == encode_utf8(LFS_POINTER_LINE@) {
            Some(RepositoryImportError::LfsPointerUnsupported)
        } else {
            None
        },
    }
}

/// Require Git to hash a body to its id.
pub fn check_source_hash(hash: &CommandOutput, oid: &str) -> (r: Result<(), RepositoryImportError>)
    ensures
        match hash_error(*hash, oid@) {
            Some(error) => r matches Err(e) && e == error,
            None => r is Ok,
        },
{
    match hash {
        Err(error) => Err(*error),
        Ok(output) => {
            let line = one_line(output.as_slice())?;
            if !bytes_equal(line.as_bytes(), oid.as_bytes()) {
                return Err(RepositoryImportError::SourceChanged);
            }
            Ok(())
        },
    }
}

/// Require Git to hold a body as a blob, and the body to be no Git LFS pointer.
pub fn check_source_blob(raw: &CommandOutput, size: u64, sha256: &[u8; 32], bytes: &[u8]) -> (r: Result<
    (),
    RepositoryImportError,
>)
    ensures
        match blob_error(*raw, size, sha256@, bytes@) {
            Some(error) => r matches Err(e) && e == error,
            None => r is Ok,
        },
{
    match raw {
        Err(error) => Err(*error),
        Ok(output) => {
            let digest = raw_sha256(output.as_slice());
            if !bytes_equal(output.as_slice(), bytes) || output.len() as u64 != size || !bytes_equal(
                digest.as_slice(),
                sha256.as_slice(),
            ) {
                return Err(RepositoryImportError::SourceChanged);
            }
            if output.len() <= MAX_LFS_POINTER_BYTES && is_possible_lfs_pointer(output.as_slice()) {
                return Err(RepositoryImportError::LfsPointerUnsupported);
            }
            Ok(())
        },
    }
}

/// A path of the control directory that changes where or how objects are found.
pub open spec fn forbidden_control(path: Seq<u8>) -> bool {
    ||| path == encode_utf8("commondir"@)
    ||| path == encode_utf8("config.worktree"@)
    ||| path == encode_utf8("objects/info/alternates"@)
    ||| path == encode_utf8("objects/info/http-alternates"@)
    ||| path == encode_utf8("info/attributes"@)
    ||| path == encode_utf8("info/grafts"@)
    ||| path == encode_utf8("shallow"@)
    ||| path == encode_utf8("info/sparse-checkout"@)
    ||| path == encode_utf8("worktrees"@)
    ||| path == encode_utf8("refs/replace"@)
    ||| shared_index_name(path.subrange(0, next_index(path, SLASH, 0)))
    ||| has_prefix(path, encode_utf8("objects/pack/"@)) && has_suffix(
        path.subrange(encode_utf8("objects/pack/"@).len() as int, path.len() as int),
        encode_utf8(".promisor"@),
    )
}

/// A name that begins with `sharedindex.`, in any case.
pub open spec fn shared_index_name(name: Seq<u8>) -> bool {
    name.len() >= 12 && same_ignoring_case(name.subrange(0, 12), encode_utf8("sharedindex."@))
}

fn is_forbidden_control(path: &[u8]) -> (r: bool)
    ensures
        r == forbidden_control(path@),
{
    if bytes_equal(path, "commondir".as_bytes()) || bytes_equal(path, "config.worktree".as_bytes()) || bytes_equal(
        path,
        "objects/info/alternates".as_bytes(),
    ) || bytes_equal(path, "objects/info/http-alternates".as_bytes()) || bytes_equal(path, "info/attributes".as_bytes())
        || bytes_equal(path, "info/grafts".as_bytes()) || bytes_equal(path, "shallow".as_bytes()) || bytes_equal(
        path,
        "info/sparse-checkout".as_bytes(),
    ) || bytes_equal(path, "worktrees".as_bytes()) || bytes_equal(path, "refs/replace".as_bytes()) {
        return true;
    }
    let end = find_byte(path, SLASH, 0);
    let name = slice_subrange(path, 0, end);
    if name.len() >= 12 && equal_ignoring_case(slice_subrange(name, 0, 12), "sharedindex.".as_bytes()) {
        return true;
    }
    let pack = "objects/pack/".as_bytes();
    starts_with(path, pack) && ends_with(slice_subrange(path, pack.len(), path.len()), ".promisor".as_bytes())
}

/// Reject a control directory that holds state outside the profile.
pub fn reject_forbidden_source_control(control: &[NamespaceSeal]) -> (r: Result<(), RepositoryImportError>)
    ensures
        r == if exists|i: int|
            0 <= i < control@.len() && forbidden_control(encode_utf8((#[trigger] control@[i]).relative_path@)) {
            Err::<(), RepositoryImportError>(RepositoryImportError::UnsafeSourceControl)
        } else {
            Ok(())
        },
{
    let mut i: usize = 0;
    while i < control.len()
        invariant
            i <= control@.len(),
            forall|k: int| 0 <= k < i ==> !forbidden_control(encode_utf8((#[trigger] control@[k]).relative_path@)),
        decreases control@.len() - i,
    {
        if is_forbidden_control(control[i].relative_path.as_str().as_bytes()) {
            assert(forbidden_control(encode_utf8(control@[i as int].relative_path@)));
            return Err(RepositoryImportError::UnsafeSourceControl);
        }
        i = i + 1;
    }
    Ok(())
}

} // verus!
