//! What a source repository must look like before any of its bytes are taken.

use crate::bytes::{bytes_equal, ends_with, find_byte, has_prefix, has_suffix, next_index, slices_view, starts_with};
use crate::errors::RepositoryImportError;
use crate::git_object::NEWLINE;
use crate::git_output::{nul_pieces, nul_records, nul_terminated};
use crate::portable_path::{ascii_lower, equal_ignoring_case, same_ignoring_case, SPACE};
use crate::source_tree::SourceTreeEntry;
use crate::text::{text_equal, text_of_bytes, utf8_text};
use crate::text_map::{entry_in_view, has_key, TextMap};
use crate::wiped::WipedBytes;
use vstd::prelude::*;
use vstd::slice::slice_subrange;
use vstd::string::*;
use vstd::utf8::{decode_utf8, encode_utf8, valid_utf8};

verus! {

/// The bytes with every ASCII letter in lowercase.
pub open spec fn lowered(s: Seq<u8>) -> Seq<u8> {
    s.map_values(|byte: u8| ascii_lower(byte))
}

/// Bytes with every ASCII letter in lowercase.
pub fn to_lowercase(s: &[u8]) -> (r: Vec<u8>)
    ensures
        r@ == lowered(s@),
{
    let mut r: Vec<u8> = Vec::new();
    let mut i: usize = 0;
    while i < s.len()
        invariant
            i <= s@.len(),
            r@.len() == i,
            forall|k: int| 0 <= k < i ==> #[trigger] r@[k] == ascii_lower(s@[k]),
        decreases s@.len() - i,
    {
        let byte: u8 = s[i];
        r.push(
            if 0x41 <= byte && byte <= 0x5a {
                byte + 0x20
            } else {
                byte
            },
        );
        i = i + 1;
    }
    assert(r@ =~= lowered(s@));
    r
}

/// A configuration key that leads out of the repository or changes what it means.
pub open spec fn forbidden_key(key: Seq<u8>) -> bool {
    ||| key == encode_utf8("core.worktree"@)
    ||| key == encode_utf8("core.attributesfile"@)
    ||| key == encode_utf8("extensions.worktreeconfig"@)
    ||| key == encode_utf8("extensions.partialclone"@)
    ||| has_prefix(key, encode_utf8("include."@))
    ||| has_prefix(key, encode_utf8("includeif."@))
    ||| has_prefix(key, encode_utf8("remote."@)) && has_suffix(key, encode_utf8(".promisor"@))
}

fn is_forbidden_key(key: &[u8]) -> (r: bool)
    ensures
        r == forbidden_key(key@),
{
    bytes_equal(key, "core.worktree".as_bytes()) || bytes_equal(key, "core.attributesfile".as_bytes()) || bytes_equal(
        key,
        "extensions.worktreeconfig".as_bytes(),
    ) || bytes_equal(key, "extensions.partialclone".as_bytes()) || starts_with(key, "include.".as_bytes()) || starts_with(
        key,
        "includeif.".as_bytes(),
    ) || (starts_with(key, "remote.".as_bytes()) && ends_with(key, ".promisor".as_bytes()))
}

/// What stands before the first newline, in lowercase.
pub open spec fn source_key(record: Seq<u8>) -> Seq<u8> {
    lowered(record.subrange(0, next_index(record, NEWLINE, 0)))
}

/// What stands behind the first newline.
pub open spec fn source_value(record: Seq<u8>) -> Seq<u8> {
    record.subrange(next_index(record, NEWLINE, 0) + 1, record.len() as int)
}

/// A record sets a key that may be set once, and not to true.
pub open spec fn sets_split_index(record: Seq<u8>) -> bool {
    source_key(record) == encode_utf8("core.splitindex"@)
}

/// A record sets a key that may be set once, and not to true.
pub open spec fn sets_sparse_index(record: Seq<u8>) -> bool {
    source_key(record) == encode_utf8("index.sparse"@)
}

/// A record of a source configuration is harmless by itself.
pub open spec fn harmless_record(record: Seq<u8>) -> bool {
    &&& next_index(record, NEWLINE, 0) < record.len()
    &&& valid_utf8(record.subrange(0, next_index(record, NEWLINE, 0)))
    &&& valid_utf8(source_value(record))
    &&& !forbidden_key(source_key(record))
    &&& (sets_split_index(record) || sets_sparse_index(record)) ==> !same_ignoring_case(
        source_value(record),
        encode_utf8("true"@),
    )
}

/// A source configuration is harmless: every record is, and the two index keys occur at most once.
pub open spec fn harmless_config(records: Seq<Seq<u8>>) -> bool {
    &&& forall|i: int| 0 <= i < records.len() ==> harmless_record(#[trigger] records[i])
    &&& forall|i: int, j: int|
        0 <= i < j < records.len() && sets_split_index(#[trigger] records[i]) ==> !sets_split_index(#[trigger] records[j])
    &&& forall|i: int, j: int|
        0 <= i < j < records.len() && sets_sparse_index(#[trigger] records[i]) ==> !sets_sparse_index(#[trigger] records[j])
}

/// What one record of a source configuration sets.
enum SourceSetting {
    Split,
    Sparse,
    Other,
}

/// Judge one record of a source configuration.
fn judge_record(record: &[u8]) -> (r: Result<SourceSetting, RepositoryImportError>)
    ensures
        r is Ok <==> harmless_record(record@),
        r matches Ok(setting) ==> (setting is Split) == sets_split_index(record@) && (setting is Sparse)
            == sets_sparse_index(record@),
        r matches Err(error) ==> error == RepositoryImportError::UnsafeSourceControl,
{
    let newline = find_byte(record, NEWLINE, 0);
    if newline == record.len() {
        return Err(RepositoryImportError::UnsafeSourceControl);
    }
    let raw_key = slice_subrange(record, 0, newline);
    let value = slice_subrange(record, newline + 1, record.len());
    match utf8_text(raw_key) {
        Some(_) => {},
        None => {
            return Err(RepositoryImportError::UnsafeSourceControl);
        },
    }
    match utf8_text(value) {
        Some(_) => {},
        None => {
            return Err(RepositoryImportError::UnsafeSourceControl);
        },
    }
    let key = to_lowercase(raw_key);
    assert(key@ == source_key(record@));
    assert(value@ == source_value(record@));
    if is_forbidden_key(key.as_slice()) {
        return Err(RepositoryImportError::UnsafeSourceControl);
    }
    let split = bytes_equal(key.as_slice(), "core.splitindex".as_bytes());
    let sparse = bytes_equal(key.as_slice(), "index.sparse".as_bytes());
    if (split || sparse) && equal_ignoring_case(value, "true".as_bytes()) {
        return Err(RepositoryImportError::UnsafeSourceControl);
    }
    proof {
        reveal_strlit("core.splitindex");
        reveal_strlit("index.sparse");
        vstd::utf8::is_ascii_chars_encode_utf8("core.splitindex"@);
        vstd::utf8::is_ascii_chars_encode_utf8("index.sparse"@);
    }
    if split {
        Ok(SourceSetting::Split)
    } else if sparse {
        Ok(SourceSetting::Sparse)
    } else {
        Ok(SourceSetting::Other)
    }
}

/// Judge the output of `git config --file - --no-includes --null --list` on the configuration
/// of a source.
pub fn validate_source_config(output: &[u8]) -> (r: Result<(), RepositoryImportError>)
    ensures
        r == if !nul_terminated(output@) {
            Err::<(), RepositoryImportError>(RepositoryImportError::MalformedGitOutput)
        } else if harmless_config(nul_pieces(output@)) {
            Ok(())
        } else {
            Err(RepositoryImportError::UnsafeSourceControl)
        },
{
    let records = nul_records(output)?;
    let ghost all = nul_pieces(output@);
    let mut split_seen = false;
    let mut sparse_seen = false;
    let mut i: usize = 0;
    while i < records.len()
        invariant
            slices_view(records@) == all,
            all == nul_pieces(output@),
            nul_terminated(output@),
            i <= records@.len(),
            split_seen == exists|k: int| 0 <= k < i && sets_split_index(#[trigger] all[k]),
            sparse_seen == exists|k: int| 0 <= k < i && sets_sparse_index(#[trigger] all[k]),
            harmless_config(all.subrange(0, i as int)),
        decreases records@.len() - i,
    {
        assert(all[i as int] == records@[i as int]@);
        let ghost before = all.subrange(0, i as int);
        let ghost now = all.subrange(0, i + 1);
        let setting = match judge_record(records[i]) {
            Ok(setting) => setting,
            Err(error) => {
                assert(!harmless_record(all[i as int]));
                return Err(error);
            },
        };
        proof {
            assert forall|k: int| 0 <= k < i implies #[trigger] now[k] == before[k] by {}
            assert(now[i as int] == all[i as int]);
        }
        match setting {
            SourceSetting::Split => {
                if split_seen {
                    proof {
                        let k = choose|k: int| 0 <= k < i && sets_split_index(#[trigger] all[k]);
                        assert(sets_split_index(all[k]) && sets_split_index(all[i as int]));
                    }
                    return Err(RepositoryImportError::UnsafeSourceControl);
                }
                split_seen = true;
            },
            SourceSetting::Sparse => {
                if sparse_seen {
                    proof {
                        let k = choose|k: int| 0 <= k < i && sets_sparse_index(#[trigger] all[k]);
                        assert(sets_sparse_index(all[k]) && sets_sparse_index(all[i as int]));
                    }
                    return Err(RepositoryImportError::UnsafeSourceControl);
                }
                sparse_seen = true;
            },
            SourceSetting::Other => {},
        }
        proof {
            assert forall|k: int| 0 <= k < now.len() implies harmless_record(#[trigger] now[k]) by {
                if k < i {
                    assert(harmless_record(before[k]));
                }
            }
            assert forall|j: int, k: int|
                0 <= j < k < now.len() && sets_split_index(#[trigger] now[j]) implies !sets_split_index(
                #[trigger] now[k],
            ) by {
                if k < i {
                    assert(sets_split_index(before[j]));
                    assert(!sets_split_index(before[k]));
                } else {
                    assert(sets_split_index(all[j]));
                }
            }
            assert forall|j: int, k: int|
                0 <= j < k < now.len() && sets_sparse_index(#[trigger] now[j]) implies !sets_sparse_index(
                #[trigger] now[k],
            ) by {
                if k < i {
                    assert(sets_sparse_index(before[j]));
                    assert(!sets_sparse_index(before[k]));
                } else {
                    assert(sets_sparse_index(all[j]));
                }
            }
            assert((exists|k: int| 0 <= k < i + 1 && sets_split_index(#[trigger] all[k])) == ((exists|k: int|
                0 <= k < i && sets_split_index(#[trigger] all[k])) || sets_split_index(all[i as int]))) by {
                if exists|k: int| 0 <= k < i && sets_split_index(#[trigger] all[k]) {
                    let k = choose|k: int| 0 <= k < i && sets_split_index(#[trigger] all[k]);
                    assert(sets_split_index(all[k]));
                }
                if sets_split_index(all[i as int]) {
                    assert(sets_split_index(all[i as int]));
                }
            }
            assert((exists|k: int| 0 <= k < i + 1 && sets_sparse_index(#[trigger] all[k])) == ((exists|k: int|
                0 <= k < i && sets_sparse_index(#[trigger] all[k])) || sets_sparse_index(all[i as int]))) by {
                if exists|k: int| 0 <= k < i && sets_sparse_index(#[trigger] all[k]) {
                    let k = choose|k: int| 0 <= k < i && sets_sparse_index(#[trigger] all[k]);
                    assert(sets_sparse_index(all[k]));
                }
            }
        }
        i = i + 1;
    }
    assert(all.subrange(0, all.len() as int) =~= all);
    Ok(())
}

/// What a Git command printed, or why it did not.
pub type CommandOutput = Result<WipedBytes, RepositoryImportError>;

/// The path behind the tag of a tagged file.
pub open spec fn tagged_path(record: Seq<u8>) -> Seq<u8> {
    record.subrange(2, record.len() as int)
}

/// One of the first `n` tagged files has a path.
pub open spec fn tagged_before(records: Seq<Seq<u8>>, path: Seq<char>, n: int) -> bool {
    exists|i: int| 0 <= i < n && decode_utf8(tagged_path(#[trigger] records[i])) == path
}

/// Why the tagged files from `i` on are refused, if they are: the tag of every file must be the
/// normal one, and no file may occur twice.
pub open spec fn tags_error(records: Seq<Seq<u8>>, i: int) -> Option<RepositoryImportError>
    decreases records.len() - i,
{
    if i >= records.len() {
        None
    } else if records[i].len() < 3 || records[i][0] != 0x48 || records[i][1] != SPACE || !valid_utf8(
        tagged_path(records[i]),
    ) {
        Some(RepositoryImportError::UnsafeSourceEntry)
    } else if tagged_before(records, decode_utf8(tagged_path(records[i])), i) {
        Some(RepositoryImportError::MalformedGitOutput)
    } else {
        tags_error(records, i + 1)
    }
}

/// Why a listing of tags does not fit a set of paths, if it does not.
pub open spec fn index_tags_error(output: Seq<u8>, paths: Set<Seq<char>>) -> Option<RepositoryImportError> {
    let records = nul_pieces(output);
    if !nul_terminated(output) {
        Some(RepositoryImportError::MalformedGitOutput)
    } else if tags_error(records, 0) is Some {
        tags_error(records, 0)
    } else if forall|path: Seq<char>| #[trigger] paths.contains(path) == tagged_before(records, path, records.len() as int) {
        None
    } else {
        Some(RepositoryImportError::SourceChanged)
    }
}

/// Judge the output of `git ls-files -v -z --full-name`, or of the same with `-f`: it must list
/// the files of the tree, all with the normal tag.
pub fn require_normal_index_tags(output: &[u8], tree: &TextMap<SourceTreeEntry>) -> (r: Result<(), RepositoryImportError>)
    requires
        tree.wf(),
    ensures
        match index_tags_error(output@, tree@.dom()) {
            Some(error) => r matches Err(e) && e == error,
            None => r is Ok,
        },
{
    let records = nul_records(output)?;
    let ghost all = nul_pieces(output@);
    let mut paths: TextMap<()> = TextMap::new();
    let mut i: usize = 0;
    while i < records.len()
        invariant
            slices_view(records@) == all,
            all == nul_pieces(output@),
            nul_terminated(output@),
            i <= records@.len(),
            paths.wf(),
            tags_error(all, 0) == tags_error(all, i as int),
            forall|path: Seq<char>| #[trigger] paths@.dom().contains(path) == tagged_before(all, path, i as int),
        decreases records@.len() - i,
    {
        assert(all[i as int] == records@[i as int]@);
        let record = records[i];
        if record.len() < 3 || record[0] != 0x48 || record[1] != SPACE {
            return Err(RepositoryImportError::UnsafeSourceEntry);
        }
        let path = match utf8_text(slice_subrange(record, 2, record.len())) {
            Some(path) => path,
            None => {
                return Err(RepositoryImportError::UnsafeSourceEntry);
            },
        };
        proof {
            text_of_bytes(path@);
        }
        let ghost before = paths@;
        let ghost text = path@;
        if !paths.insert_new(path.to_owned(), ()) {
            return Err(RepositoryImportError::MalformedGitOutput);
        }
        assert forall|p: Seq<char>| #[trigger] paths@.dom().contains(p) == tagged_before(all, p, i + 1) by {
            assert(before.dom().contains(p) == tagged_before(all, p, i as int));
            if tagged_before(all, p, i as int) {
                let k = choose|k: int| 0 <= k < i && decode_utf8(tagged_path(#[trigger] all[k])) == p;
                assert(decode_utf8(tagged_path(all[k])) == p);
            }
            if p == text {
                assert(decode_utf8(tagged_path(all[i as int])) == p);
            }
        }
        i = i + 1;
    }
    let same = same_keys(&paths, tree);
    proof {
        if same {
            assert forall|path: Seq<char>| #[trigger] tree@.dom().contains(path) == tagged_before(
                all,
                path,
                all.len() as int,
            ) by {
                assert(paths@.dom().contains(path) == tagged_before(all, path, all.len() as int));
            }
        }
        if forall|path: Seq<char>| #[trigger]
            tree@.dom().contains(path) == tagged_before(all, path, all.len() as int) {
            assert(paths@.dom() =~= tree@.dom());
        }
    }
    if same {
        Ok(())
    } else {
        Err(RepositoryImportError::SourceChanged)
    }
}

/// Whether every key of one map is a key of another.
fn keys_are_in<A, B>(a: &TextMap<A>, b: &TextMap<B>) -> (r: bool)
    requires
        b.wf(),
    ensures
        r == forall|path: Seq<char>| #[trigger] a@.dom().contains(path) ==> b@.dom().contains(path),
{
    let mut i: usize = 0;
    while i < a.entries.len()
        invariant
            b.wf(),
            i <= a.entries@.len(),
            forall|k: int| 0 <= k < i ==> b@.dom().contains((#[trigger] a.entries@[k]).key@),
        decreases a.entries@.len() - i,
    {
        if !b.contains(a.entries[i].key.as_str()) {
            proof {
                assert(has_key(a.entries@, a.entries@[i as int].key@));
                assert(a@.dom().contains(a.entries@[i as int].key@));
            }
            return false;
        }
        i = i + 1;
    }
    assert forall|path: Seq<char>| #[trigger] a@.dom().contains(path) implies b@.dom().contains(path) by {
        let k = choose|k: int| 0 <= k < a.entries@.len() && (#[trigger] a.entries@[k]).key@ == path;
        assert(b@.dom().contains(a.entries@[k].key@));
    }
    true
}

/// Whether two maps have the same keys.
pub fn same_keys<A, B>(a: &TextMap<A>, b: &TextMap<B>) -> (r: bool)
    requires
        a.wf(),
        b.wf(),
    ensures
        r == (a@.dom() == b@.dom()),
{
    let forth = keys_are_in(a, b);
    let back = keys_are_in(b, a);
    proof {
        if forth && back {
            assert(a@.dom() =~= b@.dom());
        }
    }
    forth && back
}

/// Every key of one map has the same text in another.
pub open spec fn texts_within(a: Map<Seq<char>, String>, b: Map<Seq<char>, String>) -> bool {
    forall|path: Seq<char>| #[trigger] a.dom().contains(path) ==> b.dom().contains(path) && a[path]@ == b[path]@
}

fn texts_are_in(a: &TextMap<String>, b: &TextMap<String>) -> (r: bool)
    requires
        a.wf(),
        b.wf(),
    ensures
        r == texts_within(a@, b@),
{
    let mut i: usize = 0;
    while i < a.entries.len()
        invariant
            a.wf(),
            b.wf(),
            i <= a.entries@.len(),
            forall|k: int|
                0 <= k < i ==> b@.dom().contains((#[trigger] a.entries@[k]).key@) && a.entries@[k].value@
                    == b@[a.entries@[k].key@]@,
        decreases a.entries@.len() - i,
    {
        proof {
            entry_in_view(*a, i as int);
        }
        match b.get(a.entries[i].key.as_str()) {
            Some(value) => {
                if !text_equal(a.entries[i].value.as_str(), value.as_str()) {
                    assert(a@.dom().contains(a.entries@[i as int].key@));
                    return false;
                }
            },
            None => {
                assert(a@.dom().contains(a.entries@[i as int].key@));
                return false;
            },
        }
        i = i + 1;
    }
    assert forall|path: Seq<char>| #[trigger] a@.dom().contains(path) implies b@.dom().contains(path) && a@[path]@
        == b@[path]@ by {
        let k = choose|k: int| 0 <= k < a.entries@.len() && (#[trigger] a.entries@[k]).key@ == path;
        entry_in_view(*a, k);
    }
    true
}

/// Two maps hold the same texts under the same keys.
pub open spec fn same_text_maps(a: Map<Seq<char>, String>, b: Map<Seq<char>, String>) -> bool {
    a.dom() == b.dom() && forall|path: Seq<char>| #[trigger] a.dom().contains(path) ==> a[path]@ == b[path]@
}

/// Whether two maps hold the same texts under the same keys.
pub fn same_texts(a: &TextMap<String>, b: &TextMap<String>) -> (r: bool)
    requires
        a.wf(),
        b.wf(),
    ensures
        r == same_text_maps(a@, b@),
{
    let forth = texts_are_in(a, b);
    let back = texts_are_in(b, a);
    proof {
        if forth && back {
            assert(a@.dom() =~= b@.dom());
        }
        if same_text_maps(a@, b@) {
            assert forall|path: Seq<char>| #[trigger] b@.dom().contains(path) implies a@.dom().contains(path) && b@[path]@
                == a@[path]@ by {
                assert(a@.dom().contains(path));
            }
        }
    }
    forth && back
}

/// The ids of a tree are those of an index, under the same paths.
pub open spec fn tree_has_texts(tree: Map<Seq<char>, SourceTreeEntry>, index: Map<Seq<char>, String>) -> bool {
    tree.dom() == index.dom() && forall|path: Seq<char>| #[trigger] tree.dom().contains(path) ==> tree[path].oid@
        == index[path]@
}

/// Whether the ids of a tree are those of an index, under the same paths.
pub fn tree_matches_index(tree: &TextMap<SourceTreeEntry>, index: &TextMap<String>) -> (r: bool)
    requires
        tree.wf(),
        index.wf(),
    ensures
        r == tree_has_texts(tree@, index@),
{
    if !same_keys(tree, index) {
        return false;
    }
    let mut i: usize = 0;
    while i < tree.entries.len()
        invariant
            tree.wf(),
            index.wf(),
            tree@.dom() == index@.dom(),
            i <= tree.entries@.len(),
            forall|k: int|
                0 <= k < i ==> (#[trigger] tree.entries@[k]).value.oid@ == index@[tree.entries@[k].key@]@,
        decreases tree.entries@.len() - i,
    {
        proof {
            entry_in_view(*tree, i as int);
        }
        match index.get(tree.entries[i].key.as_str()) {
            Some(oid) => {
                if !text_equal(tree.entries[i].value.oid.as_str(), oid.as_str()) {
                    assert(tree@.dom().contains(tree.entries@[i as int].key@));
                    return false;
                }
            },
            None => {
                return false;
            },
        }
        i = i + 1;
    }
    assert forall|path: Seq<char>| #[trigger] tree@.dom().contains(path) implies tree@[path].oid@ == index@[path]@ by {
        let k = choose|k: int| 0 <= k < tree.entries@.len() && (#[trigger] tree.entries@[k]).key@ == path;
        entry_in_view(*tree, k);
    }
    true
}

} // verus!
