//! The tracked files of a source, as its tree, its index and its raw index list them.

use crate::bytes::{bytes_equal, find_byte, next_index, next_index_facts, slices_view};
use crate::errors::RepositoryImportError;
use crate::git_output::{
    ascii_fields, fields_from, nul_pieces, nul_records, nul_terminated, parse_unsigned, relative_shape, require_sha1_oid,
    sha1_text, unsigned_digits, unsigned_text, validate_relative_path_shape, TAB,
};
use crate::hex::{digits_value, hex_round_trip, hex_text, lower_hex_byte, lower_hex_oid};
use crate::text::{ascii_is_utf8, text_of_bytes, utf8_text};
use crate::text_map::TextMap;
use vstd::prelude::*;
use vstd::slice::slice_subrange;
use vstd::string::*;
use vstd::utf8::{decode_utf8, encode_utf8, valid_utf8};

verus! {

/// Most tracked files of a source.
pub const MAX_SOURCE_ENTRIES: usize = 100_000;

/// Most path bytes that are retained of a source.
pub const MAX_RETAINED_PATH_BYTES: usize = 268_435_456;

/// The mode of a regular file, as Git prints it.
pub const REGULAR_MODE_TEXT: &'static str = "100644";

/// One file of a source tree.
pub struct SourceTreeEntry {
    pub oid: String,
    pub size: u64,
}

/// What stands before the first tab.
pub open spec fn listed_metadata(record: Seq<u8>) -> Seq<u8> {
    record.subrange(0, next_index(record, TAB, 0))
}

/// What stands behind the first tab.
pub open spec fn listed_path(record: Seq<u8>) -> Seq<u8> {
    record.subrange(next_index(record, TAB, 0) + 1, record.len() as int)
}

/// Why the path of a listed file is refused, if it is.
pub open spec fn listed_path_error(record: Seq<u8>) -> Option<RepositoryImportError> {
    if next_index(record, TAB, 0) >= record.len() || !valid_utf8(listed_metadata(record)) {
        Some(RepositoryImportError::MalformedGitOutput)
    } else if !valid_utf8(listed_path(record)) || !relative_shape(listed_path(record)) {
        Some(RepositoryImportError::UnsafeSourceEntry)
    } else {
        None
    }
}

/// Split a listed file into its metadata and its path.
fn split_listed<'a>(record: &'a [u8]) -> (r: Result<(&'a [u8], &'a str), RepositoryImportError>)
    ensures
        match listed_path_error(record@) {
            Some(error) => r matches Err(e) && e == error,
            None => r matches Ok((metadata, path)) && metadata@ == listed_metadata(record@) && path.spec_bytes()
                == listed_path(record@),
        },
{
    proof {
        next_index_facts(record@, TAB, 0);
    }
    let tab = find_byte(record, TAB, 0);
    if tab == record.len() {
        return Err(RepositoryImportError::MalformedGitOutput);
    }
    let metadata = slice_subrange(record, 0, tab);
    match utf8_text(metadata) {
        Some(_) => {},
        None => {
            return Err(RepositoryImportError::MalformedGitOutput);
        },
    }
    let path = match utf8_text(slice_subrange(record, tab + 1, record.len())) {
        Some(path) => path,
        None => {
            return Err(RepositoryImportError::UnsafeSourceEntry);
        },
    };
    validate_relative_path_shape(path)?;
    Ok((metadata, path))
}

/// The fields of a listed file's metadata.
pub open spec fn listed_fields(record: Seq<u8>) -> Seq<Seq<u8>> {
    fields_from(listed_metadata(record), 0)
}

/// Why a file of a tree listing is refused, if it is: only regular blobs with their ids and sizes pass.
pub open spec fn tree_record_error(record: Seq<u8>) -> Option<RepositoryImportError> {
    let fields = listed_fields(record);
    if listed_path_error(record) is Some {
        listed_path_error(record)
    } else if fields.len() != 4 || fields[0] != encode_utf8(REGULAR_MODE_TEXT@) || fields[1] != encode_utf8("blob"@) {
        Some(RepositoryImportError::UnsafeSourceEntry)
    } else if !sha1_text(fields[2]) || !unsigned_text(fields[3]) {
        Some(RepositoryImportError::MalformedGitOutput)
    } else {
        None
    }
}

/// One file of a tree listing: path, id and size.
pub struct TreeListing<'a> {
    pub path: &'a str,
    pub oid: &'a str,
    pub size: u64,
}

fn parse_tree_record<'a>(record: &'a [u8]) -> (r: Result<TreeListing<'a>, RepositoryImportError>)
    ensures
        match tree_record_error(record@) {
            Some(error) => r matches Err(e) && e == error,
            None => r matches Ok(listing) && listing.path.spec_bytes() == listed_path(record@) && listing.oid.spec_bytes()
                == listed_fields(record@)[2] && listing.size == digits_value(unsigned_digits(listed_fields(record@)[3])),
        },
{
    let (metadata, path) = split_listed(record)?;
    let fields = ascii_fields(metadata);
    let ghost all = listed_fields(record@);
    assert(slices_view(fields@) == all);
    assert(all.len() == fields@.len());
    if fields.len() != 4 {
        return Err(RepositoryImportError::UnsafeSourceEntry);
    }
    assert(all[0] == fields@[0]@ && all[1] == fields@[1]@ && all[2] == fields@[2]@ && all[3] == fields@[3]@);
    if !bytes_equal(fields[0], REGULAR_MODE_TEXT.as_bytes()) || !bytes_equal(fields[1], "blob".as_bytes()) {
        return Err(RepositoryImportError::UnsafeSourceEntry);
    }
    let oid = sha1_field(fields[2])?;
    match parse_unsigned(fields[3]) {
        Some(size) => Ok(TreeListing { path, oid, size }),
        None => Err(RepositoryImportError::MalformedGitOutput),
    }
}

/// The text of an object id in a field.
fn sha1_field<'a>(field: &'a [u8]) -> (r: Result<&'a str, RepositoryImportError>)
    ensures
        r is Ok <==> sha1_text(field@),
        r matches Ok(oid) ==> oid.spec_bytes() == field@,
        r matches Err(error) ==> error == RepositoryImportError::MalformedGitOutput,
{
    proof {
        if sha1_text(field@) {
            assert forall|i: int| 0 <= i < field@.len() implies #[trigger] field@[i] < 0x80 by {
                assert(lower_hex_byte(field@[i]));
            }
            ascii_is_utf8(field@);
        }
    }
    match utf8_text(field) {
        Some(oid) => {
            require_sha1_oid(oid)?;
            Ok(oid)
        },
        None => Err(RepositoryImportError::MalformedGitOutput),
    }
}

/// The path of a listed file as text.
pub open spec fn listed_text(record: Seq<u8>) -> Seq<char> {
    decode_utf8(listed_path(record))
}

/// The path bytes of the first `n` listed files together.
pub open spec fn listed_path_total(records: Seq<Seq<u8>>, n: int) -> nat
    decreases n,
{
    if n <= 0 {
        0
    } else {
        listed_path_total(records, n - 1) + listed_path(records[n - 1]).len()
    }
}

/// One of the first `n` listed files has a path.
pub open spec fn path_listed(records: Seq<Seq<u8>>, path: Seq<char>, n: int) -> bool {
    exists|i: int| 0 <= i < n && listed_text(#[trigger] records[i]) == path
}

/// Why the files of a tree listing from `i` on are refused, if they are.
pub open spec fn tree_listing_error(records: Seq<Seq<u8>>, i: int) -> Option<RepositoryImportError>
    decreases records.len() - i,
{
    if i >= records.len() {
        None
    } else if i >= MAX_SOURCE_ENTRIES {
        Some(RepositoryImportError::ResourceLimit)
    } else if tree_record_error(records[i]) is Some {
        tree_record_error(records[i])
    } else if listed_path_total(records, i + 1) > MAX_RETAINED_PATH_BYTES || path_listed(
        records,
        listed_text(records[i]),
        i,
    ) {
        Some(RepositoryImportError::ResourceLimit)
    } else {
        tree_listing_error(records, i + 1)
    }
}

/// Why the output of a tree listing is refused, if it is.
pub open spec fn source_tree_error(output: Seq<u8>) -> Option<RepositoryImportError> {
    if !nul_terminated(output) {
        Some(RepositoryImportError::MalformedGitOutput)
    } else {
        tree_listing_error(nul_pieces(output), 0)
    }
}

/// A map holds the first `n` files of a tree listing under their paths, and nothing else.
pub open spec fn tree_map_holds(map: Map<Seq<char>, SourceTreeEntry>, records: Seq<Seq<u8>>, n: int) -> bool {
    &&& forall|path: Seq<char>| #[trigger] map.dom().contains(path) == path_listed(records, path, n)
    &&& forall|i: int|
        0 <= i < n ==> {
            let path = listed_text(#[trigger] records[i]);
            map.dom().contains(path) && encode_utf8(map[path].oid@) == listed_fields(records[i])[2] && map[path].size
                == digits_value(unsigned_digits(listed_fields(records[i])[3]))
        }
}

/// Read the output of `git ls-tree -r -z --full-tree -l`.
pub fn parse_source_tree(output: &[u8]) -> (r: Result<TextMap<SourceTreeEntry>, RepositoryImportError>)
    ensures
        match source_tree_error(output@) {
            Some(error) => r matches Err(e) && e == error,
            None => r matches Ok(map) && map.wf() && map.entries@.len() == nul_pieces(output@).len() && tree_map_holds(
                map@,
                nul_pieces(output@),
                nul_pieces(output@).len() as int,
            ),
        },
{
    let records = nul_records(output)?;
    let ghost all = nul_pieces(output@);
    let mut map: TextMap<SourceTreeEntry> = TextMap::new();
    let mut retained_path_bytes: usize = 0;
    let mut i: usize = 0;
    while i < records.len()
        invariant
            slices_view(records@) == all,
            all == nul_pieces(output@),
            nul_terminated(output@),
            i <= records@.len(),
            map.wf(),
            map.entries@.len() == i,
            retained_path_bytes == listed_path_total(all, i as int),
            retained_path_bytes <= MAX_RETAINED_PATH_BYTES,
            tree_listing_error(all, 0) == tree_listing_error(all, i as int),
            tree_map_holds(map@, all, i as int),
        decreases records@.len() - i,
    {
        assert(all[i as int] == records@[i as int]@);
        if map.len() >= MAX_SOURCE_ENTRIES {
            return Err(RepositoryImportError::ResourceLimit);
        }
        let listing = match parse_tree_record(records[i]) {
            Ok(listing) => listing,
            Err(error) => {
                return Err(error);
            },
        };
        proof {
            text_of_bytes(listing.path@);
        }
        let length: usize = listing.path.as_bytes().len();
        if length > MAX_RETAINED_PATH_BYTES - retained_path_bytes {
            return Err(RepositoryImportError::ResourceLimit);
        }
        retained_path_bytes = retained_path_bytes + length;
        let key = listing.path.to_owned();
        let entry = SourceTreeEntry { oid: listing.oid.to_owned(), size: listing.size };
        let ghost before = map@;
        if !map.insert_new(key, entry) {
            return Err(RepositoryImportError::ResourceLimit);
        }
        proof {
            path_listed_step(all, i as int);
            assert forall|k: int| 0 <= k < i + 1 implies {
                let path = listed_text(#[trigger] all[k]);
                map@.dom().contains(path) && encode_utf8(map@[path].oid@) == listed_fields(all[k])[2] && map@[path].size
                    == digits_value(unsigned_digits(listed_fields(all[k])[3]))
            } by {
                if k < i {
                    assert(before.dom().contains(listed_text(all[k])));
                    assert(path_listed(all, listed_text(all[k]), i as int));
                }
            }
        }
        i = i + 1;
    }
    Ok(map)
}

/// One more listed file.
proof fn path_listed_step(records: Seq<Seq<u8>>, n: int)
    requires
        0 <= n < records.len(),
    ensures
        forall|path: Seq<char>| #[trigger]
            path_listed(records, path, n + 1) == (path_listed(records, path, n) || path == listed_text(records[n])),
{
    assert forall|path: Seq<char>| #[trigger]
        path_listed(records, path, n + 1) == (path_listed(records, path, n) || path == listed_text(records[n])) by {
        if path_listed(records, path, n) {
            let i = choose|i: int| 0 <= i < n && listed_text(#[trigger] records[i]) == path;
            assert(listed_text(records[i]) == path);
        }
        if path == listed_text(records[n]) {
            assert(listed_text(records[n]) == path);
        }
    }
}

/// Why a file of an index listing is refused, if it is: only regular files of stage zero pass.
pub open spec fn index_record_error(record: Seq<u8>) -> Option<RepositoryImportError> {
    let fields = listed_fields(record);
    if listed_path_error(record) is Some {
        listed_path_error(record)
    } else if fields.len() != 3 || fields[0] != encode_utf8(REGULAR_MODE_TEXT@) || fields[2] != encode_utf8("0"@) {
        Some(RepositoryImportError::UnsafeSourceEntry)
    } else if !sha1_text(fields[1]) {
        Some(RepositoryImportError::MalformedGitOutput)
    } else {
        None
    }
}

fn parse_index_record<'a>(record: &'a [u8]) -> (r: Result<(&'a str, &'a str), RepositoryImportError>)
    ensures
        match index_record_error(record@) {
            Some(error) => r matches Err(e) && e == error,
            None => r matches Ok((path, oid)) && path.spec_bytes() == listed_path(record@) && oid.spec_bytes()
                == listed_fields(record@)[1],
        },
{
    let (metadata, path) = split_listed(record)?;
    let fields = ascii_fields(metadata);
    let ghost all = listed_fields(record@);
    assert(slices_view(fields@) == all);
    assert(all.len() == fields@.len());
    if fields.len() != 3 {
        return Err(RepositoryImportError::UnsafeSourceEntry);
    }
    assert(all[0] == fields@[0]@ && all[1] == fields@[1]@ && all[2] == fields@[2]@);
    if !bytes_equal(fields[0], REGULAR_MODE_TEXT.as_bytes()) || !bytes_equal(fields[2], "0".as_bytes()) {
        return Err(RepositoryImportError::UnsafeSourceEntry);
    }
    let oid = sha1_field(fields[1])?;
    Ok((path, oid))
}

/// Why the files of an index listing from `i` on are refused, if they are.
pub open spec fn index_listing_error(records: Seq<Seq<u8>>, i: int) -> Option<RepositoryImportError>
    decreases records.len() - i,
{
    if i >= records.len() {
        None
    } else if i >= MAX_SOURCE_ENTRIES {
        Some(RepositoryImportError::ResourceLimit)
    } else if index_record_error(records[i]) is Some {
        index_record_error(records[i])
    } else if path_listed(records, listed_text(records[i]), i) {
        Some(RepositoryImportError::UnsafeSourceEntry)
    } else {
        index_listing_error(records, i + 1)
    }
}

/// Why the output of an index listing is refused, if it is.
pub open spec fn source_index_error(output: Seq<u8>) -> Option<RepositoryImportError> {
    if !nul_terminated(output) {
        Some(RepositoryImportError::MalformedGitOutput)
    } else {
        index_listing_error(nul_pieces(output), 0)
    }
}

/// A map holds the ids of the first `n` files of an index listing under their paths, and nothing else.
pub open spec fn index_map_holds(map: Map<Seq<char>, String>, records: Seq<Seq<u8>>, n: int) -> bool {
    &&& forall|path: Seq<char>| #[trigger] map.dom().contains(path) == path_listed(records, path, n)
    &&& forall|i: int|
        0 <= i < n ==> {
            let path = listed_text(#[trigger] records[i]);
            map.dom().contains(path) && encode_utf8(map[path]@) == listed_fields(records[i])[1]
        }
}

/// Read the output of `git ls-files -s -z --full-name`.
pub fn parse_source_index(output: &[u8]) -> (r: Result<TextMap<String>, RepositoryImportError>)
    ensures
        match source_index_error(output@) {
            Some(error) => r matches Err(e) && e == error,
            None => r matches Ok(map) && map.wf() && map.entries@.len() == nul_pieces(output@).len() && index_map_holds(
                map@,
                nul_pieces(output@),
                nul_pieces(output@).len() as int,
            ),
        },
{
    let records = nul_records(output)?;
    let ghost all = nul_pieces(output@);
    let mut map: TextMap<String> = TextMap::new();
    let mut i: usize = 0;
    while i < records.len()
        invariant
            slices_view(records@) == all,
            all == nul_pieces(output@),
            nul_terminated(output@),
            i <= records@.len(),
            map.wf(),
            map.entries@.len() == i,
            index_listing_error(all, 0) == index_listing_error(all, i as int),
            index_map_holds(map@, all, i as int),
        decreases records@.len() - i,
    {
        assert(all[i as int] == records@[i as int]@);
        if map.len() >= MAX_SOURCE_ENTRIES {
            return Err(RepositoryImportError::ResourceLimit);
        }
        let (path, oid) = match parse_index_record(records[i]) {
            Ok(pair) => pair,
            Err(error) => {
                return Err(error);
            },
        };
        proof {
            text_of_bytes(path@);
        }
        let ghost before = map@;
        if !map.insert_new(path.to_owned(), oid.to_owned()) {
            return Err(RepositoryImportError::UnsafeSourceEntry);
        }
        proof {
            path_listed_step(all, i as int);
            assert forall|k: int| 0 <= k < i + 1 implies {
                let path = listed_text(#[trigger] all[k]);
                map@.dom().contains(path) && encode_utf8(map@[path]@) == listed_fields(all[k])[1]
            } by {
                if k < i {
                    assert(before.dom().contains(listed_text(all[k])));
                    assert(path_listed(all, listed_text(all[k]), i as int));
                }
            }
        }
        i = i + 1;
    }
    Ok(map)
}

/// One entry of a raw index.
pub struct RawIndexEntry {
    pub path: Vec<u8>,
    pub oid: [u8; 20],
}

/// The entries of a raw index.
pub struct RawIndex {
    pub entries: Vec<RawIndexEntry>,
}

/// An object id as text.
pub fn oid_string(oid: [u8; 20]) -> (text: String)
    ensures
        encode_utf8(text@) == hex_text(oid@),
{
    let encoded = lower_hex_oid(oid);
    proof {
        hex_round_trip(oid@);
        assert forall|i: int| 0 <= i < encoded@.len() implies #[trigger] encoded@[i] < 0x80 by {
            assert(lower_hex_byte(hex_text(oid@)[i]));
        }
        ascii_is_utf8(encoded@);
    }
    match utf8_text(encoded.as_slice()) {
        Some(text) => text.to_owned(),
        None => String::new(),
    }
}

/// One of the first `n` raw entries has a path.
pub open spec fn raw_path_listed(entries: Seq<RawIndexEntry>, path: Seq<char>, n: int) -> bool {
    exists|i: int| 0 <= i < n && decode_utf8((#[trigger] entries[i]).path@) == path
}

/// The raw entries can be listed: their paths are texts below the root, and none occurs twice.
pub open spec fn raw_entries_listable(entries: Seq<RawIndexEntry>) -> bool {
    forall|i: int|
        0 <= i < entries.len() ==> valid_utf8((#[trigger] entries[i]).path@) && relative_shape(entries[i].path@)
            && !raw_path_listed(entries, decode_utf8(entries[i].path@), i)
}

/// A map holds the ids of the first `n` raw entries under their paths, and nothing else.
pub open spec fn raw_map_holds(map: Map<Seq<char>, String>, entries: Seq<RawIndexEntry>, n: int) -> bool {
    &&& forall|path: Seq<char>| #[trigger] map.dom().contains(path) == raw_path_listed(entries, path, n)
    &&& forall|i: int|
        0 <= i < n ==> {
            let path = decode_utf8((#[trigger] entries[i]).path@);
            map.dom().contains(path) && encode_utf8(map[path]@) == hex_text(entries[i].oid@)
        }
}

/// The ids of a raw index under their paths.
pub fn raw_index_semantic_map(raw_index: &RawIndex) -> (r: Result<TextMap<String>, RepositoryImportError>)
    ensures
        r is Ok <==> raw_entries_listable(raw_index.entries@),
        r matches Ok(map) ==> map.wf() && map.entries@.len() == raw_index.entries@.len() && raw_map_holds(
            map@,
            raw_index.entries@,
            raw_index.entries@.len() as int,
        ),
        r matches Err(error) ==> error == RepositoryImportError::UnsafeSourceEntry,
{
    let ghost all = raw_index.entries@;
    let mut map: TextMap<String> = TextMap::new();
    let mut i: usize = 0;
    while i < raw_index.entries.len()
        invariant
            all == raw_index.entries@,
            i <= all.len(),
            map.wf(),
            map.entries@.len() == i,
            raw_map_holds(map@, all, i as int),
            forall|k: int|
                0 <= k < i ==> valid_utf8((#[trigger] all[k]).path@) && relative_shape(all[k].path@) && !raw_path_listed(
                    all,
                    decode_utf8(all[k].path@),
                    k,
                ),
        decreases all.len() - i,
    {
        let entry = &raw_index.entries[i];
        let path = match utf8_text(entry.path.as_slice()) {
            Some(path) => path,
            None => {
                assert(!valid_utf8(all[i as int].path@));
                return Err(RepositoryImportError::UnsafeSourceEntry);
            },
        };
        match validate_relative_path_shape(path) {
            Ok(()) => {},
            Err(error) => {
                assert(!relative_shape(all[i as int].path@));
                return Err(error);
            },
        }
        proof {
            text_of_bytes(path@);
        }
        let ghost before = map@;
        let ghost text = path@;
        if !map.insert_new(path.to_owned(), oid_string(entry.oid)) {
            assert(raw_path_listed(all, decode_utf8(all[i as int].path@), i as int));
            return Err(RepositoryImportError::UnsafeSourceEntry);
        }
        proof {
            assert forall|p: Seq<char>| #[trigger] map@.dom().contains(p) == raw_path_listed(all, p, i + 1) by {
                assert(before.dom().contains(p) == raw_path_listed(all, p, i as int));
                if raw_path_listed(all, p, i as int) {
                    let k = choose|k: int| 0 <= k < i && decode_utf8((#[trigger] all[k]).path@) == p;
                    assert(decode_utf8(all[k].path@) == p);
                }
                if p == text {
                    assert(decode_utf8(all[i as int].path@) == p);
                }
            }
            assert forall|k: int| 0 <= k < i + 1 implies {
                let p = decode_utf8((#[trigger] all[k]).path@);
                map@.dom().contains(p) && encode_utf8(map@[p]@) == hex_text(all[k].oid@)
            } by {
                if k < i {
                    assert(before.dom().contains(decode_utf8(all[k].path@)));
                }
            }
        }
        i = i + 1;
    }
    Ok(map)
}

} // verus!
