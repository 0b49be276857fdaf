//! Planning a source: the decisions between the commands and the readings, in their order.

use crate::bytes::has_suffix;
use crate::digest::sha256_of;
use crate::errors::RepositoryImportError;
use crate::git_object::raw_sha256;
use crate::git_output::{is_one_line, nul_pieces, one_line, require_sha1_oid, sha1_text, without_line_end};
use crate::held_reading::HeldFile;
use crate::portable_source::{is_markdown_path, MARKDOWN_SUFFIX};
use crate::sorting::Keyed;
use crate::source_checks::{same_keys, same_text_maps, same_texts, tree_has_texts, tree_matches_index, CommandOutput};
use crate::source_content::{blob_error, hash_error};
use crate::source_snapshot::{verify_source_bytes, SourceSnapshotEntry};
use crate::source_tree::{
    index_map_holds, parse_source_index, parse_source_tree, raw_entries_listable, raw_index_semantic_map, raw_map_holds,
    source_index_error, source_tree_error, tree_map_holds, RawIndex, SourceTreeEntry,
};
use crate::text::{text_equal, utf8_text};
use crate::text_map::TextMap;
use vstd::prelude::*;
use vstd::string::*;
use vstd::utf8::{encode_utf8, valid_utf8};

verus! {

/// Most bytes of all tracked files together.
pub const MAX_IMPORT_PLAINTEXT_BYTES: u64 = 4_294_967_296;

/// Most bytes of all Markdown files together.
pub const MAX_MARKDOWN_PLAINTEXT_BYTES: u64 = 268_435_456;

/// The digest of the output that a semantic map was read from.
pub fn semantic_map_digest(bytes: &[u8]) -> (digest: [u8; 32])
    ensures
        digest@ == sha256_of(bytes@),
{
    raw_sha256(bytes)
}

/// Why an answer is not the id of a commit, if it is not.
pub open spec fn head_error(output: CommandOutput) -> Option<RepositoryImportError> {
    match output {
        Err(error) => Some(error),
        Ok(bytes) => if is_one_line(bytes@) && sha1_text(without_line_end(bytes@)) {
            None
        } else {
            Some(RepositoryImportError::MalformedGitOutput)
        },
    }
}

/// The id of the source commit.
pub fn accept_head(output: &CommandOutput) -> (r: Result<String, RepositoryImportError>)
    ensures
        match head_error(*output) {
            Some(error) => r matches Err(e) && e == error,
            None => r matches Ok(oid) && encode_utf8(oid@) == without_line_end(output->Ok_0@),
        },
{
    match output {
        Err(error) => Err(*error),
        Ok(bytes) => {
            let line = one_line(bytes.as_slice())?;
            require_sha1_oid(line)?;
            Ok(line.to_owned())
        },
    }
}

/// Read the listing of the tree; an empty tree is refused.
pub fn accept_tree(output: &CommandOutput) -> (r: Result<TextMap<SourceTreeEntry>, RepositoryImportError>)
    ensures
        match *output {
            Err(error) => r matches Err(e) && e == error,
            Ok(bytes) => match source_tree_error(bytes@) {
                Some(error) => r matches Err(e) && e == error,
                None => if nul_pieces(bytes@).len() == 0 {
                    r matches Err(e) && e == RepositoryImportError::UnsafeSourceEntry
                } else {
                    r matches Ok(tree) && tree.wf() && tree_map_holds(
                        tree@,
                        nul_pieces(bytes@),
                        nul_pieces(bytes@).len() as int,
                    )
                },
            },
        },
{
    match output {
        Err(error) => Err(*error),
        Ok(bytes) => {
            let tree = parse_source_tree(bytes.as_slice())?;
            if tree.len() == 0 {
                return Err(RepositoryImportError::UnsafeSourceEntry);
            }
            Ok(tree)
        },
    }
}

/// Require the index and the raw index to list exactly the files of the tree.
pub fn accept_index(tree: &TextMap<SourceTreeEntry>, output: &CommandOutput, raw_index: &RawIndex) -> (r: Result<
    (),
    RepositoryImportError,
>)
    requires
        tree.wf(),
    ensures
        match *output {
            Err(error) => r matches Err(e) && e == error,
            Ok(bytes) => match source_index_error(bytes@) {
                Some(error) => r matches Err(e) && e == error,
                None => if !raw_entries_listable(raw_index.entries@) {
                    r matches Err(e) && e == RepositoryImportError::UnsafeSourceEntry
                } else {
                    exists|index: Map<Seq<char>, String>, raw: Map<Seq<char>, String>|
                        {
                            &&& #[trigger] index_map_holds(index, nul_pieces(bytes@), nul_pieces(bytes@).len() as int)
                            &&& #[trigger] raw_map_holds(raw, raw_index.entries@, raw_index.entries@.len() as int)
                            &&& r == if same_text_maps(raw, index) && tree_has_texts(tree@, index) {
                                Ok::<(), RepositoryImportError>(())
                            } else {
                                Err(RepositoryImportError::SourceChanged)
                            }
                        }
                },
            },
        },
{
    match output {
        Err(error) => Err(*error),
        Ok(bytes) => {
            let index = parse_source_index(bytes.as_slice())?;
            let raw = raw_index_semantic_map(raw_index)?;
            assert(index_map_holds(index@, nul_pieces(bytes@), nul_pieces(bytes@).len() as int));
            assert(raw_map_holds(raw@, raw_index.entries@, raw_index.entries@.len() as int));
            if !same_texts(&raw, &index) || !tree_matches_index(tree, &index) {
                return Err(RepositoryImportError::SourceChanged);
            }
            Ok(())
        },
    }
}

/// Require the worktree to hold exactly the files of the tree.
pub fn accept_worktree(tree: &TextMap<SourceTreeEntry>, files: &TextMap<()>) -> (r: Result<(), RepositoryImportError>)
    requires
        tree.wf(),
        files.wf(),
    ensures
        r == if files@.dom() == tree@.dom() {
            Ok::<(), RepositoryImportError>(())
        } else {
            Err(RepositoryImportError::UnsafeSourceEntry)
        },
{
    if same_keys(files, tree) {
        Ok(())
    } else {
        Err(RepositoryImportError::UnsafeSourceEntry)
    }
}

/// Longest body that is read of a tracked file, in bytes.
#[derive(Clone, Copy)]
pub struct BodyLimits {
    pub document: u64,
    pub asset: u64,
}

/// The bound on the body of a file.
pub fn body_limit(limits: BodyLimits, markdown: bool) -> (maximum: u64)
    ensures
        maximum == if markdown {
            limits.document
        } else {
            limits.asset
        },
{
    if markdown {
        limits.document
    } else {
        limits.asset
    }
}

/// The files of a source that were proved so far.
pub struct SourceEntries {
    pub entries: Vec<SourceSnapshotEntry>,
    pub combined_bytes: u64,
    pub markdown_bytes: u64,
    pub normalized: usize,
}

/// The name of a source path is that of a Markdown file.
pub open spec fn markdown_name(path: Seq<char>) -> bool {
    has_suffix(encode_utf8(path), encode_utf8(MARKDOWN_SUFFIX@))
}

/// The bytes of the first `n` entries together, or of the Markdown files among them.
pub open spec fn entry_bytes(entries: Seq<SourceSnapshotEntry>, n: int, markdown_only: bool) -> nat
    decreases n,
{
    if n <= 0 {
        0
    } else {
        entry_bytes(entries, n - 1, markdown_only) + if !markdown_only || entries[n - 1].markdown {
            entries[n - 1].size as nat
        } else {
            0nat
        }
    }
}

/// How many of the first `n` entries have a name that differs from the one in the source.
pub open spec fn normalized_before(entries: Seq<SourceSnapshotEntry>, n: int) -> nat
    decreases n,
{
    if n <= 0 {
        0
    } else {
        normalized_before(entries, n - 1) + if entries[n - 1].source_relative_path@ != entries[n - 1].relative_path@ {
            1nat
        } else {
            0nat
        }
    }
}

/// Why a file is refused behind others whose bytes are given, if it is.
pub open spec fn entry_error_after(
    combined_bytes: nat,
    markdown_bytes: nat,
    source_path: Seq<char>,
    listed: SourceTreeEntry,
    held: HeldFile,
    hash: CommandOutput,
    raw: CommandOutput,
) -> Option<RepositoryImportError> {
    let digest = sha256_of(held.bytes@);
    if held.bytes@.len() != listed.size {
        Some(RepositoryImportError::SourceChanged)
    } else if markdown_name(source_path) && !valid_utf8(held.bytes@) {
        Some(RepositoryImportError::UnsafeSourceEntry)
    } else if hash_error(hash, listed.oid@) is Some {
        hash_error(hash, listed.oid@)
    } else if blob_error(raw, listed.size, digest, held.bytes@) is Some {
        blob_error(raw, listed.size, digest, held.bytes@)
    } else if combined_bytes + listed.size > MAX_IMPORT_PLAINTEXT_BYTES || (markdown_name(source_path) && markdown_bytes
        + listed.size > MAX_MARKDOWN_PLAINTEXT_BYTES) {
        Some(RepositoryImportError::ResourceLimit)
    } else {
        None
    }
}

/// Why a file is refused, if it is.
pub open spec fn entry_error(
    state: SourceEntries,
    source_path: Seq<char>,
    listed: SourceTreeEntry,
    held: HeldFile,
    hash: CommandOutput,
    raw: CommandOutput,
) -> Option<RepositoryImportError> {
    entry_error_after(state.combined_bytes as nat, state.markdown_bytes as nat, source_path, listed, held, hash, raw)
}

/// An entry says what was listed and read of a file.
pub open spec fn entry_says(
    entry: SourceSnapshotEntry,
    source_path: Seq<char>,
    canonical: Seq<char>,
    listed: SourceTreeEntry,
    held: HeldFile,
) -> bool {
    &&& entry.source_relative_path@ == source_path
    &&& entry.relative_path@ == canonical
    &&& entry.blob_oid@ == listed.oid@
    &&& entry.size == listed.size
    &&& entry.sha256@ == sha256_of(held.bytes@)
    &&& entry.file_identity == held.identity
    &&& entry.markdown == markdown_name(source_path)
}

impl SourceEntries {
    /// The sums are those of the entries, and within the bounds.
    pub open spec fn wf(self) -> bool {
        &&& self.combined_bytes == entry_bytes(self.entries@, self.entries@.len() as int, false)
        &&& self.combined_bytes <= MAX_IMPORT_PLAINTEXT_BYTES
        &&& self.markdown_bytes == entry_bytes(self.entries@, self.entries@.len() as int, true)
        &&& self.markdown_bytes <= MAX_MARKDOWN_PLAINTEXT_BYTES
        &&& self.normalized == normalized_before(self.entries@, self.entries@.len() as int)
        &&& self.normalized <= self.entries@.len()
    }

    /// No files yet.
    pub fn begin() -> (state: SourceEntries)
        ensures
            state.wf(),
            state.entries@.len() == 0,
    {
        SourceEntries { entries: Vec::new(), combined_bytes: 0, markdown_bytes: 0, normalized: 0 }
    }

    /// Judge one file by what was listed and read of it, and by what Git says of its body.
    pub fn accept(
        &mut self,
        source_path: &str,
        canonical: &str,
        listed: &SourceTreeEntry,
        held: &HeldFile,
        hash: &CommandOutput,
        raw: &CommandOutput,
    ) -> (r: Result<(), RepositoryImportError>)
        requires
            old(self).wf(),
        ensures
            final(self).wf(),
            match entry_error(*old(self), source_path@, *listed, *held, *hash, *raw) {
                Some(error) => r matches Err(e) && e == error && final(self).entries@ == old(self).entries@,
                None => r is Ok && final(self).entries@.len() == old(self).entries@.len() + 1
                    && final(self).entries@.drop_last() == old(self).entries@ && entry_says(
                    final(self).entries@.last(),
                    source_path@,
                    canonical@,
                    *listed,
                    *held,
                ),
            },
    {
        if held.bytes.len() as u64 != listed.size {
            return Err(RepositoryImportError::SourceChanged);
        }
        let markdown = is_markdown_path(source_path);
        if markdown {
            match utf8_text(held.bytes.as_slice()) {
                Some(_) => {},
                None => {
                    return Err(RepositoryImportError::UnsafeSourceEntry);
                },
            }
        }
        let candidate = SourceSnapshotEntry {
            source_relative_path: source_path.to_owned(),
            relative_path: canonical.to_owned(),
            blob_oid: listed.oid.clone(),
            size: listed.size,
            sha256: raw_sha256(held.bytes.as_slice()),
            file_identity: held.identity,
            markdown,
        };
        verify_source_bytes(&candidate, held.bytes.as_slice(), hash, raw)?;
        if listed.size > MAX_IMPORT_PLAINTEXT_BYTES - self.combined_bytes {
            return Err(RepositoryImportError::ResourceLimit);
        }
        if markdown && listed.size > MAX_MARKDOWN_PLAINTEXT_BYTES - self.markdown_bytes {
            return Err(RepositoryImportError::ResourceLimit);
        }
        let ghost before = self.entries@;
        let renamed = !text_equal(source_path, canonical);
        self.entries.push(candidate);
        self.combined_bytes = self.combined_bytes + listed.size;
        if markdown {
            self.markdown_bytes = self.markdown_bytes + listed.size;
        }
        let count: usize = self.entries.len();
        assert(self.normalized < count);
        if renamed {
            self.normalized = self.normalized + 1;
        }
        proof {
            assert(self.entries@.drop_last() =~= before);
            entry_sums_prefix(before, self.entries@, before.len() as int);
        }
        Ok(())
    }
}

/// Sums over the first entries depend on those alone.
proof fn entry_sums_prefix(a: Seq<SourceSnapshotEntry>, b: Seq<SourceSnapshotEntry>, n: int)
    requires
        0 <= n <= a.len(),
        n <= b.len(),
        forall|i: int| 0 <= i < n ==> a[i] == b[i],
    ensures
        entry_bytes(a, n, false) == entry_bytes(b, n, false),
        entry_bytes(a, n, true) == entry_bytes(b, n, true),
        normalized_before(a, n) == normalized_before(b, n),
    decreases n,
{
    if n > 0 {
        entry_sums_prefix(a, b, n - 1);
    }
}

} // verus!
