//! The worktree of a target: which paths it may hold, and what a walk found there.

use crate::bytes::{bytes_equal, bytes_less, ends_with, has_suffix, lex_less};
use crate::digest::{sha256_digest, sha256_of};
use crate::errors::RepositoryImportError;
use crate::git_output::MAX_TREE_DEPTH;
use crate::held_reading::HeldFile;
use crate::manifest::VAULT_LOCAL_DIRECTORY;
use crate::namespace::{all_named, child_text, joined_names, saturated, saturating_total, slash_path, PathPart};
use crate::path_parents::{all_parents_join, has_slash_form, is_parent, note_parents, slash_form, slash_path_text};
use crate::portable_path::SLASH;
use crate::revalidation::child_path;
use crate::sorting::{reordered_items, sort_keyed, sorted_keys_ascend, Keyed};
use crate::source_checks::same_keys;
use crate::source_tree::MAX_RETAINED_PATH_BYTES;
use crate::target_objects::TargetTrackedEntry;
use crate::text::{encoding_is_injective, text_equal};
use crate::text_map::{entry_in_view, key_index, key_is_unique, TextEntry, TextMap};
use vstd::prelude::*;
use vstd::string::*;
use vstd::utf8::encode_utf8;

verus! {

/// Most tracked files of a target.
pub const MAX_TARGET_ENTRIES: usize = 100_003;

/// The metadata of a vault.
pub const VAULT_METADATA_FILE: &'static str = "vault.json";

pub const GIT_ATTRIBUTES_FILE: &'static str = ".gitattributes";

pub const GIT_IGNORE_FILE: &'static str = ".gitignore";

/// How the path of an encrypted document ends.
pub const DOCUMENT_SUFFIX: &'static str = ".md.enc";

/// How the path of an encrypted asset ends.
pub const ASSET_SUFFIX: &'static str = ".asset.enc";

/// The attributes of a target.
pub const TARGET_ATTRIBUTES: &'static str = "*.md.enc -text -diff merge=inex\n*.asset.enc binary\n";

/// What a target ignores.
pub const TARGET_IGNORE: &'static str = "/.vault-local/\n";

/// What stands at the place of a metadata file before a target is made.
pub enum MetadataSighting<'a> {
    /// Nothing is there.
    Absent,
    /// A regular file is there; its bytes could be read within the bound or not.
    File(Result<&'a [u8], RepositoryImportError>),
    /// Something else is there, or it could not be seen what.
    Other,
}

/// What to do about a metadata file.
#[derive(Clone, Copy, Debug, PartialEq, Eq, Structural)]
pub enum MetadataAction {
    /// Write it and sync it.
    Create,
    /// It is there already, exactly as it must be.
    Keep,
}

/// Decide about a metadata file: it is made where there is none, and must be exact where there is one.
pub fn ensure_exact_target_file(seen: MetadataSighting<'_>, expected: &[u8]) -> (r: Result<MetadataAction, RepositoryImportError>)
    ensures
        match seen {
            MetadataSighting::Absent => r matches Ok(action) && action == MetadataAction::Create,
            MetadataSighting::File(Ok(bytes)) => if bytes@ == expected@ {
                r matches Ok(action) && action == MetadataAction::Keep
            } else {
                r matches Err(error) && error == RepositoryImportError::UnsafeTarget
            },
            MetadataSighting::File(Err(failure)) => r matches Err(error) && error == failure,
            MetadataSighting::Other => r matches Err(error) && error == RepositoryImportError::UnsafeTarget,
        },
{
    match seen {
        MetadataSighting::Absent => Ok(MetadataAction::Create),
        MetadataSighting::File(Ok(bytes)) => {
            if bytes_equal(bytes, expected) {
                Ok(MetadataAction::Keep)
            } else {
                Err(RepositoryImportError::UnsafeTarget)
            }
        },
        MetadataSighting::File(Err(failure)) => Err(failure),
        MetadataSighting::Other => Err(RepositoryImportError::UnsafeTarget),
    }
}

/// A path that a target is asked to track, and whether it is the canonical path of an encrypted
/// document or asset.
pub struct TargetPathFacts<'a> {
    pub parts: Vec<PathPart<'a>>,
    pub document: bool,
    pub asset: bool,
}

/// One of the metadata files that every target has.
pub open spec fn metadata_path(text: Seq<char>) -> bool {
    text == VAULT_METADATA_FILE@ || text == GIT_ATTRIBUTES_FILE@ || text == GIT_IGNORE_FILE@
}

impl<'a> TargetPathFacts<'a> {
    /// The path with slashes.
    pub open spec fn text(self) -> Seq<char> {
        joined_names(self.parts@, self.parts@.len() as int)
    }

    /// A target may track the path: a metadata file at the top, or the canonical path of a document or
    /// an asset.
    pub open spec fn acceptable(self) -> bool {
        all_named(self.parts@) && if metadata_path(self.text()) {
            self.parts@.len() == 1
        } else if has_suffix(encode_utf8(self.text()), encode_utf8(DOCUMENT_SUFFIX@)) {
            self.document
        } else {
            has_suffix(encode_utf8(self.text()), encode_utf8(ASSET_SUFFIX@)) && self.asset
        }
    }
}

/// Require a path that a target may track, and give it with slashes.
pub fn validate_target_relative_path(path: &TargetPathFacts<'_>) -> (r: Result<String, RepositoryImportError>)
    ensures
        r is Ok <==> path.acceptable(),
        r matches Ok(text) ==> text@ == path.text(),
        r matches Err(error) ==> error == RepositoryImportError::UnsafeTarget,
{
    let text = match slash_path(path.parts.as_slice()) {
        Some(text) => text,
        None => {
            return Err(RepositoryImportError::UnsafeTarget);
        },
    };
    let accepted = if text_equal(text.as_str(), VAULT_METADATA_FILE) || text_equal(text.as_str(), GIT_ATTRIBUTES_FILE)
        || text_equal(text.as_str(), GIT_IGNORE_FILE) {
        path.parts.len() == 1
    } else if ends_with(text.as_str().as_bytes(), DOCUMENT_SUFFIX.as_bytes()) {
        path.document
    } else {
        ends_with(text.as_str().as_bytes(), ASSET_SUFFIX.as_bytes()) && path.asset
    };
    if accepted {
        Ok(text)
    } else {
        Err(RepositoryImportError::UnsafeTarget)
    }
}

/// A path of a target.
pub struct TargetPath {
    pub text: String,
}

/// What paths are ordered by, name by name: each byte behind a flag that puts a slash before
/// everything that a name can hold.
pub open spec fn component_key(path: Seq<u8>) -> Seq<u8> {
    Seq::new(
        2 * path.len(),
        |i: int|
            if i % 2 == 1 {
                path[i / 2]
            } else if path[i / 2] == SLASH {
                0u8
            } else {
                1u8
            },
    )
}

/// Different paths have different keys.
pub proof fn component_key_is_injective(a: Seq<u8>, b: Seq<u8>)
    requires
        component_key(a) == component_key(b),
    ensures
        a == b,
{
    assert(component_key(a).len() == 2 * a.len());
    assert(component_key(b).len() == 2 * b.len());
    assert forall|i: int| 0 <= i < a.len() implies a[i] == b[i] by {
        assert((2 * i + 1) % 2 == 1 && (2 * i + 1) / 2 == i);
        assert(component_key(a)[2 * i + 1] == a[i]);
        assert(component_key(b)[2 * i + 1] == b[i]);
    }
    assert(a =~= b);
}

fn component_sort_key(path: &[u8]) -> (key: Vec<u8>)
    ensures
        key@ == component_key(path@),
{
    let mut key: Vec<u8> = Vec::new();
    let mut i: usize = 0;
    while i < path.len()
        invariant
            i <= path@.len(),
            key@ == component_key(path@).subrange(0, 2 * i),
        decreases path@.len() - i,
    {
        let flag: u8 = if path[i] == SLASH {
            0
        } else {
            1
        };
        key.push(flag);
        key.push(path[i]);
        assert((2 * i) % 2 == 0 && (2 * i) / 2 == i);
        assert((2 * i + 1) % 2 == 1 && (2 * i + 1) / 2 == i);
        assert(key@ =~= component_key(path@).subrange(0, 2 * (i + 1)));
        i = i + 1;
    }
    assert(component_key(path@).subrange(0, 2 * path@.len() as int) =~= component_key(path@));
    key
}

impl Keyed for TargetPath {
    open spec fn key(&self) -> Seq<u8> {
        component_key(encode_utf8(self.text@))
    }

    fn below(&self, other: &Self) -> (r: bool) {
        let key = component_sort_key(self.text.as_str().as_bytes());
        let other_key = component_sort_key(other.text.as_str().as_bytes());
        bytes_less(key.as_slice(), other_key.as_slice())
    }
}

/// One of the first `n` paths is `text`.
pub open spec fn asked_for(paths: Seq<TargetPathFacts>, text: Seq<char>, n: int) -> bool {
    exists|i: int| 0 <= i < n && (#[trigger] paths[i]).text() == text
}

/// The paths of a target: those asked for, and the attributes and ignore files.
pub open spec fn target_paths(paths: Seq<TargetPathFacts>) -> Set<Seq<char>> {
    Set::new(|text: Seq<char>| asked_for(paths, text, paths.len() as int)).insert(GIT_ATTRIBUTES_FILE@).insert(
        GIT_IGNORE_FILE@,
    )
}

/// Every path is acceptable.
pub open spec fn all_acceptable(paths: Seq<TargetPathFacts>) -> bool {
    forall|i: int| 0 <= i < paths.len() ==> (#[trigger] paths[i]).acceptable()
}

/// Strictly ascending, name by name.
pub open spec fn paths_ascend(paths: Seq<TargetPath>) -> bool {
    forall|i: int, j: int|
        0 <= i < j < paths.len() ==> lex_less((#[trigger] paths[i]).key(), (#[trigger] paths[j]).key())
}

/// `listed` holds exactly these texts.
pub open spec fn lists_texts(listed: Seq<TargetPath>, texts: Set<Seq<char>>) -> bool {
    &&& forall|i: int| 0 <= i < listed.len() ==> texts.contains((#[trigger] listed[i]).text@)
    &&& forall|text: Seq<char>| #[trigger]
        texts.contains(text) ==> exists|i: int| 0 <= i < listed.len() && (#[trigger] listed[i]).text@ == text
}

/// The texts of the paths that are asked for.
fn collect_paths(paths: &Vec<TargetPathFacts<'_>>) -> (r: Result<TextMap<()>, RepositoryImportError>)
    ensures
        r is Ok <==> all_acceptable(paths@),
        r matches Ok(texts) ==> texts.wf() && texts@.dom() == target_paths(paths@),
        r matches Err(error) ==> error == RepositoryImportError::UnsafeTarget,
{
    let mut texts: TextMap<()> = TextMap::new();
    let ghost all = paths@;
    let mut i: usize = 0;
    while i < paths.len()
        invariant
            all == paths@,
            i <= all.len(),
            texts.wf(),
            forall|k: int| 0 <= k < i ==> (#[trigger] all[k]).acceptable(),
            forall|text: Seq<char>| #[trigger] texts@.dom().contains(text) <==> asked_for(all, text, i as int),
        decreases all.len() - i,
    {
        match validate_target_relative_path(&paths[i]) {
            Ok(text) => {
                let ghost before = texts@;
                let ghost added = text@;
                let _ = texts.insert_new(text, ());
                proof {
                    assert forall|text: Seq<char>| #[trigger] texts@.dom().contains(text) <==> asked_for(all, text, i + 1) by {
                        asked_for_step(all, text, i as int);
                        assert(before.dom().contains(text) <==> asked_for(all, text, i as int));
                    }
                }
            },
            Err(error) => {
                assert(!all[i as int].acceptable());
                return Err(error);
            },
        }
        i = i + 1;
    }
    let ghost asked = texts@;
    let _ = texts.insert_new(GIT_ATTRIBUTES_FILE.to_owned(), ());
    let _ = texts.insert_new(GIT_IGNORE_FILE.to_owned(), ());
    proof {
        assert forall|text: Seq<char>| #[trigger] texts@.dom().contains(text) == target_paths(all).contains(text) by {
            assert(asked.dom().contains(text) <==> asked_for(all, text, all.len() as int));
        }
        assert(texts@.dom() =~= target_paths(all));
    }
    Ok(texts)
}

proof fn asked_for_step(paths: Seq<TargetPathFacts>, text: Seq<char>, n: int)
    requires
        0 <= n < paths.len(),
    ensures
        asked_for(paths, text, n + 1) == (asked_for(paths, text, n) || paths[n].text() == text),
{
    if asked_for(paths, text, n + 1) {
        let i = choose|i: int| 0 <= i < n + 1 && (#[trigger] paths[i]).text() == text;
        if i < n {
            assert(asked_for(paths, text, n));
        }
    }
    if asked_for(paths, text, n) {
        let i = choose|i: int| 0 <= i < n && (#[trigger] paths[i]).text() == text;
        assert(paths[i].text() == text);
    }
}

/// The paths that a target tracks, once each, in the order of their names. The metadata of the vault
/// must be among them.
pub fn normalize_target_paths(paths: &Vec<TargetPathFacts<'_>>) -> (r: Result<Vec<TargetPath>, RepositoryImportError>)
    ensures
        if !all_acceptable(paths@) || !target_paths(paths@).contains(VAULT_METADATA_FILE@) {
            r matches Err(error) && error == RepositoryImportError::UnsafeTarget
        } else {
            match r {
                Ok(normalized) => normalized@.len() <= MAX_TARGET_ENTRIES && paths_ascend(normalized@) && lists_texts(
                    normalized@,
                    target_paths(paths@),
                ),
                Err(error) => error == RepositoryImportError::ResourceLimit && target_paths(paths@).finite() && target_paths(
                    paths@,
                ).len() > MAX_TARGET_ENTRIES,
            }
        },
{
    let texts = collect_paths(paths)?;
    if !texts.contains(VAULT_METADATA_FILE) {
        return Err(RepositoryImportError::UnsafeTarget);
    }
    if texts.len() > MAX_TARGET_ENTRIES {
        proof {
            map_size(texts);
        }
        return Err(RepositoryImportError::ResourceLimit);
    }
    let mut listed: Vec<TargetPath> = Vec::new();
    let ghost entries = texts.entries@;
    let mut i: usize = 0;
    while i < texts.entries.len()
        invariant
            entries == texts.entries@,
            i <= entries.len(),
            listed@.len() == i,
            forall|k: int| 0 <= k < i ==> (#[trigger] listed@[k]).text@ == entries[k].key@,
        decreases entries.len() - i,
    {
        listed.push(TargetPath { text: texts.entries[i].key.clone() });
        i = i + 1;
    }
    let ghost before = listed@;
    proof {
        assert forall|a: int, b: int| 0 <= a < b < before.len() implies (#[trigger] before[a]).key() != (#[trigger]
        before[b]).key() by {
            if before[a].key() == before[b].key() {
                component_key_is_injective(encode_utf8(before[a].text@), encode_utf8(before[b].text@));
                encoding_is_injective(before[a].text@, before[b].text@);
                key_is_unique(entries, a, b);
            }
        }
    }
    sort_keyed(&mut listed);
    proof {
        reordered_items(before, listed@);
        sorted_keys_ascend(before, listed@);
        assert forall|k: int| 0 <= k < listed@.len() implies target_paths(paths@).contains((#[trigger] listed@[k]).text@) by {
            assert(listed@.contains(listed@[k]));
            assert(before.contains(listed@[k]));
            let m = choose|m: int| 0 <= m < before.len() && before[m] == listed@[k];
            entry_in_view(texts, m);
        }
        assert forall|text: Seq<char>| #[trigger] target_paths(paths@).contains(text) implies exists|k: int|
            0 <= k < listed@.len() && (#[trigger] listed@[k]).text@ == text by {
            assert(texts@.dom().contains(text));
            let m = key_index(entries, text);
            assert(before.contains(before[m]));
            assert(listed@.contains(before[m]));
            let k = choose|k: int| 0 <= k < listed@.len() && listed@[k] == before[m];
            assert(listed@[k].text@ == text);
        }
    }
    Ok(listed)
}

/// A map has as many keys as entries.
proof fn map_size<V>(map: TextMap<V>)
    requires
        map.wf(),
    ensures
        map@.dom().finite(),
        map@.dom().len() == map.entries@.len(),
{
    keys_in_prefix(map, map.entries@.len() as int);
    assert(map@.dom() =~= first_texts(map.entries@, map.entries@.len() as int)) by {
        assert forall|key: Seq<char>| #[trigger] map@.dom().contains(key) == first_texts(
            map.entries@,
            map.entries@.len() as int,
        ).contains(key) by {
            if map@.dom().contains(key) {
                let k = key_index(map.entries@, key);
                assert(map.entries@[k].key@ == key);
            }
        }
    }
}

spec fn first_texts<V>(entries: Seq<TextEntry<V>>, n: int) -> Set<Seq<char>> {
    Set::new(|key: Seq<char>| exists|i: int| 0 <= i < n && (#[trigger] entries[i]).key@ == key)
}

proof fn keys_in_prefix<V>(map: TextMap<V>, n: int)
    requires
        map.wf(),
        0 <= n <= map.entries@.len(),
    ensures
        first_texts(map.entries@, n).finite(),
        first_texts(map.entries@, n).len() == n,
    decreases n,
{
    let entries = map.entries@;
    if n == 0 {
        assert(first_texts(entries, 0) =~= Set::<Seq<char>>::empty());
    } else {
        keys_in_prefix(map, n - 1);
        let key = entries[n - 1].key@;
        let before = first_texts(entries, n - 1);
        if before.contains(key) {
            let i = choose|i: int| 0 <= i < n - 1 && (#[trigger] entries[i]).key@ == key;
            key_is_unique(entries, i, n - 1);
        }
        assert forall|text: Seq<char>| #[trigger] first_texts(entries, n).contains(text) == before.insert(key).contains(
            text,
        ) by {
            if first_texts(entries, n).contains(text) {
                let i = choose|i: int| 0 <= i < n && (#[trigger] entries[i]).key@ == text;
                if i < n - 1 {
                    assert(before.contains(text));
                }
            }
            if before.contains(text) {
                let i = choose|i: int| 0 <= i < n - 1 && (#[trigger] entries[i]).key@ == text;
                assert(entries[i].key@ == text);
            }
            if text == key {
                assert(entries[n - 1].key@ == text);
            }
        }
        assert(first_texts(entries, n) =~= before.insert(key));
    }
}

/// A path of a target, as such or with what is known of its file.
pub trait TargetAllowlistEntry {
    /// The path.
    spec fn path(&self) -> Seq<char>;

    /// The path.
    fn target_path(&self) -> (path: &str)
        ensures
            path@ == self.path(),
    ;
}

impl TargetAllowlistEntry for TargetPath {
    open spec fn path(&self) -> Seq<char> {
        self.text@
    }

    fn target_path(&self) -> (path: &str) {
        self.text.as_str()
    }
}

impl TargetAllowlistEntry for TargetTrackedEntry {
    open spec fn path(&self) -> Seq<char> {
        self.relative_path@
    }

    fn target_path(&self) -> (path: &str) {
        self.relative_path.as_str()
    }
}

/// The paths that are allowed.
pub open spec fn allowed_paths<T: TargetAllowlistEntry>(entries: Seq<T>, n: int) -> Set<Seq<char>> {
    Set::new(|path: Seq<char>| exists|i: int| 0 <= i < n && (#[trigger] entries[i]).path() == path)
}

/// What an entry of a worktree turned out to be.
#[derive(Clone, Copy, Debug, PartialEq, Eq, Structural)]
pub enum TargetChild {
    /// It could not be opened.
    Unopened,
    Directory { binding_holds: bool },
    File { binding_holds: bool },
    Other,
}

/// A walk through a worktree.
pub struct WorktreeWalk {
    pub git_required: bool,
    pub files: TextMap<()>,
    pub directories: TextMap<()>,
    pub entries: usize,
    pub path_bytes: usize,
}

/// A control directory at the top of a worktree.
pub open spec fn control_name(parent: Seq<char>, name: Seq<char>) -> bool {
    encode_utf8(parent).len() == 0 && (name == VAULT_LOCAL_DIRECTORY@ || name == ".git"@)
}

/// Most entries that a walk passes.
pub const MAX_WALKED_ENTRIES: usize = 200_000;

impl WorktreeWalk {
    /// What was found is kept in order.
    pub open spec fn wf(self) -> bool {
        self.files.wf() && self.directories.wf()
    }

    /// A walk that has passed nothing.
    pub fn begin(git_required: bool) -> (walk: WorktreeWalk)
        ensures
            walk.wf(),
            walk.git_required == git_required,
            walk.files@.dom() == Set::<Seq<char>>::empty(),
            walk.directories@.dom() == Set::<Seq<char>>::empty(),
            walk.entries == 0,
            walk.path_bytes == 0,
    {
        let walk = WorktreeWalk {
            git_required,
            files: TextMap::new(),
            directories: TextMap::new(),
            entries: 0,
            path_bytes: 0,
        };
        assert(walk.files@.dom() =~= Set::<Seq<char>>::empty());
        assert(walk.directories@.dom() =~= Set::<Seq<char>>::empty());
        walk
    }

    /// Enter a directory at a depth, if it is the one at its path and can be read.
    pub fn enter_directory(&self, depth: usize, binding_holds: bool, readable: bool) -> (r: Result<(), RepositoryImportError>)
        ensures
            r == if depth > MAX_TREE_DEPTH {
                Err::<(), RepositoryImportError>(RepositoryImportError::ResourceLimit)
            } else if !binding_holds || !readable {
                Err(RepositoryImportError::TargetAuditFailed)
            } else {
                Ok(())
            },
    {
        if depth > MAX_TREE_DEPTH {
            return Err(RepositoryImportError::ResourceLimit);
        }
        if !binding_holds || !readable {
            return Err(RepositoryImportError::TargetAuditFailed);
        }
        Ok(())
    }

    /// Count an entry by its name, before it is opened. A name that is no text is missing.
    pub fn account_child(&mut self, parent: &str, name: Option<&str>) -> (r: Result<String, RepositoryImportError>)
        ensures
            final(self).git_required == old(self).git_required,
            final(self).files == old(self).files,
            final(self).directories == old(self).directories,
            final(self).entries == saturated(old(self).entries, 1),
            if final(self).entries > MAX_WALKED_ENTRIES {
                r == Err::<String, RepositoryImportError>(RepositoryImportError::ResourceLimit) && final(self).path_bytes
                    == old(self).path_bytes
            } else {
                match name {
                    None => r == Err::<String, RepositoryImportError>(RepositoryImportError::TargetAuditFailed)
                        && final(self).path_bytes == old(self).path_bytes,
                    Some(text) => {
                        let path = child_path(encode_utf8(parent@), encode_utf8(text@));
                        &&& final(self).path_bytes == saturated(old(self).path_bytes, path.len())
                        &&& if final(self).path_bytes > MAX_RETAINED_PATH_BYTES {
                            r == Err::<String, RepositoryImportError>(RepositoryImportError::ResourceLimit)
                        } else {
                            r matches Ok(child) && encode_utf8(child@) == path
                        }
                    },
                }
            },
    {
        self.entries = saturating_total(self.entries, 1);
        if self.entries > MAX_WALKED_ENTRIES {
            return Err(RepositoryImportError::ResourceLimit);
        }
        match name {
            None => Err(RepositoryImportError::TargetAuditFailed),
            Some(text) => {
                let path = child_text(parent, text);
                self.path_bytes = saturating_total(self.path_bytes, path.as_str().as_bytes().len());
                if self.path_bytes > MAX_RETAINED_PATH_BYTES {
                    return Err(RepositoryImportError::ResourceLimit);
                }
                Ok(path)
            },
        }
    }

    /// Note what an entry turned out to be; a directory that is no control directory is walked next.
    pub fn record_child(&mut self, parent: &str, name: &str, path: String, child: TargetChild) -> (r: Result<
        bool,
        RepositoryImportError,
    >)
        requires
            old(self).wf(),
        ensures
            final(self).wf(),
            final(self).git_required == old(self).git_required,
            final(self).entries == old(self).entries,
            final(self).path_bytes == old(self).path_bytes,
            r matches Err(error) ==> error == RepositoryImportError::TargetAuditFailed,
            if control_name(parent@, name@) {
                &&& r is Ok <==> child == (TargetChild::Directory { binding_holds: true }) && (name@ == ".git"@
                    ==> old(self).git_required)
                &&& r matches Ok(descend) ==> !descend
                &&& final(self).files@.dom() == old(self).files@.dom()
                &&& final(self).directories@.dom() == old(self).directories@.dom()
            } else {
                &&& r is Ok <==> child is Directory || child == (TargetChild::File { binding_holds: true })
                &&& r matches Ok(descend) ==> descend == (child is Directory)
                &&& final(self).directories@.dom() == if child is Directory {
                    old(self).directories@.dom().insert(path@)
                } else {
                    old(self).directories@.dom()
                }
                &&& final(self).files@.dom() == if child == (TargetChild::File { binding_holds: true }) {
                    old(self).files@.dom().insert(path@)
                } else {
                    old(self).files@.dom()
                }
            },
    {
        proof {
            reveal_strlit(".git");
            reveal_strlit(".vault-local");
        }
        if parent.as_bytes().len() == 0 && (text_equal(name, VAULT_LOCAL_DIRECTORY) || text_equal(name, ".git")) {
            return match child {
                TargetChild::Directory { binding_holds } => {
                    if (text_equal(name, ".git") && !self.git_required) || !binding_holds {
                        Err(RepositoryImportError::TargetAuditFailed)
                    } else {
                        Ok(false)
                    }
                },
                _ => Err(RepositoryImportError::TargetAuditFailed),
            };
        }
        let ghost text = path@;
        match child {
            TargetChild::Directory { .. } => {
                let ghost before = self.directories@;
                let _ = self.directories.insert_new(path, ());
                assert(self.directories@.dom() =~= before.dom().insert(text));
                Ok(true)
            },
            TargetChild::File { binding_holds } => {
                if !binding_holds {
                    return Err(RepositoryImportError::TargetAuditFailed);
                }
                let ghost before = self.files@;
                let _ = self.files.insert_new(path, ());
                assert(self.files@.dom() =~= before.dom().insert(text));
                Ok(false)
            },
            TargetChild::Unopened | TargetChild::Other => Err(RepositoryImportError::TargetAuditFailed),
        }
    }

    /// Leave a directory, if it is still the one at its path.
    pub fn leave_directory(&self, binding_holds: bool) -> (r: Result<(), RepositoryImportError>)
        ensures
            r == if binding_holds {
                Ok::<(), RepositoryImportError>(())
            } else {
                Err(RepositoryImportError::TargetAuditFailed)
            },
    {
        if binding_holds {
            Ok(())
        } else {
            Err(RepositoryImportError::TargetAuditFailed)
        }
    }
}

/// `file` is the slash form of one of the paths; a path without one is no file.
pub open spec fn allowed_file(paths: Set<Seq<char>>, file: Seq<char>) -> bool {
    exists|path: Seq<char>| #[trigger] paths.contains(path) && joins_to(encode_utf8(path), encode_utf8(file))
}

/// A path has a slash form, which is `joined`.
pub open spec fn joins_to(path: Seq<u8>, joined: Seq<u8>) -> bool {
    has_slash_form(path) && joined == slash_form(path)
}

/// `directory` stands above one of the paths.
pub open spec fn allowed_directory(paths: Set<Seq<char>>, directory: Seq<char>) -> bool {
    exists|path: Seq<char>| #[trigger] paths.contains(path) && is_parent(encode_utf8(directory), encode_utf8(path))
}

/// The walk found exactly the allowed files and the directories above them, all of which can be joined.
pub open spec fn found_as_allowed(walk: WorktreeWalk, allowed: Set<Seq<char>>) -> bool {
    &&& all_parents_join(allowed)
    &&& forall|file: Seq<char>| #[trigger] walk.files@.dom().contains(file) <==> allowed_file(allowed, file)
    &&& forall|directory: Seq<char>| #[trigger]
        walk.directories@.dom().contains(directory) <==> allowed_directory(allowed, directory)
}

/// Require a walk to have found exactly the allowed files and the directories above them.
pub fn prove_target_worktree_allowlist<T: TargetAllowlistEntry>(walk: &WorktreeWalk, paths: &Vec<T>) -> (r: Result<
    (),
    RepositoryImportError,
>)
    requires
        walk.wf(),
    ensures
        r == if found_as_allowed(*walk, allowed_paths(paths@, paths@.len() as int)) {
            Ok::<(), RepositoryImportError>(())
        } else {
            Err(RepositoryImportError::TargetAuditFailed)
        },
{
    let mut files: TextMap<()> = TextMap::new();
    let mut directories: TextMap<()> = TextMap::new();
    let ghost all = paths@;
    let mut i: usize = 0;
    while i < paths.len()
        invariant
            all == paths@,
            i <= all.len(),
            files.wf(),
            directories.wf(),
            all_parents_join(allowed_paths(all, i as int)),
            forall|file: Seq<char>| #[trigger]
                files@.dom().contains(file) <==> allowed_file(allowed_paths(all, i as int), file),
            forall|directory: Seq<char>| #[trigger]
                directories@.dom().contains(directory) <==> allowed_directory(allowed_paths(all, i as int), directory),
        decreases all.len() - i,
    {
        let path = paths[i].target_path();
        let ghost text = path@;
        let ghost allowed = allowed_paths(all, i as int);
        let ghost before = directories@;
        let ghost before_files = files@;
        proof {
            allowed_step(all, i as int);
        }
        if note_parents(&mut directories, path).is_err() {
            proof {
                assert(allowed_paths(all, all.len() as int).contains(text)) by {
                    assert(all[i as int].path() == text);
                }
                assert(!all_parents_join(allowed_paths(all, all.len() as int)));
            }
            return Err(RepositoryImportError::TargetAuditFailed);
        }
        if let Some(joined) = slash_path_text(path) {
            let ghost file = joined@;
            let _ = files.insert_new(joined, ());
            assert(files@.dom() =~= before_files.dom().insert(file));
            assert(joins_to(encode_utf8(text), encode_utf8(file)));
            assert forall|other: Seq<char>| joins_to(encode_utf8(text), #[trigger] encode_utf8(other)) implies other == file by {
                encoding_is_injective(other, file);
            }
        }
        proof {
            assert forall|file: Seq<char>| #[trigger]
                files@.dom().contains(file) <==> allowed_file(allowed.insert(text), file) by {
                assert(before_files.dom().contains(file) <==> allowed_file(allowed, file));
                file_one_more(allowed, text, file);
            }
            assert forall|directory: Seq<char>| #[trigger]
                directories@.dom().contains(directory) <==> allowed_directory(allowed.insert(text), directory) by {
                assert(before.dom().contains(directory) <==> allowed_directory(allowed, directory));
                directory_one_more(allowed, text, directory);
            }
        }
        i = i + 1;
    }
    let same_files = same_keys(&walk.files, &files);
    let same_directories = same_keys(&walk.directories, &directories);
    proof {
        let allowed = allowed_paths(all, all.len() as int);
        if same_files {
            assert forall|file: Seq<char>| #[trigger] walk.files@.dom().contains(file) <==> allowed_file(allowed, file) by {
                assert(files@.dom().contains(file) == walk.files@.dom().contains(file));
            }
        }
        if same_directories {
            assert forall|directory: Seq<char>| #[trigger]
                walk.directories@.dom().contains(directory) <==> allowed_directory(allowed, directory) by {
                assert(directories@.dom().contains(directory) == walk.directories@.dom().contains(directory));
            }
        }
        if found_as_allowed(*walk, allowed) {
            assert forall|file: Seq<char>| #[trigger] walk.files@.dom().contains(file) == files@.dom().contains(file) by {}
            assert(walk.files@.dom() =~= files@.dom());
            assert forall|directory: Seq<char>| #[trigger] walk.directories@.dom().contains(directory)
                == directories@.dom().contains(directory) by {}
            assert(walk.directories@.dom() =~= directories@.dom());
        }
    }
    if same_files && same_directories {
        Ok(())
    } else {
        Err(RepositoryImportError::TargetAuditFailed)
    }
}

proof fn allowed_step<T: TargetAllowlistEntry>(entries: Seq<T>, n: int)
    requires
        0 <= n < entries.len(),
    ensures
        allowed_paths(entries, n + 1) == allowed_paths(entries, n).insert(entries[n].path()),
{
    assert forall|path: Seq<char>| #[trigger] allowed_paths(entries, n + 1).contains(path) == allowed_paths(
        entries,
        n,
    ).insert(entries[n].path()).contains(path) by {
        if allowed_paths(entries, n + 1).contains(path) {
            let i = choose|i: int| 0 <= i < n + 1 && (#[trigger] entries[i]).path() == path;
            if i < n {
                assert(allowed_paths(entries, n).contains(path));
            }
        }
        if allowed_paths(entries, n).contains(path) {
            let i = choose|i: int| 0 <= i < n && (#[trigger] entries[i]).path() == path;
            assert(entries[i].path() == path);
        }
        if path == entries[n].path() {
            assert(entries[n].path() == path);
        }
    }
    assert(allowed_paths(entries, n + 1) =~= allowed_paths(entries, n).insert(entries[n].path()));
}

proof fn file_one_more(paths: Set<Seq<char>>, path: Seq<char>, file: Seq<char>)
    ensures
        allowed_file(paths.insert(path), file) == (allowed_file(paths, file) || joins_to(encode_utf8(path), encode_utf8(file))),
{
    let more = paths.insert(path);
    if allowed_file(more, file) {
        let p = choose|p: Seq<char>| #[trigger] more.contains(p) && joins_to(encode_utf8(p), encode_utf8(file));
        if p != path {
            assert(paths.contains(p));
        }
    }
    if allowed_file(paths, file) {
        let p = choose|p: Seq<char>| #[trigger] paths.contains(p) && joins_to(encode_utf8(p), encode_utf8(file));
        assert(more.contains(p));
    }
    assert(more.contains(path));
}

proof fn directory_one_more(paths: Set<Seq<char>>, path: Seq<char>, directory: Seq<char>)
    ensures
        allowed_directory(paths.insert(path), directory) == (allowed_directory(paths, directory) || is_parent(
            encode_utf8(directory),
            encode_utf8(path),
        )),
{
    let more = paths.insert(path);
    if allowed_directory(more, directory) {
        let p = choose|p: Seq<char>| #[trigger] more.contains(p) && is_parent(encode_utf8(directory), encode_utf8(p));
        if p != path {
            assert(paths.contains(p));
        }
    }
    if allowed_directory(paths, directory) {
        let p = choose|p: Seq<char>| #[trigger] paths.contains(p) && is_parent(encode_utf8(directory), encode_utf8(p));
        assert(more.contains(p));
    }
    assert(more.contains(path));
}

/// A held file is the tracked one at `path`.
pub open spec fn tracked_as_held(expected: TargetTrackedEntry, path: Seq<char>, held: HeldFile) -> bool {
    &&& expected.relative_path@ == path
    &&& expected.size == held.bytes@.len()
    &&& expected.sha256@ == sha256_of(held.bytes@)
    &&& expected.identity.same(held.identity)
}

/// Require a file that was read to be the tracked one, where one is expected.
pub fn inspect_target_tracked_entry<'a>(
    path: &str,
    reading: &'a Result<HeldFile, RepositoryImportError>,
    expected: Option<&TargetTrackedEntry>,
) -> (r: Result<&'a HeldFile, RepositoryImportError>)
    ensures
        match *reading {
            Err(failure) => r matches Err(error) && error == failure,
            Ok(held) => if expected matches Some(entry) && !tracked_as_held(*entry, path@, held) {
                r matches Err(error) && error == RepositoryImportError::TargetAuditFailed
            } else {
                r matches Ok(file) && *file == held
            },
        },
{
    match reading {
        Err(failure) => Err(*failure),
        Ok(held) => {
            if let Some(entry) = expected {
                if !text_equal(entry.relative_path.as_str(), path) || entry.size != held.bytes.len() as u64 || !bytes_equal(
                    entry.sha256.as_slice(),
                    sha256_digest(held.bytes.as_slice()).as_slice(),
                ) || !entry.identity.matches(&held.identity) {
                    return Err(RepositoryImportError::TargetAuditFailed);
                }
            }
            Ok(held)
        },
    }
}

} // verus!
