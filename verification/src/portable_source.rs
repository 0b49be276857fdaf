//! Portable names for the tracked files of a source.
//!
//! The canonical form of a path and its case-fold keys come from the vault's own path rules.
//! What is decided here is whether all of them can live in one vault.

use crate::errors::RepositoryImportError;
use crate::git_output::{relative_shape, validate_relative_path_shape};
use crate::bytes::has_suffix;
use crate::text::{text_ends_with, text_equal};
use crate::text_map::{entry_in_view, TextMap};
use vstd::prelude::*;
use vstd::string::*;
use vstd::utf8::encode_utf8;

verus! {

/// The suffix of a Markdown file.
pub const MARKDOWN_SUFFIX: &'static str = ".md";

/// Whether a source path is that of a Markdown file.
pub fn is_markdown_path(path: &str) -> (r: bool)
    ensures
        r == has_suffix(encode_utf8(path@), encode_utf8(MARKDOWN_SUFFIX@)),
{
    text_ends_with(path, MARKDOWN_SUFFIX)
}

/// One directory above a tracked file.
pub struct SourceDirectoryFacts {
    /// Its path in the source.
    pub text: String,
    /// The case-fold key of its canonical form.
    pub key: String,
}

/// What the vault's path rules say of one tracked file.
pub struct SourcePathFacts {
    pub path: String,
    /// The path and every directory above it have a canonical form.
    pub acceptable: bool,
    pub canonical: String,
    /// The case-fold key of the canonical form.
    pub logical_key: String,
    /// The case-fold key of the ciphertext's path.
    pub physical_key: String,
    /// The directories above, the nearest one first.
    pub directories: Vec<SourceDirectoryFacts>,
}

/// A file by itself can live in a vault.
pub open spec fn admissible(facts: SourcePathFacts) -> bool {
    relative_shape(encode_utf8(facts.path@)) && facts.acceptable
}

/// Two files can live in one vault: they differ in path and in both keys.
pub open spec fn compatible(a: SourcePathFacts, b: SourcePathFacts) -> bool {
    a.path@ != b.path@ && a.logical_key@ != b.logical_key@ && a.physical_key@ != b.physical_key@
}

/// Directory `d` above file `i`.
pub open spec fn directory_of(facts: Seq<SourcePathFacts>, i: int, d: int) -> SourceDirectoryFacts {
    facts[i].directories@[d]
}

/// Directory `d` above file `i` exists.
pub open spec fn directory_exists(facts: Seq<SourcePathFacts>, i: int, d: int) -> bool {
    0 <= i < facts.len() && 0 <= d < facts[i].directories@.len()
}

/// All files can live in one vault: each can by itself, each two differ, directories with one
/// key are one directory, and no directory has the key of a ciphertext.
pub open spec fn portable_together(facts: Seq<SourcePathFacts>) -> bool {
    &&& forall|i: int| 0 <= i < facts.len() ==> admissible(#[trigger] facts[i])
    &&& forall|i: int, j: int| 0 <= i < j < facts.len() ==> compatible(#[trigger] facts[i], #[trigger] facts[j])
    &&& forall|i: int, d: int, j: int, e: int|
        directory_exists(facts, i, d) && directory_exists(facts, j, e) && (#[trigger] directory_of(facts, i, d)).key@ == (
        #[trigger] directory_of(facts, j, e)).key@ ==> directory_of(facts, i, d).text@ == directory_of(facts, j, e).text@
    &&& forall|i: int, d: int, j: int|
        directory_exists(facts, i, d) && 0 <= j < facts.len() ==> (#[trigger] directory_of(facts, i, d)).key@ != (
        #[trigger] facts[j]).physical_key@
}

/// A map holds the canonical form of every file under its path, and nothing else.
pub open spec fn canonical_map_holds(map: Map<Seq<char>, String>, facts: Seq<SourcePathFacts>, n: int) -> bool {
    &&& forall|path: Seq<char>| #[trigger] map.dom().contains(path) == path_met(facts, path, n)
    &&& forall|i: int|
        0 <= i < n ==> map.dom().contains((#[trigger] facts[i]).path@) && map[facts[i].path@]@ == facts[i].canonical@
}

/// One of the first `n` files has a logical key.
pub open spec fn logical_met(facts: Seq<SourcePathFacts>, key: Seq<char>, n: int) -> bool {
    exists|i: int| 0 <= i < n && (#[trigger] facts[i]).logical_key@ == key
}

/// One of the first `n` files has a physical key.
pub open spec fn physical_met(facts: Seq<SourcePathFacts>, key: Seq<char>, n: int) -> bool {
    exists|i: int| 0 <= i < n && (#[trigger] facts[i]).physical_key@ == key
}

/// One of the first `n` files has a path.
pub open spec fn path_met(facts: Seq<SourcePathFacts>, path: Seq<char>, n: int) -> bool {
    exists|i: int| 0 <= i < n && (#[trigger] facts[i]).path@ == path
}

proof fn met_steps(facts: Seq<SourcePathFacts>, n: int)
    requires
        0 <= n < facts.len(),
    ensures
        forall|key: Seq<char>| #[trigger]
            logical_met(facts, key, n + 1) == (logical_met(facts, key, n) || key == facts[n].logical_key@),
        forall|key: Seq<char>| #[trigger]
            physical_met(facts, key, n + 1) == (physical_met(facts, key, n) || key == facts[n].physical_key@),
        forall|path: Seq<char>| #[trigger]
            path_met(facts, path, n + 1) == (path_met(facts, path, n) || path == facts[n].path@),
{
    assert forall|key: Seq<char>| #[trigger]
        logical_met(facts, key, n + 1) == (logical_met(facts, key, n) || key == facts[n].logical_key@) by {
        if logical_met(facts, key, n) {
            let i = choose|i: int| 0 <= i < n && (#[trigger] facts[i]).logical_key@ == key;
            assert(facts[i].logical_key@ == key);
        }
        if key == facts[n].logical_key@ {
            assert(facts[n].logical_key@ == key);
        }
    }
    assert forall|key: Seq<char>| #[trigger]
        physical_met(facts, key, n + 1) == (physical_met(facts, key, n) || key == facts[n].physical_key@) by {
        if physical_met(facts, key, n) {
            let i = choose|i: int| 0 <= i < n && (#[trigger] facts[i]).physical_key@ == key;
            assert(facts[i].physical_key@ == key);
        }
        if key == facts[n].physical_key@ {
            assert(facts[n].physical_key@ == key);
        }
    }
    assert forall|path: Seq<char>| #[trigger]
        path_met(facts, path, n + 1) == (path_met(facts, path, n) || path == facts[n].path@) by {
        if path_met(facts, path, n) {
            let i = choose|i: int| 0 <= i < n && (#[trigger] facts[i]).path@ == path;
            assert(facts[i].path@ == path);
        }
        if path == facts[n].path@ {
            assert(facts[n].path@ == path);
        }
    }
}

/// A map holds the paths of the directories met so far under their keys, and nothing else.
pub open spec fn directories_held(map: Map<Seq<char>, String>, facts: Seq<SourcePathFacts>, i: int, d: int) -> bool {
    &&& forall|key: Seq<char>| #[trigger]
        map.dom().contains(key) ==> exists|j: int, e: int|
            directory_met(facts, i, d, j, e) && (#[trigger] directory_of(facts, j, e)).key@ == key && directory_of(
                facts,
                j,
                e,
            ).text@ == map[key]@
    &&& forall|j: int, e: int|
        directory_met(facts, i, d, j, e) ==> map.dom().contains((#[trigger] directory_of(facts, j, e)).key@)
            && map[directory_of(facts, j, e).key@]@ == directory_of(facts, j, e).text@
}

/// Directory `e` above file `j` comes before directory `d` above file `i`.
pub open spec fn directory_met(facts: Seq<SourcePathFacts>, i: int, d: int, j: int, e: int) -> bool {
    directory_exists(facts, j, e) && (j < i || (j == i && e < d))
}

/// Meet the directories above file `i`.
fn meet_directories(
    directories: &mut TextMap<String>,
    facts: &Vec<SourcePathFacts>,
    i: usize,
) -> (r: Result<(), RepositoryImportError>)
    requires
        old(directories).wf(),
        i < facts@.len(),
        directories_held(old(directories)@, facts@, i as int, 0),
    ensures
        final(directories).wf(),
        r is Ok ==> directories_held(final(directories)@, facts@, i + 1, 0),
        r is Err ==> exists|d: int, j: int, e: int|
            directory_exists(facts@, i as int, d) && directory_exists(facts@, j, e) && (#[trigger] directory_of(
                facts@,
                i as int,
                d,
            )).key@ == (#[trigger] directory_of(facts@, j, e)).key@ && directory_of(facts@, i as int, d).text@
                != directory_of(facts@, j, e).text@,
        r matches Err(error) ==> error == RepositoryImportError::UnsafeSourceEntry,
{
    let ghost all = facts@;
    let mut d: usize = 0;
    while d < facts[i].directories.len()
        invariant
            all == facts@,
            i < all.len(),
            d <= all[i as int].directories@.len(),
            directories.wf(),
            directories_held(directories@, all, i as int, d as int),
        decreases all[i as int].directories@.len() - d,
    {
        let directory = &facts[i].directories[d];
        assert(*directory == directory_of(all, i as int, d as int));
        let ghost before = directories@;
        match directories.get(directory.key.as_str()) {
            Some(text) => {
                if !text_equal(text.as_str(), directory.text.as_str()) {
                    proof {
                        let (j, e) = choose|j: int, e: int|
                            directory_met(all, i as int, d as int, j, e) && (#[trigger] directory_of(all, j, e)).key@
                                == directory.key@ && directory_of(all, j, e).text@ == before[directory.key@]@;
                        assert(directory_exists(all, i as int, d as int) && directory_exists(all, j, e));
                        assert(directory_of(all, i as int, d as int).key@ == directory_of(all, j, e).key@);
                    }
                    return Err(RepositoryImportError::UnsafeSourceEntry);
                }
            },
            None => {
                let inserted = directories.insert_new(directory.key.clone(), directory.text.clone());
            },
        }
        proof {
            assert forall|key: Seq<char>| #[trigger] directories@.dom().contains(key) implies exists|j: int, e: int|
                directory_met(all, i as int, d + 1, j, e) && (#[trigger] directory_of(all, j, e)).key@ == key
                    && directory_of(all, j, e).text@ == directories@[key]@ by {
                if before.dom().contains(key) {
                    let (j, e) = choose|j: int, e: int|
                        directory_met(all, i as int, d as int, j, e) && (#[trigger] directory_of(all, j, e)).key@ == key
                            && directory_of(all, j, e).text@ == before[key]@;
                    assert(directory_met(all, i as int, d + 1, j, e) && directory_of(all, j, e).key@ == key);
                } else {
                    assert(directory_met(all, i as int, d + 1, i as int, d as int) && directory_of(
                        all,
                        i as int,
                        d as int,
                    ).key@ == key);
                }
            }
            assert forall|j: int, e: int|
                directory_met(all, i as int, d + 1, j, e) implies directories@.dom().contains(
                (#[trigger] directory_of(all, j, e)).key@,
            ) && directories@[directory_of(all, j, e).key@]@ == directory_of(all, j, e).text@ by {
                if directory_met(all, i as int, d as int, j, e) {
                    assert(before.dom().contains(directory_of(all, j, e).key@));
                } else {
                    assert(j == i && e == d);
                }
            }
        }
        d = d + 1;
    }
    proof {
        let last = all[i as int].directories@.len() as int;
        assert forall|j: int, e: int| directory_met(all, i + 1, 0, j, e) == directory_met(all, i as int, last, j, e) by {}
        assert forall|key: Seq<char>| #[trigger] directories@.dom().contains(key) implies exists|j: int, e: int|
            directory_met(all, i + 1, 0, j, e) && (#[trigger] directory_of(all, j, e)).key@ == key && directory_of(
                all,
                j,
                e,
            ).text@ == directories@[key]@ by {
            let (j, e) = choose|j: int, e: int|
                directory_met(all, i as int, last, j, e) && (#[trigger] directory_of(all, j, e)).key@ == key
                    && directory_of(all, j, e).text@ == directories@[key]@;
            assert(directory_met(all, i + 1, 0, j, e) && directory_of(all, j, e).key@ == key);
        }
    }
    Ok(())
}

/// Two files among the first `n` are pairwise compatible, and each is admissible.
pub open spec fn prefix_portable(facts: Seq<SourcePathFacts>, n: int) -> bool {
    &&& forall|i: int| 0 <= i < n ==> admissible(#[trigger] facts[i])
    &&& forall|i: int, j: int| 0 <= i < j < n ==> compatible(#[trigger] facts[i], #[trigger] facts[j])
}

/// What has been met of the first files.
struct PortableState {
    logical: TextMap<()>,
    physical: TextMap<()>,
    canonical: TextMap<String>,
    directories: TextMap<String>,
}

impl PortableState {
    spec fn knows(self, facts: Seq<SourcePathFacts>, n: int) -> bool {
        &&& self.logical.wf()
        &&& self.physical.wf()
        &&& self.canonical.wf()
        &&& self.directories.wf()
        &&& forall|key: Seq<char>| #[trigger] self.logical@.dom().contains(key) == logical_met(facts, key, n)
        &&& forall|key: Seq<char>| #[trigger] self.physical@.dom().contains(key) == physical_met(facts, key, n)
        &&& canonical_map_holds(self.canonical@, facts, n)
        &&& directories_held(self.directories@, facts, n, 0)
        &&& prefix_portable(facts, n)
    }
}

/// Meet file `i`.
fn meet_file(state: &mut PortableState, facts: &Vec<SourcePathFacts>, i: usize) -> (r: Result<(), RepositoryImportError>)
    requires
        old(state).knows(facts@, i as int),
        i < facts@.len(),
    ensures
        r is Ok ==> final(state).knows(facts@, i + 1),
        r is Err ==> !portable_together(facts@),
        r matches Err(error) ==> error == RepositoryImportError::UnsafeSourceEntry,
{
    let ghost all = facts@;
    let file = &facts[i];
    match validate_relative_path_shape(file.path.as_str()) {
        Ok(()) => {},
        Err(error) => {
            assert(!admissible(all[i as int]));
            return Err(error);
        },
    }
    if !file.acceptable {
        assert(!admissible(all[i as int]));
        return Err(RepositoryImportError::UnsafeSourceEntry);
    }
    proof {
        met_steps(all, i as int);
    }
    if !state.logical.insert_new(file.logical_key.clone(), ()) {
        proof {
            let k = choose|k: int| 0 <= k < i && (#[trigger] all[k]).logical_key@ == file.logical_key@;
            assert(!compatible(all[k], all[i as int]));
        }
        return Err(RepositoryImportError::UnsafeSourceEntry);
    }
    let ghost before = state.canonical@;
    if !state.canonical.insert_new(file.path.clone(), file.canonical.clone()) {
        proof {
            let k = choose|k: int| 0 <= k < i && (#[trigger] all[k]).path@ == file.path@;
            assert(!compatible(all[k], all[i as int]));
        }
        return Err(RepositoryImportError::UnsafeSourceEntry);
    }
    proof {
        assert forall|k: int| 0 <= k < i + 1 implies state.canonical@.dom().contains((#[trigger] all[k]).path@)
            && state.canonical@[all[k].path@]@ == all[k].canonical@ by {
            if k < i {
                assert(before.dom().contains(all[k].path@));
            }
        }
    }
    if !state.physical.insert_new(file.physical_key.clone(), ()) {
        proof {
            let k = choose|k: int| 0 <= k < i && (#[trigger] all[k]).physical_key@ == file.physical_key@;
            assert(!compatible(all[k], all[i as int]));
        }
        return Err(RepositoryImportError::UnsafeSourceEntry);
    }
    meet_directories(&mut state.directories, facts, i)?;
    proof {
        assert forall|j: int, k: int| 0 <= j < k < i + 1 implies compatible(#[trigger] all[j], #[trigger] all[k]) by {
            if k == i {
                assert(path_met(all, all[j].path@, i as int)) by {
                    assert(all[j].path@ == all[j].path@);
                }
                assert(logical_met(all, all[j].logical_key@, i as int)) by {
                    assert(all[j].logical_key@ == all[j].logical_key@);
                }
                assert(physical_met(all, all[j].physical_key@, i as int)) by {
                    assert(all[j].physical_key@ == all[j].physical_key@);
                }
            }
        }
    }
    Ok(())
}

/// Require every directory to keep clear of the ciphertexts.
fn separate_directories(state: &PortableState, facts: &Vec<SourcePathFacts>) -> (r: Result<(), RepositoryImportError>)
    requires
        state.knows(facts@, facts@.len() as int),
    ensures
        r is Ok <==> portable_together(facts@),
        r matches Err(error) ==> error == RepositoryImportError::UnsafeSourceEntry,
{
    let ghost all = facts@;
    let ghost n = all.len() as int;
    let directories = &state.directories;
    let mut k: usize = 0;
    while k < directories.entries.len()
        invariant
            all == facts@,
            n == all.len(),
            state.knows(all, n),
            *directories == state.directories,
            k <= directories.entries@.len(),
            forall|m: int| 0 <= m < k ==> !state.physical@.dom().contains((#[trigger] directories.entries@[m]).key@),
        decreases directories.entries@.len() - k,
    {
        if state.physical.contains(directories.entries[k].key.as_str()) {
            proof {
                entry_in_view(*directories, k as int);
                let key = directories.entries@[k as int].key@;
                assert(directories@.dom().contains(key));
                let (j, e) = choose|j: int, e: int|
                    directory_met(all, n, 0, j, e) && (#[trigger] directory_of(all, j, e)).key@ == key && directory_of(
                        all,
                        j,
                        e,
                    ).text@ == directories@[key]@;
                let f = choose|f: int| 0 <= f < n && (#[trigger] all[f]).physical_key@ == key;
                assert(directory_exists(all, j, e));
                assert(directory_of(all, j, e).key@ == all[f].physical_key@);
            }
            return Err(RepositoryImportError::UnsafeSourceEntry);
        }
        k = k + 1;
    }
    proof {
        assert forall|i: int, d: int, j: int, e: int|
            directory_exists(all, i, d) && directory_exists(all, j, e) && (#[trigger] directory_of(all, i, d)).key@ == (
            #[trigger] directory_of(all, j, e)).key@ implies directory_of(all, i, d).text@ == directory_of(all, j, e).text@ by {
            assert(directory_met(all, n, 0, i, d) && directory_met(all, n, 0, j, e));
        }
        assert forall|i: int, d: int, j: int| directory_exists(all, i, d) && 0 <= j < all.len() implies (
        #[trigger] directory_of(all, i, d)).key@ != (#[trigger] all[j]).physical_key@ by {
            assert(directory_met(all, n, 0, i, d));
            let key = directory_of(all, i, d).key@;
            assert(directories@.dom().contains(key));
            let m = choose|m: int| 0 <= m < directories.entries@.len() && (#[trigger] directories.entries@[m]).key@ == key;
            assert(!state.physical@.dom().contains(directories.entries@[m].key@));
            if all[j].physical_key@ == key {
                assert(physical_met(all, key, n));
            }
        }
    }
    Ok(())
}

/// The canonical forms of the tracked files, if all of them can live in one vault.
pub fn canonical_portable_source_paths(facts: &Vec<SourcePathFacts>) -> (r: Result<TextMap<String>, RepositoryImportError>)
    ensures
        r is Ok <==> portable_together(facts@),
        r matches Ok(map) ==> map.wf() && canonical_map_holds(map@, facts@, facts@.len() as int),
        r matches Err(error) ==> error == RepositoryImportError::UnsafeSourceEntry,
{
    let mut state = PortableState {
        logical: TextMap::new(),
        physical: TextMap::new(),
        canonical: TextMap::new(),
        directories: TextMap::new(),
    };
    let mut i: usize = 0;
    while i < facts.len()
        invariant
            i <= facts@.len(),
            state.knows(facts@, i as int),
        decreases facts@.len() - i,
    {
        meet_file(&mut state, facts, i)?;
        i = i + 1;
    }
    separate_directories(&state, facts)?;
    Ok(state.canonical)
}

} // verus!
