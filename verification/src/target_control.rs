//! The Git control directory and the private directory of a target.

use crate::bytes::{bytes_equal, has_prefix, starts_with};
use crate::digest::{sha256_digest, sha256_of};
use crate::errors::{map_target_raw_index_error, target_index_failure, RawIndexError, RepositoryImportError};
use crate::git_control::{loose_digits, prefix_lengths, OBJECTS_PREFIX};
use crate::git_output::{require_sha1_oid, sha1_text};
use crate::held_reading::HeldFile;
use crate::hex::{hex_bytes, lower_hex_byte};
use crate::identity::FilesystemFileIdentity;
use crate::manifest::{NamespaceKind, NamespaceSeal, VAULT_MUTATION_LOCK_FILE};
use crate::portable_path::SLASH;
use crate::seal::{loose_object_path, structural_directory, validate_loose_object_path};
use crate::source_checks::same_keys;
use crate::source_snapshot::{namespaces_same, same_seal, seal_same};
use crate::target_objects::{ObjectDescriptor, TargetObjectExpectation, TargetTrackedEntry};
use crate::text::{encoding_is_injective, encoding_of_concat, text_after, text_before, text_equal};
use crate::text_map::{entry_in_view, key_index, same_keys_in_order, TextEntry, TextMap};
use crate::tree_body::decode_sha1_oid;
use vstd::prelude::*;
use vstd::string::*;
use vstd::utf8::{encode_utf8, is_ascii_chars_encode_utf8};

verus! {

/// The directory that stands for the hooks of a target and stays empty.
pub const TARGET_EMPTY_HOOKS_DIRECTORY: &'static str = "inex-empty-hooks";

/// A file below the directory of the objects.
pub open spec fn names_object(seal: NamespaceSeal) -> bool {
    seal.kind is File && has_prefix(encode_utf8(seal.relative_path@), encode_utf8(OBJECTS_PREFIX@))
}

/// The file at `i` is the loose object `oid`.
pub open spec fn loose_at(seals: Seq<NamespaceSeal>, oid: Seq<char>, i: int) -> bool {
    0 <= i < seals.len() && names_object(seals[i]) && encode_utf8(oid) == loose_digits(encode_utf8(seals[i].relative_path@))
}

/// Two files are the same loose object.
pub open spec fn loose_repeats(seals: Seq<NamespaceSeal>, i: int, j: int) -> bool {
    0 <= i < j < seals.len() && names_object(seals[i]) && names_object(seals[j]) && loose_digits(
        encode_utf8(seals[i].relative_path@),
    ) == loose_digits(encode_utf8(seals[j].relative_path@))
}

/// Every file below the directory of the objects is a loose object, and none is there twice.
pub open spec fn objects_are_loose(seals: Seq<NamespaceSeal>) -> bool {
    &&& forall|i: int|
        0 <= i < seals.len() && names_object(#[trigger] seals[i]) ==> loose_object_path(
            encode_utf8(seals[i].relative_path@),
            false,
        )
    &&& forall|i: int, j: int| !#[trigger] loose_repeats(seals, i, j)
}

/// The digits in the path of a loose object, as text.
fn loose_oid_text(path: &str) -> (oid: String)
    requires
        loose_object_path(path.spec_bytes(), false),
    ensures
        encode_utf8(oid@) == loose_digits(path.spec_bytes()),
{
    proof {
        prefix_lengths();
        reveal_strlit("/");
        is_ascii_chars_encode_utf8("/"@);
        assert(encode_utf8("/"@) =~= seq![SLASH]);
        assert(lower_hex_byte(path.spec_bytes().subrange(8, 10)[0]));
        assert(lower_hex_byte(path.spec_bytes().subrange(11, 49)[0]));
    }
    let rest = text_after(path, 8);
    let fan = text_before(rest, 2);
    let below = text_after(path, 11);
    let mut oid = fan.to_owned();
    oid.append(below);
    proof {
        encoding_of_concat(fan@, below@);
        assert(encode_utf8(oid@) =~= loose_digits(path.spec_bytes()));
    }
    oid
}

/// The ids of the loose objects in a control directory.
pub fn exact_loose_target_object_ids(git_control: &Vec<NamespaceSeal>) -> (r: Result<TextMap<()>, RepositoryImportError>)
    ensures
        r is Ok <==> objects_are_loose(git_control@),
        r matches Ok(objects) ==> objects.wf() && forall|oid: Seq<char>| #[trigger]
            objects@.dom().contains(oid) <==> exists|i: int| #[trigger] loose_at(git_control@, oid, i),
        r matches Err(error) ==> error == RepositoryImportError::TargetAuditFailed,
{
    let ghost seals = git_control@;
    let mut objects: TextMap<()> = TextMap::new();
    let mut i: usize = 0;
    while i < git_control.len()
        invariant
            seals == git_control@,
            i <= seals.len(),
            objects.wf(),
            forall|k: int|
                0 <= k < i && names_object(#[trigger] seals[k]) ==> loose_object_path(encode_utf8(seals[k].relative_path@), false),
            forall|a: int, b: int| b < i ==> !#[trigger] loose_repeats(seals, a, b),
            forall|oid: Seq<char>| #[trigger]
                objects@.dom().contains(oid) <==> exists|k: int| k < i && #[trigger] loose_at(seals, oid, k),
        decreases seals.len() - i,
    {
        let file = match git_control[i].kind {
            NamespaceKind::File(_) => true,
            NamespaceKind::Directory(_) => false,
        };
        let path = git_control[i].relative_path.as_str();
        if file && starts_with(path.as_bytes(), OBJECTS_PREFIX.as_bytes()) {
            assert(names_object(seals[i as int]));
            if !validate_loose_object_path(path, false) {
                return Err(RepositoryImportError::TargetAuditFailed);
            }
            let oid = loose_oid_text(path);
            let ghost text = oid@;
            let ghost before = objects@;
            assert(loose_at(seals, text, i as int));
            if !objects.insert_new(oid, ()) {
                proof {
                    let k = choose|k: int| k < i && #[trigger] loose_at(seals, text, k);
                    assert(loose_repeats(seals, k, i as int));
                }
                return Err(RepositoryImportError::TargetAuditFailed);
            }
            proof {
                assert forall|a: int, b: int| b < i + 1 implies !#[trigger] loose_repeats(seals, a, b) by {
                    if loose_repeats(seals, a, b) && b == i {
                        assert(loose_at(seals, text, a));
                    }
                }
                assert forall|id: Seq<char>| #[trigger]
                    objects@.dom().contains(id) <==> exists|k: int| k < i + 1 && #[trigger] loose_at(seals, id, k) by {
                    if before.dom().contains(id) {
                        let k = choose|k: int| k < i && #[trigger] loose_at(seals, id, k);
                        assert(loose_at(seals, id, k));
                    }
                    if exists|k: int| k < i + 1 && #[trigger] loose_at(seals, id, k) {
                        let k = choose|k: int| k < i + 1 && #[trigger] loose_at(seals, id, k);
                        if k == i {
                            encoding_is_injective(id, text);
                        }
                    }
                }
            }
        } else {
            proof {
                assert(!names_object(seals[i as int]));
                assert forall|a: int, b: int| b < i + 1 implies !#[trigger] loose_repeats(seals, a, b) by {}
                assert forall|id: Seq<char>| #[trigger]
                    objects@.dom().contains(id) <==> exists|k: int| k < i + 1 && #[trigger] loose_at(seals, id, k) by {
                    if exists|k: int| k < i + 1 && #[trigger] loose_at(seals, id, k) {
                        let k = choose|k: int| k < i + 1 && #[trigger] loose_at(seals, id, k);
                        assert(k < i);
                    }
                }
            }
        }
        i = i + 1;
    }
    proof {
        assert forall|oid: Seq<char>| #[trigger]
            objects@.dom().contains(oid) <==> exists|k: int| #[trigger] loose_at(seals, oid, k) by {
            if exists|k: int| #[trigger] loose_at(seals, oid, k) {
                let k = choose|k: int| #[trigger] loose_at(seals, oid, k);
                assert(k < seals.len());
            }
        }
    }
    Ok(objects)
}

/// The loose objects of a control directory are exactly those that are expected.
pub open spec fn loose_as_expected(seals: Seq<NamespaceSeal>, expected: Set<Seq<char>>) -> bool {
    objects_are_loose(seals) && forall|oid: Seq<char>| #[trigger]
        expected.contains(oid) <==> exists|i: int| #[trigger] loose_at(seals, oid, i)
}

/// Require the loose objects of a control directory to be exactly those that are expected.
pub fn require_exact_loose_target_objects(
    git_control: &Vec<NamespaceSeal>,
    expected: &TextMap<TargetObjectExpectation>,
) -> (r: Result<(), RepositoryImportError>)
    requires
        expected.wf(),
    ensures
        r == if loose_as_expected(git_control@, expected@.dom()) {
            Ok::<(), RepositoryImportError>(())
        } else {
            Err(RepositoryImportError::TargetAuditFailed)
        },
{
    let observed = exact_loose_target_object_ids(git_control)?;
    let same = same_keys(&observed, expected);
    proof {
        if !same {
            if forall|oid: Seq<char>| #[trigger]
                expected@.dom().contains(oid) <==> exists|i: int| #[trigger] loose_at(git_control@, oid, i) {
                assert(observed@.dom() =~= expected@.dom());
            }
        }
    }
    if same {
        Ok(())
    } else {
        Err(RepositoryImportError::TargetAuditFailed)
    }
}

/// The directory of the loose objects that begin as `oid` does.
pub open spec fn fanout_of(oid: Seq<u8>) -> Seq<u8> {
    encode_utf8(OBJECTS_PREFIX@) + oid.subrange(0, 2)
}

/// The file of the loose object `oid`.
pub open spec fn loose_file_of(oid: Seq<u8>) -> Seq<u8> {
    fanout_of(oid) + seq![SLASH] + oid.subrange(2, oid.len() as int)
}

/// Some object has its directory at `path`.
pub open spec fn fans_out_to(oids: Set<Seq<char>>, path: Seq<char>) -> bool {
    exists|oid: Seq<char>| #[trigger] oids.contains(oid) && encode_utf8(path) == fanout_of(encode_utf8(oid))
}

/// Some object has its file at `path`.
pub open spec fn lies_loose_at(oids: Set<Seq<char>>, path: Seq<char>) -> bool {
    exists|oid: Seq<char>| #[trigger] oids.contains(oid) && encode_utf8(path) == loose_file_of(encode_utf8(oid))
}

/// The control directory of a target has this directory.
pub open spec fn expected_control_directory(oids: Set<Seq<char>>, path: Seq<char>) -> bool {
    structural_directory(path) || path == TARGET_EMPTY_HOOKS_DIRECTORY@ || fans_out_to(oids, path)
}

/// The control directory of a target has this file.
pub open spec fn expected_control_file(oids: Set<Seq<char>>, path: Seq<char>) -> bool {
    path == "HEAD"@ || path == "config"@ || path == "index"@ || path == "refs/heads/main"@ || lies_loose_at(oids, path)
}

/// A directory of the inventory is at `path`.
pub open spec fn directory_listed(seals: Seq<NamespaceSeal>, path: Seq<char>, n: int) -> bool {
    exists|i: int| 0 <= i < n && (#[trigger] seals[i]).kind is Directory && seals[i].relative_path@ == path
}

/// A file of the inventory is at `path`.
pub open spec fn file_listed(seals: Seq<NamespaceSeal>, path: Seq<char>, n: int) -> bool {
    exists|i: int| 0 <= i < n && (#[trigger] seals[i]).kind is File && seals[i].relative_path@ == path
}

/// The control directory of a target holds what it must, and nothing else.
pub open spec fn control_as_expected(seals: Seq<NamespaceSeal>, oids: Set<Seq<char>>) -> bool {
    &&& forall|oid: Seq<char>| #[trigger] oids.contains(oid) ==> sha1_text(encode_utf8(oid))
    &&& forall|path: Seq<char>|
        #[trigger] directory_listed(seals, path, seals.len() as int) == expected_control_directory(oids, path)
    &&& forall|path: Seq<char>| #[trigger] file_listed(seals, path, seals.len() as int) == expected_control_file(oids, path)
}

/// Note a text.
fn note(set: &mut TextMap<()>, text: &str)
    requires
        old(set).wf(),
    ensures
        final(set).wf(),
        final(set)@.dom() == old(set)@.dom().insert(text@),
{
    let ghost before = set@;
    let inserted = set.insert_new(text.to_owned(), ());
    proof {
        if inserted {
            assert(set@.dom() =~= before.dom().insert(text@));
        } else {
            assert(before.dom().insert(text@) =~= before.dom());
        }
    }
}

/// The paths of the directories or of the files of an inventory.
fn listed_paths(control: &Vec<NamespaceSeal>, directories: bool) -> (paths: TextMap<()>)
    ensures
        paths.wf(),
        forall|path: Seq<char>| #[trigger]
            paths@.dom().contains(path) == if directories {
                directory_listed(control@, path, control@.len() as int)
            } else {
                file_listed(control@, path, control@.len() as int)
            },
{
    let ghost seals = control@;
    let mut paths: TextMap<()> = TextMap::new();
    let mut i: usize = 0;
    while i < control.len()
        invariant
            seals == control@,
            i <= seals.len(),
            paths.wf(),
            forall|path: Seq<char>| #[trigger]
                paths@.dom().contains(path) == if directories {
                    directory_listed(seals, path, i as int)
                } else {
                    file_listed(seals, path, i as int)
                },
        decreases seals.len() - i,
    {
        let ghost before = paths@;
        let directory = match control[i].kind {
            NamespaceKind::Directory(_) => true,
            NamespaceKind::File(_) => false,
        };
        if directory == directories {
            note(&mut paths, control[i].relative_path.as_str());
        }
        proof {
            assert forall|path: Seq<char>| #[trigger]
                paths@.dom().contains(path) == if directories {
                    directory_listed(seals, path, i + 1)
                } else {
                    file_listed(seals, path, i + 1)
                } by {
                listed_step(seals, path, i as int);
                assert(before.dom().contains(path) == if directories {
                    directory_listed(seals, path, i as int)
                } else {
                    file_listed(seals, path, i as int)
                });
            }
        }
        i = i + 1;
    }
    paths
}

proof fn listed_step(seals: Seq<NamespaceSeal>, path: Seq<char>, n: int)
    requires
        0 <= n < seals.len(),
    ensures
        directory_listed(seals, path, n + 1) == (directory_listed(seals, path, n) || (seals[n].kind is Directory
            && seals[n].relative_path@ == path)),
        file_listed(seals, path, n + 1) == (file_listed(seals, path, n) || (seals[n].kind is File && seals[n].relative_path@
            == path)),
{
    if directory_listed(seals, path, n + 1) {
        let i = choose|i: int| 0 <= i < n + 1 && (#[trigger] seals[i]).kind is Directory && seals[i].relative_path@ == path;
        if i < n {
            assert(directory_listed(seals, path, n));
        }
    }
    if file_listed(seals, path, n + 1) {
        let i = choose|i: int| 0 <= i < n + 1 && (#[trigger] seals[i]).kind is File && seals[i].relative_path@ == path;
        if i < n {
            assert(file_listed(seals, path, n));
        }
    }
    if directory_listed(seals, path, n) {
        let i = choose|i: int| 0 <= i < n && (#[trigger] seals[i]).kind is Directory && seals[i].relative_path@ == path;
        assert(seals[i].relative_path@ == path);
    }
    if file_listed(seals, path, n) {
        let i = choose|i: int| 0 <= i < n && (#[trigger] seals[i]).kind is File && seals[i].relative_path@ == path;
        assert(seals[i].relative_path@ == path);
    }
}

/// The directory and the file of a loose object.
fn loose_places(oid: &str) -> (r: (String, String))
    requires
        sha1_text(oid.spec_bytes()),
    ensures
        encode_utf8(r.0@) == fanout_of(oid.spec_bytes()),
        encode_utf8(r.1@) == loose_file_of(oid.spec_bytes()),
{
    proof {
        assert(lower_hex_byte(oid.spec_bytes()[2]));
        reveal_strlit("/");
        is_ascii_chars_encode_utf8("/"@);
        assert(encode_utf8("/"@) =~= seq![SLASH]);
    }
    let fan = text_before(oid, 2);
    let below = text_after(oid, 2);
    let mut directory = OBJECTS_PREFIX.to_owned();
    directory.append(fan);
    let mut file = directory.clone();
    file.append("/");
    file.append(below);
    proof {
        encoding_of_concat(OBJECTS_PREFIX@, fan@);
        encoding_of_concat(directory@, "/"@);
        encoding_of_concat(directory@ + "/"@, below@);
    }
    (directory, file)
}

/// The keys of a map, up to a place.
spec fn first_keys<V>(entries: Seq<TextEntry<V>>, n: int) -> Set<Seq<char>> {
    Set::new(|key: Seq<char>| exists|i: int| 0 <= i < n && (#[trigger] entries[i]).key@ == key)
}

/// One key more.
proof fn first_keys_step<V>(entries: Seq<TextEntry<V>>, n: int)
    requires
        0 <= n < entries.len(),
    ensures
        first_keys(entries, n + 1) == first_keys(entries, n).insert(entries[n].key@),
{
    assert forall|key: Seq<char>| #[trigger] first_keys(entries, n + 1).contains(key) == first_keys(entries, n).insert(
        entries[n].key@,
    ).contains(key) by {
        if first_keys(entries, n + 1).contains(key) {
            let i = choose|i: int| 0 <= i < n + 1 && (#[trigger] entries[i]).key@ == key;
            if i < n {
                assert(first_keys(entries, n).contains(key));
            }
        }
        if first_keys(entries, n).contains(key) {
            let i = choose|i: int| 0 <= i < n && (#[trigger] entries[i]).key@ == key;
            assert(entries[i].key@ == key);
        }
    }
    assert(first_keys(entries, n + 1) =~= first_keys(entries, n).insert(entries[n].key@));
}

/// The places of one object more.
proof fn places_step(oids: Set<Seq<char>>, oid: Seq<char>, path: Seq<char>)
    ensures
        fans_out_to(oids.insert(oid), path) == (fans_out_to(oids, path) || encode_utf8(path) == fanout_of(encode_utf8(oid))),
        lies_loose_at(oids.insert(oid), path) == (lies_loose_at(oids, path) || encode_utf8(path) == loose_file_of(
            encode_utf8(oid),
        )),
{
    let more = oids.insert(oid);
    if fans_out_to(more, path) {
        let id = choose|id: Seq<char>| #[trigger] more.contains(id) && encode_utf8(path) == fanout_of(encode_utf8(id));
        if id != oid {
            assert(oids.contains(id));
        }
    }
    if fans_out_to(oids, path) {
        let id = choose|id: Seq<char>| #[trigger] oids.contains(id) && encode_utf8(path) == fanout_of(encode_utf8(id));
        assert(more.contains(id));
    }
    if lies_loose_at(more, path) {
        let id = choose|id: Seq<char>| #[trigger] more.contains(id) && encode_utf8(path) == loose_file_of(encode_utf8(id));
        if id != oid {
            assert(oids.contains(id));
        }
    }
    if lies_loose_at(oids, path) {
        let id = choose|id: Seq<char>| #[trigger] oids.contains(id) && encode_utf8(path) == loose_file_of(encode_utf8(id));
        assert(more.contains(id));
    }
    assert(more.contains(oid));
}

/// What the control directory of a target must hold.
fn expected_control<V>(objects: &TextMap<V>) -> (r: Result<(TextMap<()>, TextMap<()>), RepositoryImportError>)
    requires
        objects.wf(),
    ensures
        r is Ok <==> forall|oid: Seq<char>| #[trigger] objects@.dom().contains(oid) ==> sha1_text(encode_utf8(oid)),
        r matches Ok((directories, files)) ==> {
            &&& directories.wf()
            &&& files.wf()
            &&& forall|path: Seq<char>| #[trigger]
                directories@.dom().contains(path) == expected_control_directory(objects@.dom(), path)
            &&& forall|path: Seq<char>| #[trigger]
                files@.dom().contains(path) == expected_control_file(objects@.dom(), path)
        },
        r matches Err(error) ==> error == RepositoryImportError::TargetAuditFailed,
{
    let mut directories: TextMap<()> = TextMap::new();
    note(&mut directories, "objects");
    note(&mut directories, "objects/info");
    note(&mut directories, "objects/pack");
    note(&mut directories, TARGET_EMPTY_HOOKS_DIRECTORY);
    note(&mut directories, "refs");
    note(&mut directories, "refs/heads");
    note(&mut directories, "refs/tags");
    let mut files: TextMap<()> = TextMap::new();
    note(&mut files, "HEAD");
    note(&mut files, "config");
    note(&mut files, "index");
    note(&mut files, "refs/heads/main");
    let ghost entries = objects.entries@;
    let mut i: usize = 0;
    proof {
        assert(first_keys(entries, 0) =~= Set::<Seq<char>>::empty());
    }
    while i < objects.entries.len()
        invariant
            objects.wf(),
            entries == objects.entries@,
            i <= entries.len(),
            directories.wf(),
            files.wf(),
            forall|k: int| 0 <= k < i ==> sha1_text(encode_utf8((#[trigger] entries[k]).key@)),
            forall|path: Seq<char>| #[trigger]
                directories@.dom().contains(path) == expected_control_directory(first_keys(entries, i as int), path),
            forall|path: Seq<char>| #[trigger]
                files@.dom().contains(path) == expected_control_file(first_keys(entries, i as int), path),
        decreases entries.len() - i,
    {
        let oid = objects.entries[i].key.as_str();
        if require_sha1_oid(oid).is_err() {
            proof {
                entry_in_view(*objects, i as int);
                assert(objects@.dom().contains(entries[i as int].key@));
            }
            return Err(RepositoryImportError::TargetAuditFailed);
        }
        let (directory, file) = loose_places(oid);
        let ghost before_directories = directories@;
        let ghost before_files = files@;
        note(&mut directories, directory.as_str());
        note(&mut files, file.as_str());
        proof {
            first_keys_step(entries, i as int);
            assert forall|path: Seq<char>| #[trigger]
                directories@.dom().contains(path) == expected_control_directory(first_keys(entries, i + 1), path) by {
                places_step(first_keys(entries, i as int), oid@, path);
                encoding_is_injective(path, directory@);
                assert(before_directories.dom().contains(path) == expected_control_directory(
                    first_keys(entries, i as int),
                    path,
                ));
            }
            assert forall|path: Seq<char>| #[trigger]
                files@.dom().contains(path) == expected_control_file(first_keys(entries, i + 1), path) by {
                places_step(first_keys(entries, i as int), oid@, path);
                encoding_is_injective(path, file@);
                assert(before_files.dom().contains(path) == expected_control_file(first_keys(entries, i as int), path));
            }
        }
        i = i + 1;
    }
    proof {
        assert(first_keys(entries, entries.len() as int) =~= objects@.dom()) by {
            assert forall|key: Seq<char>| #[trigger] first_keys(entries, entries.len() as int).contains(key)
                == objects@.dom().contains(key) by {
                if objects@.dom().contains(key) {
                    let k = key_index(entries, key);
                    assert(entries[k].key@ == key);
                }
            }
        }
        assert forall|oid: Seq<char>| #[trigger] objects@.dom().contains(oid) implies sha1_text(encode_utf8(oid)) by {
            let k = key_index(entries, oid);
            assert(entries[k].key@ == oid);
        }
    }
    Ok((directories, files))
}

/// Require the control directory of a target to hold what it must and nothing else.
pub fn validate_target_git_control(control: &Vec<NamespaceSeal>, objects: &TextMap<ObjectDescriptor>) -> (r: Result<
    (),
    RepositoryImportError,
>)
    requires
        objects.wf(),
    ensures
        r == if control_as_expected(control@, objects@.dom()) {
            Ok::<(), RepositoryImportError>(())
        } else {
            Err(RepositoryImportError::TargetAuditFailed)
        },
{
    let (expected_directories, expected_files) = expected_control(objects)?;
    let directories = listed_paths(control, true);
    let files = listed_paths(control, false);
    let same_directories = same_keys(&directories, &expected_directories);
    let same_files = same_keys(&files, &expected_files);
    proof {
        let seals = control@;
        let oids = objects@.dom();
        if same_directories {
            assert forall|path: Seq<char>|
                #[trigger] directory_listed(seals, path, seals.len() as int) == expected_control_directory(oids, path) by {
                assert(directories@.dom().contains(path) == expected_directories@.dom().contains(path));
            }
        }
        if same_files {
            assert forall|path: Seq<char>| #[trigger] file_listed(seals, path, seals.len() as int) == expected_control_file(
                oids,
                path,
            ) by {
                assert(files@.dom().contains(path) == expected_files@.dom().contains(path));
            }
        }
        if control_as_expected(seals, oids) {
            assert forall|path: Seq<char>| #[trigger] directories@.dom().contains(path)
                == expected_directories@.dom().contains(path) by {
                assert(directory_listed(seals, path, seals.len() as int) == expected_control_directory(oids, path));
            }
            assert(directories@.dom() =~= expected_directories@.dom());
            assert forall|path: Seq<char>| #[trigger] files@.dom().contains(path) == expected_files@.dom().contains(path) by {
                assert(file_listed(seals, path, seals.len() as int) == expected_control_file(oids, path));
            }
            assert(files@.dom() =~= expected_files@.dom());
        }
    }
    if same_directories && same_files {
        Ok(())
    } else {
        Err(RepositoryImportError::TargetAuditFailed)
    }
}

/// What the objects are, by id.
pub open spec fn descriptors_of(
    descriptors: Map<Seq<char>, ObjectDescriptor>,
    objects: Map<Seq<char>, TargetObjectExpectation>,
) -> bool {
    &&& descriptors.dom() == objects.dom()
    &&& forall|oid: Seq<char>| #[trigger]
        objects.dom().contains(oid) ==> descriptors[oid].object_type@ == objects[oid].object_type@ && descriptors[oid].size
            == objects[oid].size
}

/// What the objects are, by id.
pub fn target_object_descriptors(objects: &TextMap<TargetObjectExpectation>) -> (descriptors: TextMap<ObjectDescriptor>)
    requires
        objects.wf(),
    ensures
        descriptors.wf(),
        descriptors_of(descriptors@, objects@),
{
    let ghost expected = objects.entries@;
    let mut entries: Vec<TextEntry<ObjectDescriptor>> = Vec::new();
    let mut i: usize = 0;
    while i < objects.entries.len()
        invariant
            expected == objects.entries@,
            i <= expected.len(),
            entries@.len() == i,
            forall|k: int|
                0 <= k < i ==> (#[trigger] entries@[k]).key@ == expected[k].key@ && entries@[k].value.object_type@
                    == expected[k].value.object_type@ && entries@[k].value.size == expected[k].value.size,
        decreases expected.len() - i,
    {
        let expectation = objects.entries[i].value;
        entries.push(
            TextEntry {
                key: objects.entries[i].key.clone(),
                value: ObjectDescriptor { object_type: expectation.object_type.to_owned(), size: expectation.size },
            },
        );
        i = i + 1;
    }
    let descriptors = TextMap { entries };
    proof {
        same_keys_in_order(descriptors, *objects);
        assert forall|oid: Seq<char>| #[trigger] objects@.dom().contains(oid) implies descriptors@[oid].object_type@
            == objects@[oid].object_type@ && descriptors@[oid].size == objects@[oid].size by {
            let k = key_index(expected, oid);
            entry_in_view(*objects, k);
            entry_in_view(descriptors, k);
        }
    }
    descriptors
}

/// The private directory of a target holds the empty lock and nothing else.
pub open spec fn private_as_expected(seals: Seq<NamespaceSeal>) -> bool {
    &&& seals.len() == 1
    &&& seals[0].relative_path@ == VAULT_MUTATION_LOCK_FILE@
    &&& seals[0].kind is File
    &&& seals[0].size == 0
    &&& seals[0].sha256 matches Some(digest) && digest@ == sha256_of(Seq::<u8>::empty())
}

/// Require the private directory of a target to hold the empty lock and nothing else.
pub fn validate_target_private_control(control: &Vec<NamespaceSeal>) -> (r: Result<(), RepositoryImportError>)
    ensures
        r == if private_as_expected(control@) {
            Ok::<(), RepositoryImportError>(())
        } else {
            Err(RepositoryImportError::TargetAuditFailed)
        },
{
    if control.len() != 1 {
        return Err(RepositoryImportError::TargetAuditFailed);
    }
    let seal = &control[0];
    let file = match seal.kind {
        NamespaceKind::File(_) => true,
        NamespaceKind::Directory(_) => false,
    };
    let empty = match &seal.sha256 {
        Some(digest) => {
            let nothing: [u8; 0] = [];
            assert(nothing@ =~= Seq::<u8>::empty());
            bytes_equal(digest.as_slice(), sha256_digest(nothing.as_slice()).as_slice())
        },
        None => false,
    };
    if file && empty && seal.size == 0 && text_equal(seal.relative_path.as_str(), VAULT_MUTATION_LOCK_FILE) {
        Ok(())
    } else {
        Err(RepositoryImportError::TargetAuditFailed)
    }
}

/// The length of a publication marker, in bytes.
pub const PUBLICATION_MARKER_BYTES: u64 = 16;

/// The first entry of this name is at `i`.
pub open spec fn first_named(seals: Seq<NamespaceSeal>, name: Seq<char>, i: int) -> bool {
    &&& 0 <= i < seals.len()
    &&& seals[i].relative_path@ == name
    &&& forall|k: int| 0 <= k < i ==> (#[trigger] seals[k]).relative_path@ != name
}

/// The marker stands at `i`, and everything else is as in the baseline.
pub open spec fn marked_at(current: Seq<NamespaceSeal>, baseline: Seq<NamespaceSeal>, marker: Seq<char>, i: int) -> bool {
    &&& first_named(current, marker, i)
    &&& current[i].size == PUBLICATION_MARKER_BYTES
    &&& current[i].sha256 is Some
    &&& current[i].kind is File
    &&& namespaces_same(current.remove(i), baseline)
}

/// Require the private directory to be what it was, with a publication marker added.
pub fn require_private_manifest_with_marker(
    current: &Vec<NamespaceSeal>,
    baseline: &Vec<NamespaceSeal>,
    marker_name: &str,
) -> (r: Result<(), RepositoryImportError>)
    ensures
        r is Ok <==> exists|i: int| #[trigger] marked_at(current@, baseline@, marker_name@, i),
        r matches Err(error) ==> error == RepositoryImportError::TargetAuditFailed,
{
    let ghost seals = current@;
    let mut place: usize = 0;
    while place < current.len() && !text_equal(current[place].relative_path.as_str(), marker_name)
        invariant
            seals == current@,
            place <= seals.len(),
            forall|k: int| 0 <= k < place ==> (#[trigger] seals[k]).relative_path@ != marker_name@,
        decreases seals.len() - place,
    {
        place = place + 1;
    }
    assert forall|i: int| #[trigger] marked_at(seals, baseline@, marker_name@, i) implies i == place by {
        assert(seals[i].relative_path@ == marker_name@);
        if place < i {
            assert(seals[place as int].relative_path@ != marker_name@);
        }
    }
    if place == current.len() {
        return Err(RepositoryImportError::TargetAuditFailed);
    }
    let marker = &current[place];
    let file = match marker.kind {
        NamespaceKind::File(_) => true,
        NamespaceKind::Directory(_) => false,
    };
    if marker.size != PUBLICATION_MARKER_BYTES || marker.sha256.is_none() || !file {
        return Err(RepositoryImportError::TargetAuditFailed);
    }
    let ghost rest = seals.remove(place as int);
    if current.len() - 1 != baseline.len() {
        return Err(RepositoryImportError::TargetAuditFailed);
    }
    let mut i: usize = 0;
    while i < baseline.len()
        invariant
            seals == current@,
            place < seals.len(),
            rest == seals.remove(place as int),
            seals.len() == baseline@.len() + 1,
            i <= baseline@.len(),
            forall|k: int| 0 <= k < i ==> seal_same(#[trigger] rest[k], baseline@[k]),
            forall|k: int| #[trigger] marked_at(seals, baseline@, marker_name@, k) ==> k == place,
        decreases baseline@.len() - i,
    {
        let at: usize = if i < place {
            i
        } else {
            i + 1
        };
        assert(rest[i as int] == seals[at as int]);
        if !same_seal(&current[at], &baseline[i]) {
            assert(!seal_same(rest[i as int], baseline@[i as int]));
            return Err(RepositoryImportError::TargetAuditFailed);
        }
        i = i + 1;
    }
    assert(marked_at(seals, baseline@, marker_name@, place as int));
    Ok(())
}

/// What a raw index says, as far as a target needs it.
pub struct TargetRawIndexSummary {
    pub version: u32,
    pub oids: Vec<[u8; 20]>,
}

/// The file that a raw index was read from.
pub struct TargetIndexControlEvidence {
    pub identity: FilesystemFileIdentity,
    pub size: u64,
    pub sha256: [u8; 32],
}

/// A raw index with the file that it was read from.
pub struct TargetRawIndexEvidence {
    pub summary: TargetRawIndexSummary,
    pub control: TargetIndexControlEvidence,
}

/// The evidence of a held index, from what its bytes were read as.
pub fn target_raw_index_evidence_from_held(held: &HeldFile, parsed: Result<TargetRawIndexSummary, RawIndexError>) -> (r:
    Result<TargetRawIndexEvidence, RepositoryImportError>)
    ensures
        match parsed {
            Err(error) => r matches Err(e) && e == target_index_failure(error),
            Ok(summary) => r matches Ok(evidence) && evidence.summary == summary && evidence.control.identity
                == held.identity && evidence.control.size == held.bytes@.len() && evidence.control.sha256@ == sha256_of(
                held.bytes@,
            ),
        },
{
    match parsed {
        Err(error) => Err(map_target_raw_index_error(error)),
        Ok(summary) => Ok(
            TargetRawIndexEvidence {
                summary,
                control: TargetIndexControlEvidence {
                    identity: held.identity,
                    size: held.bytes.len() as u64,
                    sha256: sha256_digest(held.bytes.as_slice()),
                },
            },
        ),
    }
}

/// The index in the control directory is the file that was read, and there is no other.
pub open spec fn index_bound_at(seals: Seq<NamespaceSeal>, evidence: TargetIndexControlEvidence, i: int) -> bool {
    &&& 0 <= i < seals.len()
    &&& seals[i].relative_path@ == "index"@
    &&& forall|k: int| 0 <= k < seals.len() && (#[trigger] seals[k]).relative_path@ == "index"@ ==> k == i
    &&& seals[i].size == evidence.size
    &&& seals[i].sha256 matches Some(digest) && digest@ == evidence.sha256@
    &&& seals[i].kind matches NamespaceKind::File(identity) && identity.same(evidence.identity)
}

/// Require the one index in the control directory to be the file that was read.
pub fn require_target_index_control_binding(evidence: &TargetIndexControlEvidence, git_control: &Vec<NamespaceSeal>) -> (r:
    Result<(), RepositoryImportError>)
    ensures
        r is Ok <==> exists|i: int| #[trigger] index_bound_at(git_control@, *evidence, i),
        r matches Err(error) ==> error == RepositoryImportError::TargetAuditFailed,
{
    let ghost seals = git_control@;
    let mut found: Option<usize> = None;
    let mut i: usize = 0;
    while i < git_control.len()
        invariant
            seals == git_control@,
            i <= seals.len(),
            found matches Some(at) ==> at < i && seals[at as int].relative_path@ == "index"@ && forall|k: int|
                0 <= k < i && (#[trigger] seals[k]).relative_path@ == "index"@ ==> k == at,
            found is None ==> forall|k: int| 0 <= k < i ==> (#[trigger] seals[k]).relative_path@ != "index"@,
        decreases seals.len() - i,
    {
        if text_equal(git_control[i].relative_path.as_str(), "index") {
            if found.is_some() {
                proof {
                    let at = found->0;
                    assert forall|k: int| !#[trigger] index_bound_at(seals, *evidence, k) by {
                        assert(seals[at as int].relative_path@ == seals[i as int].relative_path@);
                    }
                }
                return Err(RepositoryImportError::TargetAuditFailed);
            }
            found = Some(i);
        }
        i = i + 1;
    }
    match found {
        None => Err(RepositoryImportError::TargetAuditFailed),
        Some(at) => {
            let index = &git_control[at];
            let same_file = match index.kind {
                NamespaceKind::File(identity) => identity.matches(&evidence.identity),
                NamespaceKind::Directory(_) => false,
            };
            let same_digest = match &index.sha256 {
                Some(digest) => bytes_equal(digest.as_slice(), evidence.sha256.as_slice()),
                None => false,
            };
            proof {
                assert forall|k: int| #[trigger] index_bound_at(seals, *evidence, k) implies k == at by {}
            }
            if same_file && same_digest && index.size == evidence.size {
                assert(index_bound_at(seals, *evidence, at as int));
                Ok(())
            } else {
                Err(RepositoryImportError::TargetAuditFailed)
            }
        },
    }
}

/// The object ids of a raw index are those of the tracked files, in their order.
pub open spec fn raw_oids_match(oids: Seq<[u8; 20]>, entries: Seq<TargetTrackedEntry>) -> bool {
    &&& oids.len() == entries.len()
    &&& forall|i: int|
        0 <= i < oids.len() ==> sha1_text(encode_utf8((#[trigger] entries[i]).blob_oid@)) && oids[i]@ == hex_bytes(
            encode_utf8(entries[i].blob_oid@),
        )
}

/// Require the object ids of a raw index to be those of the tracked files, in their order.
pub fn require_exact_target_raw_oids(raw_index: &TargetRawIndexSummary, entries: &Vec<TargetTrackedEntry>) -> (r: Result<
    (),
    RepositoryImportError,
>)
    ensures
        r == if raw_oids_match(raw_index.oids@, entries@) {
            Ok::<(), RepositoryImportError>(())
        } else {
            Err(RepositoryImportError::TargetAuditFailed)
        },
{
    if raw_index.oids.len() != entries.len() {
        return Err(RepositoryImportError::TargetAuditFailed);
    }
    let mut i: usize = 0;
    while i < entries.len()
        invariant
            raw_index.oids@.len() == entries@.len(),
            i <= entries@.len(),
            forall|k: int|
                0 <= k < i ==> sha1_text(encode_utf8((#[trigger] entries@[k]).blob_oid@)) && raw_index.oids@[k]@ == hex_bytes(
                    encode_utf8(entries@[k].blob_oid@),
                ),
        decreases entries@.len() - i,
    {
        let expected = match decode_sha1_oid(entries[i].blob_oid.as_str()) {
            Ok(expected) => expected,
            Err(error) => {
                assert(!sha1_text(encode_utf8(entries@[i as int].blob_oid@)));
                return Err(error);
            },
        };
        if !bytes_equal(raw_index.oids[i].as_slice(), expected.as_slice()) {
            assert(raw_index.oids@[i as int]@ != hex_bytes(encode_utf8(entries@[i as int].blob_oid@)));
            return Err(RepositoryImportError::TargetAuditFailed);
        }
        i = i + 1;
    }
    Ok(())
}

} // verus!
