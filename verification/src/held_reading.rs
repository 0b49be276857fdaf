//! Reading one file below a held root, and finding the root itself.

use crate::errors::{io_error, io_failure, IoErrorKind, RepositoryImportError, RepositoryIoOperation};
use crate::identity::{FilesystemDirectoryIdentity, FilesystemFileIdentity};
use crate::namespace::{FileSighting, PathPart};
use crate::wiped::WipedBytes;
use vstd::prelude::*;
use vstd::string::*;

verus! {

/// What opening one component gave.
#[derive(Clone, Copy, Debug, PartialEq, Eq, Structural)]
pub enum OpenedKind {
    /// It could not be opened, or is neither a directory nor a regular file.
    Refused,
    Directory,
    File,
}

/// A body with the identity of the file that it was read from.
pub struct HeldFile {
    pub bytes: WipedBytes,
    pub identity: FilesystemFileIdentity,
}

/// Everything that was seen while a file below a root was read.
pub struct RelativeReading {
    /// The root could be opened.
    pub root_opened: bool,
    /// What opening the components one after another gave.
    pub opened: Vec<OpenedKind>,
    pub before: FileSighting,
    /// The bytes that came, at most as many as the length before.
    pub body: WipedBytes,
    /// Another byte came, or the attempt to read one failed.
    pub more: bool,
    pub after: FileSighting,
    /// Every directory on the way is still the one at its path.
    pub directories_hold: bool,
}

/// The components lead from directory to directory to one file.
pub open spec fn leads_to_file(parts: Seq<PathPart>, opened: Seq<OpenedKind>) -> bool {
    &&& parts.len() > 0
    &&& opened.len() == parts.len()
    &&& forall|i: int| 0 <= i < parts.len() ==> #[trigger] parts[i] is Normal
    &&& forall|i: int| 0 <= i < opened.len() - 1 ==> #[trigger] opened[i] == OpenedKind::Directory
    &&& opened.last() == OpenedKind::File
}

/// Whether the components lead from directory to directory to one file.
fn is_leading_to_file(parts: &[PathPart<'_>], opened: &Vec<OpenedKind>) -> (r: bool)
    ensures
        r == leads_to_file(parts@, opened@),
{
    if parts.len() == 0 || opened.len() != parts.len() {
        return false;
    }
    let mut i: usize = 0;
    while i < parts.len()
        invariant
            parts@.len() > 0,
            opened@.len() == parts@.len(),
            i <= parts@.len(),
            forall|k: int| 0 <= k < i ==> #[trigger] parts@[k] is Normal,
            forall|k: int| 0 <= k < i && k < opened@.len() - 1 ==> #[trigger] opened@[k] == OpenedKind::Directory,
            i == parts@.len() ==> opened@.last() == OpenedKind::File,
        decreases parts@.len() - i,
    {
        match parts[i] {
            PathPart::Normal(_) => {},
            PathPart::Other => {
                assert(!(parts@[i as int] is Normal));
                return false;
            },
        }
        if i + 1 < parts.len() {
            if opened[i] != OpenedKind::Directory {
                assert(opened@[i as int] != OpenedKind::Directory);
                return false;
            }
        } else if opened[i] != OpenedKind::File {
            return false;
        }
        i = i + 1;
    }
    true
}

/// Why a reading is refused, if it is.
pub open spec fn relative_reading_error(
    parts: Seq<PathPart>,
    reading: RelativeReading,
    maximum: u64,
    unsafe_error: RepositoryImportError,
    limit_error: RepositoryImportError,
) -> Option<RepositoryImportError> {
    if !reading.root_opened || !leads_to_file(parts, reading.opened@) || reading.before.length is None {
        Some(unsafe_error)
    } else if reading.before.length->0 > maximum {
        Some(limit_error)
    } else if !reading.before.binding_holds || reading.before.identity is None || reading.body@.len()
        != reading.before.length->0 || reading.more || !reading.after.binding_holds || !(reading.after.identity matches Some(
        identity,
    ) && identity.same(reading.before.identity->0)) || !reading.directories_hold {
        Some(unsafe_error)
    } else {
        None
    }
}

/// Judge the reading of a file below a root.
pub fn read_secure_relative_file_with_limit_error(
    parts: &[PathPart<'_>],
    reading: RelativeReading,
    maximum: u64,
    unsafe_error: RepositoryImportError,
    limit_error: RepositoryImportError,
) -> (r: Result<HeldFile, RepositoryImportError>)
    ensures
        match relative_reading_error(parts@, reading, maximum, unsafe_error, limit_error) {
            Some(error) => r matches Err(e) && e == error,
            None => r matches Ok(held) && held.bytes@ == reading.body@ && Some(held.identity) == reading.before.identity,
        },
{
    if !reading.root_opened || !is_leading_to_file(parts, &reading.opened) {
        return Err(unsafe_error);
    }
    let length = match reading.before.length {
        Some(length) => length,
        None => {
            return Err(unsafe_error);
        },
    };
    if length > maximum {
        return Err(limit_error);
    }
    let identity = match reading.before.identity {
        Some(identity) => identity,
        None => {
            return Err(unsafe_error);
        },
    };
    let same = match reading.after.identity {
        Some(after) => after.matches(&identity),
        None => false,
    };
    if !reading.before.binding_holds || reading.body.len() as u64 != length || reading.more || !reading.after.binding_holds
        || !same || !reading.directories_hold {
        return Err(unsafe_error);
    }
    Ok(HeldFile { bytes: reading.body, identity })
}

/// Judge the reading of a file below a root, with one failure for everything.
pub fn read_secure_relative_file(
    parts: &[PathPart<'_>],
    reading: RelativeReading,
    maximum: u64,
    unsafe_error: RepositoryImportError,
) -> (r: Result<HeldFile, RepositoryImportError>)
    ensures
        match relative_reading_error(parts@, reading, maximum, unsafe_error, unsafe_error) {
            Some(error) => r matches Err(e) && e == error,
            None => r matches Ok(held) && held.bytes@ == reading.body@ && Some(held.identity) == reading.before.identity,
        },
{
    read_secure_relative_file_with_limit_error(parts, reading, maximum, unsafe_error, unsafe_error)
}

/// Everything that was seen while a directory below a root was opened.
pub struct DirectoryReading {
    pub root_opened: bool,
    pub opened: Vec<OpenedKind>,
    /// The identity of the last directory, if it could be opened.
    pub identity: Option<FilesystemDirectoryIdentity>,
    /// Every directory on the way is still the one at its path.
    pub directories_hold: bool,
}

/// The components lead from directory to directory.
pub open spec fn leads_to_directory(parts: Seq<PathPart>, opened: Seq<OpenedKind>) -> bool {
    &&& opened.len() == parts.len()
    &&& forall|i: int|
        0 <= i < parts.len() ==> #[trigger] parts[i] is Normal && opened[i] == OpenedKind::Directory
}

/// The identity of a directory below a root.
pub fn secure_relative_directory_identity(
    parts: &[PathPart<'_>],
    reading: &DirectoryReading,
    unsafe_error: RepositoryImportError,
) -> (r: Result<FilesystemDirectoryIdentity, RepositoryImportError>)
    ensures
        if reading.root_opened && leads_to_directory(parts@, reading.opened@) && reading.identity is Some
            && reading.directories_hold {
            r == Ok::<FilesystemDirectoryIdentity, RepositoryImportError>(reading.identity->0)
        } else {
            r == Err::<FilesystemDirectoryIdentity, RepositoryImportError>(unsafe_error)
        },
{
    if !reading.root_opened || reading.opened.len() != parts.len() {
        return Err(unsafe_error);
    }
    let mut i: usize = 0;
    while i < parts.len()
        invariant
            reading.opened@.len() == parts@.len(),
            i <= parts@.len(),
            forall|k: int|
                0 <= k < i ==> #[trigger] parts@[k] is Normal && reading.opened@[k] == OpenedKind::Directory,
        decreases parts@.len() - i,
    {
        let normal = match parts[i] {
            PathPart::Normal(_) => true,
            PathPart::Other => false,
        };
        if !normal || reading.opened[i] != OpenedKind::Directory {
            assert(!(parts@[i as int] is Normal && reading.opened@[i as int] == OpenedKind::Directory));
            return Err(unsafe_error);
        }
        i = i + 1;
    }
    match reading.identity {
        Some(identity) => if reading.directories_hold {
            Ok(identity)
        } else {
            Err(unsafe_error)
        },
        None => Err(unsafe_error),
    }
}

/// One component of an absolute path.
#[derive(Clone, Copy)]
pub enum LexicalPart<'a> {
    Root,
    Current,
    Parent,
    Name(&'a str),
}

/// A path without `.` and `..`.
pub struct LexicalPath<'a> {
    pub rooted: bool,
    pub names: Vec<&'a str>,
}

/// The names of the first `n` components after every `..` has taken one away; nothing if a `..`
/// found none to take.
pub open spec fn lexical_names<'a>(parts: Seq<LexicalPart<'a>>, n: int) -> Option<Seq<&'a str>>
    decreases n,
{
    if n <= 0 {
        Some(Seq::empty())
    } else {
        match lexical_names(parts, n - 1) {
            None => None,
            Some(names) => match parts[n - 1] {
                LexicalPart::Root => Some(Seq::empty()),
                LexicalPart::Current => Some(names),
                LexicalPart::Parent => if names.len() == 0 {
                    None
                } else {
                    Some(names.drop_last())
                },
                LexicalPart::Name(name) => Some(names.push(name)),
            },
        }
    }
}

/// One of the first `n` components is the root.
pub open spec fn rooted_before(parts: Seq<LexicalPart>, n: int) -> bool {
    exists|i: int| 0 <= i < n && (#[trigger] parts[i]) is Root
}

/// Resolve `.` and `..` in an absolute path by its text alone.
pub fn lexical_absolute_path<'a>(parts: &[LexicalPart<'a>], unsafe_error: RepositoryImportError) -> (r: Result<
    LexicalPath<'a>,
    RepositoryImportError,
>)
    ensures
        if lexical_names(parts@, parts@.len() as int) is None || !rooted_before(parts@, parts@.len() as int) {
            r matches Err(error) && error == unsafe_error
        } else {
            r matches Ok(path) && path.rooted && Some(path.names@) == lexical_names(parts@, parts@.len() as int)
        },
{
    let mut rooted = false;
    let mut names: Vec<&'a str> = Vec::new();
    let mut i: usize = 0;
    while i < parts.len()
        invariant
            i <= parts@.len(),
            rooted == rooted_before(parts@, i as int),
            lexical_names(parts@, i as int) == Some(names@),
        decreases parts@.len() - i,
    {
        let ghost before = names@;
        let part = parts[i];
        match part {
            LexicalPart::Root => {
                names = Vec::new();
                assert(names@ =~= Seq::<&'a str>::empty());
            },
            LexicalPart::Current => {},
            LexicalPart::Parent => {
                if names.len() == 0 {
                    proof {
                        names_stay_lost(parts@, i + 1, parts@.len() as int);
                    }
                    return Err(unsafe_error);
                }
                names.pop();
                assert(names@ =~= before.drop_last());
            },
            LexicalPart::Name(name) => {
                names.push(name);
            },
        }
        proof {
            if rooted {
                let k = choose|k: int| 0 <= k < i && (#[trigger] parts@[k]) is Root;
                assert(parts@[k] is Root);
            }
            if parts@[i as int] is Root {
                assert(rooted_before(parts@, i + 1));
            }
        }
        if let LexicalPart::Root = part {
            rooted = true;
        }
        i = i + 1;
    }
    if rooted {
        Ok(LexicalPath { rooted, names })
    } else {
        Err(unsafe_error)
    }
}

/// Once a `..` found nothing to take, there is no path.
proof fn names_stay_lost(parts: Seq<LexicalPart>, m: int, n: int)
    requires
        m <= n,
        lexical_names(parts, m) is None,
    ensures
        lexical_names(parts, n) is None,
    decreases n - m,
{
    if m < n {
        names_stay_lost(parts, m, n - 1);
    }
}

/// What stands at a place.
#[derive(Clone, Copy, Debug, PartialEq, Eq, Structural)]
pub enum PlaceKind {
    /// Nothing could be read of it.
    Unreadable,
    /// A directory, and no link to one.
    Directory,
    /// Something else.
    Other,
}

/// Every place is a directory.
pub open spec fn all_directories(places: Seq<PlaceKind>) -> bool {
    forall|i: int| 0 <= i < places.len() ==> #[trigger] places[i] == PlaceKind::Directory
}

/// Require every ancestor of a path to be a directory, from the root on.
pub fn validate_directory_ancestor_chain(places: &[PlaceKind], unsafe_error: RepositoryImportError) -> (r: Result<
    (),
    RepositoryImportError,
>)
    ensures
        r == if all_directories(places@) {
            Ok::<(), RepositoryImportError>(())
        } else {
            Err(unsafe_error)
        },
{
    let mut i: usize = 0;
    while i < places.len()
        invariant
            i <= places@.len(),
            forall|k: int| 0 <= k < i ==> #[trigger] places@[k] == PlaceKind::Directory,
        decreases places@.len() - i,
    {
        if places[i] != PlaceKind::Directory {
            assert(places@[i as int] != PlaceKind::Directory);
            return Err(unsafe_error);
        }
        i = i + 1;
    }
    Ok(())
}

/// Judge a directory that is to be a root: its ancestors and itself are directories, it has a
/// canonical form, and that is a directory too.
pub fn canonical_normal_directory(
    ancestors: &[PlaceKind],
    place: PlaceKind,
    canonical: Result<PlaceKind, IoErrorKind>,
    unsafe_error: RepositoryImportError,
) -> (r: Result<(), RepositoryImportError>)
    ensures
        r == if !all_directories(ancestors@) || place != PlaceKind::Directory {
            Err::<(), RepositoryImportError>(unsafe_error)
        } else {
            match canonical {
                Err(kind) => Err(RepositoryImportError::Io { operation: RepositoryIoOperation::InspectRoot, kind }),
                Ok(resolved) => if resolved == PlaceKind::Directory {
                    Ok(())
                } else {
                    Err(unsafe_error)
                },
            }
        },
{
    validate_directory_ancestor_chain(ancestors, unsafe_error)?;
    if place != PlaceKind::Directory {
        return Err(unsafe_error);
    }
    match canonical {
        Err(kind) => Err(io_error(RepositoryIoOperation::InspectRoot, kind)),
        Ok(resolved) => {
            if resolved != PlaceKind::Directory {
                return Err(unsafe_error);
            }
            Ok(())
        },
    }
}

/// What was seen of a regular file while it was read under its path, in the order in which it was
/// seen. What could not be seen is missing.
pub struct BoundReading {
    /// The length of the regular file at the path; a link or anything else has none.
    pub length: Option<u64>,
    pub opened: Result<(), IoErrorKind>,
    /// The file that was opened is the one at the path, under one name.
    pub sole_before: bool,
    /// It has no other stream.
    pub sole_stream: bool,
    pub identity: Option<FilesystemFileIdentity>,
    pub bytes: Result<WipedBytes, IoErrorKind>,
    pub sole_after: bool,
    pub identity_after: Option<FilesystemFileIdentity>,
}

/// Why a file that was read under its path is refused, if it is.
pub open spec fn bound_reading_error(
    reading: BoundReading,
    maximum: usize,
    unsafe_error: RepositoryImportError,
) -> Option<RepositoryImportError> {
    if !(reading.length matches Some(length) && length <= maximum) {
        Some(unsafe_error)
    } else if reading.opened is Err {
        Some(io_failure(RepositoryIoOperation::ReadFile, reading.opened->Err_0))
    } else if !reading.sole_before || !reading.sole_stream || reading.identity is None {
        Some(unsafe_error)
    } else if reading.bytes is Err {
        Some(io_failure(RepositoryIoOperation::ReadFile, reading.bytes->Err_0))
    } else if reading.bytes->Ok_0@.len() != reading.length->0 || !reading.sole_after || !(
    reading.identity_after matches Some(identity) && identity.same(reading.identity->0)) {
        Some(unsafe_error)
    } else {
        None
    }
}

/// Judge a regular file that was read under its path.
pub fn read_bound_regular_file(reading: BoundReading, maximum: usize, unsafe_error: RepositoryImportError) -> (r: Result<
    HeldFile,
    RepositoryImportError,
>)
    ensures
        match bound_reading_error(reading, maximum, unsafe_error) {
            Some(error) => r matches Err(e) && e == error,
            None => r matches Ok(held) && held.bytes == reading.bytes->Ok_0 && held.identity == reading.identity->0,
        },
{
    let length: u64 = match reading.length {
        Some(length) => length,
        None => {
            return Err(unsafe_error);
        },
    };
    if length > maximum as u64 {
        return Err(unsafe_error);
    }
    match reading.opened {
        Ok(()) => {},
        Err(kind) => {
            return Err(io_error(RepositoryIoOperation::ReadFile, kind));
        },
    }
    if !reading.sole_before || !reading.sole_stream {
        return Err(unsafe_error);
    }
    let identity = match reading.identity {
        Some(identity) => identity,
        None => {
            return Err(unsafe_error);
        },
    };
    let bytes = match reading.bytes {
        Ok(bytes) => bytes,
        Err(kind) => {
            return Err(io_error(RepositoryIoOperation::ReadFile, kind));
        },
    };
    let same = match reading.identity_after {
        Some(after) => after.matches(&identity),
        None => false,
    };
    if bytes.len() > maximum || bytes.len() as u64 != length || !reading.sole_after || !same {
        return Err(unsafe_error);
    }
    Ok(HeldFile { bytes, identity })
}

} // verus!
