//! Git objects by content: typed object ids, the one root commit, and streamed verification.

use crate::bytes::{bytes_equal, find_byte, has_prefix, has_suffix, next_index, next_index_facts, starts_with, ends_with, to_vec};
use crate::digest::{
    sha1_finalize, sha1_input, sha1_new, sha1_of, sha1_update, sha256_digest, sha256_finalize, sha256_input, sha256_new, sha256_of,
    sha256_update, Sha1Stream, Sha256Stream,
};
use crate::errors::CandidateSealError;
use crate::hex::{
    canonical_i64, decimal_i64, decimal_text, decimal_u64, decode_lower_hex_oid, hex_bytes, is_canonical_i64,
    is_zero_oid, lower_hex_byte, oid_text, signed_text, signed_text_is_canonical, zero_oid, MINUS,
};
use crate::portable_path::verdict;
use crate::seal_records::{HeadRefsRecord, ObjectKind, ObjectRecord, RootCommitRecord};
use crate::wiped::WipedBytes;
use vstd::prelude::*;
use vstd::slice::slice_subrange;
use vstd::string::*;
use vstd::utf8::{encode_utf8, is_ascii_chars_encode_utf8};

verus! {

/// Longest raw object, in bytes.
pub const MAX_RAW_OBJECT_BYTES: u64 = 71_303_168;

/// Longest root commit, in bytes.
pub const MAX_CANONICAL_ROOT_COMMIT_BYTES: usize = 512;

pub const IMPORT_MESSAGE: &'static str = "Initialize encrypted Inex vault\n";

pub const AUTHOR_PREFIX: &'static str = "author Inex Repository Import <inex-import@localhost.invalid> ";

pub const COMMITTER_PREFIX: &'static str = "committer Inex Repository Import <inex-import@localhost.invalid> ";

pub const UTC_SUFFIX: &'static str = " +0000";

pub const TREE_PREFIX: &'static str = "tree ";

pub const NEWLINE: u8 = 0x0a;

/// The name of a kind of object.
pub open spec fn kind_text(kind: ObjectKind) -> Seq<char> {
    match kind {
        ObjectKind::Blob => "blob"@,
        ObjectKind::Tree => "tree"@,
        ObjectKind::Commit => "commit"@,
    }
}

/// The name of a kind of object.
pub fn object_kind_name(kind: ObjectKind) -> (name: &'static str)
    ensures
        name@ == kind_text(kind),
{
    match kind {
        ObjectKind::Blob => "blob",
        ObjectKind::Tree => "tree",
        ObjectKind::Commit => "commit",
    }
}

/// What a typed object id is taken of before the body: kind, size and a zero byte.
pub open spec fn typed_header(kind: ObjectKind, size: u64) -> Seq<u8> {
    encode_utf8(kind_text(kind)) + seq![0x20u8] + decimal_text(size as nat) + seq![0u8]
}

/// The object id of a body.
pub open spec fn typed_oid(kind: ObjectKind, size: u64, body: Seq<u8>) -> Seq<u8> {
    sha1_of(typed_header(kind, size) + body)
}

fn sha1_after_header(kind: ObjectKind, size: u64) -> (stream: Sha1Stream)
    ensures
        sha1_input(stream) == typed_header(kind, size),
{
    let mut stream = sha1_new();
    let space: [u8; 1] = [0x20];
    let zero: [u8; 1] = [0];
    assert(space@ =~= seq![0x20u8]);
    assert(zero@ =~= seq![0u8]);
    sha1_update(&mut stream, object_kind_name(kind).as_bytes());
    sha1_update(&mut stream, space.as_slice());
    let decimal = decimal_u64(size);
    sha1_update(&mut stream, decimal.as_slice());
    sha1_update(&mut stream, zero.as_slice());
    assert(sha1_input(stream) =~= typed_header(kind, size));
    stream
}

/// The object id of a body.
pub fn typed_object_oid(kind: ObjectKind, size: u64, body: &[u8]) -> (oid: [u8; 20])
    ensures
        oid@ == typed_oid(kind, size, body@),
{
    let mut stream = sha1_after_header(kind, size);
    sha1_update(&mut stream, body);
    sha1_finalize(stream)
}

/// The digest of a body.
pub fn raw_sha256(body: &[u8]) -> (digest: [u8; 32])
    ensures
        digest@ == sha256_of(body@),
{
    sha256_digest(body)
}

/// Split off the first line.
pub fn take_line(bytes: &[u8]) -> (r: Result<(&[u8], &[u8]), CandidateSealError>)
    ensures
        r is Ok <==> bytes@.contains(NEWLINE),
        r matches Ok((line, rest)) ==> bytes@ == line@ + seq![NEWLINE] + rest@ && !line@.contains(NEWLINE),
        r matches Err(error) ==> error == CandidateSealError::InvalidRecord,
{
    let newline = find_byte(bytes, NEWLINE, 0);
    if newline == bytes.len() {
        return Err(CandidateSealError::InvalidRecord);
    }
    assert(bytes@[newline as int] == NEWLINE);
    let line = slice_subrange(bytes, 0, newline);
    let rest = slice_subrange(bytes, newline + 1, bytes.len());
    assert(bytes@ =~= line@ + seq![NEWLINE] + rest@);
    Ok((line, rest))
}

/// Read the time stamp of a line with a given beginning, in canonical notation and UTC.
pub fn canonical_timestamp<'a>(line: &'a [u8], prefix: &[u8]) -> (r: Result<&'a [u8], CandidateSealError>)
    ensures
        r matches Ok(stamp) ==> canonical_i64(stamp@) && line@ == prefix@ + stamp@ + encode_utf8(UTC_SUFFIX@),
        r is Ok <==> exists|stamp: Seq<u8>|
            canonical_i64(stamp) && line@ == #[trigger] (prefix@ + stamp) + encode_utf8(UTC_SUFFIX@),
        r matches Err(error) ==> error == CandidateSealError::InvalidRecord,
{
    let suffix = UTC_SUFFIX.as_bytes();
    let ghost utc = encode_utf8(UTC_SUFFIX@);
    proof {
        assert forall|stamp: Seq<u8>| line@ == #[trigger] (prefix@ + stamp) + utc implies has_prefix(line@, prefix@)
            && line@.len() - prefix@.len() >= utc.len() && has_suffix(line@, utc) && stamp == line@.subrange(
            prefix@.len() as int,
            line@.len() - utc.len(),
        ) by {
            assert(line@.subrange(0, prefix@.len() as int) =~= prefix@);
            assert(line@.subrange(line@.len() - utc.len(), line@.len() as int) =~= utc);
            assert(stamp =~= line@.subrange(prefix@.len() as int, line@.len() - utc.len()));
        }
    }
    if !starts_with(line, prefix) || line.len() - prefix.len() < suffix.len() || !ends_with(line, suffix) {
        return Err(CandidateSealError::InvalidRecord);
    }
    let stamp = slice_subrange(line, prefix.len(), line.len() - suffix.len());
    assert(line@ =~= (prefix@ + stamp@) + utc);
    if !is_canonical_i64(stamp) {
        return Err(CandidateSealError::InvalidRecord);
    }
    Ok(stamp)
}

/// The root commit of a tree at a time, both in their canonical notation.
pub open spec fn canonical_commit(tree: Seq<u8>, stamp: Seq<u8>) -> Seq<u8> {
    encode_utf8(TREE_PREFIX@) + tree + seq![NEWLINE] + (encode_utf8(AUTHOR_PREFIX@) + stamp + encode_utf8(UTC_SUFFIX@)) + seq![
        NEWLINE,
    ] + (encode_utf8(COMMITTER_PREFIX@) + stamp + encode_utf8(UTC_SUFFIX@)) + seq![NEWLINE] + seq![NEWLINE] + encode_utf8(
        IMPORT_MESSAGE@,
    )
}

/// `body` is the root commit of `tree` at `stamp`.
pub open spec fn is_root_commit(body: Seq<u8>, tree: Seq<u8>, stamp: Seq<u8>) -> bool {
    oid_text(tree) && canonical_i64(stamp) && body == canonical_commit(tree, stamp)
}

/// Fixed-size evidence parsed from the exact canonical commit.
#[derive(Clone, Copy)]
pub struct FreshRootCommitEvidence {
    pub commit_oid: [u8; 20],
    pub tree_oid: [u8; 20],
    pub raw_size: u64,
    pub raw_sha256: [u8; 32],
}

impl FreshRootCommitEvidence {
    /// The commit's id.
    pub fn commit_oid(&self) -> (oid: [u8; 20])
        ensures
            oid == self.commit_oid,
    {
        self.commit_oid
    }

    /// The id of the commit's tree.
    pub fn tree_oid(&self) -> (oid: [u8; 20])
        ensures
            oid == self.tree_oid,
    {
        self.tree_oid
    }

    /// The size of the commit's body.
    pub fn raw_size(&self) -> (size: u64)
        ensures
            size == self.raw_size,
    {
        self.raw_size
    }

    /// The digest of the commit's body.
    pub fn raw_sha256(&self) -> (digest: [u8; 32])
        ensures
            digest == self.raw_sha256,
    {
        self.raw_sha256
    }

    /// The branch and commit records of a seal.
    pub fn project(self) -> (r: (HeadRefsRecord, RootCommitRecord))
        ensures
            r.0.commit_oid == self.commit_oid,
            r.1.commit_oid == self.commit_oid,
            r.1.tree_oid == self.tree_oid,
            r.1.raw_size == self.raw_size,
            r.1.raw_sha256 == self.raw_sha256,
    {
        (
            HeadRefsRecord { commit_oid: self.commit_oid },
            RootCommitRecord {
                commit_oid: self.commit_oid,
                tree_oid: self.tree_oid,
                raw_size: self.raw_size,
                raw_sha256: self.raw_sha256,
            },
        )
    }

    /// The commit as an object.
    pub open spec fn as_object(self) -> ObjectRecord {
        ObjectRecord {
            oid: self.commit_oid,
            kind: ObjectKind::Commit,
            raw_size: self.raw_size,
            raw_sha256: self.raw_sha256,
        }
    }

    /// The commit as an object.
    pub fn object_record(self) -> (record: ObjectRecord)
        ensures
            record == self.as_object(),
    {
        ObjectRecord {
            oid: self.commit_oid,
            kind: ObjectKind::Commit,
            raw_size: self.raw_size,
            raw_sha256: self.raw_sha256,
        }
    }

    /// The evidence is that of a commit body with a given tree.
    pub open spec fn describes(self, body: Seq<u8>, tree: Seq<u8>) -> bool {
        &&& self.tree_oid@ == hex_bytes(tree)
        &&& self.raw_size == body.len()
        &&& self.commit_oid@ == typed_oid(ObjectKind::Commit, self.raw_size, body)
        &&& self.raw_sha256@ == sha256_of(body)
    }
}

/// In `head + stamp + " +0000" + "\\n" + tail`, the first line end behind `head` is the one
/// behind the stamp.
proof fn stamped_line_end(bytes: Seq<u8>, head: Seq<u8>, stamp: Seq<u8>, tail: Seq<u8>)
    requires
        canonical_i64(stamp),
        bytes == (head + stamp + encode_utf8(UTC_SUFFIX@)) + seq![NEWLINE] + tail,
    ensures
        has_prefix(bytes, head),
        next_index(bytes, NEWLINE, head.len() as int) == head.len() + stamp.len() + encode_utf8(UTC_SUFFIX@).len(),
        bytes.subrange(0, (head.len() + stamp.len() + encode_utf8(UTC_SUFFIX@).len()) as int) == (head + stamp)
            + encode_utf8(UTC_SUFFIX@),
        bytes.subrange((head.len() + stamp.len() + encode_utf8(UTC_SUFFIX@).len() + 1) as int, bytes.len() as int) == tail,
{
    let utc = encode_utf8(UTC_SUFFIX@);
    reveal_strlit(" +0000");
    is_ascii_chars_encode_utf8(UTC_SUFFIX@);
    let end = head.len() + stamp.len() + utc.len();
    assert(bytes.subrange(0, head.len() as int) =~= head);
    assert(bytes[end as int] == NEWLINE);
    next_index_facts(bytes, NEWLINE, head.len() as int);
    let found = next_index(bytes, NEWLINE, head.len() as int);
    assert forall|i: int| head.len() <= i < end implies bytes[i] != NEWLINE by {
        if i < head.len() + stamp.len() {
            assert(bytes[i] == stamp[i - head.len()]);
            if stamp[0] == MINUS && i - head.len() > 0 {
                let digits = stamp.subrange(1, stamp.len() as int);
                assert(digits[i - head.len() - 1] == stamp[i - head.len()]);
                assert(0x30 <= digits[i - head.len() - 1] <= 0x39);
            }
        } else {
            let k = i - head.len() - stamp.len();
            assert(bytes[i] == utc[k]);
            assert(k == 0 || k == 1 || k == 2 || k == 3 || k == 4 || k == 5);
        }
    }
    assert(found == end) by {
        if found < end {
            assert(bytes[found] != NEWLINE);
        }
    }
    assert(bytes.subrange(0, end as int) =~= (head + stamp) + utc);
    assert(bytes.subrange((end + 1) as int, bytes.len() as int) =~= tail);
}

/// `bytes` begin with a line of `prefix`, a canonical time stamp and UTC, and go on with `rest`.
pub open spec fn stamped(bytes: Seq<u8>, prefix: Seq<u8>, stamp: Seq<u8>, rest: Seq<u8>) -> bool {
    canonical_i64(stamp) && bytes == (prefix + stamp + encode_utf8(UTC_SUFFIX@)) + seq![NEWLINE] + rest
}

/// A stamped line can be read in one way only.
proof fn stamped_is_unique(bytes: Seq<u8>, prefix: Seq<u8>, s1: Seq<u8>, r1: Seq<u8>, s2: Seq<u8>, r2: Seq<u8>)
    requires
        stamped(bytes, prefix, s1, r1),
        stamped(bytes, prefix, s2, r2),
    ensures
        s1 == s2,
        r1 == r2,
{
    stamped_line_end(bytes, prefix, s1, r1);
    stamped_line_end(bytes, prefix, s2, r2);
    let utc = encode_utf8(UTC_SUFFIX@);
    assert(s1.len() == s2.len());
    let line = bytes.subrange(0, (prefix.len() + s1.len() + utc.len()) as int);
    assert(s1 =~= line.subrange(prefix.len() as int, (prefix.len() + s1.len()) as int));
    assert(s2 =~= line.subrange(prefix.len() as int, (prefix.len() + s1.len()) as int));
}

/// Split off a line with a time stamp.
fn take_stamped_line<'a>(bytes: &'a [u8], prefix: &[u8]) -> (r: Option<(&'a [u8], &'a [u8])>)
    ensures
        r matches Some((stamp, rest)) ==> stamped(bytes@, prefix@, stamp@, rest@),
        r is None ==> forall|stamp: Seq<u8>, rest: Seq<u8>| !stamped(bytes@, prefix@, stamp, rest),
{
    proof {
        assert forall|stamp: Seq<u8>, rest: Seq<u8>| #[trigger] stamped(bytes@, prefix@, stamp, rest) implies has_prefix(
            bytes@,
            prefix@,
        ) && next_index(bytes@, NEWLINE, prefix@.len() as int) < bytes@.len() && bytes@.subrange(
            0,
            next_index(bytes@, NEWLINE, prefix@.len() as int),
        ) == (prefix@ + stamp) + encode_utf8(UTC_SUFFIX@) by {
            stamped_line_end(bytes@, prefix@, stamp, rest);
        }
    }
    if !starts_with(bytes, prefix) {
        return None;
    }
    let newline = find_byte(bytes, NEWLINE, prefix.len());
    if newline == bytes.len() {
        return None;
    }
    let line = slice_subrange(bytes, 0, newline);
    let rest = slice_subrange(bytes, newline + 1, bytes.len());
    match canonical_timestamp(line, prefix) {
        Ok(stamp) => {
            assert(bytes@ =~= line@ + seq![NEWLINE] + rest@);
            Some((stamp, rest))
        },
        Err(_) => None,
    }
}

/// `bytes` begin with the line of a tree, and go on with `rest`.
pub open spec fn treed(bytes: Seq<u8>, tree: Seq<u8>, rest: Seq<u8>) -> bool {
    oid_text(tree) && bytes == encode_utf8(TREE_PREFIX@) + tree + seq![NEWLINE] + rest
}

/// The line of a tree ends behind its forty digits.
proof fn tree_line_end(bytes: Seq<u8>, tree: Seq<u8>, rest: Seq<u8>)
    requires
        treed(bytes, tree, rest),
    ensures
        encode_utf8(TREE_PREFIX@).len() == 5,
        next_index(bytes, NEWLINE, 0) == 45,
        bytes.len() >= 46,
        has_prefix(bytes.subrange(0, 45), encode_utf8(TREE_PREFIX@)),
        bytes.subrange(5, 45) == tree,
        bytes.subrange(46, bytes.len() as int) == rest,
{
    let prefix = encode_utf8(TREE_PREFIX@);
    reveal_strlit("tree ");
    is_ascii_chars_encode_utf8(TREE_PREFIX@);
    assert(bytes[45] == NEWLINE);
    assert forall|i: int| 0 <= i < 45 implies bytes[i] != NEWLINE by {
        if i < 5 {
            assert(bytes[i] == prefix[i]);
            assert(i == 0 || i == 1 || i == 2 || i == 3 || i == 4);
        } else {
            assert(bytes[i] == tree[i - 5]);
            assert(lower_hex_byte(tree[i - 5]));
        }
    }
    next_index_facts(bytes, NEWLINE, 0);
    assert(next_index(bytes, NEWLINE, 0) == 45) by {
        if next_index(bytes, NEWLINE, 0) < 45 {
            assert(bytes[next_index(bytes, NEWLINE, 0)] != NEWLINE);
        }
    }
    assert(bytes.subrange(0, 45).subrange(0, 5) =~= prefix);
    assert(bytes.subrange(5, 45) =~= tree);
    assert(bytes.subrange(46, bytes.len() as int) =~= rest);
}

/// Split off the line of a tree.
fn take_tree_line(bytes: &[u8]) -> (r: Option<(&[u8], &[u8])>)
    ensures
        r matches Some((tree, rest)) ==> treed(bytes@, tree@, rest@),
        r is None ==> forall|tree: Seq<u8>, rest: Seq<u8>| !treed(bytes@, tree, rest),
{
    proof {
        reveal_strlit("tree ");
        is_ascii_chars_encode_utf8(TREE_PREFIX@);
        assert forall|tree: Seq<u8>, rest: Seq<u8>| #[trigger] treed(bytes@, tree, rest) implies bytes@.contains(NEWLINE)
            && next_index(bytes@, NEWLINE, 0) == 45 && has_prefix(bytes@.subrange(0, 45), encode_utf8(TREE_PREFIX@))
            && oid_text(bytes@.subrange(5, 45)) by {
            tree_line_end(bytes@, tree, rest);
            assert(bytes@[45] == NEWLINE);
        }
    }
    match take_line(bytes) {
        Err(_) => None,
        Ok((line, rest)) => {
            proof {
                next_index_facts(bytes@, NEWLINE, 0);
                assert(bytes@[line@.len() as int] == NEWLINE);
                let found = next_index(bytes@, NEWLINE, 0);
                assert(found == line@.len()) by {
                    if found < line@.len() {
                        assert(line@[found] == bytes@[found]);
                    }
                }
                assert(line@ =~= bytes@.subrange(0, found));
            }
            if !starts_with(line, TREE_PREFIX.as_bytes()) {
                return None;
            }
            let tree = slice_subrange(line, 5, line.len());
            assert(tree@ =~= bytes@.subrange(5, line@.len() as int));
            match decode_lower_hex_oid(tree) {
                Err(_) => None,
                Ok(_) => {
                    assert(line@ =~= encode_utf8(TREE_PREFIX@) + tree@);
                    assert(bytes@ =~= encode_utf8(TREE_PREFIX@) + tree@ + seq![NEWLINE] + rest@);
                    Some((tree, rest))
                },
            }
        },
    }
}

/// A root commit, line by line.
proof fn root_commit_lines(body: Seq<u8>, tree: Seq<u8>, stamp: Seq<u8>)
    requires
        is_root_commit(body, tree, stamp),
    ensures
        treed(body, tree, after_tree_line(stamp)),
        stamped(after_tree_line(stamp), encode_utf8(AUTHOR_PREFIX@), stamp, after_author_line(stamp)),
        stamped(
            after_author_line(stamp),
            encode_utf8(COMMITTER_PREFIX@),
            stamp,
            seq![NEWLINE] + encode_utf8(IMPORT_MESSAGE@),
        ),
{
    assert(body =~= encode_utf8(TREE_PREFIX@) + tree + seq![NEWLINE] + after_tree_line(stamp));
}

/// What follows the tree line of a root commit.
pub open spec fn after_tree_line(stamp: Seq<u8>) -> Seq<u8> {
    (encode_utf8(AUTHOR_PREFIX@) + stamp + encode_utf8(UTC_SUFFIX@)) + seq![NEWLINE] + after_author_line(stamp)
}

/// What follows the author line of a root commit.
pub open spec fn after_author_line(stamp: Seq<u8>) -> Seq<u8> {
    (encode_utf8(COMMITTER_PREFIX@) + stamp + encode_utf8(UTC_SUFFIX@)) + seq![NEWLINE] + (seq![NEWLINE] + encode_utf8(
        IMPORT_MESSAGE@,
    ))
}

/// Lines that are those of a root commit make one.
proof fn lines_make_root_commit(
    body: Seq<u8>,
    tree: Seq<u8>,
    stamp: Seq<u8>,
    after_tree: Seq<u8>,
    after_author: Seq<u8>,
    rest: Seq<u8>,
)
    requires
        treed(body, tree, after_tree),
        stamped(after_tree, encode_utf8(AUTHOR_PREFIX@), stamp, after_author),
        stamped(after_author, encode_utf8(COMMITTER_PREFIX@), stamp, rest),
        rest == seq![NEWLINE] + encode_utf8(IMPORT_MESSAGE@),
    ensures
        is_root_commit(body, tree, stamp),
{
    assert(after_author == after_author_line(stamp));
    assert(after_tree == after_tree_line(stamp));
    assert(body =~= canonical_commit(tree, stamp));
}

/// The tree and the time stamp of a root commit.
fn scan_root_commit<'a>(body: &'a [u8]) -> (r: Option<(&'a [u8], &'a [u8])>)
    ensures
        r matches Some((tree, stamp)) ==> is_root_commit(body@, tree@, stamp@),
        r is None ==> forall|tree: Seq<u8>, stamp: Seq<u8>| !is_root_commit(body@, tree, stamp),
{
    let (tree, after_tree) = match take_tree_line(body) {
        Some(parts) => parts,
        None => {
            assert forall|t: Seq<u8>, s: Seq<u8>| !is_root_commit(body@, t, s) by {
                if is_root_commit(body@, t, s) {
                    root_commit_lines(body@, t, s);
                }
            }
            return None;
        },
    };
    proof {
        assert forall|t: Seq<u8>, s: Seq<u8>| #[trigger] is_root_commit(body@, t, s) implies after_tree@ == after_tree_line(
            s,
        ) by {
            root_commit_lines(body@, t, s);
            tree_line_end(body@, tree@, after_tree@);
            tree_line_end(body@, t, after_tree_line(s));
        }
    }
    let (author_stamp, after_author) = match take_stamped_line(after_tree, AUTHOR_PREFIX.as_bytes()) {
        Some(parts) => parts,
        None => {
            assert forall|t: Seq<u8>, s: Seq<u8>| !is_root_commit(body@, t, s) by {
                if is_root_commit(body@, t, s) {
                    root_commit_lines(body@, t, s);
                }
            }
            return None;
        },
    };
    proof {
        assert forall|t: Seq<u8>, s: Seq<u8>| #[trigger] is_root_commit(body@, t, s) implies s == author_stamp@ && after_author@
            == after_author_line(s) by {
            root_commit_lines(body@, t, s);
            stamped_is_unique(
                after_tree@,
                encode_utf8(AUTHOR_PREFIX@),
                author_stamp@,
                after_author@,
                s,
                after_author_line(s),
            );
        }
    }
    let (committer_stamp, rest) = match take_stamped_line(after_author, COMMITTER_PREFIX.as_bytes()) {
        Some(parts) => parts,
        None => {
            assert forall|t: Seq<u8>, s: Seq<u8>| !is_root_commit(body@, t, s) by {
                if is_root_commit(body@, t, s) {
                    root_commit_lines(body@, t, s);
                }
            }
            return None;
        },
    };
    let ghost message = seq![NEWLINE] + encode_utf8(IMPORT_MESSAGE@);
    proof {
        assert forall|t: Seq<u8>, s: Seq<u8>| #[trigger] is_root_commit(body@, t, s) implies s == committer_stamp@ && rest@
            == message by {
            root_commit_lines(body@, t, s);
            stamped_is_unique(after_author@, encode_utf8(COMMITTER_PREFIX@), committer_stamp@, rest@, s, message);
        }
        assert(message.subrange(1, message.len() as int) =~= encode_utf8(IMPORT_MESSAGE@));
    }
    if !bytes_equal(author_stamp, committer_stamp) || rest.len() == 0 || rest[0] != NEWLINE || !bytes_equal(
        slice_subrange(rest, 1, rest.len()),
        IMPORT_MESSAGE.as_bytes(),
    ) {
        return None;
    }
    proof {
        assert(rest@ =~= message);
        lines_make_root_commit(body@, tree@, author_stamp@, after_tree@, after_author@, rest@);
    }
    Some((tree, author_stamp))
}

/// Parse the one allowed parentless root commit and derive its exact digests.
///
/// The grammar requires one lowercase SHA-1 tree, identical canonical author and committer time
/// stamps in UTC, the fixed import identity and message, and no parent, extra header, or
/// trailing byte.
pub fn parse_canonical_root_commit(body: &[u8]) -> (r: Result<FreshRootCommitEvidence, CandidateSealError>)
    ensures
        r is Ok <==> body@.len() <= MAX_CANONICAL_ROOT_COMMIT_BYTES && exists|tree: Seq<u8>, stamp: Seq<u8>|
            is_root_commit(body@, tree, stamp),
        r matches Ok(evidence) ==> exists|tree: Seq<u8>, stamp: Seq<u8>| #[trigger]
            is_root_commit(body@, tree, stamp) && evidence.describes(body@, tree),
        r matches Err(error) ==> error == if body@.len() > MAX_CANONICAL_ROOT_COMMIT_BYTES {
            CandidateSealError::ResourceLimit
        } else {
            CandidateSealError::InvalidRecord
        },
{
    if body.len() > MAX_CANONICAL_ROOT_COMMIT_BYTES {
        return Err(CandidateSealError::ResourceLimit);
    }
    match scan_root_commit(body) {
        None => Err(CandidateSealError::InvalidRecord),
        Some((tree, stamp)) => {
            let tree_oid = decode_lower_hex_oid(tree)?;
            let raw_size: u64 = body.len() as u64;
            let commit_oid = typed_object_oid(ObjectKind::Commit, raw_size, body);
            let evidence = FreshRootCommitEvidence { commit_oid, tree_oid, raw_size, raw_sha256: raw_sha256(body) };
            assert(is_root_commit(body@, tree@, stamp@) && evidence.describes(body@, tree@));
            Ok(evidence)
        },
    }
}

/// The root commit of a tree at a time.
pub fn canonical_root_commit_bytes(root_tree_oid: &str, timestamp: i64) -> (body: WipedBytes)
    ensures
        body@ == canonical_commit(root_tree_oid.spec_bytes(), signed_text(timestamp as int)),
{
    let stamp = decimal_i64(timestamp);
    let newline: [u8; 1] = [NEWLINE];
    assert(newline@ =~= seq![NEWLINE]);
    let mut body = WipedBytes::new(to_vec(TREE_PREFIX.as_bytes()));
    body.append(root_tree_oid.as_bytes());
    body.append(newline.as_slice());
    body.append(AUTHOR_PREFIX.as_bytes());
    body.append(stamp.as_slice());
    body.append(UTC_SUFFIX.as_bytes());
    body.append(newline.as_slice());
    body.append(COMMITTER_PREFIX.as_bytes());
    body.append(stamp.as_slice());
    body.append(UTC_SUFFIX.as_bytes());
    body.append(newline.as_slice());
    body.append(newline.as_slice());
    body.append(IMPORT_MESSAGE.as_bytes());
    assert(body@ =~= canonical_commit(root_tree_oid.spec_bytes(), signed_text(timestamp as int)));
    body
}

/// What is written as a root commit is read back as the root commit of its tree: for every
/// object id and every time, the body is within the bound and in the grammar.
pub proof fn root_commit_round_trip(tree: Seq<u8>, timestamp: i64)
    requires
        oid_text(tree),
    ensures
        is_root_commit(canonical_commit(tree, signed_text(timestamp as int)), tree, signed_text(timestamp as int)),
        canonical_commit(tree, signed_text(timestamp as int)).len() <= MAX_CANONICAL_ROOT_COMMIT_BYTES,
{
    signed_text_is_canonical(timestamp);
    reveal_strlit("tree ");
    reveal_strlit(" +0000");
    reveal_strlit("author Inex Repository Import <inex-import@localhost.invalid> ");
    reveal_strlit("committer Inex Repository Import <inex-import@localhost.invalid> ");
    reveal_strlit("Initialize encrypted Inex vault\n");
    is_ascii_chars_encode_utf8(TREE_PREFIX@);
    is_ascii_chars_encode_utf8(UTC_SUFFIX@);
    is_ascii_chars_encode_utf8(AUTHOR_PREFIX@);
    is_ascii_chars_encode_utf8(COMMITTER_PREFIX@);
    is_ascii_chars_encode_utf8(IMPORT_MESSAGE@);
}

/// A root commit is the commit of one tree only.
pub proof fn root_commit_tree_is_unique(body: Seq<u8>, t1: Seq<u8>, s1: Seq<u8>, t2: Seq<u8>, s2: Seq<u8>)
    requires
        is_root_commit(body, t1, s1),
        is_root_commit(body, t2, s2),
    ensures
        t1 == t2,
        s1 == s2,
{
    root_commit_lines(body, t1, s1);
    root_commit_lines(body, t2, s2);
    tree_line_end(body, t1, after_tree_line(s1));
    tree_line_end(body, t2, after_tree_line(s2));
    stamped_is_unique(
        after_tree_line(s1),
        encode_utf8(AUTHOR_PREFIX@),
        s1,
        after_author_line(s1),
        s2,
        after_author_line(s2),
    );
}

/// Why an object record is refused, if it is.
pub open spec fn object_record_error(record: ObjectRecord, maximum: u64) -> Option<CandidateSealError> {
    if record.raw_size > maximum {
        Some(CandidateSealError::ResourceLimit)
    } else if zero_oid(record.oid@) {
        Some(CandidateSealError::InvalidRecord)
    } else {
        None
    }
}

/// Require an object record to have an id and a body within the frozen bound.
pub fn validate_object_record(record: ObjectRecord) -> (r: Result<(), CandidateSealError>)
    ensures
        r == verdict(object_record_error(record, MAX_RAW_OBJECT_BYTES)),
{
    validate_object_record_with_limit(record, MAX_RAW_OBJECT_BYTES)
}

/// Require an object record to have an id and a body within a bound.
pub fn validate_object_record_with_limit(record: ObjectRecord, maximum_raw_bytes: u64) -> (r: Result<
    (),
    CandidateSealError,
>)
    ensures
        r == verdict(object_record_error(record, maximum_raw_bytes)),
{
    if record.raw_size > maximum_raw_bytes {
        return Err(CandidateSealError::ResourceLimit);
    }
    if is_zero_oid(&record.oid) {
        return Err(CandidateSealError::InvalidRecord);
    }
    Ok(())
}

/// Why root commit evidence is refused, if it is.
pub open spec fn root_commit_error(evidence: FreshRootCommitEvidence) -> Option<CandidateSealError> {
    if evidence.raw_size > MAX_RAW_OBJECT_BYTES {
        Some(CandidateSealError::ResourceLimit)
    } else if zero_oid(evidence.commit_oid@) || zero_oid(evidence.tree_oid@) {
        Some(CandidateSealError::InvalidRecord)
    } else {
        None
    }
}

/// Require root commit evidence to have ids and a body within the bound.
pub fn validate_root_commit_evidence(evidence: FreshRootCommitEvidence) -> (r: Result<(), CandidateSealError>)
    ensures
        r == verdict(root_commit_error(evidence)),
{
    if evidence.raw_size > MAX_RAW_OBJECT_BYTES {
        return Err(CandidateSealError::ResourceLimit);
    }
    if is_zero_oid(&evidence.commit_oid) || is_zero_oid(&evidence.tree_oid) {
        return Err(CandidateSealError::InvalidRecord);
    }
    Ok(())
}

/// What a verifier has taken in: the bytes, or nothing once a chunk did not fit.
pub open spec fn absorbed(size: nat, state: Option<Seq<u8>>, chunk: Seq<u8>) -> Option<Seq<u8>> {
    match state {
        Some(bytes) => if bytes.len() + chunk.len() <= size {
            Some(bytes + chunk)
        } else {
            None
        },
        None => None,
    }
}

/// What a verifier has taken in after the first `n` chunks.
pub open spec fn absorbed_all(size: nat, chunks: Seq<Seq<u8>>, n: nat) -> Option<Seq<u8>>
    decreases n,
{
    if n == 0 {
        Some(Seq::empty())
    } else {
        absorbed(size, absorbed_all(size, chunks, (n - 1) as nat), chunks[n - 1])
    }
}

/// The first `n` chunks, one behind the other.
pub open spec fn joined(chunks: Seq<Seq<u8>>, n: nat) -> Seq<u8>
    decreases n,
{
    if n == 0 {
        Seq::empty()
    } else {
        joined(chunks, (n - 1) as nat) + chunks[n - 1]
    }
}

/// Where a body is cut into chunks makes no difference: a verifier has taken in the chunks one
/// behind the other, unless they are longer than the object.
pub proof fn chunks_do_not_matter(size: nat, chunks: Seq<Seq<u8>>, n: nat)
    requires
        n <= chunks.len(),
    ensures
        absorbed_all(size, chunks, n) == if joined(chunks, n).len() <= size {
            Some(joined(chunks, n))
        } else {
            None
        },
    decreases n,
{
    if n > 0 {
        chunks_do_not_matter(size, chunks, (n - 1) as nat);
    }
}

/// Incremental proof of an object's id and digest. No body byte outlives an `update`.
pub struct StreamingObjectVerifier {
    pub expected: ObjectRecord,
    pub remaining: u64,
    pub typed: Sha1Stream,
    pub raw: Sha256Stream,
    pub failed: bool,
}

impl StreamingObjectVerifier {
    /// Both digests have taken in the same body, and the rest of the size is still to come.
    pub open spec fn wf(self) -> bool {
        &&& sha1_input(self.typed) == typed_header(self.expected.kind, self.expected.raw_size) + sha256_input(self.raw)
        &&& self.remaining + sha256_input(self.raw).len() == self.expected.raw_size
    }

    /// The bytes taken in, unless the stream has failed.
    pub open spec fn state(self) -> Option<Seq<u8>> {
        if self.failed {
            None
        } else {
            Some(sha256_input(self.raw))
        }
    }

    /// Begin to verify an object.
    pub fn new(expected: ObjectRecord) -> (r: Result<StreamingObjectVerifier, CandidateSealError>)
        ensures
            match object_record_error(expected, MAX_RAW_OBJECT_BYTES) {
                Some(error) => r matches Err(e) && e == error,
                None => r matches Ok(verifier) && verifier.wf() && verifier.expected == expected && verifier.state() == Some(
                    Seq::<u8>::empty(),
                ),
            },
    {
        StreamingObjectVerifier::new_with_limit(expected, MAX_RAW_OBJECT_BYTES)
    }

    /// Begin to verify an object within a bound.
    pub fn new_with_limit(expected: ObjectRecord, maximum_raw_bytes: u64) -> (r: Result<
        StreamingObjectVerifier,
        CandidateSealError,
    >)
        ensures
            match object_record_error(expected, maximum_raw_bytes) {
                Some(error) => r matches Err(e) && e == error,
                None => r matches Ok(verifier) && verifier.wf() && verifier.expected == expected && verifier.state() == Some(
                    Seq::<u8>::empty(),
                ),
            },
    {
        validate_object_record_with_limit(expected, maximum_raw_bytes)?;
        let typed = sha1_after_header(expected.kind, expected.raw_size);
        let raw = sha256_new();
        assert(sha1_input(typed) =~= typed_header(expected.kind, expected.raw_size) + sha256_input(raw));
        Ok(StreamingObjectVerifier { expected, remaining: expected.raw_size, typed, raw, failed: false })
    }

    /// Take in the next chunk of the body.
    pub fn update(&mut self, chunk: &[u8]) -> (r: Result<(), CandidateSealError>)
        requires
            old(self).wf(),
        ensures
            final(self).wf(),
            final(self).expected == old(self).expected,
            final(self).state() == absorbed(old(self).expected.raw_size as nat, old(self).state(), chunk@),
            r is Ok <==> final(self).state() is Some,
            r matches Err(error) ==> error == CandidateSealError::InvalidRecord,
    {
        let length: u64 = chunk.len() as u64;
        if self.failed || length > self.remaining {
            self.failed = true;
            return Err(CandidateSealError::InvalidRecord);
        }
        let ghost header = typed_header(self.expected.kind, self.expected.raw_size);
        let ghost before = sha256_input(self.raw);
        self.remaining = self.remaining - length;
        sha1_update(&mut self.typed, chunk);
        sha256_update(&mut self.raw, chunk);
        assert(sha1_input(self.typed) =~= header + (before + chunk@));
        Ok(())
    }

    /// End the body: it must be complete, and have the expected id and digest.
    pub fn finish(self) -> (r: Result<(), CandidateSealError>)
        requires
            self.wf(),
        ensures
            r is Ok <==> (self.state() matches Some(body) && body.len() == self.expected.raw_size && typed_oid(
                self.expected.kind,
                self.expected.raw_size,
                body,
            ) == self.expected.oid@ && sha256_of(body) == self.expected.raw_sha256@),
            r matches Err(error) ==> error == CandidateSealError::InvalidRecord,
    {
        let failed = self.failed;
        let remaining = self.remaining;
        let expected = self.expected;
        let typed = sha1_finalize(self.typed);
        let raw = sha256_finalize(self.raw);
        if failed || remaining != 0 || !bytes_equal(typed.as_slice(), expected.oid.as_slice()) || !bytes_equal(
            raw.as_slice(),
            expected.raw_sha256.as_slice(),
        ) {
            return Err(CandidateSealError::InvalidRecord);
        }
        Ok(())
    }
}

/// Append bytes to a vector.
pub(crate) fn append(target: &mut Vec<u8>, bytes: &[u8])
    ensures
        final(target)@ == old(target)@ + bytes@,
{
    target.extend_from_slice(bytes);
    assert(target@ =~= old(target)@ + bytes@);
}

} // verus!
