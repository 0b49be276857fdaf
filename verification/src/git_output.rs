//! The strict plumbing grammars that Git's output is held to.

use crate::bytes::{bytes_equal, find_byte, has_suffix, next_index, slices_view, split_bytes, split_pieces, ends_with};
use crate::errors::RepositoryImportError;
use crate::git_object::NEWLINE;
use crate::hex::{all_digits, all_lower_hex, bounded_decimal, digits_value, is_all_lower_hex};
use crate::portable_path::{BACKSLASH, DOT, SLASH, SPACE};
use crate::text::utf8_text;
use vstd::prelude::*;
use vstd::slice::slice_subrange;
use vstd::string::*;
use vstd::utf8::{encode_utf8, valid_utf8};

verus! {

pub const CARRIAGE_RETURN: u8 = 0x0d;

pub const TAB: u8 = 0x09;

/// Deepest path of a tree, in components.
pub const MAX_TREE_DEPTH: usize = 128;

/// An output without its line end.
pub open spec fn without_line_end(output: Seq<u8>) -> Seq<u8> {
    if has_suffix(output, seq![CARRIAGE_RETURN, NEWLINE]) {
        output.subrange(0, output.len() - 2)
    } else if has_suffix(output, seq![NEWLINE]) {
        output.subrange(0, output.len() - 1)
    } else {
        output
    }
}

/// An output is one line of text.
pub open spec fn is_one_line(output: Seq<u8>) -> bool {
    let line = without_line_end(output);
    valid_utf8(line) && forall|i: int| 0 <= i < line.len() ==> #[trigger] line[i] != NEWLINE && line[i] != CARRIAGE_RETURN
}

/// The one line of an output, without its line end.
pub fn one_line(output: &[u8]) -> (r: Result<&str, RepositoryImportError>)
    ensures
        r is Ok <==> is_one_line(output@),
        r matches Ok(line) ==> line.spec_bytes() == without_line_end(output@),
        r matches Err(error) ==> error == RepositoryImportError::MalformedGitOutput,
{
    let crlf: [u8; 2] = [CARRIAGE_RETURN, NEWLINE];
    let lf: [u8; 1] = [NEWLINE];
    assert(crlf@ =~= seq![CARRIAGE_RETURN, NEWLINE]);
    assert(lf@ =~= seq![NEWLINE]);
    let line = if ends_with(output, crlf.as_slice()) {
        slice_subrange(output, 0, output.len() - 2)
    } else if ends_with(output, lf.as_slice()) {
        slice_subrange(output, 0, output.len() - 1)
    } else {
        output
    };
    assert(line@ == without_line_end(output@));
    let newline = find_byte(line, NEWLINE, 0);
    if newline < line.len() {
        return Err(RepositoryImportError::MalformedGitOutput);
    }
    let carriage_return = find_byte(line, CARRIAGE_RETURN, 0);
    if carriage_return < line.len() {
        return Err(RepositoryImportError::MalformedGitOutput);
    }
    match utf8_text(line) {
        Some(text) => Ok(text),
        None => Err(RepositoryImportError::MalformedGitOutput),
    }
}

/// The records of an output, each behind the one before and ended by a NUL.
pub open spec fn nul_pieces(output: Seq<u8>) -> Seq<Seq<u8>> {
    if output.len() == 0 {
        Seq::empty()
    } else {
        split_pieces(output.drop_last(), 0)
    }
}

/// Every record of an output is ended by a NUL, and none is empty.
pub open spec fn nul_terminated(output: Seq<u8>) -> bool {
    output.len() > 0 ==> output.last() == 0 && forall|i: int|
        0 <= i < nul_pieces(output).len() ==> (#[trigger] nul_pieces(output)[i]).len() > 0
}

/// The NUL-ended records of an output.
pub fn nul_records(output: &[u8]) -> (r: Result<Vec<&[u8]>, RepositoryImportError>)
    ensures
        r is Ok <==> nul_terminated(output@),
        r matches Ok(records) ==> slices_view(records@) == nul_pieces(output@),
        r matches Err(error) ==> error == RepositoryImportError::MalformedGitOutput,
{
    if output.len() == 0 {
        let records: Vec<&[u8]> = Vec::new();
        assert(slices_view(records@) =~= nul_pieces(output@));
        return Ok(records);
    }
    if output[output.len() - 1] != 0 {
        return Err(RepositoryImportError::MalformedGitOutput);
    }
    let listed = slice_subrange(output, 0, output.len() - 1);
    assert(listed@ =~= output@.drop_last());
    let records = split_bytes(listed, 0);
    let mut i: usize = 0;
    while i < records.len()
        invariant
            slices_view(records@) == nul_pieces(output@),
            output@.len() > 0,
            i <= records@.len(),
            forall|k: int| 0 <= k < i ==> (#[trigger] nul_pieces(output@)[k]).len() > 0,
        decreases records@.len() - i,
    {
        assert(nul_pieces(output@)[i as int] == records@[i as int]@);
        if records[i].len() == 0 {
            return Err(RepositoryImportError::MalformedGitOutput);
        }
        i = i + 1;
    }
    Ok(records)
}

/// Forty lowercase hexadecimal digits.
pub open spec fn sha1_text(oid: Seq<u8>) -> bool {
    oid.len() == 40 && all_lower_hex(oid)
}

/// Require the text of an object id.
pub fn require_sha1_oid(oid: &str) -> (r: Result<(), RepositoryImportError>)
    ensures
        r == if sha1_text(oid.spec_bytes()) {
            Ok::<(), RepositoryImportError>(())
        } else {
            Err(RepositoryImportError::MalformedGitOutput)
        },
{
    let bytes = oid.as_bytes();
    if bytes.len() == 40 && is_all_lower_hex(bytes) {
        Ok(())
    } else {
        Err(RepositoryImportError::MalformedGitOutput)
    }
}

/// The first line of a Git LFS pointer.
pub const LFS_POINTER_LINE: &'static str = "version https://git-lfs.github.com/spec/v1";

/// The first line of a body, without its line end.
pub open spec fn first_line(bytes: Seq<u8>) -> Seq<u8> {
    let line = bytes.subrange(0, next_index(bytes, NEWLINE, 0));
    if line.len() > 0 && line.last() == CARRIAGE_RETURN {
        line.drop_last()
    } else {
        line
    }
}

/// Whether a body begins like a Git LFS pointer.
pub fn is_possible_lfs_pointer(bytes: &[u8]) -> (r: bool)
    ensures
        r == (first_line(bytes@) == encode_utf8(LFS_POINTER_LINE@)),
{
    let end = find_byte(bytes, NEWLINE, 0);
    let line = slice_subrange(bytes, 0, end);
    let trimmed = if line.len() > 0 && line[line.len() - 1] == CARRIAGE_RETURN {
        slice_subrange(line, 0, line.len() - 1)
    } else {
        line
    };
    assert(trimmed@ =~= first_line(bytes@));
    bytes_equal(trimmed, LFS_POINTER_LINE.as_bytes())
}

/// A component that names a directory itself.
pub open spec fn dot() -> Seq<u8> {
    seq![DOT]
}

/// A component that names the parent of a directory.
pub open spec fn dot_dot() -> Seq<u8> {
    seq![DOT, DOT]
}

/// A path that names something below a root: it is not empty, has no NUL and no backslash,
/// does not begin at the root of the filesystem, is not too deep, and none of its components
/// leads up or is a leading `.`.
pub open spec fn relative_shape(path: Seq<u8>) -> bool {
    let pieces = split_pieces(path, SLASH);
    &&& path.len() > 0
    &&& path[0] != SLASH
    &&& forall|i: int| 0 <= i < path.len() ==> #[trigger] path[i] != 0 && path[i] != BACKSLASH
    &&& pieces.len() <= MAX_TREE_DEPTH
    &&& pieces[0] != dot()
    &&& forall|i: int| 0 <= i < pieces.len() ==> #[trigger] pieces[i] != dot_dot()
}

/// Require a path to name something below a root.
pub fn validate_relative_path_shape(path: &str) -> (r: Result<(), RepositoryImportError>)
    ensures
        r == if relative_shape(path.spec_bytes()) {
            Ok::<(), RepositoryImportError>(())
        } else {
            Err(RepositoryImportError::UnsafeSourceEntry)
        },
{
    let bytes = path.as_bytes();
    if bytes.len() == 0 || bytes[0] == SLASH {
        return Err(RepositoryImportError::UnsafeSourceEntry);
    }
    let nul = find_byte(bytes, 0, 0);
    let backslash = find_byte(bytes, BACKSLASH, 0);
    if nul < bytes.len() || backslash < bytes.len() {
        return Err(RepositoryImportError::UnsafeSourceEntry);
    }
    let pieces = split_bytes(bytes, SLASH);
    let ghost all = split_pieces(bytes@, SLASH);
    if pieces.len() > MAX_TREE_DEPTH {
        return Err(RepositoryImportError::UnsafeSourceEntry);
    }
    assert(all[0] == pieces@[0]@);
    if is_dot(pieces[0]) {
        return Err(RepositoryImportError::UnsafeSourceEntry);
    }
    let mut i: usize = 0;
    while i < pieces.len()
        invariant
            bytes@ == path.spec_bytes(),
            all == split_pieces(bytes@, SLASH),
            slices_view(pieces@) == all,
            i <= pieces@.len(),
            forall|k: int| 0 <= k < i ==> #[trigger] all[k] != dot_dot(),
        decreases pieces@.len() - i,
    {
        assert(all[i as int] == pieces@[i as int]@);
        if is_dot_dot(pieces[i]) {
            return Err(RepositoryImportError::UnsafeSourceEntry);
        }
        i = i + 1;
    }
    Ok(())
}

fn is_dot(component: &[u8]) -> (r: bool)
    ensures
        r == (component@ == dot()),
{
    let r = component.len() == 1 && component[0] == DOT;
    assert(r ==> component@ =~= dot());
    r
}

fn is_dot_dot(component: &[u8]) -> (r: bool)
    ensures
        r == (component@ == dot_dot()),
{
    let r = component.len() == 2 && component[0] == DOT && component[1] == DOT;
    assert(r ==> component@ =~= dot_dot());
    r
}

/// White space of ASCII: space, tab, newline, form feed and carriage return.
pub open spec fn ascii_space(byte: u8) -> bool {
    byte == SPACE || byte == TAB || byte == NEWLINE || byte == 0x0c || byte == CARRIAGE_RETURN
}

fn is_ascii_space(byte: u8) -> (r: bool)
    ensures
        r == ascii_space(byte),
{
    byte == SPACE || byte == TAB || byte == NEWLINE || byte == 0x0c || byte == CARRIAGE_RETURN
}

/// The end of the field that begins at `from`.
pub open spec fn field_end(s: Seq<u8>, from: int) -> int
    decreases s.len() - from,
{
    if from >= s.len() || ascii_space(s[from]) {
        from
    } else {
        field_end(s, from + 1)
    }
}

/// What stands between white space, from `from` on.
pub open spec fn fields_from(s: Seq<u8>, from: int) -> Seq<Seq<u8>>
    decreases s.len() - from,
{
    if from >= s.len() {
        Seq::empty()
    } else if ascii_space(s[from]) {
        fields_from(s, from + 1)
    } else if field_end(s, from) <= from || field_end(s, from) > s.len() {
        Seq::empty()
    } else {
        seq![s.subrange(from, field_end(s, from))] + fields_from(s, field_end(s, from))
    }
}

/// What stands between white space.
pub fn ascii_fields<'a>(s: &'a [u8]) -> (fields: Vec<&'a [u8]>)
    ensures
        slices_view(fields@) == fields_from(s@, 0),
{
    let mut fields: Vec<&'a [u8]> = Vec::new();
    let mut from: usize = 0;
    assert(slices_view(fields@) =~= Seq::<Seq<u8>>::empty());
    while from < s.len()
        invariant
            from <= s.len(),
            fields_from(s@, 0) == slices_view(fields@) + fields_from(s@, from as int),
        decreases s.len() - from,
    {
        if is_ascii_space(s[from]) {
            from = from + 1;
        } else {
            let mut end: usize = from;
            while end < s.len() && !is_ascii_space(s[end])
                invariant
                    from <= end <= s.len(),
                    from < s.len(),
                    !ascii_space(s@[from as int]),
                    field_end(s@, from as int) == field_end(s@, end as int),
                decreases s.len() - end,
            {
                end = end + 1;
            }
            let field = slice_subrange(s, from, end);
            let ghost before = fields@;
            fields.push(field);
            proof {
                assert(slices_view(fields@) =~= slices_view(before).push(field@));
                assert(slices_view(fields@) + fields_from(s@, end as int) =~= slices_view(before) + fields_from(
                    s@,
                    from as int,
                ));
            }
            from = end;
        }
    }
    assert(slices_view(fields@) + fields_from(s@, from as int) =~= slices_view(fields@));
    fields
}

pub const PLUS: u8 = 0x2b;

/// The digits of a number, behind an optional plus sign.
pub open spec fn unsigned_digits(text: Seq<u8>) -> Seq<u8> {
    if text.len() > 0 && text[0] == PLUS {
        text.subrange(1, text.len() as int)
    } else {
        text
    }
}

/// A decimal number of at most 64 bits, with an optional plus sign.
pub open spec fn unsigned_text(text: Seq<u8>) -> bool {
    let digits = unsigned_digits(text);
    digits.len() > 0 && all_digits(digits) && digits_value(digits) <= u64::MAX
}

/// Read a decimal number of at most 64 bits, with an optional plus sign.
pub fn parse_unsigned(text: &[u8]) -> (r: Option<u64>)
    ensures
        r is Some <==> unsigned_text(text@),
        r matches Some(value) ==> value == digits_value(unsigned_digits(text@)),
{
    let digits = if text.len() > 0 && text[0] == PLUS {
        slice_subrange(text, 1, text.len())
    } else {
        text
    };
    assert(digits@ == unsigned_digits(text@));
    if digits.len() == 0 {
        return None;
    }
    bounded_decimal(digits, u64::MAX)
}

} // verus!
