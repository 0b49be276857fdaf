//! Text as its UTF-8 bytes.

use crate::bytes::{bytes_equal, ends_with, has_prefix, has_suffix, starts_with};
use unicode_normalization::is_nfc;
use vstd::prelude::*;
use vstd::string::*;
use vstd::utf8::{
    decode_utf8, encode_utf8, encode_utf8_decode_utf8, encode_utf8_valid_utf8, is_ascii_chars, is_ascii_chars_encode_utf8, is_char_boundary,
    is_char_boundary_iff_not_is_continuation_byte, is_char_boundary_start_end_of_seq, partial_valid_partial_invalid_utf8,
    valid_utf8,
};

verus! {

/// Equal encodings are encodings of equal texts.
pub proof fn encoding_is_injective(a: Seq<char>, b: Seq<char>)
    ensures
        (encode_utf8(a) == encode_utf8(b)) == (a == b),
{
    encode_utf8_decode_utf8(a);
    encode_utf8_decode_utf8(b);
}

/// Whether two texts are the same.
pub fn text_equal(a: &str, b: &str) -> (r: bool)
    ensures
        r == (a@ == b@),
{
    proof {
        encoding_is_injective(a@, b@);
    }
    bytes_equal(a.as_bytes(), b.as_bytes())
}

/// Whether the bytes of `text` end with those of `suffix`.
pub fn text_ends_with(text: &str, suffix: &str) -> (r: bool)
    ensures
        r == has_suffix(text.spec_bytes(), suffix.spec_bytes()),
{
    ends_with(text.as_bytes(), suffix.as_bytes())
}

/// A well-formed head of a well-formed text ends at a character boundary.
proof fn head_ends_at_boundary(bytes: Seq<u8>, n: int)
    requires
        valid_utf8(bytes),
        0 <= n <= bytes.len(),
        valid_utf8(bytes.subrange(0, n)),
    ensures
        is_char_boundary(bytes, n),
{
    is_char_boundary_start_end_of_seq(bytes);
    if n < bytes.len() {
        let rest = bytes.subrange(n, bytes.len() as int);
        if !valid_utf8(rest) {
            partial_valid_partial_invalid_utf8(bytes, n);
        }
        is_char_boundary_start_end_of_seq(rest);
        is_char_boundary_iff_not_is_continuation_byte(rest, 0);
        is_char_boundary_iff_not_is_continuation_byte(bytes, n);
        assert(rest[0] == bytes[n]);
    }
}

/// What follows a prefix of a text, if the text begins with it.
pub fn strip_text_prefix<'a>(text: &'a str, prefix: &str) -> (r: Option<&'a str>)
    ensures
        r is Some <==> has_prefix(text.spec_bytes(), prefix.spec_bytes()),
        r matches Some(rest) ==> rest.spec_bytes() == text.spec_bytes().subrange(
            prefix.spec_bytes().len() as int,
            text.spec_bytes().len() as int,
        ),
{
    if !starts_with(text.as_bytes(), prefix.as_bytes()) {
        return None;
    }
    let n: usize = prefix.as_bytes().len();
    proof {
        encode_utf8_valid_utf8(text@);
        encode_utf8_valid_utf8(prefix@);
        head_ends_at_boundary(text.spec_bytes(), n as int);
    }
    let parts = text.split_at(n);
    Some(parts.1)
}

/// The encoding of two texts together is their encodings together.
pub proof fn encoding_of_concat(a: Seq<char>, b: Seq<char>)
    ensures
        encode_utf8(a + b) == encode_utf8(a) + encode_utf8(b),
    decreases a.len(),
{
    if a.len() == 0 {
        assert(a + b =~= b);
        assert(encode_utf8(a) + encode_utf8(b) =~= encode_utf8(b));
    } else {
        encoding_of_concat(a.drop_first(), b);
        assert((a + b).drop_first() =~= a.drop_first() + b);
        assert((a + b)[0] == a[0]);
        assert(encode_utf8(a + b) =~= encode_utf8(a) + encode_utf8(b));
    }
}

/// ASCII bytes are well-formed UTF-8.
pub proof fn ascii_is_utf8(bytes: Seq<u8>)
    requires
        forall|i: int| 0 <= i < bytes.len() ==> #[trigger] bytes[i] < 0x80,
    ensures
        valid_utf8(bytes),
{
    let chars = Seq::new(bytes.len(), |i: int| bytes[i] as char);
    assert(is_ascii_chars(chars));
    is_ascii_chars_encode_utf8(chars);
    assert(encode_utf8(chars) =~= bytes);
    encode_utf8_valid_utf8(chars);
}

/// Two texts with the same bytes are the same text; it is the one that the bytes decode to.
pub proof fn text_of_bytes(text: Seq<char>)
    ensures
        decode_utf8(encode_utf8(text)) == text,
        valid_utf8(encode_utf8(text)),
{
    encode_utf8_decode_utf8(text);
    encode_utf8_valid_utf8(text);
}

/// The first `n` bytes of a text, where an ASCII character or the end follows them.
pub fn text_before(text: &str, n: usize) -> (head: &str)
    requires
        n <= text.spec_bytes().len(),
        n < text.spec_bytes().len() ==> text.spec_bytes()[n as int] < 0x80,
    ensures
        head.spec_bytes() == text.spec_bytes().subrange(0, n as int),
{
    proof {
        encode_utf8_valid_utf8(text@);
        is_char_boundary_start_end_of_seq(text.spec_bytes());
        if n < text.spec_bytes().len() {
            is_char_boundary_iff_not_is_continuation_byte(text.spec_bytes(), n as int);
        }
    }
    let parts = text.split_at(n);
    parts.0
}

/// What follows the first `n` bytes of a text, where an ASCII character or the end follows them.
pub fn text_after(text: &str, n: usize) -> (tail: &str)
    requires
        n <= text.spec_bytes().len(),
        n < text.spec_bytes().len() ==> text.spec_bytes()[n as int] < 0x80,
    ensures
        tail.spec_bytes() == text.spec_bytes().subrange(n as int, text.spec_bytes().len() as int),
{
    proof {
        encode_utf8_valid_utf8(text@);
        is_char_boundary_start_end_of_seq(text.spec_bytes());
        if n < text.spec_bytes().len() {
            is_char_boundary_iff_not_is_continuation_byte(text.spec_bytes(), n as int);
        }
    }
    let parts = text.split_at(n);
    parts.1
}

/// `std::str::from_utf8`: the text that `bytes` encode, if they are well-formed UTF-8.
#[verifier::external_body]
pub(crate) fn utf8_text(bytes: &[u8]) -> (text: Option<&str>)
    ensures
        text is Some <==> valid_utf8(bytes@),
        text matches Some(t) ==> t.spec_bytes() == bytes@,
{
    std::str::from_utf8(bytes).ok()
}

/// Whether a text is in Unicode Normalization Form C, as the `unicode-normalization` crate decides it.
pub uninterp spec fn nfc_normalized(text: Seq<char>) -> bool;

/// `unicode_normalization::is_nfc`, which depends on the text alone; ASCII text is always in
/// this form, because the quick check passes over every ASCII character.
#[verifier::external_body]
pub(crate) fn text_is_nfc(text: &str) -> (r: bool)
    ensures
        r == nfc_normalized(text@),
        is_ascii_chars(text@) ==> r,
{
    is_nfc(text)
}

} // verus!
