//! SHA-1 and SHA-256, taken from the `sha1` and `sha2` crates.
//!
//! The digests themselves are not described here: each has a name, and the contracts of
//! this library say which bytes a digest was taken of.

use sha1::Sha1;
use sha2::{Digest, Sha256};
use vstd::prelude::*;

verus! {

/// The SHA-1 digest of a byte sequence, as the `sha1` crate computes it.
pub uninterp spec fn sha1_of(input: Seq<u8>) -> Seq<u8>;

/// The SHA-256 digest of a byte sequence, as the `sha2` crate computes it.
pub uninterp spec fn sha256_of(input: Seq<u8>) -> Seq<u8>;

/// An incremental `sha1::Sha1`, which Verus takes only behind a wrapper type.
#[verifier::external_body]
pub struct Sha1Stream {
    hasher: Sha1,
}

/// The bytes that a SHA-1 stream has taken in so far, in order.
pub uninterp spec fn sha1_input(stream: Sha1Stream) -> Seq<u8>;

/// `sha1::Sha1::new`: a stream that has taken in nothing.
#[verifier::external_body]
pub(crate) fn sha1_new() -> (stream: Sha1Stream)
    ensures
        sha1_input(stream) == Seq::<u8>::empty(),
{
    Sha1Stream { hasher: Sha1::new() }
}

/// `sha1::Sha1::update`: takes in `bytes` after everything taken in before.
#[verifier::external_body]
pub(crate) fn sha1_update(stream: &mut Sha1Stream, bytes: &[u8])
    ensures
        sha1_input(*final(stream)) == sha1_input(*old(stream)) + bytes@,
{
    stream.hasher.update(bytes);
}

/// `sha1::Sha1::finalize`: the digest of the concatenation of all that was taken in.
#[verifier::external_body]
pub(crate) fn sha1_finalize(stream: Sha1Stream) -> (digest: [u8; 20])
    ensures
        digest@ == sha1_of(sha1_input(stream)),
{
    stream.hasher.finalize().into()
}

/// An incremental `sha2::Sha256`, which Verus takes only behind a wrapper type.
#[verifier::external_body]
pub struct Sha256Stream {
    hasher: Sha256,
}

/// The bytes that a SHA-256 stream has taken in so far, in order.
pub uninterp spec fn sha256_input(stream: Sha256Stream) -> Seq<u8>;

/// `sha2::Sha256::new`: a stream that has taken in nothing.
#[verifier::external_body]
pub(crate) fn sha256_new() -> (stream: Sha256Stream)
    ensures
        sha256_input(stream) == Seq::<u8>::empty(),
{
    Sha256Stream { hasher: Sha256::new() }
}

/// `sha2::Sha256::update`: takes in `bytes` after everything taken in before.
#[verifier::external_body]
pub(crate) fn sha256_update(stream: &mut Sha256Stream, bytes: &[u8])
    ensures
        sha256_input(*final(stream)) == sha256_input(*old(stream)) + bytes@,
{
    stream.hasher.update(bytes);
}

/// `sha2::Sha256::finalize`: the digest of the concatenation of all that was taken in.
#[verifier::external_body]
pub(crate) fn sha256_finalize(stream: Sha256Stream) -> (digest: [u8; 32])
    ensures
        digest@ == sha256_of(sha256_input(stream)),
{
    stream.hasher.finalize().into()
}

/// The SHA-256 digest of `input`.
pub(crate) fn sha256_digest(input: &[u8]) -> (digest: [u8; 32])
    ensures
        digest@ == sha256_of(input@),
{
    let mut stream = sha256_new();
    sha256_update(&mut stream, input);
    assert(Seq::<u8>::empty() + input@ =~= input@);
    sha256_finalize(stream)
}

} // verus!
