//! Bytes that are overwritten when they are dropped.

use vstd::prelude::*;
use zeroize::Zeroizing;

verus! {

/// Bytes in a `zeroize::Zeroizing<Vec<u8>>`, which overwrites them before their memory is given back. Nothing
/// is claimed of that: what the memory holds afterwards is no value.
#[verifier::external_body]
pub struct WipedBytes {
    bytes: Zeroizing<Vec<u8>>,
}

/// The bytes that are held.
pub uninterp spec fn wiped_contents(bytes: WipedBytes) -> Seq<u8>;

impl View for WipedBytes {
    type V = Seq<u8>;

    open spec fn view(&self) -> Seq<u8> {
        wiped_contents(*self)
    }
}

/// `zeroize::Zeroizing::new`: holds the bytes that it is given, and no others.
#[verifier::external_body]
fn wipe_on_drop(bytes: Vec<u8>) -> (wiped: WipedBytes)
    ensures
        wiped_contents(wiped) == bytes@,
{
    WipedBytes { bytes: Zeroizing::new(bytes) }
}

/// `Deref` of `zeroize::Zeroizing`, down to the vector's slice: the bytes that are held.
#[verifier::external_body]
fn borrow_wiped(wiped: &WipedBytes) -> (bytes: &[u8])
    ensures
        bytes@ == wiped_contents(*wiped),
{
    &wiped.bytes
}

/// `Vec::extend_from_slice` through `DerefMut` of `zeroize::Zeroizing`: the bytes stand behind those that
/// were held.
#[verifier::external_body]
fn extend_wiped(wiped: &mut WipedBytes, bytes: &[u8])
    ensures
        wiped_contents(*final(wiped)) == wiped_contents(*old(wiped)) + bytes@,
{
    wiped.bytes.extend_from_slice(bytes);
}

impl WipedBytes {
    /// Hold bytes until they are dropped.
    pub fn new(bytes: Vec<u8>) -> (wiped: WipedBytes)
        ensures
            wiped@ == bytes@,
    {
        wipe_on_drop(bytes)
    }

    /// The bytes that are held.
    pub fn as_slice(&self) -> (bytes: &[u8])
        ensures
            bytes@ == self@,
    {
        borrow_wiped(self)
    }

    /// Hold more bytes behind those that are held.
    pub fn append(&mut self, bytes: &[u8])
        ensures
            final(self)@ == old(self)@ + bytes@,
    {
        extend_wiped(self, bytes);
    }

    /// How many bytes are held.
    pub fn len(&self) -> (n: usize)
        ensures
            n == self@.len(),
    {
        self.as_slice().len()
    }
}

} // verus!
