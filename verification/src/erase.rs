//! Clearing of buffers that held secrets.
use vstd::prelude::*;
use zeroize::Zeroize;

verus! {

/// Overwrites the bytes with zero.
///
/// Calls `Zeroize::zeroize` of the `zeroize` crate on the byte slice. Its
/// contract is trusted: the slice keeps its length and every byte of it is zero.
#[verifier::external_body]
pub(crate) fn erase_bytes(bytes: &mut [u8])
    ensures
        final(bytes)@ == Seq::new(old(bytes)@.len(), |i: int| 0u8),
{
    bytes.zeroize();
}

/// Overwrites the signed digits with zero.
///
/// Calls `Zeroize::zeroize` of the `zeroize` crate on the digit slice. Its
/// contract is trusted: the slice keeps its length and every digit of it is zero.
#[verifier::external_body]
pub(crate) fn erase_digits(digits: &mut [i8])
    ensures
        final(digits)@ == Seq::new(old(digits)@.len(), |i: int| 0i8),
{
    digits.zeroize();
}

} // verus!
