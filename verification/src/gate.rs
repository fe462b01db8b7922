//! The rule by which a capability lets one operation in at a time.
use crate::error::CryptoError;
use vstd::prelude::*;

verus! {

/// The answer to an operation that wants in: the error with `code` while another one is in.
pub open spec fn entry(busy: bool, code: u32) -> Result<(), CryptoError> {
    if busy {
        Err(CryptoError::Backend(code))
    } else {
        Ok(())
    }
}

/// Sets a busy flag unless it is set already.
pub(crate) fn take(busy: &mut bool, code: u32) -> (result: Result<(), CryptoError>)
    ensures
        *final(busy),
        result == entry(*old(busy), code),
{
    if *busy {
        Err(CryptoError::Backend(code))
    } else {
        *busy = true;
        Ok(())
    }
}

} // verus!
