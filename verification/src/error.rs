//! Failures that the operations report.
use vstd::prelude::*;

verus! {

/// Why an operation was refused or failed.
///
/// `Backend` carries a status word: a code of this crate, or one that the hardware
/// or its ROM reported.
#[derive(Clone, Copy, Debug, PartialEq, Eq)]
pub enum CryptoError {
    InvalidKey,
    InvalidLength,
    InvalidValue,
    ArithmeticOverflow,
    DivisionByZero,
    NotInvertible,
    EntropyRejected,
    EntropyHealthCheckFailed,
    KeyUsageViolation,
    InvalidPoint,
    UnsupportedGroup,
    Unsupported,
    Backend(u32),
}

} // verus!
