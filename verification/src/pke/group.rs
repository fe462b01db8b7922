//! Point and element checks of the portable P-256 implementation.
use crate::error::CryptoError;
use crate::pke::curve::{on_curve, operand_value, p256_prime, P256_P};
use hisi_crypto::sae::RustCryptoGroup19;
use vstd::prelude::*;

verus! {

/// Group 19 of the `hisi_crypto` crate.
#[verifier::external_type_specification]
#[verifier::external_body]
pub struct ExRustCryptoGroup19(hisi_crypto::sae::RustCryptoGroup19);

/// The number of the group.
pub const GROUP_19_ID: u16 = 19;

/// The number that the `hisi_crypto` crate gives the group.
///
/// Reads the constant `GROUP_19`. Its contract is trusted: the constant is 19.
#[verifier::external_body]
fn group_number() -> (group: u16)
    ensures
        group == GROUP_19_ID,
{
    hisi_crypto::sae::GROUP_19
}

/// The group with a number, if there is one.
///
/// Calls `RustCryptoGroup19::for_group` of the `hisi_crypto` crate. Its contract is
/// trusted: it knows the group with number 19 and no other.
#[verifier::external_body]
fn select_group(group: u16) -> (selected: Option<RustCryptoGroup19>)
    ensures
        selected is Some <==> group == GROUP_19_ID,
{
    RustCryptoGroup19::for_group(group).ok()
}

/// Whether two coordinates belong to a point of the group.
///
/// Calls `Group19::point_from_xy` of the `hisi_crypto` crate. Its contract is trusted: it
/// takes exactly the pairs of numbers below the field prime that satisfy the curve
/// equation.
#[verifier::external_body]
fn is_group_point(group: &RustCryptoGroup19, x: &[u8; 32], y: &[u8; 32]) -> (valid: bool)
    ensures
        valid == on_curve(operand_value(*x), operand_value(*y)),
{
    hisi_crypto::sae::Group19::point_from_xy(group, x, y).is_ok()
}

/// Whether 32 bytes denote a field element.
///
/// Calls `P256FieldElement::try_from_be_bytes` of the `hisi_crypto` crate. Its contract is
/// trusted: it takes exactly the numbers below the field prime.
#[verifier::external_body]
pub(crate) fn is_canonical(bytes: &[u8; 32]) -> (canonical: bool)
    ensures
        canonical == (operand_value(*bytes) < p256_prime()),
{
    hisi_crypto::sae::P256FieldElement::try_from_be_bytes(*bytes).is_ok()
}

/// The field prime that the `hisi_crypto` crate has.
///
/// Reads the constant `P256_FIELD_PRIME`. Its contract is trusted: the constant holds the
/// big-endian bytes of the P-256 prime.
#[verifier::external_body]
pub(crate) fn field_prime() -> (prime: [u8; 32])
    ensures
        prime == P256_P,
{
    hisi_crypto::sae::P256_FIELD_PRIME
}

/// Accepts the coordinates of a point of the curve and refuses all others.
pub fn validate_point(x: &[u8; 32], y: &[u8; 32]) -> (result: Result<(), CryptoError>)
    ensures
        result == if on_curve(operand_value(*x), operand_value(*y)) {
            Ok::<(), CryptoError>(())
        } else {
            Err(CryptoError::InvalidPoint)
        },
{
    match select_group(group_number()) {
        Some(group) => {
            if is_group_point(&group, x, y) {
                Ok(())
            } else {
                Err(CryptoError::InvalidPoint)
            }
        },
        None => Err(CryptoError::UnsupportedGroup),
    }
}

} // verus!
