//! What requests are taken for, and which ones are refused.
use crate::bus::Reply;
use crate::crypto::{
    block_input, block_refusal, derive_refusal, hash_refusal, mac_refusal,
};
use crate::error::CryptoError;
use crate::laws::pke::pke_run;
use crate::laws::pke_device::{
    gives_multiples, is_followed, is_reduced, law_pke_result, pke_meets_machine, PkeMachine, Point,
    PointArithmetic,
};
use crate::padding::concat;
use crate::pke::curve::{operand_value, p256_prime, P256AffinePoint, P256PointResult};
use crate::pke::engine::{PkeEngine, PkeStage};
use crate::pke::p256::{
    adds, field_mul_output, multiplies, multiplies_elements, point_add_output, point_add_refusal,
    point_mul_output, point_mul_refusal,
};
use crate::spacc_cipher::{CipherAddresses, SpaccCipherPollLimits};
use crate::spacc_hash::{whole_message, HashAlgorithm};
use vstd::prelude::*;

verus! {

/// A derivation is taken exactly where the password fits one SHA-1 block, the salt leaves
/// room in one for the block number and the padding, the number of iterations is not zero
/// and fits sixteen bits, and no operation is in progress. What is wrong with the request
/// comes before the operation in progress.
pub proof fn law_derive_requests(busy: bool, password: Seq<u8>, salt: Seq<u8>, iterations: u32)
    ensures
        ({
            let fits = password.len() <= 64 && salt.len() + 4 + 1 + 8 <= 64 && 1 <= iterations
                < 0x1_0000;
            derive_refusal(busy, password, salt, iterations) == if !fits {
                Some(CryptoError::InvalidLength)
            } else if busy {
                Some(CryptoError::Backend(0xffff_1101))
            } else {
                None
            }
        }),
{
}

/// A hash is taken exactly where no operation is in progress, the message has at most 4096
/// bytes and the output has the length of the digest; its message is the parts in order.
pub proof fn law_hash_requests(
    busy: bool,
    algorithm: HashAlgorithm,
    parts: Seq<&[u8]>,
    output_len: nat,
)
    ensures
        hash_refusal(busy, algorithm, concat(parts), output_len) == if busy {
            Some(CryptoError::Backend(0xffff_1101))
        } else if concat(parts).len() > 4096 || output_len != match algorithm {
            HashAlgorithm::Sha1 => 20nat,
            HashAlgorithm::Sha256 => 32nat,
        } {
            Some(CryptoError::InvalidLength)
        } else {
            None
        },
        whole_message(parts).prefix + whole_message(parts).body == concat(parts),
{
    assert(whole_message(parts).prefix + whole_message(parts).body =~= concat(parts));
}

/// A MAC is taken exactly where no operation is in progress and the key and the message have
/// at most 4096 bytes each.
pub proof fn law_mac_requests(busy: bool, key: Seq<u8>, message: Seq<u8>)
    ensures
        mac_refusal(busy, key, message) == if busy {
            Some(CryptoError::Backend(0xffff_1101))
        } else if key.len() > 4096 || message.len() > 4096 {
            Some(CryptoError::InvalidLength)
        } else {
            None
        },
{
}

/// A block operation is taken exactly where no operation is in progress and the key has 16,
/// 24 or 32 bytes; it is about the caller's key, block and direction.
pub proof fn law_block_requests(
    busy: bool,
    limits: SpaccCipherPollLimits,
    key: Seq<u8>,
    block: Seq<u8>,
    addresses: CipherAddresses,
    decrypt: bool,
)
    ensures
        block_refusal(busy, key) == if busy {
            Some(CryptoError::Backend(0xffff_1101))
        } else if key.len() != 16 && key.len() != 24 && key.len() != 32 {
            Some(CryptoError::InvalidLength)
        } else {
            None
        },
        ({
            let input = block_input(limits, key, block, addresses, decrypt);
            &&& input.key == key
            &&& input.block == block
            &&& input.decrypt == decrypt
            &&& input.addresses == addresses
            &&& input.lock_polls == limits.channel_lock@
            &&& input.clear_polls == limits.channel_clear@
            &&& input.operation_polls == limits.operation@
            &&& input.keyslot_polls == limits.keyslot@
            &&& input.klad_polls == limits.klad@
        }),
{
}

/// A multiplication is taken exactly for a point of the curve, a scalar from one up to below
/// the order of the group, and where no operation is in progress; an addition exactly for two
/// points of the curve, and where no operation is in progress or none is needed because the
/// points are inverses of each other.
pub proof fn law_point_requests(
    busy: bool,
    a: P256AffinePoint,
    b: P256AffinePoint,
    scalar: [u8; 32],
)
    ensures
        point_mul_refusal(busy, a, scalar) == if !a.on_curve() {
            Some(CryptoError::InvalidPoint)
        } else if !(1 <= operand_value(scalar)
            < 0xffffffff00000000ffffffffffffffffbce6faada7179e84f3b9cac2fc632551) {
            Some(CryptoError::InvalidValue)
        } else if busy {
            Some(CryptoError::Backend(0xffff_1401))
        } else {
            None
        },
        point_add_refusal(busy, a, b) == if !a.on_curve() || !b.on_curve() {
            Some(CryptoError::InvalidPoint)
        } else if busy && (a.x != b.x || a.y == b.y) {
            Some(CryptoError::Backend(0xffff_1401))
        } else {
            None
        },
{
}

/// The point that coordinates stand for.
pub open spec fn as_point(point: P256AffinePoint) -> Point {
    Point::Affine { x: operand_value(point.x), y: operand_value(point.y) }
}

/// A multiplication that was taken delivers the multiple of the caller's point by the
/// caller's scalar; a doubling, which is a multiplication by two, delivers the sum of the
/// point with itself.
pub proof fn law_point_mul_delivers(
    group: PointArithmetic,
    times: spec_fn(int) -> Point,
    engine: PkeEngine,
    point: P256AffinePoint,
    scalar: int,
    machine: PkeMachine,
    replies: Seq<Reply>,
    before: P256AffinePoint,
)
    requires
        is_reduced(group),
        point.on_curve(),
        gives_multiples(group, as_point(point), times),
        scalar > 0,
        multiplies(engine, point, scalar),
        pke_meets_machine(group, engine.input(), engine.state(), machine, replies),
        pke_run(engine.input(), engine.state(), replies).state.stage == (PkeStage::Finished {
            result: Ok(()),
        }),
    ensures
        ({
            let outcome = pke_run(engine.input(), engine.state(), replies).state.outcome;
            &&& as_point(point_mul_output(outcome, before)) == times(scalar)
            &&& scalar == 2 ==> as_point(point_mul_output(outcome, before)) == (group.sum)(
                as_point(point),
                as_point(point),
            )
        }),
{
    let digits = engine.state().digits;
    if digits.len() == 0 {
        assert(crate::pke::naf::naf_value(digits) == 0);
    }
    law_pke_result(group, engine.input(), times, digits, machine, replies);
    assert(is_followed(group, as_point(point), times, 1));
}

/// An addition that was taken delivers the sum of the caller's points, the neutral element
/// where that is their sum.
pub proof fn law_point_add_delivers(
    group: PointArithmetic,
    engine: PkeEngine,
    a: P256AffinePoint,
    b: P256AffinePoint,
    machine: PkeMachine,
    replies: Seq<Reply>,
    before: P256PointResult,
)
    requires
        is_reduced(group),
        a.on_curve(),
        b.on_curve(),
        adds(engine, a, b),
        pke_meets_machine(group, engine.input(), engine.state(), machine, replies),
        pke_run(engine.input(), engine.state(), replies).state.stage == (PkeStage::Finished {
            result: Ok(()),
        }),
    ensures
        ({
            let outcome = pke_run(engine.input(), engine.state(), replies).state.outcome;
            (group.sum)(as_point(a), as_point(b)) == match point_add_output(outcome, before) {
                P256PointResult::Affine(point) => as_point(point),
                P256PointResult::Infinity => Point::Infinity,
            }
        }),
{
    let times = |k: int| Point::Infinity;
    law_pke_result(group, engine.input(), times, seq![], machine, replies);
}

/// A product that was taken delivers the product of the caller's elements modulo the field
/// prime.
pub proof fn law_field_mul_delivers(
    group: PointArithmetic,
    engine: PkeEngine,
    a: [u8; 32],
    b: [u8; 32],
    machine: PkeMachine,
    replies: Seq<Reply>,
    before: [u8; 32],
)
    requires
        multiplies_elements(engine, a, b),
        pke_meets_machine(group, engine.input(), engine.state(), machine, replies),
        pke_run(engine.input(), engine.state(), replies).state.stage == (PkeStage::Finished {
            result: Ok(()),
        }),
    ensures
        ({
            let outcome = pke_run(engine.input(), engine.state(), replies).state.outcome;
            operand_value(field_mul_output(outcome, before)) == (operand_value(a) * operand_value(
                b,
            )) % p256_prime()
        }),
{
    let times = |k: int| Point::Infinity;
    law_pke_result(group, engine.input(), times, seq![], machine, replies);
}

} // verus!
