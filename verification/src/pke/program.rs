//! What the public key engine is made to do for each operation.
//!
//! A program is a list of operand loads, instruction batches and operand reads. The
//! batches lie in the instruction ROM; each is named by its first word and its length.
use crate::big_endian::{be_value, subtract_one};
use crate::pke::curve::{law_curve_constants, p256_prime, P256_MONT_PARAM_P};
use crate::pke::group::field_prime;
use crate::pke::naf::{is_naf, naf_value};
use vstd::arithmetic::power2::{lemma_pow2_unfold, pow2};
use vstd::prelude::*;

verus! {

/// Sections of the data RAM for curve arithmetic.
pub const PKE_SECTION_M: u32 = 0;

pub const PKE_SECTION_CX: u32 = 3;

pub const PKE_SECTION_CY: u32 = 6;

pub const PKE_SECTION_AZ: u32 = 18;

pub const PKE_SECTION_PX: u32 = 21;

pub const PKE_SECTION_PY: u32 = 24;

pub const PKE_SECTION_GX: u32 = 27;

pub const PKE_SECTION_GY: u32 = 30;

pub const PKE_SECTION_N: u32 = 57;

/// Sections of the data RAM for modular multiplication.
pub const PKE_RSA_SECTION_N: u32 = 0;

pub const PKE_RSA_SECTION_RR: u32 = 32;

pub const PKE_RSA_SECTION_CONST_1: u32 = 48;

pub const PKE_RSA_SECTION_RESULT: u32 = 64;

pub const PKE_RSA_SECTION_T0: u32 = 96;

pub const PKE_RSA_SECTION_T1: u32 = 112;

/// First word of the modular multiplication batch.
pub const PKE_RSA_MOD_MUL_WORD_OFFSET: u32 = 326;

/// Instructions of the modular multiplication batch.
pub const PKE_RSA_MOD_MUL_INSTRUCTION_COUNT: u32 = 6;

/// The operations.
#[derive(Clone, Copy, Debug, PartialEq, Eq)]
pub enum PkeKind {
    /// A point times a scalar.
    PointMul,
    /// The sum of two points with different first coordinates.
    PointAdd,
    /// The product of two field elements.
    FieldMul,
}

/// Something to load into the data RAM.
#[derive(Clone, Copy, Debug, PartialEq, Eq)]
pub enum PkeOperand {
    /// The field prime.
    Prime,
    /// The squared Montgomery radix.
    SquaredRadix,
    /// One.
    One,
    /// First coordinate of the first point, or the first factor.
    FirstX,
    /// Second coordinate of the first point.
    FirstY,
    /// First coordinate of the second point, or the second factor.
    SecondX,
    /// Second coordinate of the second point.
    SecondY,
    /// What was read into a slot.
    Saved { slot: PkeSlot },
}

/// A place that an operand is read into.
#[derive(Clone, Copy, Debug, PartialEq, Eq)]
pub enum PkeSlot {
    /// First coordinate of the first point, and of the result; or the product.
    X,
    /// Second coordinate of the first point, and of the result.
    Y,
    /// First coordinate of the second point.
    OtherX,
    /// Second coordinate of the second point.
    OtherY,
    /// Third Jacobian coordinate of a sum.
    Z,
}

/// One thing to do.
#[derive(Clone, Copy, Debug, PartialEq, Eq)]
pub enum PkeOp {
    /// Load an operand into a section.
    Load { section: u32, operand: PkeOperand },
    /// Run a batch of the instruction ROM.
    Batch { offset: u32, count: u32 },
    /// Read a section into a slot.
    Save { section: u32, slot: PkeSlot },
    /// Set the Montgomery parameter.
    Montgomery { low: u32, high: u32 },
    /// End with the point at infinity if the third Jacobian coordinate is zero.
    StopAtInfinity,
}

/// Sets the Montgomery parameter of the field prime.
pub open spec fn prime_parameter() -> PkeOp {
    PkeOp::Montgomery { low: P256_MONT_PARAM_P@[1], high: P256_MONT_PARAM_P@[0] }
}

/// Makes the field prime the modulus.
pub open spec fn select_prime_field() -> Seq<PkeOp> {
    seq![
        PkeOp::Load { section: PKE_SECTION_N, operand: PkeOperand::Prime },
        PkeOp::Batch { offset: 197, count: 1 },
        prime_parameter(),
    ]
}

/// Transforms a point to Montgomery form and reads it back.
pub open spec fn montgomery_affine(
    x: PkeOperand,
    y: PkeOperand,
    slot_x: PkeSlot,
    slot_y: PkeSlot,
) -> Seq<PkeOp> {
    seq![
        PkeOp::Load { section: PKE_SECTION_PX, operand: x },
        PkeOp::Load { section: PKE_SECTION_PY, operand: y },
        PkeOp::Load { section: PKE_SECTION_M, operand: PkeOperand::Prime },
        PkeOp::Batch { offset: 163, count: 2 },
        PkeOp::Save { section: PKE_SECTION_PX, slot: slot_x },
        PkeOp::Save { section: PKE_SECTION_PY, slot: slot_y },
    ]
}

/// The digits of a number in base four, most significant first.
pub open spec fn base_four(value: nat) -> Seq<u8>
    decreases value,
{
    if value == 0 {
        seq![]
    } else {
        base_four(value / 4).push((value % 4) as u8)
    }
}

/// The batch for one base-four digit of an exponent: two squarings, and a multiplication
/// unless the digit is zero.
pub open spec fn exponent_op(digit: u8) -> PkeOp {
    if digit == 0 {
        PkeOp::Batch { offset: 148, count: 2 }
    } else if digit == 1 {
        PkeOp::Batch { offset: 148, count: 3 }
    } else if digit == 2 {
        PkeOp::Batch { offset: 151, count: 3 }
    } else {
        PkeOp::Batch { offset: 154, count: 3 }
    }
}

/// The batches for all digits of an exponent.
pub open spec fn exponent_ops(exponent: nat) -> Seq<PkeOp> {
    Seq::new(base_four(exponent).len(), |i: int| exponent_op(base_four(exponent)[i]))
}

/// Transforms the point at hand from Jacobian to affine form; the inverse of the third
/// coordinate is its power to the prime less two.
pub open spec fn jacobian_to_affine() -> Seq<PkeOp> {
    seq![PkeOp::Batch { offset: 143, count: 5 }] + exponent_ops((p256_prime() - 2) as nat) + seq![
        PkeOp::Batch { offset: 157, count: 4 },
    ]
}

/// The batch for one digit of a scalar: a doubling, with the point added or subtracted
/// after it unless the digit is zero.
pub open spec fn digit_op(digit: i8) -> PkeOp {
    if digit == 1 {
        PkeOp::Batch { offset: 0, count: 40 }
    } else if digit == -1 {
        PkeOp::Batch { offset: 40, count: 40 }
    } else {
        PkeOp::Batch { offset: 0, count: 22 }
    }
}

/// The batches for all digits below the leading one, most significant first.
pub open spec fn digit_ops(digits: Seq<i8>) -> Seq<PkeOp> {
    if digits.len() == 0 {
        seq![]
    } else {
        Seq::new(
            (digits.len() - 1) as nat,
            |i: int| digit_op(digits[digits.len() - 2 - i]),
        )
    }
}

/// What comes before the digits of a scalar.
pub open spec fn pke_head(kind: PkeKind) -> Seq<PkeOp> {
    match kind {
        PkeKind::PointMul => select_prime_field() + montgomery_affine(
            PkeOperand::FirstX,
            PkeOperand::FirstY,
            PkeSlot::X,
            PkeSlot::Y,
        ) + seq![
            PkeOp::Load {
                section: PKE_SECTION_PX,
                operand: PkeOperand::Saved { slot: PkeSlot::X },
            },
            PkeOp::Load {
                section: PKE_SECTION_PY,
                operand: PkeOperand::Saved { slot: PkeSlot::Y },
            },
            PkeOp::Load { section: PKE_SECTION_M, operand: PkeOperand::Prime },
            PkeOp::Batch { offset: 177, count: 3 },
            PkeOp::Batch { offset: 180, count: 2 },
        ],
        PkeKind::PointAdd => select_prime_field() + montgomery_affine(
            PkeOperand::FirstX,
            PkeOperand::FirstY,
            PkeSlot::X,
            PkeSlot::Y,
        ) + montgomery_affine(
            PkeOperand::SecondX,
            PkeOperand::SecondY,
            PkeSlot::OtherX,
            PkeSlot::OtherY,
        ) + seq![
            PkeOp::Load {
                section: PKE_SECTION_PX,
                operand: PkeOperand::Saved { slot: PkeSlot::X },
            },
            PkeOp::Load {
                section: PKE_SECTION_PY,
                operand: PkeOperand::Saved { slot: PkeSlot::Y },
            },
            PkeOp::Load {
                section: PKE_SECTION_GX,
                operand: PkeOperand::Saved { slot: PkeSlot::OtherX },
            },
            PkeOp::Load {
                section: PKE_SECTION_GY,
                operand: PkeOperand::Saved { slot: PkeSlot::OtherY },
            },
            PkeOp::Batch { offset: 125, count: 18 },
            PkeOp::Save { section: PKE_SECTION_AZ, slot: PkeSlot::Z },
            PkeOp::StopAtInfinity,
            PkeOp::Batch { offset: 182, count: 3 },
        ],
        PkeKind::FieldMul => seq![
            prime_parameter(),
            PkeOp::Load { section: PKE_RSA_SECTION_N, operand: PkeOperand::Prime },
            PkeOp::Load { section: PKE_RSA_SECTION_RR, operand: PkeOperand::SquaredRadix },
            PkeOp::Load { section: PKE_RSA_SECTION_T0, operand: PkeOperand::FirstX },
            PkeOp::Load { section: PKE_RSA_SECTION_T1, operand: PkeOperand::SecondX },
            PkeOp::Load { section: PKE_RSA_SECTION_CONST_1, operand: PkeOperand::One },
            PkeOp::Batch {
                offset: PKE_RSA_MOD_MUL_WORD_OFFSET,
                count: PKE_RSA_MOD_MUL_INSTRUCTION_COUNT,
            },
        ],
    }
}

/// What comes after the digits of a scalar.
pub open spec fn pke_tail(kind: PkeKind) -> Seq<PkeOp> {
    if kind is FieldMul {
        seq![PkeOp::Save { section: PKE_RSA_SECTION_RESULT, slot: PkeSlot::X }]
    } else {
        jacobian_to_affine() + seq![
            PkeOp::Batch { offset: 165, count: 6 },
            PkeOp::Save { section: PKE_SECTION_CX, slot: PkeSlot::X },
            PkeOp::Save { section: PKE_SECTION_CY, slot: PkeSlot::Y },
        ]
    }
}

/// The program of an operation; `digits` is the scalar in non-adjacent form, least
/// significant digit first, and empty where there is no scalar.
pub open spec fn pke_program(kind: PkeKind, digits: Seq<i8>) -> Seq<PkeOp> {
    pke_head(kind) + digit_ops(digits) + pke_tail(kind)
}

/// The multiple of a point that a run of digit batches leaves, starting from a multiple.
pub open spec fn multiple_after(start: int, ops: Seq<PkeOp>) -> int
    decreases ops.len(),
{
    if ops.len() == 0 {
        start
    } else {
        let before = multiple_after(start, ops.drop_last());
        if ops.last() == digit_op(1) {
            2 * before + 1
        } else if ops.last() == digit_op(-1i8) {
            2 * before - 1
        } else {
            2 * before
        }
    }
}

proof fn lemma_digit_prefix(digits: Seq<i8>, k: int)
    requires
        is_naf(digits),
        0 <= k < digits.len(),
    ensures
        naf_value(digits) == multiple_after(1, digit_ops(digits).take(k)) * pow2(
            (digits.len() - 1 - k) as nat,
        ) + naf_value(digits.take(digits.len() - 1 - k)),
    decreases k,
{
    let n = digits.len() as int;
    let ops = digit_ops(digits);
    if k == 0 {
        assert(ops.take(0) =~= seq![]);
        assert(digits.drop_last() =~= digits.take(n - 1));
    } else {
        lemma_digit_prefix(digits, k - 1);
        let low = digits.take(n - k);
        let d = digits[n - 1 - k];
        assert(low.drop_last() =~= digits.take(n - 1 - k));
        assert(low.last() == d);
        assert(ops.take(k).drop_last() =~= ops.take(k - 1));
        assert(ops.take(k).last() == digit_op(d));
        let m = multiple_after(1, ops.take(k - 1));
        let power = pow2((n - 1 - k) as nat) as int;
        lemma_pow2_unfold((n - k) as nat);
        assert(multiple_after(1, ops.take(k)) == 2 * m + d);
        assert(m * (2 * power) + d * power == (2 * m + d) * power) by (nonlinear_arith);
    }
}

/// The digit batches multiply by the scalar: starting from the point itself, doubling for
/// each digit below the leading one and adding or subtracting the point as the digit says
/// leaves the multiple that the digits denote.
pub proof fn law_digits_multiply_by_scalar(digits: Seq<i8>)
    requires
        is_naf(digits),
        digits.len() > 0,
    ensures
        multiple_after(1, digit_ops(digits)) == naf_value(digits),
{
    let n = digits.len() as int;
    lemma_digit_prefix(digits, n - 1);
    assert(digit_ops(digits).take(n - 1) =~= digit_ops(digits));
    assert(digits.take(0) =~= seq![]);
    vstd::arithmetic::power2::lemma2_to64();
}

/// The exponent that a run of exponent batches leaves, starting from an exponent.
pub open spec fn exponent_after(start: nat, ops: Seq<PkeOp>) -> nat
    decreases ops.len(),
{
    if ops.len() == 0 {
        start
    } else {
        let before = exponent_after(start, ops.drop_last());
        if ops.last() == exponent_op(0) {
            4 * before
        } else if ops.last() == exponent_op(1) {
            4 * before + 1
        } else if ops.last() == exponent_op(2) {
            4 * before + 2
        } else {
            4 * before + 3
        }
    }
}

/// The exponent batches raise to the exponent: starting from exponent zero, squaring
/// twice and multiplying in the digit leaves the exponent that the batches were made for.
pub proof fn law_exponent_batches(exponent: nat)
    ensures
        exponent_after(0, exponent_ops(exponent)) == exponent,
    decreases exponent,
{
    let ops = exponent_ops(exponent);
    if exponent > 0 {
        law_exponent_batches(exponent / 4);
        assert(ops.drop_last() =~= exponent_ops(exponent / 4));
        assert(ops.last() == exponent_op((exponent % 4) as u8));
    }
}

/// Pair `t` of the bits of a byte string, most significant pair first.
spec fn pair_at(bytes: Seq<u8>, t: int) -> int {
    let byte = bytes[t / 4];
    if t % 4 == 0 {
        byte as int / 64
    } else if t % 4 == 1 {
        byte as int / 16 % 4
    } else if t % 4 == 2 {
        byte as int / 4 % 4
    } else {
        byte as int % 4
    }
}

/// The number that the first `t` pairs denote.
spec fn pair_prefix(bytes: Seq<u8>, t: int) -> nat
    decreases t,
{
    if t <= 0 {
        0
    } else {
        (4 * pair_prefix(bytes, t - 1) + pair_at(bytes, t - 1)) as nat
    }
}

proof fn lemma_pair_prefix(bytes: Seq<u8>, k: int)
    requires
        0 <= k <= bytes.len(),
    ensures
        pair_prefix(bytes, 4 * k) == be_value(bytes.take(k)),
    decreases k,
{
    if k > 0 {
        lemma_pair_prefix(bytes, k - 1);
        let t = 4 * (k - 1);
        assert(bytes.take(k).drop_last() =~= bytes.take(k - 1));
        assert(t / 4 == k - 1 && (t + 1) / 4 == k - 1 && (t + 2) / 4 == k - 1 && (t + 3) / 4 == k
            - 1);
        assert(t % 4 == 0 && (t + 1) % 4 == 1 && (t + 2) % 4 == 2 && (t + 3) % 4 == 3);
        let byte = bytes[k - 1] as int;
        assert(pair_prefix(bytes, t + 1) == 4 * pair_prefix(bytes, t) + byte / 64);
        assert(pair_prefix(bytes, t + 2) == 4 * pair_prefix(bytes, t + 1) + byte / 16 % 4);
        assert(pair_prefix(bytes, t + 3) == 4 * pair_prefix(bytes, t + 2) + byte / 4 % 4);
        assert(pair_prefix(bytes, t + 4) == 4 * pair_prefix(bytes, t + 3) + byte % 4);
    } else {
        assert(bytes.take(0) =~= seq![]);
    }
}

/// Pair `t` of the bits of a byte string, most significant pair first.
fn bit_pair(bytes: &[u8; 32], t: usize) -> (pair: u8)
    requires
        t < 128,
    ensures
        pair == pair_at(bytes@, t as int),
        pair < 4,
{
    let byte = bytes[t / 4];
    if t % 4 == 0 {
        byte / 64
    } else if t % 4 == 1 {
        byte / 16 % 4
    } else if t % 4 == 2 {
        byte / 4 % 4
    } else {
        byte % 4
    }
}

/// The batch for one base-four digit of an exponent.
fn exponent_batch(digit: u8) -> (op: PkeOp)
    ensures
        op == exponent_op(digit),
{
    if digit == 0 {
        PkeOp::Batch { offset: 148, count: 2 }
    } else if digit == 1 {
        PkeOp::Batch { offset: 148, count: 3 }
    } else if digit == 2 {
        PkeOp::Batch { offset: 151, count: 3 }
    } else {
        PkeOp::Batch { offset: 154, count: 3 }
    }
}

/// The batch for one digit of a scalar.
pub(crate) fn digit_batch(digit: i8) -> (op: PkeOp)
    ensures
        op == digit_op(digit),
{
    if digit == 1 {
        PkeOp::Batch { offset: 0, count: 40 }
    } else if digit == -1 {
        PkeOp::Batch { offset: 40, count: 40 }
    } else {
        PkeOp::Batch { offset: 0, count: 22 }
    }
}

/// Sets the Montgomery parameter of the field prime.
fn set_prime_parameter() -> (op: PkeOp)
    ensures
        op == prime_parameter(),
{
    PkeOp::Montgomery { low: P256_MONT_PARAM_P[1], high: P256_MONT_PARAM_P[0] }
}

/// Appends the selection of the prime field.
fn push_prime_field(ops: &mut Vec<PkeOp>)
    ensures
        final(ops)@ == old(ops)@ + select_prime_field(),
{
    let ghost before = ops@;
    ops.push(PkeOp::Load { section: PKE_SECTION_N, operand: PkeOperand::Prime });
    ops.push(PkeOp::Batch { offset: 197, count: 1 });
    ops.push(set_prime_parameter());
    proof {
        assert(ops@ =~= before + select_prime_field());
    }
}

/// Appends the transformation of a point to Montgomery form.
fn push_montgomery_affine(
    ops: &mut Vec<PkeOp>,
    x: PkeOperand,
    y: PkeOperand,
    slot_x: PkeSlot,
    slot_y: PkeSlot,
)
    ensures
        final(ops)@ == old(ops)@ + montgomery_affine(x, y, slot_x, slot_y),
{
    let ghost before = ops@;
    ops.push(PkeOp::Load { section: PKE_SECTION_PX, operand: x });
    ops.push(PkeOp::Load { section: PKE_SECTION_PY, operand: y });
    ops.push(PkeOp::Load { section: PKE_SECTION_M, operand: PkeOperand::Prime });
    ops.push(PkeOp::Batch { offset: 163, count: 2 });
    ops.push(PkeOp::Save { section: PKE_SECTION_PX, slot: slot_x });
    ops.push(PkeOp::Save { section: PKE_SECTION_PY, slot: slot_y });
    proof {
        assert(ops@ =~= before + montgomery_affine(x, y, slot_x, slot_y));
    }
}

/// Appends the transformation from Jacobian to affine form.
fn push_jacobian_to_affine(ops: &mut Vec<PkeOp>)
    ensures
        final(ops)@ == old(ops)@ + jacobian_to_affine(),
{
    let ghost before = ops@;
    ops.push(PkeOp::Batch { offset: 143, count: 5 });
    let mut exponent: [u8; 32] = field_prime();
    proof {
        law_curve_constants();
    }
    subtract_one(&mut exponent);
    subtract_one(&mut exponent);
    let ghost target = (p256_prime() - 2) as nat;
    let ghost opened = ops@;
    assert(be_value(exponent@) == target);
    let mut started = false;
    let mut t: usize = 0;
    proof {
        assert(exponent_ops(0) =~= seq![]);
        assert(ops@ =~= opened + exponent_ops(0));
    }
    while t < 128
        invariant
            t <= 128,
            ops@ == opened + exponent_ops(pair_prefix(exponent@, t as int)),
            started == (pair_prefix(exponent@, t as int) != 0),
        decreases 128 - t,
    {
        let pair = bit_pair(&exponent, t);
        let ghost prefix = pair_prefix(exponent@, t as int);
        let ghost next = pair_prefix(exponent@, t as int + 1);
        assert(next == 4 * prefix + pair);
        if started || pair != 0 {
            started = true;
            ops.push(exponent_batch(pair));
            proof {
                assert(next / 4 == prefix && next % 4 == pair);
                assert(base_four(next) == base_four(prefix).push(pair));
                assert(exponent_ops(next) =~= exponent_ops(prefix).push(exponent_op(pair)));
                assert(ops@ =~= opened + exponent_ops(next));
            }
        }
        t += 1;
    }
    proof {
        lemma_pair_prefix(exponent@, 32);
        assert(exponent@.take(32) =~= exponent@);
    }
    ops.push(PkeOp::Batch { offset: 157, count: 4 });
    proof {
        assert(ops@ =~= before + jacobian_to_affine());
    }
}

/// What comes before the digits of a scalar.
pub(crate) fn build_head(kind: PkeKind) -> (ops: Vec<PkeOp>)
    ensures
        ops@ == pke_head(kind),
{
    let mut ops: Vec<PkeOp> = Vec::new();
    match kind {
        PkeKind::FieldMul => {
            ops.push(set_prime_parameter());
            ops.push(PkeOp::Load { section: PKE_RSA_SECTION_N, operand: PkeOperand::Prime });
            ops.push(PkeOp::Load { section: PKE_RSA_SECTION_RR, operand: PkeOperand::SquaredRadix });
            ops.push(PkeOp::Load { section: PKE_RSA_SECTION_T0, operand: PkeOperand::FirstX });
            ops.push(PkeOp::Load { section: PKE_RSA_SECTION_T1, operand: PkeOperand::SecondX });
            ops.push(PkeOp::Load { section: PKE_RSA_SECTION_CONST_1, operand: PkeOperand::One });
            ops.push(
                PkeOp::Batch {
                    offset: PKE_RSA_MOD_MUL_WORD_OFFSET,
                    count: PKE_RSA_MOD_MUL_INSTRUCTION_COUNT,
                },
            );
        },
        PkeKind::PointMul => {
            push_prime_field(&mut ops);
            push_montgomery_affine(
                &mut ops,
                PkeOperand::FirstX,
                PkeOperand::FirstY,
                PkeSlot::X,
                PkeSlot::Y,
            );
            let x = PkeOperand::Saved { slot: PkeSlot::X };
            let y = PkeOperand::Saved { slot: PkeSlot::Y };
            ops.push(PkeOp::Load { section: PKE_SECTION_PX, operand: x });
            ops.push(PkeOp::Load { section: PKE_SECTION_PY, operand: y });
            ops.push(PkeOp::Load { section: PKE_SECTION_M, operand: PkeOperand::Prime });
            ops.push(PkeOp::Batch { offset: 177, count: 3 });
            ops.push(PkeOp::Batch { offset: 180, count: 2 });
        },
        PkeKind::PointAdd => {
            push_prime_field(&mut ops);
            push_montgomery_affine(
                &mut ops,
                PkeOperand::FirstX,
                PkeOperand::FirstY,
                PkeSlot::X,
                PkeSlot::Y,
            );
            push_montgomery_affine(
                &mut ops,
                PkeOperand::SecondX,
                PkeOperand::SecondY,
                PkeSlot::OtherX,
                PkeSlot::OtherY,
            );
            let a_x = PkeOperand::Saved { slot: PkeSlot::X };
            let a_y = PkeOperand::Saved { slot: PkeSlot::Y };
            let b_x = PkeOperand::Saved { slot: PkeSlot::OtherX };
            let b_y = PkeOperand::Saved { slot: PkeSlot::OtherY };
            ops.push(PkeOp::Load { section: PKE_SECTION_PX, operand: a_x });
            ops.push(PkeOp::Load { section: PKE_SECTION_PY, operand: a_y });
            ops.push(PkeOp::Load { section: PKE_SECTION_GX, operand: b_x });
            ops.push(PkeOp::Load { section: PKE_SECTION_GY, operand: b_y });
            ops.push(PkeOp::Batch { offset: 125, count: 18 });
            ops.push(PkeOp::Save { section: PKE_SECTION_AZ, slot: PkeSlot::Z });
            ops.push(PkeOp::StopAtInfinity);
            ops.push(PkeOp::Batch { offset: 182, count: 3 });
        },
    }
    proof {
        assert(ops@ =~= pke_head(kind));
    }
    ops
}

/// What comes after the digits of a scalar.
pub(crate) fn build_tail(kind: PkeKind) -> (ops: Vec<PkeOp>)
    ensures
        ops@ == pke_tail(kind),
{
    let mut ops: Vec<PkeOp> = Vec::new();
    match kind {
        PkeKind::FieldMul => {
            ops.push(PkeOp::Save { section: PKE_RSA_SECTION_RESULT, slot: PkeSlot::X });
        },
        _ => {
            push_jacobian_to_affine(&mut ops);
            ops.push(PkeOp::Batch { offset: 165, count: 6 });
            ops.push(PkeOp::Save { section: PKE_SECTION_CX, slot: PkeSlot::X });
            ops.push(PkeOp::Save { section: PKE_SECTION_CY, slot: PkeSlot::Y });
        },
    }
    proof {
        assert(ops@ =~= pke_tail(kind));
    }
    ops
}

} // verus!
