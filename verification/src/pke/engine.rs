//! One operation of the public key engine.
use crate::bus::{answers, Ask, Command, Reply, Source, Step};
use crate::bytes::{le_word, read_word};
use crate::big_endian::{is_zero, lemma_be_value_bound};
use crate::erase::{erase_bytes, erase_digits};
use crate::error::CryptoError;
use crate::pke::curve::{
    law_curve_constants, on_curve, operand_value, p256_prime, P256AffinePoint, P256FieldElement,
    CONST_ONE, CONST_ZERO, P256_P, P256_RRP,
};
use crate::pke::group::{field_prime, validate_point};
use crate::pke::naf::{is_naf, lemma_byte_radix_is_pow2, naf_value, scalar_to_naf, NAF_DIGITS};
use crate::pke::program::{
    base_four, build_head, build_tail, digit_batch, digit_ops, exponent_ops, jacobian_to_affine,
    pke_head, pke_program, pke_tail, PkeKind, PkeOp, PkeOperand, PkeSlot,
};
use vstd::arithmetic::power2::{lemma_pow2_adds, pow2};
use vstd::prelude::*;

verus! {

/// The entropy source gave no usable mask.
pub const ERR_MASK_ENTROPY: u32 = 0xffff_1402;

/// The engine was not locked within the poll limit.
pub const ERR_LOCK_TIMEOUT: u32 = 0xffff_1403;

/// The engine did not take a batch within the poll limit.
pub const ERR_INSTR_READY_TIMEOUT: u32 = 0xffff_1404;

/// A batch, or the clearing of the data RAM, did not complete within the poll limit.
pub const ERR_OPERATION_TIMEOUT: u32 = 0xffff_1405;

/// A batch completed with another status than the one for success.
pub const ERR_FINISH_STATUS: u32 = 0xffff_1406;

/// Limit of every poll of the engine.
pub const PKE_POLL_LIMIT: u32 = 10_000_000;

/// Times that the entropy source is asked for a mask.
pub const PKE_MASK_TRIES: u32 = 8;

/// Lock status while this processor holds the engine.
pub const PKE_ACPU_LOCK_CODE: u32 = 0xaa;

/// Start command of a batch.
pub const PKE_BATCH_START_CODE: u16 = 0x05aa;

/// Completion status of a batch that succeeded.
pub const PKE_FINISH_CODE: u8 = 0x05;

/// Operand length code for 256 bits.
pub const PKE_WORK_LEN_256: u32 = 4;

/// Address of the instruction ROM.
pub const PKE_INSTRUCTION_ROM: usize = 0x00c0_0000;

/// The address of the instruction ROM in the `hisi_rom_sys` crate.
///
/// Reads the constant `PKE_INSTRUCTION_ROM_START`. Its contract is trusted: the constant
/// is 0x00c0_0000.
#[verifier::external_body]
fn instruction_rom() -> (address: usize)
    ensures
        address == PKE_INSTRUCTION_ROM,
{
    hisi_rom_sys::ws63::security::PKE_INSTRUCTION_ROM_START
}

/// A batch of the instruction ROM: its address and its number of instructions.
#[derive(Clone, Copy, Debug, PartialEq, Eq)]
pub struct RomLib {
    pub instr_addr: u32,
    pub instr_num: u32,
}

/// Operands that have been read from the data RAM.
#[derive(Clone, Copy, Debug, PartialEq, Eq)]
pub struct PkeSaved {
    pub x: [u8; 32],
    pub y: [u8; 32],
    pub other_x: [u8; 32],
    pub other_y: [u8; 32],
    pub z: [u8; 32],
}

/// What an operation leaves for the caller's output.
#[derive(Clone, Copy, Debug, PartialEq, Eq)]
pub enum PkeOutcome {
    /// The output keeps what it held.
    Untouched,
    /// The output is cleared.
    Cleared,
    /// The output is the point at infinity.
    Infinity,
    /// The output is a point.
    Point { point: P256AffinePoint },
    /// The output is a field element.
    Element { bytes: [u8; 32] },
}

/// Where an operation stands. Each stage but the last has one question open; `polls`
/// counts the reads that are left, the open one included.
#[derive(Clone, Copy, Debug, PartialEq, Eq)]
pub enum PkeStage {
    /// Asking for a mask; `tries` counts the requests that are left.
    Entropy { tries: u32 },
    /// Waiting for the lock.
    Lock { polls: u32 },
    /// Loading the curve parameters.
    Curve,
    /// Waiting until the engine takes a batch.
    Ready { index: usize, polls: u32 },
    /// Waiting until a batch completes.
    Busy { index: usize, polls: u32 },
    /// Reading the completion status of a batch.
    Finish { index: usize },
    /// Reading an operand.
    Operand { index: usize },
    /// Waiting until the data RAM is clear.
    Clean { polls: u32, result: Result<(), CryptoError> },
    /// Over.
    Finished { result: Result<(), CryptoError> },
}

/// What an operation is about.
pub struct PkeInput {
    pub kind: PkeKind,
    pub first_x: [u8; 32],
    pub first_y: [u8; 32],
    pub second_x: [u8; 32],
    pub second_y: [u8; 32],
}

/// What changes while an operation runs. `digits` is the scalar in non-adjacent form.
pub struct PkeState {
    pub stage: PkeStage,
    pub mask: u32,
    pub digits: Seq<i8>,
    pub saved: PkeSaved,
    pub outcome: PkeOutcome,
}

/// A state and the commands that lead into it.
pub struct PkeMove {
    pub state: PkeState,
    pub commands: Seq<Command>,
}

/// Slots that hold nothing.
pub open spec fn nothing_saved() -> PkeSaved {
    PkeSaved {
        x: CONST_ZERO,
        y: CONST_ZERO,
        other_x: CONST_ZERO,
        other_y: CONST_ZERO,
        z: CONST_ZERO,
    }
}

impl PkeState {
    /// The program of the operation.
    pub open spec fn program(self, input: PkeInput) -> Seq<PkeOp> {
        pke_program(input.kind, self.digits)
    }

    pub open spec fn valid(self, input: PkeInput) -> bool {
        &&& self.digits.len() <= NAF_DIGITS
        &&& outcome_fits(input.kind, self.outcome)
        &&& match self.stage {
            PkeStage::Clean { result, .. } => result is Ok ==> delivers(self.outcome),
            PkeStage::Finished { result } => result is Ok ==> delivers(self.outcome),
            _ => self.outcome is Untouched,
        }
        &&& match self.stage {
            PkeStage::Entropy { tries } => tries > 0,
            PkeStage::Lock { polls } => polls > 0,
            PkeStage::Ready { index, polls } => polls > 0 && index < self.program(input).len()
                && self.program(input)[index as int] is Batch,
            PkeStage::Busy { index, polls } => polls > 0 && index < self.program(input).len()
                && self.program(input)[index as int] is Batch,
            PkeStage::Finish { index } => index < self.program(input).len() && self.program(
                input,
            )[index as int] is Batch,
            PkeStage::Operand { index } => index < self.program(input).len() && self.program(
                input,
            )[index as int] is Save,
            PkeStage::Clean { polls, .. } => polls > 0,
            _ => true,
        }
    }
}

/// Whether an outcome is one that an operation can have: results are points of the curve,
/// or numbers below the prime.
pub open spec fn outcome_fits(kind: PkeKind, outcome: PkeOutcome) -> bool {
    match outcome {
        PkeOutcome::Untouched => true,
        PkeOutcome::Cleared => true,
        PkeOutcome::Infinity => kind is PointAdd,
        PkeOutcome::Point { point } => !(kind is FieldMul) && point.on_curve(),
        PkeOutcome::Element { bytes } => kind is FieldMul && operand_value(bytes) < p256_prime(),
    }
}

/// Whether an outcome is a result.
pub open spec fn delivers(outcome: PkeOutcome) -> bool {
    outcome is Infinity || outcome is Point || outcome is Element
}

/// The state before the first answer.
pub open spec fn pke_start(digits: Seq<i8>) -> PkeState {
    PkeState {
        stage: PkeStage::Entropy { tries: PKE_MASK_TRIES },
        mask: 0,
        digits,
        saved: nothing_saved(),
        outcome: PkeOutcome::Untouched,
    }
}

/// The question that a state has open.
pub open spec fn pke_ask(input: PkeInput, state: PkeState) -> Ask {
    match state.stage {
        PkeStage::Entropy { .. } => Ask::Entropy,
        PkeStage::Lock { .. } => Ask::Read { source: Source::PkeLock },
        PkeStage::Curve => Ask::LoadCurve,
        PkeStage::Ready { .. } => Ask::Read { source: Source::PkeReady },
        PkeStage::Busy { .. } => Ask::Read { source: Source::PkeBusy },
        PkeStage::Finish { .. } => Ask::Read { source: Source::PkeFinish },
        PkeStage::Operand { index } => Ask::PkeRam {
            section: state.program(input)[index as int]->Save_section,
        },
        PkeStage::Clean { .. } => Ask::Read { source: Source::PkeBusy },
        PkeStage::Finished { .. } => Ask::Finished,
    }
}

/// The bytes of an operand.
pub open spec fn operand_bytes(
    input: PkeInput,
    saved: PkeSaved,
    operand: PkeOperand,
) -> [u8; 32] {
    match operand {
        PkeOperand::Prime => P256_P,
        PkeOperand::SquaredRadix => P256_RRP,
        PkeOperand::One => CONST_ONE,
        PkeOperand::FirstX => input.first_x,
        PkeOperand::FirstY => input.first_y,
        PkeOperand::SecondX => input.second_x,
        PkeOperand::SecondY => input.second_y,
        PkeOperand::Saved { slot } => match slot {
            PkeSlot::X => saved.x,
            PkeSlot::Y => saved.y,
            PkeSlot::OtherX => saved.other_x,
            PkeSlot::OtherY => saved.other_y,
            PkeSlot::Z => saved.z,
        },
    }
}

/// The slots with an operand put into one of them.
pub open spec fn with_saved(saved: PkeSaved, slot: PkeSlot, bytes: [u8; 32]) -> PkeSaved {
    match slot {
        PkeSlot::X => PkeSaved { x: bytes, ..saved },
        PkeSlot::Y => PkeSaved { y: bytes, ..saved },
        PkeSlot::OtherX => PkeSaved { other_x: bytes, ..saved },
        PkeSlot::OtherY => PkeSaved { other_y: bytes, ..saved },
        PkeSlot::Z => PkeSaved { z: bytes, ..saved },
    }
}

/// Starts a batch.
pub open spec fn batch_start(offset: u32, count: u32) -> Seq<Command> {
    seq![
        Command::PkeAddressLow { word: (PKE_INSTRUCTION_ROM + 4 * offset) as u32 },
        Command::PkeAddressHigh { word: 0 },
        Command::PkeLength { length: (4 * count) as u32 },
        Command::PkeFinish { latch: 1 },
        Command::PkeStart { code: PKE_BATCH_START_CODE },
    ]
}

/// Switches noise and masking on.
pub open spec fn pke_protect(mask: u32) -> Seq<Command> {
    seq![
        Command::PkeNoise { enable: true },
        Command::PkeMaskGenerator { enable: true },
        Command::PkeMask { mask },
    ]
}

/// Switches masking and noise off and gives the engine back.
pub open spec fn pke_release() -> Seq<Command> {
    seq![
        Command::PkeMask { mask: 0 },
        Command::PkeMaskGenerator { enable: false },
        Command::PkeNoise { enable: false },
        Command::PkeLock { release: true },
    ]
}

/// An operation that goes on to another stage.
pub open spec fn pke_go(state: PkeState, stage: PkeStage, commands: Seq<Command>) -> PkeMove {
    PkeMove { state: PkeState { stage, ..state }, commands }
}

/// An operation that ends without ever having had the engine.
pub open spec fn pke_abandon(error: CryptoError, outcome: PkeOutcome) -> PkeMove {
    PkeMove {
        state: PkeState {
            stage: PkeStage::Finished { result: Err(error) },
            mask: 0,
            digits: seq![],
            saved: nothing_saved(),
            outcome,
        },
        commands: seq![],
    }
}

/// An operation that has its result: secrets dropped, data RAM about to be cleared.
pub open spec fn pke_close(
    result: Result<(), CryptoError>,
    outcome: PkeOutcome,
    commands: Seq<Command>,
) -> PkeMove {
    PkeMove {
        state: PkeState {
            stage: PkeStage::Clean { polls: PKE_POLL_LIMIT, result },
            mask: 0,
            digits: seq![],
            saved: nothing_saved(),
            outcome,
        },
        commands: commands.push(Command::PkeRamClear),
    }
}

/// An operation that failed while it had the engine.
pub open spec fn pke_fail(error: CryptoError, commands: Seq<Command>) -> PkeMove {
    pke_close(Err(error), PkeOutcome::Cleared, commands)
}

/// The end of the program: what was read is checked and becomes the result.
pub open spec fn pke_conclude(
    input: PkeInput,
    state: PkeState,
    commands: Seq<Command>,
) -> PkeMove {
    let saved = state.saved;
    if input.kind is FieldMul {
        if operand_value(saved.x) < p256_prime() {
            pke_close(Ok(()), PkeOutcome::Element { bytes: saved.x }, commands)
        } else {
            pke_fail(CryptoError::InvalidValue, commands)
        }
    } else if on_curve(operand_value(saved.x), operand_value(saved.y)) {
        let point = P256AffinePoint { x: saved.x, y: saved.y };
        pke_close(Ok(()), PkeOutcome::Point { point }, commands)
    } else {
        pke_fail(CryptoError::InvalidPoint, commands)
    }
}

/// Goes through the program from `index` on, up to the next question.
pub open spec fn pke_proceed(
    input: PkeInput,
    state: PkeState,
    index: nat,
    commands: Seq<Command>,
) -> PkeMove
    decreases state.program(input).len() - index,
{
    let program = state.program(input);
    if index >= program.len() {
        pke_conclude(input, state, commands)
    } else {
        match program[index as int] {
            PkeOp::Load { section, operand } => pke_proceed(
                input,
                state,
                index + 1,
                commands.push(
                    Command::PkeRam {
                        section,
                        operand: operand_bytes(input, state.saved, operand),
                    },
                ),
            ),
            PkeOp::Montgomery { low, high } => pke_proceed(
                input,
                state,
                index + 1,
                commands.push(Command::PkeMontgomeryLow { word: low }).push(
                    Command::PkeMontgomeryHigh { word: high },
                ),
            ),
            PkeOp::Batch { .. } => pke_go(
                state,
                PkeStage::Ready { index: index as usize, polls: PKE_POLL_LIMIT },
                commands.push(Command::PkeWorkLength { length: PKE_WORK_LEN_256 }),
            ),
            PkeOp::Save { .. } => pke_go(
                state,
                PkeStage::Operand { index: index as usize },
                commands,
            ),
            PkeOp::StopAtInfinity => if operand_value(state.saved.z) == 0 {
                pke_close(Ok(()), PkeOutcome::Infinity, commands)
            } else {
                pke_proceed(input, state, index + 1, commands)
            },
        }
    }
}

/// The first of two results that is an error, or success.
pub open spec fn pke_outcome(
    result: Result<(), CryptoError>,
    cleaned: bool,
) -> Result<(), CryptoError> {
    if result is Ok && !cleaned {
        Err(CryptoError::Backend(ERR_OPERATION_TIMEOUT))
    } else {
        result
    }
}

/// What the answer to the open question leads to.
pub open spec fn pke_next(input: PkeInput, state: PkeState, reply: Reply) -> PkeMove {
    let word = reply->word;
    match state.stage {
        PkeStage::Entropy { tries } => match reply {
            Reply::Entropy { seed } => {
                let mask = le_word(seed@, 0);
                if mask != 0 {
                    pke_go(
                        PkeState { mask, ..state },
                        PkeStage::Lock { polls: PKE_POLL_LIMIT },
                        seq![Command::PkeLock { release: false }],
                    )
                } else if tries > 1 {
                    pke_go(state, PkeStage::Entropy { tries: (tries - 1) as u32 }, seq![])
                } else {
                    pke_abandon(CryptoError::Backend(ERR_MASK_ENTROPY), PkeOutcome::Untouched)
                }
            },
            _ => pke_abandon(reply->error, PkeOutcome::Untouched),
        },
        PkeStage::Lock { polls } => if word == PKE_ACPU_LOCK_CODE {
            let unmasked = PkeState { mask: 0, ..state };
            if input.kind is FieldMul {
                pke_proceed(input, unmasked, 0, pke_protect(state.mask))
            } else {
                pke_go(unmasked, PkeStage::Curve, pke_protect(state.mask))
            }
        } else if polls > 1 {
            pke_go(state, PkeStage::Lock { polls: (polls - 1) as u32 }, seq![])
        } else {
            pke_abandon(CryptoError::Backend(ERR_LOCK_TIMEOUT), PkeOutcome::Cleared)
        },
        PkeStage::Curve => if reply->status == 0 {
            pke_proceed(input, state, 0, seq![])
        } else {
            pke_fail(CryptoError::Backend(reply->status as u32), seq![])
        },
        PkeStage::Ready { index, polls } => if word != 0 {
            let op = state.program(input)[index as int];
            pke_go(
                state,
                PkeStage::Busy { index, polls: PKE_POLL_LIMIT },
                batch_start(op->Batch_offset, op->Batch_count),
            )
        } else if polls > 1 {
            pke_go(state, PkeStage::Ready { index, polls: (polls - 1) as u32 }, seq![])
        } else {
            pke_fail(CryptoError::Backend(ERR_INSTR_READY_TIMEOUT), seq![])
        },
        PkeStage::Busy { index, polls } => if word == 0 {
            pke_go(state, PkeStage::Finish { index }, seq![])
        } else if polls > 1 {
            pke_go(state, PkeStage::Busy { index, polls: (polls - 1) as u32 }, seq![])
        } else {
            pke_fail(CryptoError::Backend(ERR_OPERATION_TIMEOUT), seq![])
        },
        PkeStage::Finish { index } => if word != PKE_FINISH_CODE {
            pke_fail(CryptoError::Backend(ERR_FINISH_STATUS), seq![])
        } else {
            pke_proceed(
                input,
                state,
                index as nat + 1,
                seq![Command::PkeFinish { latch: PKE_FINISH_CODE }],
            )
        },
        PkeStage::Operand { index } => {
            let slot = state.program(input)[index as int]->Save_slot;
            let saved = with_saved(state.saved, slot, reply->operand);
            pke_proceed(input, PkeState { saved, ..state }, index as nat + 1, seq![])
        },
        PkeStage::Clean { polls, result } => if word != 0 && polls > 1 {
            pke_go(state, PkeStage::Clean { polls: (polls - 1) as u32, result }, seq![])
        } else {
            pke_go(
                state,
                PkeStage::Finished { result: pke_outcome(result, word == 0) },
                pke_release(),
            )
        },
        PkeStage::Finished { .. } => pke_go(state, state.stage, seq![]),
    }
}

/// A number below four to the `k` has at most `k` digits in base four.
proof fn lemma_base_four_len(value: nat, k: nat)
    requires
        value < pow2(2 * k),
    ensures
        base_four(value).len() <= k,
    decreases k,
{
    vstd::arithmetic::power2::lemma2_to64();
    if value > 0 {
        if k > 0 {
            lemma_pow2_adds((2 * k - 2) as nat, 2);
            lemma_base_four_len(value / 4, (k - 1) as nat);
        }
    }
}

/// Programs are short.
pub proof fn lemma_program_len(kind: PkeKind, digits: Seq<i8>)
    requires
        digits.len() <= NAF_DIGITS,
    ensures
        pke_program(kind, digits).len() <= 500,
{
    law_curve_constants();
    lemma_be_value_bound(P256_P@);
    lemma_byte_radix_is_pow2(32);
    lemma_base_four_len((p256_prime() - 2) as nat, 128);
    assert(exponent_ops((p256_prime() - 2) as nat).len() <= 128);
    assert(jacobian_to_affine().len() <= 130);
}

/// Every batch of a program lies within the first words of the instruction ROM.
pub(crate) proof fn lemma_small_batches(kind: PkeKind, digits: Seq<i8>, i: int)
    requires
        0 <= i < pke_program(kind, digits).len(),
        pke_program(kind, digits)[i] is Batch,
    ensures
        pke_program(kind, digits)[i]->Batch_offset <= 326,
        pke_program(kind, digits)[i]->Batch_count <= 40,
{
    let head = pke_head(kind);
    let middle = digit_ops(digits);
    let tail = pke_tail(kind);
    if i < head.len() {
        assert(pke_program(kind, digits)[i] == head[i]);
    } else if i < head.len() + middle.len() {
        assert(pke_program(kind, digits)[i] == middle[i - head.len()]);
    } else {
        let j = i - head.len() - middle.len();
        assert(pke_program(kind, digits)[i] == tail[j]);
        let powers = exponent_ops((p256_prime() - 2) as nat);
        if !(kind is FieldMul) && 1 <= j < 1 + powers.len() {
            assert(tail[j] == powers[j - 1]);
        }
    }
}

/// Only an addition can end at infinity, at one place of its program.
pub proof fn lemma_only_sums_stop(kind: PkeKind, digits: Seq<i8>, i: int)
    requires
        0 <= i < pke_program(kind, digits).len(),
        pke_program(kind, digits)[i] is StopAtInfinity,
    ensures
        kind is PointAdd,
        i == 21,
{
    let head = pke_head(kind);
    let middle = digit_ops(digits);
    let tail = pke_tail(kind);
    if i < head.len() {
        assert(pke_program(kind, digits)[i] == head[i]);
    } else if i < head.len() + middle.len() {
        assert(pke_program(kind, digits)[i] == middle[i - head.len()]);
    } else {
        let j = i - head.len() - middle.len();
        assert(pke_program(kind, digits)[i] == tail[j]);
        let powers = exponent_ops((p256_prime() - 2) as nat);
        if !(kind is FieldMul) && 1 <= j < 1 + powers.len() {
            assert(tail[j] == powers[j - 1]);
        }
    }
}

/// The bytes are those of zero.
proof fn lemma_erased(bytes: [u8; 32])
    requires
        bytes@ == Seq::new(32, |i: int| 0u8),
    ensures
        bytes == CONST_ZERO,
{
    assert(bytes@ =~= CONST_ZERO@);
    assert(bytes =~= CONST_ZERO);
}

/// The result of a ROM call.
fn rom_status(status: i32) -> (result: Result<(), CryptoError>)
    ensures
        result == if status == 0 {
            Ok::<(), CryptoError>(())
        } else {
            Err(CryptoError::Backend(status as u32))
        },
{
    if status == 0 {
        Ok(())
    } else {
        Err(CryptoError::Backend(status as u32))
    }
}

impl PkeSaved {
    /// Slots that hold nothing.
    fn nothing() -> (saved: Self)
        ensures
            saved == nothing_saved(),
    {
        Self {
            x: CONST_ZERO,
            y: CONST_ZERO,
            other_x: CONST_ZERO,
            other_y: CONST_ZERO,
            z: CONST_ZERO,
        }
    }

    /// Clears every slot.
    fn erase(&mut self)
        ensures
            *final(self) == nothing_saved(),
    {
        erase_bytes(&mut self.x);
        erase_bytes(&mut self.y);
        erase_bytes(&mut self.other_x);
        erase_bytes(&mut self.other_y);
        erase_bytes(&mut self.z);
        proof {
            lemma_erased(self.x);
            lemma_erased(self.y);
            lemma_erased(self.other_x);
            lemma_erased(self.other_y);
            lemma_erased(self.z);
        }
    }
}

/// Appends the start of a batch.
fn push_batch_start(commands: &mut Vec<Command>, offset: u32, count: u32)
    requires
        offset <= 326,
        count <= 40,
    ensures
        final(commands)@ == old(commands)@ + batch_start(offset, count),
{
    let ghost before = commands@;
    let block = RomLib { instr_addr: instruction_rom() as u32 + 4 * offset, instr_num: count };
    commands.push(Command::PkeAddressLow { word: block.instr_addr });
    commands.push(Command::PkeAddressHigh { word: 0 });
    commands.push(Command::PkeLength { length: 4 * block.instr_num });
    commands.push(Command::PkeFinish { latch: 1 });
    commands.push(Command::PkeStart { code: PKE_BATCH_START_CODE });
    proof {
        assert(commands@ =~= before + batch_start(offset, count));
    }
}

/// Appends the commands that give the engine back.
fn push_release(commands: &mut Vec<Command>)
    ensures
        final(commands)@ == old(commands)@ + pke_release(),
{
    let ghost before = commands@;
    commands.push(Command::PkeMask { mask: 0 });
    commands.push(Command::PkeMaskGenerator { enable: false });
    commands.push(Command::PkeNoise { enable: false });
    commands.push(Command::PkeLock { release: true });
    proof {
        assert(commands@ =~= before + pke_release());
    }
}

/// One operation of the public key engine.
pub struct PkeEngine<'m> {
    kind: PkeKind,
    first_x: &'m [u8; 32],
    first_y: &'m [u8; 32],
    second_x: &'m [u8; 32],
    second_y: &'m [u8; 32],
    head: Vec<PkeOp>,
    tail: Vec<PkeOp>,
    digits: [i8; NAF_DIGITS],
    digit_count: usize,
    stage: PkeStage,
    mask: [u8; 4],
    saved: PkeSaved,
    outcome: PkeOutcome,
}

impl<'m> PkeEngine<'m> {
    /// What the operation is about.
    pub closed spec fn input(self) -> PkeInput {
        PkeInput {
            kind: self.kind,
            first_x: *self.first_x,
            first_y: *self.first_y,
            second_x: *self.second_x,
            second_y: *self.second_y,
        }
    }

    /// Where the operation stands.
    pub closed spec fn state(self) -> PkeState {
        PkeState {
            stage: self.stage,
            mask: le_word(self.mask@, 0),
            digits: self.digits@.take(self.digit_count as int),
            saved: self.saved,
            outcome: self.outcome,
        }
    }

    /// The engine keeps the fixed parts of its program.
    pub closed spec fn knows_program(self) -> bool {
        &&& self.head@ == pke_head(self.kind)
        &&& self.tail@ == pke_tail(self.kind)
        &&& self.digit_count <= NAF_DIGITS
        &&& self.spare_digits_are_clear()
    }

    /// The digit array holds nothing beside the digits of the scalar.
    pub closed spec fn spare_digits_are_clear(self) -> bool {
        forall|i: int| self.digit_count <= i < NAF_DIGITS ==> #[trigger] self.digits@[i] == 0
    }

    /// The state is as the engine keeps it.
    pub open spec fn valid(self) -> bool {
        self.state().valid(self.input()) && self.knows_program()
    }

    /// Everything that an operation is about is as it was.
    spec fn same_task(self, other: Self) -> bool {
        &&& self.kind == other.kind
        &&& self.first_x == other.first_x
        &&& self.first_y == other.first_y
        &&& self.second_x == other.second_x
        &&& self.second_y == other.second_y
        &&& self.head == other.head
        &&& self.tail == other.tail
    }

    /// An operation without a scalar that has asked for nothing yet.
    fn unscaled(
        kind: PkeKind,
        first_x: &'m [u8; 32],
        first_y: &'m [u8; 32],
        second_x: &'m [u8; 32],
        second_y: &'m [u8; 32],
    ) -> (engine: Self)
        ensures
            engine.valid(),
            engine.input() == (PkeInput {
                kind,
                first_x: *first_x,
                first_y: *first_y,
                second_x: *second_x,
                second_y: *second_y,
            }),
            engine.state() == pke_start(seq![]),
            engine.digit_count == 0,
    {
        let engine = Self {
            kind,
            first_x,
            first_y,
            second_x,
            second_y,
            head: build_head(kind),
            tail: build_tail(kind),
            digits: [0i8; NAF_DIGITS],
            digit_count: 0,
            stage: PkeStage::Entropy { tries: PKE_MASK_TRIES },
            mask: [0u8; 4],
            saved: PkeSaved::nothing(),
            outcome: PkeOutcome::Untouched,
        };
        proof {
            assert(engine.digits@.take(0) =~= seq![]);
        }
        engine
    }

    /// A point times a scalar; nothing is checked here.
    pub(crate) fn point_mul(point: &'m P256AffinePoint, scalar: &[u8; 32]) -> (engine: Self)
        ensures
            engine.valid(),
            engine.input() == (PkeInput {
                kind: PkeKind::PointMul,
                first_x: point.x,
                first_y: point.y,
                second_x: point.x,
                second_y: point.y,
            }),
            engine.state() == pke_start(engine.state().digits),
            is_naf(engine.state().digits),
            naf_value(engine.state().digits) == operand_value(*scalar),
    {
        let mut engine = Self::unscaled(PkeKind::PointMul, &point.x, &point.y, &point.x, &point.y);
        engine.digit_count = scalar_to_naf(scalar, &mut engine.digits);
        engine
    }

    /// The sum of two points; nothing is checked here.
    pub(crate) fn point_add(a: &'m P256AffinePoint, b: &'m P256AffinePoint) -> (engine: Self)
        ensures
            engine.valid(),
            engine.input() == (PkeInput {
                kind: PkeKind::PointAdd,
                first_x: a.x,
                first_y: a.y,
                second_x: b.x,
                second_y: b.y,
            }),
            engine.state() == pke_start(seq![]),
    {
        Self::unscaled(PkeKind::PointAdd, &a.x, &a.y, &b.x, &b.y)
    }

    /// The product of two field elements.
    pub(crate) fn field_mul(a: &'m P256FieldElement, b: &'m P256FieldElement) -> (engine: Self)
        ensures
            engine.valid(),
            engine.input() == (PkeInput {
                kind: PkeKind::FieldMul,
                first_x: a@,
                first_y: a@,
                second_x: b@,
                second_y: b@,
            }),
            engine.state() == pke_start(seq![]),
    {
        let a = a.as_be_bytes();
        let b = b.as_be_bytes();
        Self::unscaled(PkeKind::FieldMul, a, a, b, b)
    }

    /// The first question; there is nothing to do before it.
    pub fn begin(&self) -> (step: Step)
        ensures
            step.commands@ == Seq::<Command>::empty(),
            step.ask == Ask::Entropy,
    {
        Step { commands: Vec::new(), ask: Ask::Entropy }
    }

    /// The operation of the program at an index, or `None` at its end.
    fn op_at(&self, index: usize) -> (op: Option<PkeOp>)
        requires
            self.knows_program(),
        ensures
            op == if index < self.state().program(self.input()).len() {
                Some(self.state().program(self.input())[index as int])
            } else {
                None
            },
    {
        let ghost program = self.state().program(self.input());
        let head = self.head.len();
        let middle = if self.digit_count == 0 {
            0
        } else {
            self.digit_count - 1
        };
        let ghost digits = self.digits@.take(self.digit_count as int);
        assert(digit_ops(digits).len() == middle);
        if index < head {
            assert(program[index as int] == self.head@[index as int]);
            Some(self.head[index])
        } else if index - head < middle {
            let k = index - head;
            assert(program[index as int] == digit_ops(digits)[k as int]);
            assert(digits[self.digit_count - 2 - k] == self.digits@[self.digit_count - 2 - k]);
            Some(digit_batch(self.digits[self.digit_count - 2 - k]))
        } else if index - head - middle < self.tail.len() {
            let k = index - head - middle;
            assert(program[index as int] == self.tail@[k as int]);
            Some(self.tail[k])
        } else {
            None
        }
    }

    /// The question that is open.
    fn ask(&self) -> (ask: Ask)
        requires
            self.valid(),
        ensures
            ask == pke_ask(self.input(), self.state()),
    {
        match self.stage {
            PkeStage::Entropy { .. } => Ask::Entropy,
            PkeStage::Lock { .. } => Ask::Read { source: Source::PkeLock },
            PkeStage::Curve => Ask::LoadCurve,
            PkeStage::Ready { .. } => Ask::Read { source: Source::PkeReady },
            PkeStage::Busy { .. } => Ask::Read { source: Source::PkeBusy },
            PkeStage::Finish { .. } => Ask::Read { source: Source::PkeFinish },
            PkeStage::Operand { index } => {
                let section: u32 = match self.op_at(index) {
                    Some(PkeOp::Save { section, .. }) => section,
                    _ => 0,
                };
                Ask::PkeRam { section }
            },
            PkeStage::Clean { .. } => Ask::Read { source: Source::PkeBusy },
            PkeStage::Finished { .. } => Ask::Finished,
        }
    }

    /// Drops what must not outlive the operation.
    fn drop_secrets(&mut self)
        ensures
            final(self).same_task(*old(self)),
            final(self).state().mask == 0,
            final(self).digit_count == 0,
            final(self).spare_digits_are_clear(),
            final(self).saved == nothing_saved(),
            final(self).stage == old(self).stage,
            final(self).outcome == old(self).outcome,
            final(self).state().digits == Seq::<i8>::empty(),
    {
        erase_bytes(&mut self.mask);
        erase_digits(&mut self.digits);
        self.digit_count = 0;
        self.saved.erase();
        proof {
            assert(self.digits@.take(0) =~= Seq::<i8>::empty());
        }
    }

    /// Ends an operation that never had the engine.
    fn abandon(&mut self, error: CryptoError, outcome: PkeOutcome)
        ensures
            final(self).same_task(*old(self)),
            final(self).digit_count == 0,
            final(self).spare_digits_are_clear(),
            final(self).state() == pke_abandon(error, outcome).state,
    {
        self.drop_secrets();
        self.stage = PkeStage::Finished { result: Err(error) };
        self.outcome = outcome;
    }

    /// Ends the program and has the data RAM cleared.
    fn close(
        &mut self,
        result: Result<(), CryptoError>,
        outcome: PkeOutcome,
        commands: &mut Vec<Command>,
    )
        ensures
            final(self).same_task(*old(self)),
            final(self).digit_count == 0,
            final(self).spare_digits_are_clear(),
            ({
                let next = pke_close(result, outcome, old(commands)@);
                final(self).state() == next.state && final(commands)@ == next.commands
            }),
    {
        self.drop_secrets();
        self.stage = PkeStage::Clean { polls: PKE_POLL_LIMIT, result };
        self.outcome = outcome;
        commands.push(Command::PkeRamClear);
    }

    /// Ends the program with an error.
    fn fail(&mut self, error: CryptoError, commands: &mut Vec<Command>)
        ensures
            final(self).same_task(*old(self)),
            final(self).digit_count == 0,
            final(self).spare_digits_are_clear(),
            ({
                let next = pke_fail(error, old(commands)@);
                final(self).state() == next.state && final(commands)@ == next.commands
            }),
    {
        self.close(Err(error), PkeOutcome::Cleared, commands);
    }

    /// The bytes of an operand.
    fn operand(&self, operand: PkeOperand) -> (bytes: [u8; 32])
        ensures
            bytes == operand_bytes(self.input(), self.saved, operand),
    {
        match operand {
            PkeOperand::Prime => field_prime(),
            PkeOperand::SquaredRadix => P256_RRP,
            PkeOperand::One => CONST_ONE,
            PkeOperand::FirstX => *self.first_x,
            PkeOperand::FirstY => *self.first_y,
            PkeOperand::SecondX => *self.second_x,
            PkeOperand::SecondY => *self.second_y,
            PkeOperand::Saved { slot } => match slot {
                PkeSlot::X => self.saved.x,
                PkeSlot::Y => self.saved.y,
                PkeSlot::OtherX => self.saved.other_x,
                PkeSlot::OtherY => self.saved.other_y,
                PkeSlot::Z => self.saved.z,
            },
        }
    }

    /// Puts an operand into a slot.
    fn save(&mut self, slot: PkeSlot, bytes: [u8; 32])
        ensures
            *final(self) == (Self {
                saved: with_saved(old(self).saved, slot, bytes),
                ..*old(self)
            }),
    {
        match slot {
            PkeSlot::X => {
                self.saved.x = bytes;
            },
            PkeSlot::Y => {
                self.saved.y = bytes;
            },
            PkeSlot::OtherX => {
                self.saved.other_x = bytes;
            },
            PkeSlot::OtherY => {
                self.saved.other_y = bytes;
            },
            PkeSlot::Z => {
                self.saved.z = bytes;
            },
        }
    }

    /// Checks what was read and makes it the result.
    fn conclude(&mut self, commands: &mut Vec<Command>)
        ensures
            final(self).same_task(*old(self)),
            final(self).digit_count == 0,
            final(self).spare_digits_are_clear(),
            ({
                let next = pke_conclude(old(self).input(), old(self).state(), old(commands)@);
                final(self).state() == next.state && final(commands)@ == next.commands
            }),
    {
        match self.kind {
            PkeKind::FieldMul => {
                let bytes = self.saved.x;
                match P256FieldElement::try_from_be_bytes(bytes) {
                    Ok(_) => self.close(Ok(()), PkeOutcome::Element { bytes }, commands),
                    Err(error) => self.fail(error, commands),
                }
            },
            _ => {
                let point = P256AffinePoint::new(self.saved.x, self.saved.y);
                match validate_point(&point.x, &point.y) {
                    Ok(()) => self.close(Ok(()), PkeOutcome::Point { point }, commands),
                    Err(error) => self.fail(error, commands),
                }
            },
        }
    }

    /// Goes through the program from `index` on, up to the next question.
    fn proceed(&mut self, index: usize, commands: &mut Vec<Command>)
        requires
            old(self).knows_program(),
            old(self).state().digits.len() <= NAF_DIGITS,
            old(self).outcome is Untouched,
            index <= 1000,
        ensures
            final(self).same_task(*old(self)),
            final(self).digit_count <= NAF_DIGITS,
            final(self).spare_digits_are_clear(),
            final(self).state().valid(final(self).input()),
            ({
                let next = pke_proceed(
                    old(self).input(),
                    old(self).state(),
                    index as nat,
                    old(commands)@,
                );
                final(self).state() == next.state && final(commands)@ == next.commands
            }),
    {
        let ghost input = self.input();
        let ghost state = self.state();
        let ghost program = state.program(input);
        let ghost goal = pke_proceed(input, state, index as nat, commands@);
        let mut at: usize = index;
        proof {
            lemma_program_len(input.kind, state.digits);
        }
        loop
            invariant
                self.knows_program(),
                *self == *old(self),
                self.input() == input,
                self.state() == state,
                state.digits.len() <= NAF_DIGITS,
                state.outcome is Untouched,
                program == state.program(input),
                program.len() <= 500,
                at <= 1000,
                goal == pke_proceed(input, state, at as nat, commands@),
                goal == pke_proceed(
                    old(self).input(),
                    old(self).state(),
                    index as nat,
                    old(commands)@,
                ),
            decreases 1001 - at,
        {
            match self.op_at(at) {
                None => {
                    self.conclude(commands);
                    return;
                },
                Some(PkeOp::Load { section, operand }) => {
                    let bytes = self.operand(operand);
                    commands.push(Command::PkeRam { section, operand: bytes });
                },
                Some(PkeOp::Montgomery { low, high }) => {
                    commands.push(Command::PkeMontgomeryLow { word: low });
                    commands.push(Command::PkeMontgomeryHigh { word: high });
                },
                Some(PkeOp::Batch { .. }) => {
                    commands.push(Command::PkeWorkLength { length: PKE_WORK_LEN_256 });
                    self.stage = PkeStage::Ready { index: at, polls: PKE_POLL_LIMIT };
                    return;
                },
                Some(PkeOp::Save { .. }) => {
                    self.stage = PkeStage::Operand { index: at };
                    return;
                },
                Some(PkeOp::StopAtInfinity) => {
                    if is_zero(&self.saved.z) {
                        proof {
                            lemma_only_sums_stop(input.kind, state.digits, at as int);
                        }
                        self.close(Ok(()), PkeOutcome::Infinity, commands);
                        return;
                    }
                },
            }
            at += 1;
        }
    }

    /// Takes the answer to the open question and goes on to the next one.
    pub fn resume(&mut self, reply: Reply) -> (step: Step)
        requires
            old(self).valid(),
            answers(pke_ask(old(self).input(), old(self).state()), reply),
        ensures
            final(self).valid(),
            final(self).input() == old(self).input(),
            ({
                let next = pke_next(old(self).input(), old(self).state(), reply);
                final(self).state() == next.state && step.commands@ == next.commands
            }),
            step.ask == pke_ask(final(self).input(), final(self).state()),
    {
        let mut commands: Vec<Command> = Vec::new();
        let word: u32 = match reply {
            Reply::Word { word } => word,
            _ => 0,
        };
        proof {
            lemma_program_len(self.kind, self.state().digits);
        }
        match self.stage {
            PkeStage::Entropy { tries } => match reply {
                Reply::Entropy { mut seed } => {
                    let usable = read_word(&seed, 0) != 0;
                    if usable {
                        self.mask = seed;
                    }
                    erase_bytes(&mut seed);
                    if usable {
                        self.stage = PkeStage::Lock { polls: PKE_POLL_LIMIT };
                        commands.push(Command::PkeLock { release: false });
                    } else if tries > 1 {
                        self.stage = PkeStage::Entropy { tries: tries - 1 };
                    } else {
                        let error = CryptoError::Backend(ERR_MASK_ENTROPY);
                        self.abandon(error, PkeOutcome::Untouched);
                    }
                },
                Reply::EntropyFailed { error } => {
                    self.abandon(error, PkeOutcome::Untouched);
                },
                _ => {},
            },
            PkeStage::Lock { polls } => {
                if word == PKE_ACPU_LOCK_CODE {
                    commands.push(Command::PkeNoise { enable: true });
                    commands.push(Command::PkeMaskGenerator { enable: true });
                    commands.push(Command::PkeMask { mask: read_word(&self.mask, 0) });
                    proof {
                        assert(commands@ =~= pke_protect(self.state().mask));
                    }
                    erase_bytes(&mut self.mask);
                    match self.kind {
                        PkeKind::FieldMul => self.proceed(0, &mut commands),
                        _ => {
                            self.stage = PkeStage::Curve;
                        },
                    }
                } else if polls > 1 {
                    self.stage = PkeStage::Lock { polls: polls - 1 };
                } else {
                    self.abandon(CryptoError::Backend(ERR_LOCK_TIMEOUT), PkeOutcome::Cleared);
                }
            },
            PkeStage::Curve => {
                if let Reply::Status { status } = reply {
                    proof {
                        assert(commands@ =~= seq![]);
                    }
                    match rom_status(status) {
                        Ok(()) => self.proceed(0, &mut commands),
                        Err(error) => self.fail(error, &mut commands),
                    }
                }
            },
            PkeStage::Ready { index, polls } => {
                if word != 0 {
                    if let Some(PkeOp::Batch { offset, count }) = self.op_at(index) {
                        proof {
                            lemma_small_batches(self.kind, self.state().digits, index as int);
                        }
                        push_batch_start(&mut commands, offset, count);
                        self.stage = PkeStage::Busy { index, polls: PKE_POLL_LIMIT };
                    }
                } else if polls > 1 {
                    self.stage = PkeStage::Ready { index, polls: polls - 1 };
                } else {
                    proof {
                        assert(commands@ =~= seq![]);
                    }
                    self.fail(CryptoError::Backend(ERR_INSTR_READY_TIMEOUT), &mut commands);
                }
            },
            PkeStage::Busy { index, polls } => {
                if word == 0 {
                    self.stage = PkeStage::Finish { index };
                } else if polls > 1 {
                    self.stage = PkeStage::Busy { index, polls: polls - 1 };
                } else {
                    proof {
                        assert(commands@ =~= seq![]);
                    }
                    self.fail(CryptoError::Backend(ERR_OPERATION_TIMEOUT), &mut commands);
                }
            },
            PkeStage::Finish { index } => {
                if word != PKE_FINISH_CODE as u32 {
                    proof {
                        assert(commands@ =~= seq![]);
                    }
                    self.fail(CryptoError::Backend(ERR_FINISH_STATUS), &mut commands);
                } else {
                    commands.push(Command::PkeFinish { latch: PKE_FINISH_CODE });
                    proof {
                        assert(commands@ =~= seq![Command::PkeFinish { latch: PKE_FINISH_CODE }]);
                    }
                    self.proceed(index + 1, &mut commands);
                }
            },
            PkeStage::Operand { index } => {
                if let Reply::Operand { operand } = reply {
                    if let Some(PkeOp::Save { slot, .. }) = self.op_at(index) {
                        proof {
                            assert(commands@ =~= seq![]);
                        }
                        self.save(slot, operand);
                        self.proceed(index + 1, &mut commands);
                    }
                }
            },
            PkeStage::Clean { polls, result } => {
                if word != 0 && polls > 1 {
                    self.stage = PkeStage::Clean { polls: polls - 1, result };
                } else {
                    push_release(&mut commands);
                    let result = if word != 0 && result.is_ok() {
                        Err(CryptoError::Backend(ERR_OPERATION_TIMEOUT))
                    } else {
                        result
                    };
                    self.stage = PkeStage::Finished { result };
                }
            },
            PkeStage::Finished { .. } => {},
        }
        proof {
            let next = pke_next(old(self).input(), old(self).state(), reply);
            assert(commands@ =~= next.commands);
        }
        let ask = self.ask();
        Step { commands, ask }
    }

    /// The result, once the operation is over.
    pub fn result(&self) -> (result: Option<Result<(), CryptoError>>)
        ensures
            result == match self.state().stage {
                PkeStage::Finished { result } => Some(result),
                _ => None,
            },
    {
        match self.stage {
            PkeStage::Finished { result } => Some(result),
            _ => None,
        }
    }

    /// What the operation leaves for the caller's output.
    pub fn outcome(&self) -> (outcome: PkeOutcome)
        ensures
            outcome == self.state().outcome,
    {
        self.outcome
    }
}

} // verus!
