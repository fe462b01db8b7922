//! What holds of every operation of the public key engine.
use crate::bus::{Command, Reply};
use crate::bytes::le_word;
use crate::error::CryptoError;
use crate::laws::trace::{ends_with, lemma_ends_with_prefix};
use crate::pke::curve::{on_curve, operand_value, p256_prime, P256AffinePoint};
use crate::pke::engine::{
    lemma_only_sums_stop, lemma_program_len, nothing_saved, operand_bytes, pke_next, pke_proceed,
    pke_protect, pke_release, pke_start, with_saved, PkeInput, PkeMove, PkeOutcome, PkeSaved,
    PkeStage, PkeState, PKE_ACPU_LOCK_CODE, PKE_FINISH_CODE, PKE_POLL_LIMIT, PKE_WORK_LEN_256,
};
use crate::pke::naf::NAF_DIGITS;
use crate::pke::program::{pke_head, pke_program, pke_tail, PkeKind, PkeOp, PkeSlot};
use vstd::prelude::*;

verus! {

/// The commands of a run that is fed `replies` one after the other, and its end.
pub open spec fn pke_run(input: PkeInput, state: PkeState, replies: Seq<Reply>) -> PkeMove
    decreases replies.len(),
{
    if replies.len() == 0 || state.stage is Finished {
        PkeMove { state, commands: seq![] }
    } else {
        let first = pke_next(input, state, replies[0]);
        let rest = pke_run(input, first.state, replies.skip(1));
        PkeMove { state: rest.state, commands: first.commands + rest.commands }
    }
}

/// The most questions that one step of a program can ask.
pub open spec fn pke_op_fuel() -> int {
    2 * PKE_POLL_LIMIT + 1
}

/// The most questions that the program can ask from an index on, cleaning included.
pub open spec fn pke_program_fuel(length: int, index: int) -> int {
    (if index < length {
        (length - index) * pke_op_fuel()
    } else {
        0
    }) + PKE_POLL_LIMIT
}

/// The most questions that an operation can still ask.
pub open spec fn pke_fuel(input: PkeInput, state: PkeState) -> int {
    let length = state.program(input).len() as int;
    let whole = pke_program_fuel(length, 0);
    match state.stage {
        PkeStage::Entropy { tries } => tries + PKE_POLL_LIMIT + 1 + whole,
        PkeStage::Lock { polls } => polls + 1 + whole,
        PkeStage::Curve => 1 + whole,
        PkeStage::Ready { index, polls } => polls + PKE_POLL_LIMIT + 1 + pke_program_fuel(
            length,
            index + 1,
        ),
        PkeStage::Busy { index, polls } => polls + 1 + pke_program_fuel(length, index + 1),
        PkeStage::Finish { index } => 1 + pke_program_fuel(length, index + 1),
        PkeStage::Operand { index } => 1 + pke_program_fuel(length, index + 1),
        PkeStage::Clean { polls, .. } => polls as int,
        PkeStage::Finished { .. } => 0,
    }
}

proof fn lemma_program_fuel(length: int, index: int)
    requires
        0 <= index < length,
    ensures
        pke_program_fuel(length, index) == pke_program_fuel(length, index + 1) + pke_op_fuel(),
        pke_program_fuel(length, index + 1) >= PKE_POLL_LIMIT,
{
    let left = length - index;
    let width = pke_op_fuel();
    assert(left * width == (left - 1) * width + width) by (nonlinear_arith);
    assert((left - 1) * width >= 0) by (nonlinear_arith)
        requires
            left >= 1,
            width >= 0,
    ;
    assert(length - (index + 1) == left - 1);
    if index + 1 == length {
        assert((left - 1) * width == 0) by (nonlinear_arith)
            requires
                left == 1,
        ;
    }
}

proof fn lemma_proceed(input: PkeInput, state: PkeState, index: nat, commands: Seq<Command>)
    requires
        state.digits.len() <= NAF_DIGITS,
        state.outcome is Untouched,
    ensures
        ({
            let next = pke_proceed(input, state, index, commands).state;
            &&& next.valid(input)
            &&& 0 <= pke_fuel(input, next) <= pke_program_fuel(
                state.program(input).len() as int,
                index as int,
            )
        }),
    decreases state.program(input).len() - index,
{
    let program = state.program(input);
    let length = program.len() as int;
    lemma_program_len(input.kind, state.digits);
    if index < length {
        lemma_program_fuel(length, index as int);
        match program[index as int] {
            PkeOp::Load { section, operand } => {
                lemma_proceed(
                    input,
                    state,
                    index + 1,
                    commands.push(
                        Command::PkeRam {
                            section,
                            operand: operand_bytes(input, state.saved, operand),
                        },
                    ),
                );
            },
            PkeOp::Montgomery { low, high } => {
                lemma_proceed(
                    input,
                    state,
                    index + 1,
                    commands.push(Command::PkeMontgomeryLow { word: low }).push(
                        Command::PkeMontgomeryHigh { word: high },
                    ),
                );
            },
            PkeOp::StopAtInfinity => {
                lemma_only_sums_stop(input.kind, state.digits, index as int);
                if operand_value(state.saved.z) != 0 {
                    lemma_proceed(input, state, index + 1, commands);
                }
            },
            _ => {},
        }
    }
}

/// Every answer keeps the state valid and brings the end nearer: no question is asked
/// without bound.
pub proof fn law_pke_step_is_bounded(input: PkeInput, state: PkeState, reply: Reply)
    requires
        state.valid(input),
        !(state.stage is Finished),
    ensures
        pke_next(input, state, reply).state.valid(input),
        0 <= pke_fuel(input, pke_next(input, state, reply).state),
        pke_fuel(input, pke_next(input, state, reply).state) < pke_fuel(input, state),
{
    let length = state.program(input).len() as int;
    let word = reply->word;
    match state.stage {
        PkeStage::Lock { .. } => {
            let unmasked = PkeState { mask: 0, ..state };
            lemma_proceed(input, unmasked, 0, pke_protect(state.mask));
            lemma_fuel_of_digits(input, state, unmasked);
        },
        PkeStage::Curve => {
            lemma_proceed(input, state, 0, seq![]);
        },
        PkeStage::Ready { index, .. } => {
            lemma_program_fuel(length, index as int);
        },
        PkeStage::Busy { index, .. } => {
            lemma_program_fuel(length, index as int);
        },
        PkeStage::Finish { index } => {
            lemma_program_fuel(length, index as int);
            lemma_proceed(
                input,
                state,
                index as nat + 1,
                seq![Command::PkeFinish { latch: PKE_FINISH_CODE }],
            );
        },
        PkeStage::Operand { index } => {
            lemma_program_fuel(length, index as int);
            let slot = state.program(input)[index as int]->Save_slot;
            let saved = with_saved(state.saved, slot, reply->operand);
            lemma_proceed(input, PkeState { saved, ..state }, index as nat + 1, seq![]);
        },
        _ => {},
    }
    if length > 0 {
        lemma_program_fuel(length, 0);
    }
}

proof fn lemma_fuel_of_digits(input: PkeInput, a: PkeState, b: PkeState)
    requires
        a.digits == b.digits,
    ensures
        a.program(input) == b.program(input),
{
}

/// An operation ends after at most `pke_fuel` answers, whatever they are.
pub proof fn law_pke_run_ends(input: PkeInput, state: PkeState, replies: Seq<Reply>)
    requires
        state.valid(input),
        replies.len() >= pke_fuel(input, state),
    ensures
        pke_run(input, state, replies).state.stage is Finished,
    decreases replies.len(),
{
    if !(state.stage is Finished) {
        let next = pke_next(input, state, replies[0]).state;
        law_pke_step_is_bounded(input, state, replies[0]);
        lemma_program_stays(input, state, replies[0]);
        law_pke_run_ends(input, next, replies.skip(1));
    }
}

/// The program does not grow.
proof fn lemma_program_stays(input: PkeInput, state: PkeState, reply: Reply)
    requires
        state.valid(input),
    ensures
        ({
            let next = pke_next(input, state, reply).state;
            next.digits == state.digits || next.digits == Seq::<i8>::empty()
        }),
        pke_next(input, state, reply).state.program(input).len() <= state.program(input).len(),
{
    match state.stage {
        PkeStage::Lock { .. } => {
            lemma_proceed_end(
                input,
                PkeState { mask: 0, ..state },
                0,
                pke_protect(state.mask),
            );
        },
        PkeStage::Curve => {
            lemma_proceed_end(input, state, 0, seq![]);
        },
        PkeStage::Finish { index } => {
            lemma_proceed_end(
                input,
                state,
                index as nat + 1,
                seq![Command::PkeFinish { latch: PKE_FINISH_CODE }],
            );
        },
        PkeStage::Operand { index } => {
            let slot = state.program(input)[index as int]->Save_slot;
            let saved = with_saved(state.saved, slot, reply->operand);
            lemma_proceed_end(input, PkeState { saved, ..state }, index as nat + 1, seq![]);
        },
        _ => {},
    }
}

/// Whether the engine has been locked and not yet given back.
pub open spec fn pke_holds_engine(stage: PkeStage) -> bool {
    !(stage is Entropy || stage is Lock || stage is Finished)
}

/// A locked engine is given back: from a stage that holds it, an operation that is over
/// has ended by switching masking and noise off and unlocking, whatever happened.
pub proof fn law_pke_run_releases(input: PkeInput, state: PkeState, replies: Seq<Reply>)
    requires
        pke_holds_engine(state.stage),
        pke_run(input, state, replies).state.stage is Finished,
    ensures
        ends_with(pke_run(input, state, replies).commands, pke_release()),
    decreases replies.len(),
{
    let first = pke_next(input, state, replies[0]);
    let rest = pke_run(input, first.state, replies.skip(1));
    if first.state.stage is Finished {
        lemma_finished_from_clean(input, state, replies[0]);
        assert(first.commands + rest.commands =~= pke_release());
        assert(pke_release().skip(0) =~= pke_release());
    } else {
        lemma_stays_held(input, state, replies[0]);
        law_pke_run_releases(input, first.state, replies.skip(1));
        lemma_ends_with_prefix(first.commands, rest.commands, pke_release());
    }
}

proof fn lemma_finished_from_clean(input: PkeInput, state: PkeState, reply: Reply)
    requires
        pke_holds_engine(state.stage),
        pke_next(input, state, reply).state.stage is Finished,
    ensures
        state.stage is Clean,
        pke_next(input, state, reply).commands == pke_release(),
{
    lemma_step_holds(input, state, reply);
}

proof fn lemma_stays_held(input: PkeInput, state: PkeState, reply: Reply)
    requires
        pke_holds_engine(state.stage),
        !(pke_next(input, state, reply).state.stage is Finished),
    ensures
        pke_holds_engine(pke_next(input, state, reply).state.stage),
{
    lemma_step_holds(input, state, reply);
}

proof fn lemma_step_holds(input: PkeInput, state: PkeState, reply: Reply)
    requires
        pke_holds_engine(state.stage),
    ensures
        pke_holds_engine(pke_next(input, state, reply).state.stage) || state.stage is Clean,
{
    match state.stage {
        PkeStage::Curve => {
            lemma_proceed_end(input, state, 0, seq![]);
        },
        PkeStage::Finish { index } => {
            lemma_proceed_end(
                input,
                state,
                index as nat + 1,
                seq![Command::PkeFinish { latch: PKE_FINISH_CODE }],
            );
        },
        PkeStage::Operand { index } => {
            let slot = state.program(input)[index as int]->Save_slot;
            let saved = with_saved(state.saved, slot, reply->operand);
            lemma_proceed_end(input, PkeState { saved, ..state }, index as nat + 1, seq![]);
        },
        _ => {},
    }
}

/// However far the program goes in one step, the engine stays held, the digits stay or
/// are dropped, and at its end nothing secret is left.
proof fn lemma_proceed_end(input: PkeInput, state: PkeState, index: nat, commands: Seq<Command>)
    ensures
        ({
            let next = pke_proceed(input, state, index, commands).state;
            &&& pke_holds_engine(next.stage)
            &&& next.digits == state.digits || next.digits == Seq::<i8>::empty()
            &&& next.stage is Clean ==> pke_is_clean(next)
        }),
    decreases state.program(input).len() - index,
{
    let program = state.program(input);
    if index < program.len() {
        match program[index as int] {
            PkeOp::Load { section, operand } => {
                lemma_proceed_end(
                    input,
                    state,
                    index + 1,
                    commands.push(
                        Command::PkeRam {
                            section,
                            operand: operand_bytes(input, state.saved, operand),
                        },
                    ),
                );
            },
            PkeOp::Montgomery { low, high } => {
                lemma_proceed_end(
                    input,
                    state,
                    index + 1,
                    commands.push(Command::PkeMontgomeryLow { word: low }).push(
                        Command::PkeMontgomeryHigh { word: high },
                    ),
                );
            },
            PkeOp::StopAtInfinity => {
                if operand_value(state.saved.z) != 0 {
                    lemma_proceed_end(input, state, index + 1, commands);
                }
            },
            _ => {},
        }
    }
}

/// What an operation may still hold when it is over: no mask, no scalar digit and no
/// operand.
pub open spec fn pke_is_clean(state: PkeState) -> bool {
    state.mask == 0 && state.digits == Seq::<i8>::empty() && state.saved == nothing_saved()
}

/// Secrets do not outlive the operation: while the data RAM is cleared and from then on,
/// the mask, the digits of the scalar and the operands that were read are gone.
pub proof fn law_pke_drops_secrets(input: PkeInput, state: PkeState, reply: Reply)
    requires
        state.stage is Clean || state.stage is Finished ==> pke_is_clean(state),
    ensures
        ({
            let next = pke_next(input, state, reply).state;
            next.stage is Clean || next.stage is Finished ==> pke_is_clean(next)
        }),
{
    match state.stage {
        PkeStage::Lock { .. } => {
            lemma_proceed_end(
                input,
                PkeState { mask: 0, ..state },
                0,
                pke_protect(state.mask),
            );
        },
        PkeStage::Curve => {
            lemma_proceed_end(input, state, 0, seq![]);
        },
        PkeStage::Finish { index } => {
            lemma_proceed_end(
                input,
                state,
                index as nat + 1,
                seq![Command::PkeFinish { latch: PKE_FINISH_CODE }],
            );
        },
        PkeStage::Operand { index } => {
            let slot = state.program(input)[index as int]->Save_slot;
            let saved = with_saved(state.saved, slot, reply->operand);
            lemma_proceed_end(input, PkeState { saved, ..state }, index as nat + 1, seq![]);
        },
        _ => {},
    }
}

/// The protections of the engine: noise, mask generator, and a mask other than zero.
pub struct Protection {
    pub noise: bool,
    pub generator: bool,
    pub masked: bool,
}

/// Follows the protections through a command sequence; `None` where an operand is loaded
/// or a batch started without all three.
pub open spec fn protection_after(
    before: Option<Protection>,
    commands: Seq<Command>,
) -> Option<Protection>
    decreases commands.len(),
{
    if commands.len() == 0 {
        before
    } else {
        match protection_after(before, commands.drop_last()) {
            None => None,
            Some(now) => match commands.last() {
                Command::PkeNoise { enable } => Some(Protection { noise: enable, ..now }),
                Command::PkeMaskGenerator { enable } => Some(
                    Protection { generator: enable, ..now },
                ),
                Command::PkeMask { mask } => Some(Protection { masked: mask != 0, ..now }),
                Command::PkeRam { .. } => if now == full_protection() {
                    Some(now)
                } else {
                    None
                },
                Command::PkeStart { .. } => if now == full_protection() {
                    Some(now)
                } else {
                    None
                },
                _ => Some(now),
            },
        }
    }
}

/// All protections on.
pub open spec fn full_protection() -> Protection {
    Protection { noise: true, generator: true, masked: true }
}

/// All protections off.
pub open spec fn no_protection() -> Protection {
    Protection { noise: false, generator: false, masked: false }
}

/// The protections that a stage has.
pub open spec fn pke_protection(stage: PkeStage) -> Protection {
    if pke_holds_engine(stage) {
        full_protection()
    } else {
        no_protection()
    }
}

proof fn lemma_protection_push(before: Option<Protection>, commands: Seq<Command>, last: Command)
    ensures
        commands.push(last).drop_last() == commands,
        commands.push(last).last() == last,
{
    assert(commands.push(last).drop_last() =~= commands);
}

proof fn lemma_proceed_protected(
    before: Option<Protection>,
    input: PkeInput,
    state: PkeState,
    index: nat,
    commands: Seq<Command>,
)
    requires
        protection_after(before, commands) == Some(full_protection()),
    ensures
        protection_after(before, pke_proceed(input, state, index, commands).commands) == Some(
            full_protection(),
        ),
    decreases state.program(input).len() - index,
{
    let program = state.program(input);
    lemma_protection_push(before, commands, Command::PkeRamClear);
    if index < program.len() {
        match program[index as int] {
            PkeOp::Load { section, operand } => {
                let load = Command::PkeRam {
                    section,
                    operand: operand_bytes(input, state.saved, operand),
                };
                lemma_protection_push(before, commands, load);
                lemma_proceed_protected(before, input, state, index + 1, commands.push(load));
            },
            PkeOp::Montgomery { low, high } => {
                let first = Command::PkeMontgomeryLow { word: low };
                let second = Command::PkeMontgomeryHigh { word: high };
                lemma_protection_push(before, commands, first);
                assert(protection_after(before, commands.push(first)) == Some(full_protection()));
                lemma_protection_push(before, commands.push(first), second);
                lemma_proceed_protected(
                    before,
                    input,
                    state,
                    index + 1,
                    commands.push(first).push(second),
                );
            },
            PkeOp::StopAtInfinity => {
                if operand_value(state.saved.z) != 0 {
                    lemma_proceed_protected(before, input, state, index + 1, commands);
                }
            },
            PkeOp::Batch { .. } => {
                let length = Command::PkeWorkLength {
                    length: PKE_WORK_LEN_256,
                };
                lemma_protection_push(before, commands, length);
            },
            _ => {},
        }
    }
}

/// The engine never works unprotected: operands are loaded and batches started only while
/// noise and mask generator are on and the mask is not zero, and all three are off again
/// when the engine is given back.
pub proof fn law_pke_is_protected(input: PkeInput, state: PkeState, reply: Reply)
    requires
        state.stage is Lock ==> state.mask != 0,
    ensures
        ({
            let next = pke_next(input, state, reply);
            &&& protection_after(Some(pke_protection(state.stage)), next.commands) == Some(
                pke_protection(next.state.stage),
            )
            &&& next.state.stage is Lock ==> next.state.mask != 0
        }),
{
    let before = Some(pke_protection(state.stage));
    let next = pke_next(input, state, reply);
    let none = Seq::<Command>::empty();
    reveal_with_fuel(protection_after, 6);
    match state.stage {
        PkeStage::Entropy { .. } => {
            if next.state.stage is Lock {
                assert(next.commands.drop_last() =~= none);
            }
        },
        PkeStage::Lock { .. } => {
            let c = pke_protect(state.mask);
            assert(c.drop_last() =~= seq![c[0], c[1]]);
            assert(c.drop_last().drop_last() =~= seq![c[0]]);
            assert(c.drop_last().drop_last().drop_last() =~= none);
            assert(protection_after(before, c) == Some(full_protection()));
            let unmasked = PkeState { mask: 0, ..state };
            lemma_proceed_protected(before, input, unmasked, 0, c);
            lemma_proceed_end(input, unmasked, 0, c);
        },
        PkeStage::Curve => {
            lemma_proceed_protected(before, input, state, 0, seq![]);
            lemma_proceed_end(input, state, 0, seq![]);
            lemma_protection_push(before, seq![], Command::PkeRamClear);
        },
        PkeStage::Ready { index, .. } => {
            if next.state.stage is Busy {
                let c = next.commands;
                assert(c.drop_last() =~= seq![c[0], c[1], c[2], c[3]]);
                assert(c.drop_last().drop_last() =~= seq![c[0], c[1], c[2]]);
                assert(c.drop_last().drop_last().drop_last() =~= seq![c[0], c[1]]);
                assert(c.drop_last().drop_last().drop_last().drop_last() =~= seq![c[0]]);
                assert(c.drop_last().drop_last().drop_last().drop_last().drop_last() =~= none);
            }
            lemma_protection_push(before, seq![], Command::PkeRamClear);
        },
        PkeStage::Busy { .. } => {
            lemma_protection_push(before, seq![], Command::PkeRamClear);
        },
        PkeStage::Finish { index } => {
            let finish = Command::PkeFinish { latch: PKE_FINISH_CODE };
            assert(seq![finish].drop_last() =~= none);
            lemma_proceed_protected(before, input, state, index as nat + 1, seq![finish]);
            lemma_proceed_end(input, state, index as nat + 1, seq![finish]);
            lemma_protection_push(before, seq![], Command::PkeRamClear);
        },
        PkeStage::Operand { index } => {
            let slot = state.program(input)[index as int]->Save_slot;
            let saved = with_saved(state.saved, slot, reply->operand);
            let taken = PkeState { saved, ..state };
            lemma_proceed_protected(before, input, taken, index as nat + 1, seq![]);
            lemma_proceed_end(input, taken, index as nat + 1, seq![]);
        },
        PkeStage::Clean { .. } => {
            if next.state.stage is Finished {
                let c = next.commands;
                assert(c.drop_last() =~= seq![c[0], c[1], c[2]]);
                assert(c.drop_last().drop_last() =~= seq![c[0], c[1]]);
                assert(c.drop_last().drop_last().drop_last() =~= seq![c[0]]);
                assert(c.drop_last().drop_last().drop_last().drop_last() =~= none);
            }
        },
        PkeStage::Finished { .. } => {},
    }
}

/// Whether an answer meets no obstacle: the entropy source gives a mask other than zero, and
/// lock, batches and cleaning are answered within their limits, however often a request or a
/// wait goes on before that; no error shows; and `device` says what a read of the data RAM
/// gives at each place of the program.
pub open spec fn pke_good(
    state: PkeState,
    reply: Reply,
    device: spec_fn(int) -> [u8; 32],
) -> bool {
    let word = reply->word;
    match state.stage {
        PkeStage::Entropy { tries } => match reply {
            Reply::Entropy { seed } => le_word(seed@, 0) != 0 || tries > 1,
            _ => false,
        },
        PkeStage::Lock { polls } => word == PKE_ACPU_LOCK_CODE || polls > 1,
        PkeStage::Curve => reply->status == 0,
        PkeStage::Ready { polls, .. } => word != 0 || polls > 1,
        PkeStage::Busy { polls, .. } => word == 0 || polls > 1,
        PkeStage::Finish { .. } => word == PKE_FINISH_CODE,
        PkeStage::Operand { index } => reply->operand == device(index as int),
        PkeStage::Clean { polls, .. } => word == 0 || polls > 1,
        PkeStage::Finished { .. } => true,
    }
}

/// Whether every answer of a run meets no obstacle.
pub open spec fn pke_goes_well(
    input: PkeInput,
    state: PkeState,
    replies: Seq<Reply>,
    device: spec_fn(int) -> [u8; 32],
) -> bool
    decreases replies.len(),
{
    replies.len() == 0 || state.stage is Finished || (pke_good(state, replies[0], device)
        && pke_goes_well(
        input,
        pke_next(input, state, replies[0]).state,
        replies.skip(1),
        device,
    ))
}

/// Result and outcome of the program from an index on, with such an engine.
pub open spec fn good_end(
    input: PkeInput,
    digits: Seq<i8>,
    saved: PkeSaved,
    index: nat,
    device: spec_fn(int) -> [u8; 32],
) -> (Result<(), CryptoError>, PkeOutcome)
    decreases pke_program(input.kind, digits).len() - index,
{
    let program = pke_program(input.kind, digits);
    if index >= program.len() {
        if input.kind is FieldMul {
            if operand_value(saved.x) < p256_prime() {
                (Ok(()), PkeOutcome::Element { bytes: saved.x })
            } else {
                (Err(CryptoError::InvalidValue), PkeOutcome::Cleared)
            }
        } else if on_curve(operand_value(saved.x), operand_value(saved.y)) {
            (Ok(()), PkeOutcome::Point { point: P256AffinePoint { x: saved.x, y: saved.y } })
        } else {
            (Err(CryptoError::InvalidPoint), PkeOutcome::Cleared)
        }
    } else {
        match program[index as int] {
            PkeOp::Save { slot, .. } => good_end(
                input,
                digits,
                with_saved(saved, slot, device(index as int)),
                index + 1,
                device,
            ),
            PkeOp::StopAtInfinity => if operand_value(saved.z) == 0 {
                (Ok(()), PkeOutcome::Infinity)
            } else {
                good_end(input, digits, saved, index + 1, device)
            },
            _ => good_end(input, digits, saved, index + 1, device),
        }
    }
}

/// Result and outcome that a state comes to, with such an engine.
pub open spec fn good_end_of(
    input: PkeInput,
    state: PkeState,
    device: spec_fn(int) -> [u8; 32],
) -> (Result<(), CryptoError>, PkeOutcome) {
    let digits = state.digits;
    match state.stage {
        PkeStage::Ready { index, .. } => good_end(
            input,
            digits,
            state.saved,
            index as nat + 1,
            device,
        ),
        PkeStage::Busy { index, .. } => good_end(
            input,
            digits,
            state.saved,
            index as nat + 1,
            device,
        ),
        PkeStage::Finish { index } => good_end(
            input,
            digits,
            state.saved,
            index as nat + 1,
            device,
        ),
        PkeStage::Operand { index } => good_end(
            input,
            digits,
            with_saved(
                state.saved,
                state.program(input)[index as int]->Save_slot,
                device(index as int),
            ),
            index as nat + 1,
            device,
        ),
        PkeStage::Clean { result, .. } => (result, state.outcome),
        PkeStage::Finished { result } => (result, state.outcome),
        _ => good_end(input, digits, state.saved, 0, device),
    }
}

proof fn lemma_good_proceed(
    input: PkeInput,
    state: PkeState,
    index: nat,
    commands: Seq<Command>,
    device: spec_fn(int) -> [u8; 32],
)
    requires
        state.digits.len() <= NAF_DIGITS,
    ensures
        good_end_of(input, pke_proceed(input, state, index, commands).state, device) == good_end(
            input,
            state.digits,
            state.saved,
            index,
            device,
        ),
    decreases state.program(input).len() - index,
{
    let program = state.program(input);
    lemma_program_len(input.kind, state.digits);
    if index < program.len() {
        match program[index as int] {
            PkeOp::Load { section, operand } => {
                lemma_good_proceed(
                    input,
                    state,
                    index + 1,
                    commands.push(
                        Command::PkeRam {
                            section,
                            operand: operand_bytes(input, state.saved, operand),
                        },
                    ),
                    device,
                );
            },
            PkeOp::Montgomery { low, high } => {
                lemma_good_proceed(
                    input,
                    state,
                    index + 1,
                    commands.push(Command::PkeMontgomeryLow { word: low }).push(
                        Command::PkeMontgomeryHigh { word: high },
                    ),
                    device,
                );
            },
            PkeOp::StopAtInfinity => {
                if operand_value(state.saved.z) != 0 {
                    lemma_good_proceed(input, state, index + 1, commands, device);
                }
            },
            _ => {},
        }
    }
}

proof fn lemma_good_step(
    input: PkeInput,
    state: PkeState,
    reply: Reply,
    device: spec_fn(int) -> [u8; 32],
)
    requires
        state.valid(input),
        !(state.stage is Finished),
        pke_good(state, reply, device),
    ensures
        good_end_of(input, pke_next(input, state, reply).state, device) == good_end_of(
            input,
            state,
            device,
        ),
{
    match state.stage {
        PkeStage::Lock { .. } => {
            let unmasked = PkeState { mask: 0, ..state };
            lemma_good_proceed(
                input,
                unmasked,
                0,
                pke_protect(state.mask),
                device,
            );
        },
        PkeStage::Curve => {
            lemma_good_proceed(input, state, 0, seq![], device);
        },
        PkeStage::Finish { index } => {
            lemma_good_proceed(
                input,
                state,
                index as nat + 1,
                seq![Command::PkeFinish { latch: PKE_FINISH_CODE }],
                device,
            );
        },
        PkeStage::Operand { index } => {
            let slot = state.program(input)[index as int]->Save_slot;
            let saved = with_saved(state.saved, slot, device(index as int));
            let taken = PkeState { saved, ..state };
            lemma_good_proceed(input, taken, index as nat + 1, seq![], device);
        },
        _ => {},
    }
}

/// Where every answer of a run meets no obstacle, an operation comes to the end that its
/// program has: what the engine delivers at the places where the program reads decides
/// result and outcome, and nothing else does.
pub proof fn law_pke_good_run(
    input: PkeInput,
    state: PkeState,
    replies: Seq<Reply>,
    device: spec_fn(int) -> [u8; 32],
)
    requires
        state.valid(input),
        pke_goes_well(input, state, replies, device),
    ensures
        ({
            let last = pke_run(input, state, replies).state;
            let end = good_end_of(input, state, device);
            &&& replies.len() >= pke_fuel(input, state) ==> last.stage is Finished
            &&& last.stage is Finished ==> last.stage == (PkeStage::Finished { result: end.0 })
                && last.outcome == end.1
        }),
    decreases replies.len(),
{
    if !(state.stage is Finished) && replies.len() > 0 {
        let reply = replies[0];
        law_pke_step_is_bounded(input, state, reply);
        lemma_good_step(input, state, reply, device);
        law_pke_good_run(input, pke_next(input, state, reply).state, replies.skip(1), device);
    }
}

/// Result and outcome of an operation whose program reads what `device` says.
pub open spec fn delivered(
    kind: PkeKind,
    digits: Seq<i8>,
    device: spec_fn(int) -> [u8; 32],
) -> (Result<(), CryptoError>, PkeOutcome) {
    let length = pke_program(kind, digits).len();
    let x = device(length - 2);
    let y = device(length - 1);
    match kind {
        PkeKind::FieldMul => if operand_value(y) < p256_prime() {
            (Ok(()), PkeOutcome::Element { bytes: y })
        } else {
            (Err(CryptoError::InvalidValue), PkeOutcome::Cleared)
        },
        PkeKind::PointAdd if operand_value(device(20)) == 0 => (Ok(()), PkeOutcome::Infinity),
        _ => if on_curve(operand_value(x), operand_value(y)) {
            (Ok(()), PkeOutcome::Point { point: P256AffinePoint { x, y } })
        } else {
            (Err(CryptoError::InvalidPoint), PkeOutcome::Cleared)
        },
    }
}

/// The last reads of a point program are the coordinates of the result.
proof fn lemma_last_reads(
    input: PkeInput,
    digits: Seq<i8>,
    saved: PkeSaved,
    index: nat,
    device: spec_fn(int) -> [u8; 32],
)
    requires
        !(input.kind is FieldMul),
        index <= pke_program(input.kind, digits).len() - 2,
        input.kind is PointAdd ==> index >= 22,
    ensures
        ({
            let length = pke_program(input.kind, digits).len();
            let x = device(length - 2);
            let y = device(length - 1);
            good_end(input, digits, saved, index, device) == if on_curve(
                operand_value(x),
                operand_value(y),
            ) {
                (Ok::<(), CryptoError>(()), PkeOutcome::Point { point: P256AffinePoint { x, y } })
            } else {
                (Err(CryptoError::InvalidPoint), PkeOutcome::Cleared)
            }
        }),
    decreases pke_program(input.kind, digits).len() - index,
{
    let program = pke_program(input.kind, digits);
    let length = program.len() as int;
    let tail = pke_tail(input.kind);
    assert(tail.len() >= 2);
    assert(program[length - 2] == tail[tail.len() - 2]);
    assert(program[length - 1] == tail[tail.len() - 1]);
    if index == length - 2 {
        let first = with_saved(saved, PkeSlot::X, device(length - 2));
        let second = with_saved(first, PkeSlot::Y, device(length - 1));
        assert(good_end(input, digits, saved, index, device) == good_end(
            input,
            digits,
            first,
            index + 1,
            device,
        ));
        assert(good_end(input, digits, first, index + 1, device) == good_end(
            input,
            digits,
            second,
            index + 2,
            device,
        ));
    } else {
        if program[index as int] is StopAtInfinity {
            lemma_only_sums_stop(input.kind, digits, index as int);
        }
        match program[index as int] {
            PkeOp::Save { slot, .. } => {
                lemma_last_reads(
                    input,
                    digits,
                    with_saved(saved, slot, device(index as int)),
                    index + 1,
                    device,
                );
            },
            _ => {
                lemma_last_reads(input, digits, saved, index + 1, device);
            },
        }
    }
}

/// The reads of an addition: the third coordinate, then those of the result.
proof fn lemma_sum_reads(
    input: PkeInput,
    digits: Seq<i8>,
    saved: PkeSaved,
    index: nat,
    device: spec_fn(int) -> [u8; 32],
)
    requires
        input.kind is PointAdd,
        index <= 20,
    ensures
        good_end(input, digits, saved, index, device) == delivered(input.kind, digits, device),
    decreases 20 - index,
{
    let program = pke_program(input.kind, digits);
    let head = pke_head(input.kind);
    let tail = pke_tail(input.kind);
    assert(tail.len() >= 3);
    assert(program[index as int] == head[index as int]);
    assert(program[21] == head[21]);
    if index == 20 {
        let third = with_saved(saved, PkeSlot::Z, device(20));
        assert(good_end(input, digits, saved, 20, device) == good_end(
            input,
            digits,
            third,
            21,
            device,
        ));
        if operand_value(device(20)) != 0 {
            lemma_last_reads(input, digits, third, 22, device);
        }
    } else {
        match program[index as int] {
            PkeOp::Save { slot, .. } => {
                lemma_sum_reads(
                    input,
                    digits,
                    with_saved(saved, slot, device(index as int)),
                    index + 1,
                    device,
                );
            },
            PkeOp::StopAtInfinity => {
                lemma_only_sums_stop(input.kind, digits, index as int);
            },
            _ => {
                lemma_sum_reads(input, digits, saved, index + 1, device);
            },
        }
    }
}

/// The last read of a product is its result.
proof fn lemma_product_reads(
    input: PkeInput,
    digits: Seq<i8>,
    saved: PkeSaved,
    index: nat,
    device: spec_fn(int) -> [u8; 32],
)
    requires
        input.kind is FieldMul,
        index <= pke_program(input.kind, digits).len() - 1,
    ensures
        good_end(input, digits, saved, index, device) == delivered(input.kind, digits, device),
    decreases pke_program(input.kind, digits).len() - index,
{
    let program = pke_program(input.kind, digits);
    let length = program.len() as int;
    assert(program[length - 1] == pke_tail(input.kind)[0]);
    if index == length - 1 {
        let last = with_saved(saved, PkeSlot::X, device(length - 1));
        assert(good_end(input, digits, saved, index, device) == good_end(
            input,
            digits,
            last,
            index + 1,
            device,
        ));
    } else {
        match program[index as int] {
            PkeOp::Save { slot, .. } => {
                lemma_product_reads(
                    input,
                    digits,
                    with_saved(saved, slot, device(index as int)),
                    index + 1,
                    device,
                );
            },
            PkeOp::StopAtInfinity => {
                lemma_only_sums_stop(input.kind, digits, index as int);
            },
            _ => {
                lemma_product_reads(input, digits, saved, index + 1, device);
            },
        }
    }
}

/// Success is owed: where every answer of a run meets no obstacle, a multiplication or an
/// addition delivers the point that was read, provided that it lies on the curve; an
/// addition whose third coordinate is zero delivers infinity; and a product delivers the
/// number that was read, provided that it lies below the prime. Otherwise the operation
/// fails and the output is cleared. After `pke_fuel` answers it is over.
pub proof fn law_pke_success(
    input: PkeInput,
    digits: Seq<i8>,
    replies: Seq<Reply>,
    device: spec_fn(int) -> [u8; 32],
)
    requires
        digits.len() <= NAF_DIGITS,
        pke_goes_well(input, pke_start(digits), replies, device),
    ensures
        ({
            let last = pke_run(input, pke_start(digits), replies).state;
            let end = delivered(input.kind, digits, device);
            &&& replies.len() >= pke_fuel(input, pke_start(digits)) ==> last.stage is Finished
            &&& last.stage is Finished ==> last.stage == (PkeStage::Finished { result: end.0 })
                && last.outcome == end.1
        }),
{
    let start = pke_start(digits);
    let saved = nothing_saved();
    law_pke_good_run(input, start, replies, device);
    match input.kind {
        PkeKind::PointMul => {
            assert(pke_tail(input.kind).len() >= 3);
            lemma_last_reads(input, digits, saved, 0, device);
        },
        PkeKind::PointAdd => {
            lemma_sum_reads(input, digits, saved, 0, device);
        },
        PkeKind::FieldMul => {
            lemma_product_reads(input, digits, saved, 0, device);
        },
    }
}

} // verus!
