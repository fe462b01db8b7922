//! What holds of every block operation.
use crate::bus::{Command, Reply};
use crate::channel::{channel_set, owner_of, OWNER_REE};
use crate::error::CryptoError;
use crate::laws::trace::{
    critical_after, is_shared, last_where, lemma_critical_append, lemma_critical_plain,
    lemma_last_append, lemma_last_none,
};
use crate::spacc_cipher::{
    cipher_clear_request, cipher_cleared, cipher_next, cipher_prepared, cipher_release,
    cipher_scrub, cipher_start, empty_cipher_memory, ladder_wipe, slot_select, CipherInput,
    CipherMemory, CipherMove, CipherStage, CipherState, ERR_CLEAR_TIMEOUT, KEYSLOT_OWNER_REE,
    KLAD_OWNER_REE, MCIPHER_KEYSLOTS,
};
use vstd::prelude::*;

verus! {

/// The commands of a run that is fed `replies` one after the other, and its end.
pub open spec fn cipher_run(
    input: CipherInput,
    state: CipherState,
    replies: Seq<Reply>,
) -> CipherMove
    decreases replies.len(),
{
    if replies.len() == 0 || state.stage is Finished {
        CipherMove { state, commands: seq![] }
    } else {
        let first = cipher_next(input, state, replies[0]);
        let rest = cipher_run(input, first.state, replies.skip(1));
        CipherMove { state: rest.state, commands: first.commands + rest.commands }
    }
}

/// The most questions that a block operation can still ask.
pub open spec fn cipher_fuel(input: CipherInput, state: CipherState) -> int {
    let slot = 2 + input.keyslot_polls;
    let after_release = 2 + input.keyslot_polls;
    let after_block = 1 + after_release + input.clear_polls;
    let after_wait = 4 + after_block;
    let after_clear = 4 + input.operation_polls + after_wait;
    let after_claim = input.clear_polls + after_clear;
    let after_ladder = 2 * input.lock_polls + after_claim;
    let after_even = 2 + after_ladder + input.klad_polls + 2;
    let after_lock = after_even + input.klad_polls + 2;
    let after_slot = 2 * input.klad_polls + after_lock;
    match state.stage {
        CipherStage::SlotOwner => slot * (MCIPHER_KEYSLOTS - state.slot) + after_slot,
        CipherStage::SlotIdle { polls } => slot * (MCIPHER_KEYSLOTS - state.slot - 1) + polls + 1
            + after_slot,
        CipherStage::SlotVerify => slot * (MCIPHER_KEYSLOTS - state.slot - 1) + 1 + after_slot,
        CipherStage::LadderFailure { polls } => 2 * polls + after_lock,
        CipherStage::LadderOwner { polls } => 2 * polls - 1 + after_lock,
        CipherStage::Route { odd, polls } => polls + 2 + if odd {
            2 + after_ladder
        } else {
            after_even
        },
        CipherStage::LadderError { odd } => 2 + if odd {
            2 + after_ladder
        } else {
            after_even
        },
        CipherStage::SlotError { odd } => 1 + if odd {
            2 + after_ladder
        } else {
            after_even
        },
        CipherStage::LadderUnlock => 2 + after_ladder,
        CipherStage::LadderUnlocked => 1 + after_ladder,
        CipherStage::Claim { polls } => 2 * polls + after_claim,
        CipherStage::Verify { polls } => 2 * polls - 1 + after_claim,
        CipherStage::Clear { polls } => polls + after_clear,
        CipherStage::Stale => after_clear,
        CipherStage::Configured => after_clear - 1,
        CipherStage::OutputPosition => after_clear - 2,
        CipherStage::InputPosition => after_clear - 3,
        CipherStage::Wait { polls } => polls + after_wait,
        CipherStage::BusError => after_wait,
        CipherStage::ControlError => after_wait - 1,
        CipherStage::ControlStatus => after_wait - 2,
        CipherStage::Block => after_wait - 3,
        CipherStage::Stop { polls } => polls + 1 + after_release,
        CipherStage::Release => 1 + after_release,
        CipherStage::SlotUnlock => after_release,
        CipherStage::SlotFlush { polls } => polls + 1,
        CipherStage::SlotUnlocked => 1,
        CipherStage::Finished => 0,
    }
}

/// Every answer keeps the state valid and brings the end nearer: no question is asked
/// without bound.
pub proof fn law_cipher_step_is_bounded(input: CipherInput, state: CipherState, reply: Reply)
    requires
        input.valid(),
        state.valid(),
        !(state.stage is Finished),
    ensures
        cipher_next(input, state, reply).state.valid(),
        0 <= cipher_fuel(input, cipher_next(input, state, reply).state),
        cipher_fuel(input, cipher_next(input, state, reply).state) < cipher_fuel(input, state),
{
    let next = cipher_next(input, state, reply).state;
    let width = 2 + input.keyslot_polls;
    let left = MCIPHER_KEYSLOTS - state.slot;
    assert(width * left == width * (left - 1) + width) by (nonlinear_arith);
    assert(width * (left - 1) >= 0) by (nonlinear_arith)
        requires
            width >= 0,
            left >= 1,
    ;
    if state.stage is Block {
        assert(reply->block@.len() == 16);
    }
}

/// A block operation ends after at most `cipher_fuel` answers, whatever they are.
pub proof fn law_cipher_run_ends(input: CipherInput, state: CipherState, replies: Seq<Reply>)
    requires
        input.valid(),
        state.valid(),
        replies.len() >= cipher_fuel(input, state),
    ensures
        cipher_run(input, state, replies).state.stage is Finished,
    decreases replies.len(),
{
    if !(state.stage is Finished) {
        law_cipher_step_is_bounded(input, state, replies[0]);
        law_cipher_run_ends(input, cipher_next(input, state, replies[0]).state, replies.skip(1));
    }
}

/// Which stages hand out the commands that the laws below speak of.
proof fn lemma_command_stages(input: CipherInput, state: CipherState, reply: Reply, i: int)
    requires
        0 <= i < cipher_next(input, state, reply).commands.len(),
    ensures
        ({
            let command = cipher_next(input, state, reply).commands[i];
            let stage = state.stage;
            &&& command is KladData ==> stage is LadderOwner || cipher_is_staged(stage)
            &&& command is EnterCritical ==> stage is LadderUnlock || stage is LadderUnlocked
                || stage is Claim || stage is Verify || stage is Stop
            &&& command is ExitCritical ==> stage is Claim || stage is Verify || stage is Release
            &&& is_shared(command) ==> stage is Claim || stage is Release
            &&& command is CipherOwners ==> stage is Claim || stage is Release
            &&& command is KeyslotLock ==> stage is SlotIdle || stage is SlotUnlock
        }),
{
    let c = cipher_next(input, state, reply).commands;
    match state.stage {
        CipherStage::SlotOwner => {},
        CipherStage::SlotIdle { .. } => {},
        CipherStage::SlotVerify => {},
        CipherStage::LadderFailure { .. } => {},
        CipherStage::LadderOwner { .. } => {},
        CipherStage::Route { .. } => {},
        CipherStage::LadderError { .. } => {},
        CipherStage::SlotError { .. } => {},
        CipherStage::LadderUnlock => {},
        CipherStage::LadderUnlocked => {},
        CipherStage::Claim { .. } => {},
        CipherStage::Verify { .. } => {},
        CipherStage::Clear { .. } => {},
        CipherStage::Stale => {},
        CipherStage::Configured => {},
        CipherStage::OutputPosition => {},
        CipherStage::InputPosition => {},
        CipherStage::Wait { .. } => {},
        CipherStage::BusError => {},
        CipherStage::ControlError => {},
        CipherStage::ControlStatus => {},
        CipherStage::Block => {},
        CipherStage::Stop { .. } => {},
        CipherStage::Release => {},
        CipherStage::SlotUnlock => {},
        CipherStage::SlotFlush { .. } => {},
        CipherStage::SlotUnlocked => {},
        CipherStage::Finished => {},
    }
}

/// Whether a stage lies inside the critical section.
pub open spec fn cipher_is_critical(stage: CipherStage) -> bool {
    stage is Claim || stage is Verify || stage is Release
}

/// The owner word is changed inside the critical section alone, which is never entered
/// twice and never left open past the claim and the release.
pub proof fn law_cipher_critical_sections(input: CipherInput, state: CipherState, reply: Reply)
    requires
        !(state.stage is Finished),
    ensures
        critical_after(
            Some(cipher_is_critical(state.stage)),
            cipher_next(input, state, reply).commands,
        ) == Some(cipher_is_critical(cipher_next(input, state, reply).state.stage)),
{
    let open = Some(cipher_is_critical(state.stage));
    let next = cipher_next(input, state, reply);
    if cipher_is_critical(state.stage) || cipher_is_critical(next.state.stage) {
        lemma_critical_turn(input, state, reply);
    } else {
        assert forall|i: int| 0 <= i < next.commands.len() implies !(
        #[trigger] next.commands[i] is EnterCritical) && !(next.commands[i] is ExitCritical)
            && !is_shared(next.commands[i]) by {
            lemma_command_stages(input, state, reply, i);
            if next.commands[i] is EnterCritical {
                lemma_no_entry(input, state, reply, i);
            }
        }
        lemma_critical_plain(open, next.commands);
    }
}

/// The critical section is entered on the way into a stage that lies inside it.
proof fn lemma_no_entry(input: CipherInput, state: CipherState, reply: Reply, i: int)
    requires
        state.stage is LadderUnlock || state.stage is LadderUnlocked || state.stage is Stop,
        !cipher_is_critical(cipher_next(input, state, reply).state.stage),
        0 <= i < cipher_next(input, state, reply).commands.len(),
    ensures
        !(cipher_next(input, state, reply).commands[i] is EnterCritical),
{
}

/// The steps into, inside and out of the critical section.
proof fn lemma_critical_turn(input: CipherInput, state: CipherState, reply: Reply)
    requires
        !(state.stage is Finished),
        cipher_is_critical(state.stage) || cipher_is_critical(
            cipher_next(input, state, reply).state.stage,
        ),
    ensures
        critical_after(
            Some(cipher_is_critical(state.stage)),
            cipher_next(input, state, reply).commands,
        ) == Some(cipher_is_critical(cipher_next(input, state, reply).state.stage)),
{
    let open = Some(cipher_is_critical(state.stage));
    let next = cipher_next(input, state, reply);
    reveal_with_fuel(critical_after, 4);
    match state.stage {
        CipherStage::Claim { .. } | CipherStage::Verify { .. } => {
            let c = next.commands;
            if next.state.stage is SlotUnlock {
                lemma_critical_append(open, seq![Command::ExitCritical], slot_select(state.slot));
                assert(seq![Command::ExitCritical].drop_last() =~= seq![]);
                lemma_critical_plain(Some(false), slot_select(state.slot));
            } else if next.state.stage is Clear {
                lemma_critical_append(
                    open,
                    seq![Command::ExitCritical],
                    cipher_clear_request(),
                );
                assert(seq![Command::ExitCritical].drop_last() =~= seq![]);
                lemma_critical_plain(Some(false), cipher_clear_request());
            } else {
                assert(c.drop_last() =~= seq![c[0]]);
                assert(c.drop_last().drop_last() =~= seq![]);
            }
        },
        CipherStage::Stop { .. } => {
            let before = cipher_cleared() + cipher_scrub().drop_last();
            assert(next.commands.drop_last() =~= before);
            lemma_critical_plain(open, before);
        },
        CipherStage::Release => {
            let c = cipher_release(reply->word);
            lemma_critical_append(open, c, slot_select(state.slot));
            assert(c.drop_last() =~= seq![c[0], c[1]]);
            assert(c.drop_last().drop_last() =~= seq![c[0]]);
            assert(c.drop_last().drop_last().drop_last() =~= seq![]);
            lemma_critical_plain(Some(false), slot_select(state.slot));
        },
        _ => {
            assert(next.commands.drop_last() =~= seq![]);
        },
    }
}

/// The staging words of the key ladder after a command sequence.
pub open spec fn staging_after(words: Seq<u32>, commands: Seq<Command>) -> Seq<u32>
    decreases commands.len(),
{
    if commands.len() == 0 {
        words
    } else {
        let before = staging_after(words, commands.drop_last());
        match commands.last() {
            Command::KladData { index, word } => if index < before.len() {
                before.update(index as int, word)
            } else {
                before
            },
            _ => before,
        }
    }
}

/// A staging area that holds nothing.
pub open spec fn empty_staging() -> Seq<u32> {
    seq![0u32, 0u32, 0u32, 0u32]
}

/// Whether key bytes may lie in the staging area.
pub open spec fn cipher_is_staged(stage: CipherStage) -> bool {
    stage is Route || stage is LadderError || stage is SlotError
}

proof fn lemma_staging_append(words: Seq<u32>, a: Seq<Command>, b: Seq<Command>)
    ensures
        staging_after(words, a + b) == staging_after(staging_after(words, a), b),
    decreases b.len(),
{
    if b.len() == 0 {
        assert(a + b =~= a);
    } else {
        assert((a + b).drop_last() =~= a + b.drop_last());
        lemma_staging_append(words, a, b.drop_last());
    }
}

proof fn lemma_staging_plain(words: Seq<u32>, commands: Seq<Command>)
    requires
        forall|i: int| 0 <= i < commands.len() ==> !(#[trigger] commands[i] is KladData),
    ensures
        staging_after(words, commands) == words,
    decreases commands.len(),
{
    if commands.len() > 0 {
        lemma_staging_plain(words, commands.drop_last());
    }
}

proof fn lemma_staging_len(words: Seq<u32>, commands: Seq<Command>)
    ensures
        staging_after(words, commands).len() == words.len(),
    decreases commands.len(),
{
    if commands.len() > 0 {
        lemma_staging_len(words, commands.drop_last());
    }
}

proof fn lemma_staging_wiped(words: Seq<u32>)
    requires
        words.len() == 4,
    ensures
        staging_after(words, ladder_wipe()) == empty_staging(),
{
    let c = ladder_wipe();
    reveal_with_fuel(staging_after, 6);
    assert(c.drop_last() =~= seq![c[0], c[1], c[2], c[3]]);
    assert(c.drop_last().drop_last() =~= seq![c[0], c[1], c[2]]);
    assert(c.drop_last().drop_last().drop_last() =~= seq![c[0], c[1]]);
    assert(c.drop_last().drop_last().drop_last().drop_last() =~= seq![c[0]]);
    assert(c.drop_last().drop_last().drop_last().drop_last().drop_last() =~= seq![]);
    assert(staging_after(words, c) =~= empty_staging());
}

/// A key ladder that was not locked is given no key.
proof fn lemma_no_staging(input: CipherInput, state: CipherState, reply: Reply, i: int)
    requires
        state.stage is LadderOwner,
        !cipher_is_staged(cipher_next(input, state, reply).state.stage),
        0 <= i < cipher_next(input, state, reply).commands.len(),
    ensures
        !(cipher_next(input, state, reply).commands[i] is KladData),
{
}

/// No key byte stays in the staging area of the key ladder: whatever the answers, the
/// area is empty before the route and again as soon as the route is over.
pub proof fn law_cipher_staging_is_wiped(
    input: CipherInput,
    state: CipherState,
    words: Seq<u32>,
    reply: Reply,
)
    requires
        words.len() == 4,
        cipher_is_staged(state.stage) || words == empty_staging(),
    ensures
        ({
            let next = cipher_next(input, state, reply);
            let after = staging_after(words, next.commands);
            after.len() == 4 && (cipher_is_staged(next.state.stage) || after == empty_staging())
        }),
{
    let next = cipher_next(input, state, reply);
    lemma_staging_len(words, next.commands);
    if cipher_is_staged(state.stage) {
        if next.state.stage is LadderUnlock {
            lemma_staging_wiped(words);
        }
    } else if !cipher_is_staged(next.state.stage) {
        assert forall|i: int| 0 <= i < next.commands.len() implies !(
        #[trigger] next.commands[i] is KladData) by {
            lemma_command_stages(input, state, reply, i);
            if state.stage is LadderOwner {
                lemma_no_staging(input, state, reply, i);
            }
        }
        lemma_staging_plain(words, next.commands);
    }
}

/// Whether the channel has been claimed for good.
pub open spec fn cipher_holds_channel(stage: CipherStage) -> bool {
    stage is Clear || cipher_uses_memory(stage) || stage is Stop || stage is Release
}

/// Whether the engine may be using its memory.
pub open spec fn cipher_uses_memory(stage: CipherStage) -> bool {
    stage is Stale || stage is Configured || stage is OutputPosition || stage is InputPosition
        || stage is Wait || stage is BusError || stage is ControlError || stage is ControlStatus
        || stage is Block
}

/// While the engine may be using its memory, the memory holds one input descriptor for
/// the block, one output descriptor, and the block, all within its reach.
pub proof fn law_cipher_memory_is_the_block(input: CipherInput, state: CipherState, reply: Reply)
    requires
        cipher_uses_memory(state.stage) ==> input.addresses.reachable() && state.memory
            == cipher_prepared(input),
    ensures
        ({
            let next = cipher_next(input, state, reply).state;
            cipher_uses_memory(next.stage) ==> input.addresses.reachable() && next.memory
                == cipher_prepared(input)
        }),
{
}

/// The commands that decide who owns the channel.
pub open spec fn sets_owner() -> spec_fn(Command) -> bool {
    |command: Command| command is CipherOwners
}

/// The commands that decide who owns the channel or a keyslot.
pub open spec fn gives_up() -> spec_fn(Command) -> bool {
    |command: Command| command is CipherOwners || command is KeyslotLock
}

/// Fail closed: while the engine has not confirmed the stop, neither the memory nor the
/// channel nor the keyslot is given up, not even when the operation ends there.
pub proof fn law_cipher_fails_closed(input: CipherInput, state: CipherState, reply: Reply)
    requires
        state.valid(),
        state.stage is Stop,
        !channel_set(reply->word),
    ensures
        ({
            let next = cipher_next(input, state, reply);
            &&& next.commands == Seq::<Command>::empty()
            &&& next.state.memory == state.memory
            &&& next.state.slot == state.slot
            &&& next.state.output == state.output
            &&& next.state.stage is Stop || next.state == (CipherState {
                stage: CipherStage::Finished,
                result: Err(CryptoError::Backend(ERR_CLEAR_TIMEOUT)),
                ..state
            })
        }),
{
    assert(cipher_next(input, state, reply).commands =~= Seq::<Command>::empty());
}

/// Whether a stage lies after the channel was given back, or was never had.
pub open spec fn cipher_is_freeing_slot(stage: CipherStage) -> bool {
    stage is SlotUnlock || stage is SlotFlush || stage is SlotUnlocked
}

proof fn lemma_freeing_slot(input: CipherInput, state: CipherState, replies: Seq<Reply>)
    requires
        cipher_is_freeing_slot(state.stage) || state.stage is Finished,
    ensures
        ({
            let end = cipher_run(input, state, replies);
            &&& last_where(end.commands, sets_owner()) is None
            &&& end.state.memory == state.memory
            &&& end.state.output == state.output
        }),
    decreases replies.len(),
{
    let end = cipher_run(input, state, replies);
    if replies.len() == 0 || state.stage is Finished {
        lemma_last_none(end.commands, sets_owner());
    } else {
        let first = cipher_next(input, state, replies[0]);
        let rest = cipher_run(input, first.state, replies.skip(1));
        lemma_freeing_slot(input, first.state, replies.skip(1));
        lemma_last_none(first.commands, sets_owner());
        lemma_last_append(first.commands, rest.commands, sets_owner());
    }
}

/// From a stage that holds the channel, an operation that is over has either failed
/// closed, with neither the channel nor the keyslot given up, or has wiped its memory and
/// written the channel free.
pub proof fn law_cipher_run_releases(input: CipherInput, state: CipherState, replies: Seq<Reply>)
    requires
        cipher_holds_channel(state.stage),
        state.stage is Release ==> state.memory == empty_cipher_memory(),
        cipher_run(input, state, replies).state.stage is Finished,
    ensures
        ({
            let end = cipher_run(input, state, replies);
            let last = last_where(end.commands, sets_owner());
            ||| end.state.result == Err::<(), _>(CryptoError::Backend(ERR_CLEAR_TIMEOUT))
                && last_where(end.commands, gives_up()) is None
            ||| end.state.memory == empty_cipher_memory() && last is Some && owner_of(
                last->0->CipherOwners_word,
            ) == 0
        }),
    decreases replies.len(),
{
    let first = cipher_next(input, state, replies[0]);
    let rest = cipher_run(input, first.state, replies.skip(1));
    lemma_last_append(first.commands, rest.commands, sets_owner());
    if state.stage is Release {
        let word = replies[0]->word;
        lemma_freeing_slot(input, first.state, replies.skip(1));
        let c = first.commands;
        assert(c =~= cipher_release(word) + slot_select(state.slot));
        lemma_last_append(cipher_release(word), slot_select(state.slot), sets_owner());
        lemma_last_none(slot_select(state.slot), sets_owner());
        let r = cipher_release(word);
        reveal_with_fuel(last_where, 3);
        assert(r.drop_last() =~= seq![r[0], r[1]]);
        assert(r.drop_last().drop_last() =~= seq![r[0]]);
        crate::channel::law_owner_word(word, 0);
    } else {
        assert forall|i: int| 0 <= i < first.commands.len() implies !gives_up()(
            #[trigger] first.commands[i],
        ) by {
            lemma_command_stages(input, state, replies[0], i);
        }
        lemma_last_none(first.commands, gives_up());
        lemma_last_append(first.commands, rest.commands, gives_up());
        lemma_last_none(first.commands, sets_owner());
        if first.state.stage is Finished {
            lemma_last_none(rest.commands, gives_up());
        } else {
            law_cipher_run_releases(input, first.state, replies.skip(1));
        }
    }
}

/// Whether the keyslot has been locked and not yet been looked after.
pub open spec fn cipher_holds_slot(stage: CipherStage) -> bool {
    stage is LadderFailure || stage is LadderOwner || cipher_is_staged(stage)
        || stage is LadderUnlock || stage is LadderUnlocked || stage is Claim || stage is Verify
        || cipher_holds_channel(stage)
}

/// A locked keyslot is not forgotten: an operation that holds one and ends without
/// failing closed comes to the point where the slot is unlocked, with that same slot.
pub proof fn law_cipher_frees_keyslot(input: CipherInput, state: CipherState, replies: Seq<Reply>)
    requires
        cipher_holds_slot(state.stage),
        cipher_run(input, state, replies).state.stage is Finished,
        cipher_run(input, state, replies).state.result != Err::<(), _>(
            CryptoError::Backend(ERR_CLEAR_TIMEOUT),
        ),
    ensures
        exists|k: int|
            0 <= k <= replies.len() && (#[trigger] cipher_run(
                input,
                state,
                replies.take(k),
            )).state.stage is SlotUnlock && cipher_run(input, state, replies.take(k)).state.slot
                == state.slot,
    decreases replies.len(),
{
    let first = cipher_next(input, state, replies[0]);
    if first.state.stage is SlotUnlock {
        assert(replies.take(1)[0] == replies[0]);
        assert(replies.take(1).skip(1) =~= seq![]);
        assert(cipher_run(input, first.state, seq![]).state == first.state);
        assert(cipher_run(input, state, replies.take(1)).state == first.state);
    } else {
        law_cipher_frees_keyslot(input, first.state, replies.skip(1));
        let k = choose|k: int|
            0 <= k <= replies.skip(1).len() && (#[trigger] cipher_run(
                input,
                first.state,
                replies.skip(1).take(k),
            )).state.stage is SlotUnlock && cipher_run(
                input,
                first.state,
                replies.skip(1).take(k),
            ).state.slot == first.state.slot;
        assert(replies.take(k + 1)[0] == replies[0]);
        assert(replies.take(k + 1).skip(1) =~= replies.skip(1).take(k));
        assert(cipher_run(input, state, replies.take(k + 1)).state == cipher_run(
            input,
            first.state,
            replies.skip(1).take(k),
        ).state);
    }
}

/// Success is never reported before the keyslot is known to be free.
pub proof fn law_cipher_success_is_confirmed(input: CipherInput, state: CipherState, reply: Reply)
    requires
        !(state.stage is Finished),
        cipher_next(input, state, reply).state.stage is Finished,
        cipher_next(input, state, reply).state.result is Ok,
    ensures
        state.stage is SlotUnlock || state.stage is SlotUnlocked,
        reply->word == 0,
        state.result is Ok,
{
}

/// The output buffer is written with the block that the engine delivered, and with
/// nothing else.
pub proof fn law_cipher_output(input: CipherInput, state: CipherState, replies: Seq<Reply>)
    ensures
        ({
            let end = cipher_run(input, state, replies).state;
            end.output == state.output || exists|i: int|
                0 <= i < replies.len() && end.output == (#[trigger] replies[i])->block@
        }),
    decreases replies.len(),
{
    if replies.len() > 0 && !(state.stage is Finished) {
        let next = cipher_next(input, state, replies[0]).state;
        let end = cipher_run(input, state, replies).state;
        law_cipher_output(input, next, replies.skip(1));
        if end.output != next.output {
            let i = choose|i: int|
                0 <= i < replies.skip(1).len() && end.output == (
                #[trigger] replies.skip(1)[i])->block@;
            assert(replies.skip(1)[i] == replies[i + 1]);
        }
    }
}

/// Whether an answer meets no obstacle: some keyslot can be had; the key ladder, the
/// channel, the clears and the block are answered within their limits, however often an
/// attempt fails or a wait goes on before that; no error shows; and the engine delivers
/// `block`.
pub open spec fn cipher_good(state: CipherState, reply: Reply, block: Seq<u8>) -> bool {
    let word = reply->word;
    let idle = reply is Flush && !reply->busy && !reply->unlock_failed && !reply->timed_out;
    let another = state.slot + 1 < MCIPHER_KEYSLOTS;
    match state.stage {
        CipherStage::SlotOwner => word == 0 || another,
        CipherStage::SlotIdle { polls } => idle || (reply->busy && polls > 1) || another,
        CipherStage::SlotVerify => word == KEYSLOT_OWNER_REE || another,
        CipherStage::LadderFailure { polls } => word != 1 || polls > 1,
        CipherStage::LadderOwner { polls } => word == KLAD_OWNER_REE || polls > 1,
        CipherStage::Route { polls, .. } => word == 0 || polls > 1,
        CipherStage::LadderError { .. } => word == 0,
        CipherStage::SlotError { .. } => word == 0,
        CipherStage::LadderUnlocked => word != 1,
        CipherStage::Claim { polls } => owner_of(word) == 0 || polls > 1,
        CipherStage::Verify { polls } => owner_of(word) == OWNER_REE || polls > 1,
        CipherStage::Clear { polls } => channel_set(word) || polls > 1,
        CipherStage::Configured => word == 0,
        CipherStage::Wait { polls } => channel_set(word) || polls > 1,
        CipherStage::BusError => word == 0,
        CipherStage::ControlError => word == 0,
        CipherStage::ControlStatus => word == 0,
        CipherStage::Block => reply->block@ == block,
        CipherStage::Stop { polls } => channel_set(word) || polls > 1,
        CipherStage::SlotFlush { polls } => idle || (reply->busy && polls > 1),
        CipherStage::SlotUnlocked => word == 0,
        _ => true,
    }
}

/// Whether every answer of a run meets no obstacle.
pub open spec fn cipher_goes_well(
    input: CipherInput,
    state: CipherState,
    replies: Seq<Reply>,
    block: Seq<u8>,
) -> bool
    decreases replies.len(),
{
    replies.len() == 0 || state.stage is Finished || (cipher_good(state, replies[0], block)
        && cipher_goes_well(
        input,
        cipher_next(input, state, replies[0]).state,
        replies.skip(1),
        block,
    ))
}

/// Whether the block has been delivered and the engine stopped.
spec fn cipher_is_stopped(stage: CipherStage) -> bool {
    stage is Release || stage is SlotUnlock || stage is SlotFlush || stage is SlotUnlocked
        || stage is Finished
}

/// What a block operation that goes well has delivered so far.
spec fn cipher_on_track(state: CipherState, block: Seq<u8>) -> bool {
    &&& state.result == Ok::<(), CryptoError>(())
    &&& state.stage is Stop ==> state.output == block
    &&& cipher_is_stopped(state.stage) ==> state.output == block && state.memory
        == empty_cipher_memory()
}

proof fn lemma_well_run(
    input: CipherInput,
    state: CipherState,
    replies: Seq<Reply>,
    block: Seq<u8>,
)
    requires
        input.valid(),
        state.valid(),
        input.addresses.reachable(),
        block.len() == 16,
        cipher_on_track(state, block),
        cipher_goes_well(input, state, replies, block),
    ensures
        cipher_on_track(cipher_run(input, state, replies).state, block),
    decreases replies.len(),
{
    if replies.len() > 0 && !(state.stage is Finished) {
        let next = cipher_next(input, state, replies[0]).state;
        law_cipher_step_is_bounded(input, state, replies[0]);
        lemma_well_run(input, next, replies.skip(1), block);
    }
}

/// Success is owed: where the buffers can be reached and every answer of a run meets no
/// obstacle, the operation does not fail, and once it is over it has delivered the block of
/// the engine, its memory wiped. After `cipher_fuel` answers it is over.
pub proof fn law_cipher_success(
    input: CipherInput,
    output: Seq<u8>,
    memory: CipherMemory,
    replies: Seq<Reply>,
    block: Seq<u8>,
)
    requires
        input.valid(),
        input.addresses.reachable(),
        output.len() == 16,
        block.len() == 16,
        cipher_goes_well(input, cipher_start(output, memory), replies, block),
    ensures
        ({
            let start = cipher_start(output, memory);
            let end = cipher_run(input, start, replies).state;
            &&& replies.len() >= cipher_fuel(input, start) ==> end.stage is Finished
            &&& end.stage is Finished ==> end.result == Ok::<(), CryptoError>(()) && end.output
                == block && end.memory == empty_cipher_memory()
        }),
{
    let start = cipher_start(output, memory);
    if replies.len() >= cipher_fuel(input, start) {
        law_cipher_run_ends(input, start, replies);
    }
    lemma_well_run(input, start, replies, block);
}

} // verus!
