//! What holds of every hash and every MAC.
use crate::bus::{Command, Reply};
use crate::bytes::{le_byte, le_bytes};
use crate::channel::{channel_set, owner_of, OWNER_REE};
use crate::error::CryptoError;
use crate::laws::trace::{critical_after, ends_with, lemma_critical_plain, lemma_ends_with_prefix};
use crate::padding::{fits, message_buffer, padded_len, zeros, HASH_DMA_BYTES};
use crate::spacc_hash::{
    digest_words, empty_hash_memory, hash_cleared, hash_next, hash_nodes, hash_release, hash_start,
    hash_state_commands, hash_wipe, with_digest_word, HashInput, HashMemory, HashMessage, HashMove,
    HashStage, HashState, ERR_SPACC_LOCK_TIMEOUT,
};
use crate::spacc_hmac::{
    block_image, digest_of, hmac_message, hmac_next, hmac_start, pad_block, HmacInput, HmacMove,
    HmacPhase, HmacState, INNER_PAD, OUTER_PAD,
};
use vstd::prelude::*;

verus! {

/// The commands of a run that is fed `replies` one after the other, and its end.
pub open spec fn hash_run(
    input: HashInput,
    message: HashMessage,
    state: HashState,
    replies: Seq<Reply>,
) -> HashMove
    decreases replies.len(),
{
    if replies.len() == 0 || state.stage is Finished {
        HashMove { state, commands: seq![] }
    } else {
        let first = hash_next(input, message, state, replies[0]);
        let rest = hash_run(input, message, first.state, replies.skip(1));
        HashMove { state: rest.state, commands: first.commands + rest.commands }
    }
}

/// The most questions that a hash can still ask.
pub open spec fn hash_fuel(input: HashInput, stage: HashStage) -> int {
    let after_wait = 4 + digest_words(input.algorithm) as int;
    let after_clear = 3 + input.operation_polls + after_wait;
    let after_claim = 1 + input.clear_polls + after_clear;
    match stage {
        HashStage::Claim { polls } => 2 * polls + after_claim,
        HashStage::Verify { polls } => 2 * polls - 1 + after_claim,
        HashStage::Enables => after_claim,
        HashStage::Clear { polls } => polls + after_clear,
        HashStage::Stale { .. } => after_clear,
        HashStage::Configured { .. } => after_clear - 1,
        HashStage::Position => after_clear - 2,
        HashStage::Wait { polls } => polls + after_wait,
        HashStage::BusError => after_wait,
        HashStage::ControlError => after_wait - 1,
        HashStage::ControlStatus => after_wait - 2,
        HashStage::Digest { index } => digest_words(input.algorithm) - index + 1,
        HashStage::Release { .. } => 1,
        HashStage::Finished { .. } => 0,
    }
}

/// Every answer keeps the state valid and brings the end nearer: no question is asked
/// without bound.
pub proof fn law_hash_step_is_bounded(
    input: HashInput,
    message: HashMessage,
    state: HashState,
    reply: Reply,
)
    requires
        input.valid(),
        state.valid(input),
        !(state.stage is Finished),
    ensures
        hash_next(input, message, state, reply).state.valid(input),
        0 <= hash_fuel(input, hash_next(input, message, state, reply).state.stage),
        hash_fuel(input, hash_next(input, message, state, reply).state.stage) < hash_fuel(
            input,
            state.stage,
        ),
{
    let next = hash_next(input, message, state, reply);
    if fits(message.prefix, message.body) {
        crate::padding::law_padded_shape(message.prefix + message.body);
        assert(message_buffer(message.prefix, message.body).len() == HASH_DMA_BYTES);
    }
    if state.stage is Digest {
        assert(next.state.digest.len() == 32);
    }
}

/// A hash ends after at most `hash_fuel` answers, whatever they are.
pub proof fn law_hash_run_ends(
    input: HashInput,
    message: HashMessage,
    state: HashState,
    replies: Seq<Reply>,
)
    requires
        input.valid(),
        state.valid(input),
        replies.len() >= hash_fuel(input, state.stage),
    ensures
        hash_run(input, message, state, replies).state.stage is Finished,
    decreases replies.len(),
{
    if !(state.stage is Finished) {
        let next = hash_next(input, message, state, replies[0]);
        law_hash_step_is_bounded(input, message, state, replies[0]);
        law_hash_run_ends(input, message, next.state, replies.skip(1));
    }
}

/// Whether the channel has been claimed for good.
pub open spec fn hash_holds_channel(stage: HashStage) -> bool {
    !(stage is Claim || stage is Verify || stage is Finished)
}

/// How a run that had the channel ends: memory wiped, then the channel given back.
pub open spec fn hash_closing(stage: HashStage, owners: u32) -> Seq<Command> {
    if stage is Release {
        hash_release(owners)
    } else {
        hash_wipe() + hash_release(owners)
    }
}

/// A hash that is over has either never had the channel, failed for that and left its
/// memory alone, or has wiped its memory and ends by giving the channel back.
pub proof fn law_hash_run_releases(
    input: HashInput,
    message: HashMessage,
    state: HashState,
    replies: Seq<Reply>,
)
    requires
        input.valid(),
        state.valid(input),
        state.stage is Release ==> state.memory == empty_hash_memory(),
        !(state.stage is Finished),
        hash_run(input, message, state, replies).state.stage is Finished,
    ensures
        ({
            let end = hash_run(input, message, state, replies);
            ||| end.state.stage == (HashStage::Finished {
                result: Err(CryptoError::Backend(ERR_SPACC_LOCK_TIMEOUT)),
            }) && !hash_holds_channel(state.stage) && end.state.memory == state.memory
            ||| end.state.memory == empty_hash_memory() && (exists|owners: u32|
                ends_with(end.commands, #[trigger] hash_closing(state.stage, owners)))
        }),
    decreases replies.len(),
{
    let first = hash_next(input, message, state, replies[0]);
    let rest = hash_run(input, message, first.state, replies.skip(1));
    let all = hash_run(input, message, state, replies);
    law_hash_step_is_bounded(input, message, state, replies[0]);
    if first.state.stage is Finished {
        assert(all.commands =~= first.commands);
        if state.stage is Release {
            let owners = replies[0]->word;
            assert(first.commands.skip(0) =~= first.commands);
            assert(ends_with(all.commands, hash_closing(state.stage, owners)));
        }
    } else {
        law_hash_run_releases(input, message, first.state, replies.skip(1));
        if !(rest.state.stage == (HashStage::Finished {
            result: Err(CryptoError::Backend(ERR_SPACC_LOCK_TIMEOUT)),
        }) && !hash_holds_channel(first.state.stage) && rest.state.memory == first.state.memory) {
            let owners = choose|owners: u32|
                ends_with(rest.commands, #[trigger] hash_closing(first.state.stage, owners));
            if first.state.stage is Release {
                lemma_release_only(input, message, first.state, replies.skip(1));
                let last = replies.skip(1)[0]->word;
                let n = first.commands.len() - hash_wipe().len();
                assert(rest.commands == hash_release(last));
                assert(first.commands.skip(n) =~= hash_wipe());
                assert(all.commands.skip(n) =~= hash_wipe() + hash_release(last));
                assert(ends_with(all.commands, hash_closing(state.stage, last)));
            } else {
                lemma_ends_with_prefix(
                    first.commands,
                    rest.commands,
                    hash_wipe() + hash_release(owners),
                );
                assert(ends_with(all.commands, hash_closing(state.stage, owners)));
            }
        }
    }
}

/// The release is the last step.
proof fn lemma_release_only(
    input: HashInput,
    message: HashMessage,
    state: HashState,
    replies: Seq<Reply>,
)
    requires
        state.stage is Release,
        hash_run(input, message, state, replies).state.stage is Finished,
    ensures
        replies.len() > 0,
        hash_run(input, message, state, replies).commands == hash_release(replies[0]->word),
{
    if replies.len() > 0 {
        let first = hash_next(input, message, state, replies[0]);
        let rest = hash_run(input, message, first.state, replies.skip(1));
        assert(first.commands + rest.commands =~= hash_release(replies[0]->word));
    }
}

/// Whether a stage lies inside the critical section.
pub open spec fn hash_is_critical(stage: HashStage) -> bool {
    stage is Claim || stage is Verify || stage is Enables || stage is Release
}

/// Shared registers are changed inside the critical section alone, which is never
/// entered twice and never left open past the claim, the disabling of the interrupt and
/// the release.
pub proof fn law_hash_critical_sections(
    input: HashInput,
    message: HashMessage,
    state: HashState,
    reply: Reply,
)
    requires
        !(state.stage is Finished),
    ensures
        critical_after(
            Some(hash_is_critical(state.stage)),
            hash_next(input, message, state, reply).commands,
        ) == Some(hash_is_critical(hash_next(input, message, state, reply).state.stage)),
{
    let open = Some(hash_is_critical(state.stage));
    let next = hash_next(input, message, state, reply);
    let word = reply->word;
    reveal_with_fuel(critical_after, 5);
    let before_end = hash_wipe().drop_last();
    assert(hash_wipe() =~= before_end.push(Command::EnterCritical));
    match state.stage {
        HashStage::Clear { .. } => {
            if crate::channel::channel_set(word) {
                if next.state.stage is Release {
                    assert(next.commands.drop_last() =~= hash_cleared() + before_end);
                    lemma_critical_plain(open, hash_cleared() + before_end);
                } else {
                    assert forall|i: int|
                        0 <= i < hash_state_commands(input.algorithm).len() implies (
                    #[trigger] hash_state_commands(input.algorithm)[i] is HashStateIndex
                        || hash_state_commands(input.algorithm)[i] is HashState) by {}
                    lemma_critical_plain(open, next.commands);
                }
            } else if next.state.stage is Release {
                assert(next.commands.drop_last() =~= before_end);
                lemma_critical_plain(open, before_end);
            } else {
                assert(next.commands =~= seq![]);
            }
        },
        HashStage::Claim { .. } | HashStage::Verify { .. } => {
            if next.commands.len() == 1 {
                assert(next.commands.drop_last() =~= seq![]);
            } else {
                assert(next.commands.drop_last() =~= seq![next.commands[0]]);
                assert(next.commands.drop_last().drop_last() =~= seq![]);
            }
        },
        HashStage::Enables => {
            let c = next.commands;
            assert(c.drop_last() =~= seq![c[0], c[1], c[2]]);
            assert(c.drop_last().drop_last() =~= seq![c[0], c[1]]);
            assert(c.drop_last().drop_last().drop_last() =~= seq![c[0]]);
            assert(c.drop_last().drop_last().drop_last().drop_last() =~= seq![]);
        },
        HashStage::Release { .. } => {
            let c = next.commands;
            assert(c.drop_last() =~= seq![c[0], c[1]]);
            assert(c.drop_last().drop_last() =~= seq![c[0]]);
            assert(c.drop_last().drop_last().drop_last() =~= seq![]);
        },
        _ => {
            if next.state.stage is Release {
                assert(next.commands.drop_last() =~= before_end);
                lemma_critical_plain(open, before_end);
            } else {
                lemma_critical_plain(open, next.commands);
            }
        },
    }
}

/// What the memory holds from the preparation to the last digest word.
pub open spec fn hash_prepared(input: HashInput, message: HashMessage) -> HashMemory {
    let padded = padded_len(message.prefix.len() + message.body.len()) as usize;
    HashMemory {
        nodes: hash_nodes(padded, input.bytes_address),
        bytes: message_buffer(message.prefix, message.body),
    }
}

/// Whether the engine may be reading the memory.
pub open spec fn hash_uses_memory(stage: HashStage) -> bool {
    stage is Stale || stage is Configured || stage is Position || stage is Wait || stage is BusError
        || stage is ControlError || stage is ControlStatus || stage is Digest
}

/// While the engine may be reading its memory, the memory holds one descriptor for the
/// padded message and that message, and a message that does not fit is never started.
pub proof fn law_hash_memory_is_the_message(
    input: HashInput,
    message: HashMessage,
    state: HashState,
    reply: Reply,
)
    requires
        hash_uses_memory(state.stage) ==> fits(message.prefix, message.body) && state.memory
            == hash_prepared(input, message),
    ensures
        ({
            let next = hash_next(input, message, state, reply).state;
            hash_uses_memory(next.stage) ==> fits(message.prefix, message.body) && next.memory
                == hash_prepared(input, message)
        }),
{
}

/// The bytes of a digest that is read as words.
pub open spec fn digest_bytes(words: Seq<u32>) -> Seq<u8> {
    Seq::new(4 * words.len(), |i: int| le_byte(words[i / 4], i % 4))
}

/// Whether an answer meets no obstacle: the channel is claimed, cleared and done within the
/// limits, however often an attempt fails or a wait goes on before that; no error shows; and
/// the engine's state after the hash is `words`.
pub open spec fn hash_good(state: HashState, reply: Reply, words: Seq<u32>) -> bool {
    let word = reply->word;
    reply is Word && match state.stage {
        HashStage::Claim { polls } => owner_of(word) == 0 || polls > 1,
        HashStage::Verify { polls } => owner_of(word) == OWNER_REE || polls > 1,
        HashStage::Clear { polls } => channel_set(word) || polls > 1,
        HashStage::Configured { .. } => word == 0,
        HashStage::Wait { polls } => channel_set(word) || polls > 1,
        HashStage::BusError => word == 0,
        HashStage::ControlError => word == 0,
        HashStage::ControlStatus => word == 0,
        HashStage::Digest { index } => word == words[index as int],
        _ => true,
    }
}

/// Whether every answer of a run meets no obstacle.
pub open spec fn hash_goes_well(
    input: HashInput,
    message: HashMessage,
    state: HashState,
    replies: Seq<Reply>,
    words: Seq<u32>,
) -> bool
    decreases replies.len(),
{
    replies.len() == 0 || state.stage is Finished || (hash_good(state, replies[0], words)
        && hash_goes_well(
        input,
        message,
        hash_next(input, message, state, replies[0]).state,
        replies.skip(1),
        words,
    ))
}

/// What a hash that goes well has delivered so far.
spec fn hash_on_track(input: HashInput, state: HashState, words: Seq<u32>) -> bool {
    match state.stage {
        HashStage::Digest { index } => state.digest.take(4 * index) == digest_bytes(words).take(
            4 * index,
        ),
        HashStage::Release { result } => result == Ok::<(), CryptoError>(()) && state.digest.take(
            4 * words.len() as int,
        ) == digest_bytes(words) && state.memory == empty_hash_memory(),
        HashStage::Finished { result } => result == Ok::<(), CryptoError>(())
            && state.digest.take(4 * words.len() as int) == digest_bytes(words) && state.memory
            == empty_hash_memory(),
        _ => true,
    }
}

proof fn lemma_stays_on_track(
    input: HashInput,
    message: HashMessage,
    state: HashState,
    reply: Reply,
    words: Seq<u32>,
)
    requires
        input.valid(),
        state.valid(input),
        input.nodes_address <= u32::MAX,
        input.bytes_address <= u32::MAX,
        fits(message.prefix, message.body),
        words.len() == digest_words(input.algorithm),
        !(state.stage is Finished),
        hash_on_track(input, state, words),
        hash_good(state, reply, words),
    ensures
        hash_on_track(input, hash_next(input, message, state, reply).state, words),
{
    let next = hash_next(input, message, state, reply).state;
    match state.stage {
        HashStage::ControlStatus => {
            assert(next.digest.take(0) =~= digest_bytes(words).take(0));
        },
        HashStage::Digest { index } => {
            let word = words[index as int];
            let count = 4 * (index + 1);
            assert(next.digest == with_digest_word(state.digest, index as int, word));
            assert forall|i: int| 0 <= i < count implies next.digest[i] == digest_bytes(words)[i] by {
                if i < 4 * index {
                    assert(state.digest.take(4 * index)[i] == digest_bytes(words).take(
                        4 * index,
                    )[i]);
                } else {
                    assert(i / 4 == index);
                    assert(le_bytes(word)[i - 4 * index] == le_byte(word, i % 4));
                }
            }
            assert(next.digest.take(count) =~= digest_bytes(words).take(count));
            if count == 4 * words.len() {
                assert(digest_bytes(words).take(count) =~= digest_bytes(words));
            }
        },
        _ => {},
    }
}

proof fn lemma_well_run(
    input: HashInput,
    message: HashMessage,
    state: HashState,
    replies: Seq<Reply>,
    words: Seq<u32>,
)
    requires
        input.valid(),
        state.valid(input),
        input.nodes_address <= u32::MAX,
        input.bytes_address <= u32::MAX,
        fits(message.prefix, message.body),
        words.len() == digest_words(input.algorithm),
        hash_on_track(input, state, words),
        hash_goes_well(input, message, state, replies, words),
    ensures
        hash_on_track(input, hash_run(input, message, state, replies).state, words),
    decreases replies.len(),
{
    if replies.len() > 0 && !(state.stage is Finished) {
        let next = hash_next(input, message, state, replies[0]).state;
        law_hash_step_is_bounded(input, message, state, replies[0]);
        lemma_stays_on_track(input, message, state, replies[0], words);
        lemma_well_run(input, message, next, replies.skip(1), words);
    }
}

/// Success is owed: where the message fits, the buffers can be reached and every answer of a
/// run meets no obstacle, the hash does not fail, and once it is over the digest is the state
/// of the engine word by word and the memory is wiped. After `hash_fuel` answers it is over.
pub proof fn law_hash_success(
    input: HashInput,
    message: HashMessage,
    memory: HashMemory,
    replies: Seq<Reply>,
    words: Seq<u32>,
)
    requires
        input.valid(),
        hash_start(input, memory).valid(input),
        input.nodes_address <= u32::MAX,
        input.bytes_address <= u32::MAX,
        fits(message.prefix, message.body),
        words.len() == digest_words(input.algorithm),
        hash_goes_well(input, message, hash_start(input, memory), replies, words),
    ensures
        ({
            let start = hash_start(input, memory);
            let end = hash_run(input, message, start, replies).state;
            &&& replies.len() >= hash_fuel(input, start.stage) ==> end.stage is Finished
            &&& end.stage is Finished ==> end.stage == (HashStage::Finished { result: Ok(()) })
                && end.digest.take(4 * words.len() as int) == digest_bytes(words) && end.memory
                == empty_hash_memory()
        }),
{
    let start = hash_start(input, memory);
    if replies.len() >= hash_fuel(input, start.stage) {
        law_hash_run_ends(input, message, start, replies);
    }
    lemma_well_run(input, message, start, replies, words);
}

/// The commands of a MAC that is fed `replies` one after the other, and its end.
pub open spec fn hmac_run(input: HmacInput, state: HmacState, replies: Seq<Reply>) -> HmacMove
    decreases replies.len(),
{
    if replies.len() == 0 || state.phase is Finished {
        HmacMove { state, commands: seq![] }
    } else {
        let first = hmac_next(input, state, replies[0]);
        let rest = hmac_run(input, first.state, replies.skip(1));
        HmacMove { state: rest.state, commands: first.commands + rest.commands }
    }
}

/// The most questions that a MAC can still ask.
pub open spec fn hmac_fuel(input: HmacInput, state: HmacState) -> int {
    let whole = hash_fuel(input.hash, HashStage::Claim { polls: input.hash.lock_polls });
    hash_fuel(input.hash, state.hash.stage) + match state.phase {
        HmacPhase::Key => 2 * whole,
        HmacPhase::Inner => whole,
        _ => 0,
    }
}

/// Every answer keeps the state of a MAC valid and brings the end nearer, and at the end
/// the key block and the inner digest are cleared.
pub proof fn law_hmac_step_is_bounded(input: HmacInput, state: HmacState, reply: Reply)
    requires
        input.valid(),
        state.valid(input),
        !(state.phase is Finished),
    ensures
        hmac_next(input, state, reply).state.valid(input),
        0 <= hmac_fuel(input, hmac_next(input, state, reply).state),
        hmac_fuel(input, hmac_next(input, state, reply).state) < hmac_fuel(input, state),
        hmac_next(input, state, reply).state.phase is Finished ==> hmac_next(
            input,
            state,
            reply,
        ).state.key_block == zeros(64) && hmac_next(input, state, reply).state.inner == zeros(32),
{
    law_hash_step_is_bounded(input.hash, hmac_message(input, state), state.hash, reply);
}

/// A MAC ends after at most `hmac_fuel` answers, whatever they are.
pub proof fn law_hmac_run_ends(input: HmacInput, state: HmacState, replies: Seq<Reply>)
    requires
        input.valid(),
        state.valid(input),
        replies.len() >= hmac_fuel(input, state),
    ensures
        hmac_run(input, state, replies).state.phase is Finished,
    decreases replies.len(),
{
    if !(state.phase is Finished) {
        law_hash_step_is_bounded(input.hash, hmac_message(input, state), state.hash, replies[0]);
        law_hmac_step_is_bounded(input, state, replies[0]);
        law_hmac_run_ends(input, hmac_next(input, state, replies[0]).state, replies.skip(1));
    }
}

/// Whether a command belongs to an attempt to claim the channel.
pub open spec fn is_claim(command: Command) -> bool {
    match command {
        Command::EnterCritical => true,
        Command::ExitCritical => true,
        Command::Fence => true,
        Command::HashOwners { word } => owner_of(word) == OWNER_REE,
        _ => false,
    }
}

/// Whether a command sequence is made of attempts to claim the channel.
pub open spec fn only_claims(commands: Seq<Command>) -> bool {
    forall|i: int| 0 <= i < commands.len() ==> is_claim(#[trigger] commands[i])
}

/// Whether a command sequence gives the channel back with its first `n` commands, after the
/// memory has been wiped, and then does nothing but try to claim it anew. A run that starts
/// at the release has wiped the memory before.
pub open spec fn gives_back(
    stage: HashStage,
    commands: Seq<Command>,
    n: int,
    owners: u32,
) -> bool {
    &&& 0 <= n <= commands.len()
    &&& only_claims(commands.skip(n))
    &&& ends_with(commands.take(n), hash_wipe() + hash_release(owners)) || (stage is Release
        && commands.take(n) == hash_release(owners))
}

/// A MAC that is over has cleared its secrets. Either it has never had the channel, failed
/// for that and left its memory alone, or it has wiped its memory and given the channel back; where a later
/// hash could not claim it again, nothing but attempts to do so came after.
pub proof fn law_hmac_run_releases(input: HmacInput, state: HmacState, replies: Seq<Reply>)
    requires
        input.valid(),
        state.valid(input),
        state.hash.stage is Release ==> state.hash.memory == empty_hash_memory(),
        !(state.phase is Finished),
        hmac_run(input, state, replies).state.phase is Finished,
    ensures
        ({
            let end = hmac_run(input, state, replies);
            &&& end.state.key_block == zeros(64)
            &&& end.state.inner == zeros(32)
            &&& {
                ||| !hash_holds_channel(state.hash.stage) && only_claims(end.commands)
                    && end.state.hash.memory == state.hash.memory && end.state.phase == (
                HmacPhase::Finished { result: Err(CryptoError::Backend(ERR_SPACC_LOCK_TIMEOUT)) })
                ||| end.state.hash.memory == empty_hash_memory() && (exists|n: int, owners: u32|
                    #[trigger] gives_back(state.hash.stage, end.commands, n, owners))
            }
        }),
    decreases replies.len(),
{
    let stage = state.hash.stage;
    let message = hmac_message(input, state);
    let hash = hash_next(input.hash, message, state.hash, replies[0]);
    let first = hmac_next(input, state, replies[0]);
    let rest = hmac_run(input, first.state, replies.skip(1));
    let all = hmac_run(input, state, replies);
    law_hash_step_is_bounded(input.hash, message, state.hash, replies[0]);
    law_hmac_step_is_bounded(input, state, replies[0]);
    let word = replies[0]->word;
    crate::channel::law_owner_word(word, 0);
    assert(all.commands =~= first.commands + rest.commands);
    if stage is Claim || stage is Verify {
        if !(first.state.hash.stage is Enables) {
            assert(only_claims(first.commands));
        }
    }
    if first.state.phase is Finished {
        assert(all.commands =~= first.commands);
        if stage is Release {
            assert(first.commands == hash_release(word));
            let n = first.commands.len() as int;
            assert(first.commands.take(n) =~= hash_release(word));
            assert(gives_back(stage, all.commands, n, word));
        }
    } else {
        law_hmac_run_releases(input, first.state, replies.skip(1));
        let after = first.state.hash.stage;
        let offset = first.commands.len() as int;
        if stage is Release {
            let release = hash_release(word);
            assert(first.commands =~= release + seq![Command::EnterCritical]);
            if only_claims(rest.commands) && rest.state.hash.memory == empty_hash_memory() {
                let n = release.len() as int;
                assert(all.commands.take(n) =~= release);
                assert(all.commands.skip(n) =~= seq![Command::EnterCritical] + rest.commands);
                assert(gives_back(stage, all.commands, n, word));
            } else {
                let (n, owners) = choose|n: int, owners: u32|
                    #[trigger] gives_back(after, rest.commands, n, owners);
                lemma_gives_back(first.commands, rest.commands, stage, after, n, owners);
            }
        } else if exists|n: int, owners: u32|
            #[trigger] gives_back(after, rest.commands, n, owners) && rest.state.hash.memory
                == empty_hash_memory() {
            let (n, owners) = choose|n: int, owners: u32|
                #[trigger] gives_back(after, rest.commands, n, owners);
            if after is Release {
                let from = offset - hash_wipe().len();
                assert(first.commands.skip(from) =~= hash_wipe());
            }
            lemma_gives_back(first.commands, rest.commands, stage, after, n, owners);
        } else {
            assert(only_claims(all.commands));
        }
    }
}

/// Commands in front do not change how the channel is given back.
proof fn lemma_gives_back(
    front: Seq<Command>,
    back: Seq<Command>,
    stage: HashStage,
    after: HashStage,
    n: int,
    owners: u32,
)
    requires
        gives_back(after, back, n, owners),
        after is Release ==> ends_with(front, hash_wipe()),
    ensures
        gives_back(stage, front + back, front.len() + n, owners),
{
    let all = front + back;
    let m = front.len() + n;
    let closing = hash_wipe() + hash_release(owners);
    assert(all.skip(m) =~= back.skip(n));
    assert(all.take(m) =~= front + back.take(n));
    if ends_with(back.take(n), closing) {
        lemma_ends_with_prefix(front, back.take(n), closing);
    } else {
        let from = front.len() - hash_wipe().len();
        assert(all.take(m).skip(from) =~= front.skip(from) + hash_release(owners));
        assert(all.take(m).skip(all.take(m).len() - closing.len()) =~= closing);
    }
}

/// Whether a hash that starts afresh takes exactly these answers and succeeds.
pub open spec fn hash_succeeds(
    input: HashInput,
    message: HashMessage,
    state: HashState,
    replies: Seq<Reply>,
) -> bool {
    &&& replies.len() > 0
    &&& !(hash_run(input, message, state, replies.drop_last()).state.stage is Finished)
    &&& hash_run(input, message, state, replies).state.stage == (HashStage::Finished {
        result: Ok(()),
    })
}

/// A phase of a MAC runs its hash to the end and then takes the turn that follows.
proof fn lemma_phase(
    input: HmacInput,
    state: HmacState,
    message: HashMessage,
    replies: Seq<Reply>,
    rest: Seq<Reply>,
)
    requires
        !(state.phase is Finished),
        state.phase is Finished <==> state.hash.stage is Finished,
        message == hmac_message(input, state),
        hash_succeeds(input.hash, message, state.hash, replies),
    ensures
        ({
            let end = hash_run(input.hash, message, state.hash, replies).state;
            hmac_run(input, state, replies + rest).state == hmac_run(
                input,
                hmac_turn(input, state, end),
                rest,
            ).state
        }),
    decreases replies.len(),
{
    let next = hash_next(input.hash, message, state.hash, replies[0]).state;
    assert((replies + rest)[0] == replies[0]);
    assert((replies + rest).skip(1) =~= replies.skip(1) + rest);
    if replies.len() == 1 {
        assert(replies.skip(1) + rest =~= rest);
        assert(hash_run(input.hash, message, next, replies.skip(1)).state == next);
    } else {
        if next.stage is Finished {
            assert(replies.drop_last()[0] == replies[0]);
            assert(hash_run(input.hash, message, next, replies.drop_last().skip(1)).state == next);
            assert(false);
        }
        let after = hmac_next(input, state, replies[0]).state;
        assert(after == HmacState { hash: next, ..state });
        assert(replies.drop_last()[0] == replies[0]);
        assert(replies.drop_last().skip(1) =~= replies.skip(1).drop_last());
        lemma_phase(input, after, message, replies.skip(1), rest);
    }
}

/// The state of a MAC after one of its hashes has ended with success.
pub open spec fn hmac_turn(input: HmacInput, state: HmacState, end: HashState) -> HmacState {
    match state.phase {
        HmacPhase::Key => HmacState {
            phase: HmacPhase::Inner,
            key_block: block_image(digest_of(input.hash.algorithm, end.digest)),
            inner: state.inner,
            hash: hash_start(input.hash, end.memory),
        },
        HmacPhase::Inner => if input.output_fits() {
            HmacState {
                phase: HmacPhase::Outer,
                key_block: state.key_block,
                inner: end.digest,
                hash: hash_start(input.hash, end.memory),
            }
        } else {
            HmacState {
                phase: HmacPhase::Finished { result: Err(CryptoError::InvalidLength) },
                key_block: zeros(64),
                inner: zeros(32),
                hash: end,
            }
        },
        _ => HmacState {
            phase: HmacPhase::Finished { result: Ok(()) },
            key_block: zeros(64),
            inner: zeros(32),
            hash: end,
        },
    }
}

/// A MAC is the hash of the outer pad and the hash of the inner pad and the message: from
/// a key block on, where the inner hash succeeds with some digest and the hash of the
/// outer pad and that digest succeeds, the MAC succeeds with the digest of the latter,
/// provided that the output has its length.
pub proof fn law_hmac_is_nested_hash(
    input: HmacInput,
    key_block: Seq<u8>,
    memory: HashMemory,
    first: Seq<Reply>,
    second: Seq<Reply>,
)
    requires
        input.output_fits(),
        ({
            let start = hash_start(input.hash, memory);
            let inner = HashMessage {
                prefix: pad_block(key_block, INNER_PAD),
                body: input.message,
            };
            let end = hash_run(input.hash, inner, start, first).state;
            let outer = HashMessage {
                prefix: pad_block(key_block, OUTER_PAD),
                body: digest_of(input.hash.algorithm, end.digest),
            };
            hash_succeeds(input.hash, inner, start, first) && hash_succeeds(
                input.hash,
                outer,
                hash_start(input.hash, end.memory),
                second,
            )
        }),
    ensures
        ({
            let start = hash_start(input.hash, memory);
            let inner = HashMessage {
                prefix: pad_block(key_block, INNER_PAD),
                body: input.message,
            };
            let end = hash_run(input.hash, inner, start, first).state;
            let outer = HashMessage {
                prefix: pad_block(key_block, OUTER_PAD),
                body: digest_of(input.hash.algorithm, end.digest),
            };
            let state = HmacState {
                phase: HmacPhase::Inner,
                key_block,
                inner: zeros(32),
                hash: start,
            };
            let last = hmac_run(input, state, first + second).state;
            &&& last.phase == (HmacPhase::Finished { result: Ok(()) })
            &&& last.hash.digest == hash_run(
                input.hash,
                outer,
                hash_start(input.hash, end.memory),
                second,
            ).state.digest
        }),
{
    let start = hash_start(input.hash, memory);
    let inner = HashMessage { prefix: pad_block(key_block, INNER_PAD), body: input.message };
    let state = HmacState { phase: HmacPhase::Inner, key_block, inner: zeros(32), hash: start };
    let end = hash_run(input.hash, inner, start, first).state;
    let middle = hmac_turn(input, state, end);
    lemma_phase(input, state, inner, first, second);
    lemma_phase(input, middle, hmac_message(input, middle), second, seq![]);
    assert(second + seq![] =~= second);
}

/// An output that does not have the length of the digest makes a MAC fail: once the inner
/// hash has succeeded, nothing more is asked of the engine.
pub proof fn law_hmac_refuses_output(
    input: HmacInput,
    key_block: Seq<u8>,
    memory: HashMemory,
    first: Seq<Reply>,
    rest: Seq<Reply>,
)
    requires
        !input.output_fits(),
        hash_succeeds(
            input.hash,
            HashMessage { prefix: pad_block(key_block, INNER_PAD), body: input.message },
            hash_start(input.hash, memory),
            first,
        ),
    ensures
        ({
            let start = hash_start(input.hash, memory);
            let inner = HashMessage {
                prefix: pad_block(key_block, INNER_PAD),
                body: input.message,
            };
            let state = HmacState {
                phase: HmacPhase::Inner,
                key_block,
                inner: zeros(32),
                hash: start,
            };
            hmac_run(input, state, first + rest).state == (HmacState {
                phase: HmacPhase::Finished { result: Err(CryptoError::InvalidLength) },
                key_block: zeros(64),
                inner: zeros(32),
                hash: hash_run(input.hash, inner, start, first).state,
            })
        }),
{
    let start = hash_start(input.hash, memory);
    let inner = HashMessage { prefix: pad_block(key_block, INNER_PAD), body: input.message };
    let state = HmacState { phase: HmacPhase::Inner, key_block, inner: zeros(32), hash: start };
    lemma_phase(input, state, inner, first, rest);
}

/// A key that is longer than a block is replaced by its hash.
pub proof fn law_hmac_long_key_is_hashed(
    input: HmacInput,
    memory: HashMemory,
    first: Seq<Reply>,
    rest: Seq<Reply>,
)
    requires
        input.key.len() > 64,
        hash_succeeds(
            input.hash,
            HashMessage { prefix: Seq::empty(), body: input.key },
            hash_start(input.hash, memory),
            first,
        ),
    ensures
        ({
            let message = HashMessage { prefix: Seq::empty(), body: input.key };
            let end = hash_run(input.hash, message, hash_start(input.hash, memory), first).state;
            hmac_run(input, hmac_start(input, memory), first + rest).state == hmac_run(
                input,
                HmacState {
                    phase: HmacPhase::Inner,
                    key_block: block_image(digest_of(input.hash.algorithm, end.digest)),
                    inner: zeros(32),
                    hash: hash_start(input.hash, end.memory),
                },
                rest,
            ).state
        }),
{
    let message = HashMessage { prefix: Seq::empty(), body: input.key };
    lemma_phase(input, hmac_start(input, memory), message, first, rest);
}

/// The words that the engine delivers in a phase of a MAC.
pub open spec fn phase_words(
    phase: HmacPhase,
    key: Seq<u32>,
    inner: Seq<u32>,
    outer: Seq<u32>,
) -> Seq<u32> {
    match phase {
        HmacPhase::Key => key,
        HmacPhase::Inner => inner,
        _ => outer,
    }
}

/// Whether every answer of a MAC meets no obstacle; the engine delivers `key` for a key
/// that has to be hashed, `inner` for the inner hash and `outer` for the outer one.
pub open spec fn hmac_goes_well(
    input: HmacInput,
    state: HmacState,
    replies: Seq<Reply>,
    key: Seq<u32>,
    inner: Seq<u32>,
    outer: Seq<u32>,
) -> bool
    decreases replies.len(),
{
    replies.len() == 0 || state.phase is Finished || (hash_good(
        state.hash,
        replies[0],
        phase_words(state.phase, key, inner, outer),
    ) && hmac_goes_well(
        input,
        hmac_next(input, state, replies[0]).state,
        replies.skip(1),
        key,
        inner,
        outer,
    ))
}

/// The key block of a MAC: the key, or what the engine delivered for one that is too long.
pub open spec fn hmac_key_block(input: HmacInput, key: Seq<u32>) -> Seq<u8> {
    block_image(
        if input.key.len() > 64 {
            digest_bytes(key)
        } else {
            input.key
        },
    )
}

/// What a MAC that goes well hashes and has delivered so far: the pads are those of the key
/// block, and the outer hash is about the inner digest.
pub open spec fn hmac_on_track(
    input: HmacInput,
    state: HmacState,
    key: Seq<u32>,
    inner: Seq<u32>,
    outer: Seq<u32>,
) -> bool {
    match state.phase {
        HmacPhase::Key => input.key.len() > 64,
        HmacPhase::Inner => state.key_block == hmac_key_block(input, key),
        HmacPhase::Outer => state.key_block == hmac_key_block(input, key) && digest_of(
            input.hash.algorithm,
            state.inner,
        ) == digest_bytes(inner),
        HmacPhase::Finished { result } => result == Ok::<(), CryptoError>(()) && digest_of(
            input.hash.algorithm,
            state.hash.digest,
        ) == digest_bytes(outer) && state.hash.memory == empty_hash_memory(),
    }
}

proof fn lemma_hmac_fits(input: HmacInput, state: HmacState)
    requires
        input.valid(),
        state.valid(input),
    ensures
        fits(hmac_message(input, state).prefix, hmac_message(input, state).body),
{
}

proof fn lemma_hmac_well_run(
    input: HmacInput,
    state: HmacState,
    replies: Seq<Reply>,
    key: Seq<u32>,
    inner: Seq<u32>,
    outer: Seq<u32>,
)
    requires
        input.valid(),
        state.valid(input),
        input.hash.nodes_address <= u32::MAX,
        input.hash.bytes_address <= u32::MAX,
        input.output_fits(),
        key.len() == digest_words(input.hash.algorithm),
        inner.len() == digest_words(input.hash.algorithm),
        outer.len() == digest_words(input.hash.algorithm),
        hmac_on_track(input, state, key, inner, outer),
        !(state.phase is Finished) ==> hash_on_track(
            input.hash,
            state.hash,
            phase_words(state.phase, key, inner, outer),
        ),
        hmac_goes_well(input, state, replies, key, inner, outer),
    ensures
        hmac_on_track(input, hmac_run(input, state, replies).state, key, inner, outer),
    decreases replies.len(),
{
    if replies.len() > 0 && !(state.phase is Finished) {
        let message = hmac_message(input, state);
        let words = phase_words(state.phase, key, inner, outer);
        let next = hmac_next(input, state, replies[0]).state;
        lemma_hmac_fits(input, state);
        law_hmac_step_is_bounded(input, state, replies[0]);
        law_hash_step_is_bounded(input.hash, message, state.hash, replies[0]);
        lemma_stays_on_track(input.hash, message, state.hash, replies[0], words);
        lemma_hmac_well_run(input, next, replies.skip(1), key, inner, outer);
    }
}

/// Success is owed: where the output has the length of the digest, the buffers can be
/// reached and every answer of a run meets no obstacle, a MAC does not fail. It is the hash
/// of the outer pad and the inner digest, which is the hash of the inner pad and the
/// message; a key that is longer than a block is hashed first. Once it is over its digest is
/// what the engine delivered for the outer hash, and after `hmac_fuel` answers it is over.
pub proof fn law_hmac_success(
    input: HmacInput,
    memory: HashMemory,
    replies: Seq<Reply>,
    key: Seq<u32>,
    inner: Seq<u32>,
    outer: Seq<u32>,
)
    requires
        input.valid(),
        hmac_start(input, memory).valid(input),
        input.hash.nodes_address <= u32::MAX,
        input.hash.bytes_address <= u32::MAX,
        input.output_fits(),
        key.len() == digest_words(input.hash.algorithm),
        inner.len() == digest_words(input.hash.algorithm),
        outer.len() == digest_words(input.hash.algorithm),
        hmac_goes_well(input, hmac_start(input, memory), replies, key, inner, outer),
    ensures
        ({
            let start = hmac_start(input, memory);
            let end = hmac_run(input, start, replies).state;
            &&& replies.len() >= hmac_fuel(input, start) ==> end.phase is Finished
            &&& hmac_on_track(input, end, key, inner, outer)
        }),
{
    let start = hmac_start(input, memory);
    if replies.len() >= hmac_fuel(input, start) {
        law_hmac_run_ends(input, start, replies);
    }
    lemma_hmac_well_run(input, start, replies, key, inner, outer);
}

} // verus!
