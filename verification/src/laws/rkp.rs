//! What holds of every PBKDF2 derivation.
use crate::bus::{Command, Reply};
use crate::bytes::{le_bytes, le_word};
use crate::error::CryptoError;
use crate::laws::trace::ends_with;
use crate::rkp::{
    rkp_cleanup, rkp_next, window_commands, window_word, with_block, with_word, RkpInput, RkpMove,
    RkpStage, RkpState, Window, ERR_LOCK_TIMEOUT,
};
use vstd::prelude::*;

verus! {

/// The commands of a run that is fed `replies` one after the other, and its end.
pub open spec fn rkp_run(input: RkpInput, state: RkpState, replies: Seq<Reply>) -> RkpMove
    decreases replies.len(),
{
    if replies.len() == 0 || state.stage is Finished {
        RkpMove { state, commands: seq![] }
    } else {
        let first = rkp_next(input, state, replies[0]);
        let rest = rkp_run(input, first.state, replies.skip(1));
        RkpMove { state: rest.state, commands: first.commands + rest.commands }
    }
}

/// The most questions that one block can cost.
pub open spec fn rkp_block_fuel(input: RkpInput) -> int {
    input.operation_polls + 8
}

/// The most questions that the blocks after `block` can cost.
pub open spec fn rkp_later_fuel(input: RkpInput, block: usize) -> int {
    if block == 1 {
        rkp_block_fuel(input)
    } else {
        0
    }
}

/// The most questions that a derivation can still ask.
pub open spec fn rkp_fuel(input: RkpInput, stage: RkpStage) -> int {
    match stage {
        RkpStage::Lock { polls } => polls + 1 + 2 * rkp_block_fuel(input),
        RkpStage::PasswordEntropy => 1 + 2 * rkp_block_fuel(input),
        RkpStage::SaltEntropy { block } => rkp_block_fuel(input) + rkp_later_fuel(input, block),
        RkpStage::Calculate { block, polls } => polls + 7 + rkp_later_fuel(input, block),
        RkpStage::BlockError { block } => 7 + rkp_later_fuel(input, block),
        RkpStage::OutputEntropy { block } => 6 + rkp_later_fuel(input, block),
        RkpStage::OutputWord { block, offset, .. } => 5 - offset + rkp_later_fuel(input, block),
        RkpStage::Finished { .. } => 0,
    }
}

/// Every answer keeps the state valid and brings the end nearer: no question is asked
/// without bound.
pub proof fn law_rkp_step_is_bounded(input: RkpInput, state: RkpState, reply: Reply)
    requires
        input.valid(),
        state.valid(),
        !(state.stage is Finished),
    ensures
        rkp_next(input, state, reply).state.valid(),
        0 <= rkp_fuel(input, rkp_next(input, state, reply).state.stage),
        rkp_fuel(input, rkp_next(input, state, reply).state.stage) < rkp_fuel(input, state.stage),
{
    let next = rkp_next(input, state, reply);
    match state.stage {
        RkpStage::OutputWord { block, start, offset } => {
            assert(next.state.derived.len() == 20);
            assert(next.state.output.len() == 32);
        },
        _ => {},
    }
}

/// A derivation ends after at most `rkp_fuel` answers, whatever they are.
pub proof fn law_rkp_run_ends(input: RkpInput, state: RkpState, replies: Seq<Reply>)
    requires
        input.valid(),
        state.valid(),
        replies.len() >= rkp_fuel(input, state.stage),
    ensures
        rkp_run(input, state, replies).state.stage is Finished,
    decreases replies.len(),
{
    if !(state.stage is Finished) {
        let next = rkp_next(input, state, replies[0]);
        law_rkp_step_is_bounded(input, state, replies[0]);
        law_rkp_run_ends(input, next.state, replies.skip(1));
    }
}

/// Whether a command sequence only asks for the lock.
pub open spec fn only_lock_requests(commands: Seq<Command>) -> bool {
    forall|i: int|
        0 <= i < commands.len() ==> (#[trigger] commands[i] == Command::RkpLock { owner: 1 }
            || commands[i] == Command::Fence)
}

/// A derivation that is over has either never had the lock, and then did nothing but
/// ask for it, or ends by clearing every sensitive window and giving the lock back.
pub proof fn law_rkp_run_releases(input: RkpInput, state: RkpState, replies: Seq<Reply>)
    requires
        input.valid(),
        state.valid(),
        !(state.stage is Finished),
        rkp_run(input, state, replies).state.stage is Finished,
    ensures
        ends_with(rkp_run(input, state, replies).commands, rkp_cleanup()) || (state.stage is Lock
            && only_lock_requests(rkp_run(input, state, replies).commands) && rkp_run(
            input,
            state,
            replies,
        ).state.stage == (RkpStage::Finished {
            result: Err(CryptoError::Backend(ERR_LOCK_TIMEOUT)),
        })),
    decreases replies.len(),
{
    let first = rkp_next(input, state, replies[0]);
    let rest = rkp_run(input, first.state, replies.skip(1));
    let all = rkp_run(input, state, replies);
    law_rkp_step_is_bounded(input, state, replies[0]);
    if first.state.stage is Finished {
        assert(all.commands =~= first.commands);
        assert(first.commands.skip(0) =~= first.commands);
        if state.stage is Lock {
            assert(first.commands.len() == 0);
        } else {
            assert(first.commands == rkp_cleanup());
        }
    } else {
        law_rkp_run_releases(input, first.state, replies.skip(1));
        if ends_with(rest.commands, rkp_cleanup()) {
            let n = rest.commands.len() - rkp_cleanup().len();
            assert(all.commands.skip(first.commands.len() + n) =~= rest.commands.skip(n));
        }
    }
}

/// A failed derivation has changed at most the bytes of the first block.
pub proof fn law_rkp_failure_keeps_tail(input: RkpInput, state: RkpState, replies: Seq<Reply>)
    requires
        input.valid(),
        state.valid(),
        match rkp_run(input, state, replies).state.stage {
            RkpStage::Finished { result } => result is Err,
            _ => false,
        },
    ensures
        rkp_run(input, state, replies).state.output.skip(20) == state.output.skip(20),
        rkp_run(input, state, replies).state.output.len() == 32,
    decreases replies.len(),
{
    if !(state.stage is Finished) && replies.len() > 0 {
        let first = rkp_next(input, state, replies[0]);
        law_rkp_step_is_bounded(input, state, replies[0]);
        law_rkp_failure_keeps_tail(input, first.state, replies.skip(1));
        assert(first.state.output.skip(20) =~= state.output.skip(20));
    }
}

/// The answers that a state window holding `words` gives when it is read from word
/// `start` on.
pub open spec fn window_answers(words: Seq<u32>, start: int) -> Seq<Reply> {
    Seq::new(5, |i: int| Reply::Word { word: words[(start + i) % 5] })
}

/// The bytes of a state window.
pub open spec fn window_bytes(words: Seq<u32>) -> Seq<u8> {
    le_bytes(words[0]) + le_bytes(words[1]) + le_bytes(words[2]) + le_bytes(words[3]) + le_bytes(
        words[4],
    )
}

/// The block after `count` of its words have been read from word `start` on.
pub open spec fn words_taken(derived: Seq<u8>, words: Seq<u32>, start: int, count: nat) -> Seq<u8>
    decreases count,
{
    if count == 0 {
        derived
    } else {
        let index = (start + count - 1) % 5;
        with_word(words_taken(derived, words, start, (count - 1) as nat), 4 * index, words[index])
    }
}

/// A word that has been read stands in its place.
proof fn lemma_words_taken(derived: Seq<u8>, words: Seq<u32>, start: int, count: nat, k: int)
    requires
        derived.len() == 20,
        words.len() == 5,
        0 <= start < 5,
        0 <= k < count <= 5,
    ensures
        words_taken(derived, words, start, count).len() == 20,
        forall|b: int|
            0 <= b < 4 ==> #[trigger] words_taken(derived, words, start, count)[4 * ((start + k) % 5)
                + b] == le_bytes(words[(start + k) % 5])[b],
    decreases count,
{
    let before = words_taken(derived, words, start, (count - 1) as nat);
    let index = (start + count - 1) % 5;
    if count >= 2 {
        lemma_words_taken(derived, words, start, (count - 1) as nat, 0);
    }
    assert(before.len() == 20);
    if k < count - 1 {
        lemma_words_taken(derived, words, start, (count - 1) as nat, k);
        let at = (start + k) % 5;
        assert(at != index);
        assert forall|b: int| 0 <= b < 4 implies #[trigger] words_taken(
            derived,
            words,
            start,
            count,
        )[4 * at + b] == le_bytes(words[at])[b] by {
            assert(before[4 * at + b] == le_bytes(words[at])[b]);
        }
    }
}

/// All five words make up the window, whatever word the read starts at.
pub(crate) proof fn lemma_all_words_taken(derived: Seq<u8>, words: Seq<u32>, start: int)
    requires
        derived.len() == 20,
        words.len() == 5,
        0 <= start < 5,
    ensures
        words_taken(derived, words, start, 5) == window_bytes(words),
{
    let all = words_taken(derived, words, start, 5);
    assert forall|i: int| 0 <= i < 20 implies #[trigger] all[i] == window_bytes(words)[i] by {
        let at = i / 4;
        let k = (at - start) % 5;
        assert((start + k) % 5 == at);
        lemma_words_taken(derived, words, start, 5, k);
        assert(all[4 * at + (i - 4 * at)] == le_bytes(words[at])[i - 4 * at]);
    }
    lemma_words_taken(derived, words, start, 5, 0);
    assert(all =~= window_bytes(words));
}

/// The state in which a block has been delivered.
pub open spec fn block_done(output: Seq<u8>, block: usize, derived: Seq<u8>) -> RkpState {
    RkpState {
        stage: if block == 1 {
            RkpStage::SaltEntropy { block: 2 }
        } else {
            RkpStage::Finished { result: Ok(()) }
        },
        derived: Seq::new(20, |i: int| 0u8),
        output: with_block(output, block as int, derived),
    }
}

/// Reading the remaining words of a block completes it.
proof fn lemma_reads(
    input: RkpInput,
    state: RkpState,
    block: usize,
    start: usize,
    offset: usize,
    first: Seq<u8>,
    words: Seq<u32>,
)
    requires
        state.valid(),
        words.len() == 5,
        state.stage == (RkpStage::OutputWord { block, start, offset }),
        state.derived == words_taken(first, words, start as int, offset as nat),
    ensures
        rkp_run(input, state, window_answers(words, start as int).skip(offset as int)).state
            == block_done(state.output, block, words_taken(first, words, start as int, 5)),
    decreases 5 - offset,
{
    let replies = window_answers(words, start as int).skip(offset as int);
    let next = rkp_next(input, state, replies[0]).state;
    assert(next.derived.len() == 20);
    assert(next.output.len() == 32);
    assert(replies.skip(1) =~= window_answers(words, start as int).skip(offset + 1));
    if offset < 4 {
        lemma_reads(input, next, block, start, (offset + 1) as usize, first, words);
    } else {
        assert(replies.skip(1).len() == 0);
    }
}

/// The random read order does not show in the result: whatever word the read starts
/// at, the block that it delivers is the state window in order.
pub proof fn law_rkp_read_order_is_immaterial(
    input: RkpInput,
    state: RkpState,
    block: usize,
    start: usize,
    words: Seq<u32>,
)
    requires
        state.valid(),
        words.len() == 5,
        state.stage == (RkpStage::OutputWord { block, start, offset: 0 }),
    ensures
        rkp_run(input, state, window_answers(words, start as int)).state == block_done(
            state.output,
            block,
            window_bytes(words),
        ),
{
    lemma_reads(input, state, block, start, 0, state.derived, words);
    assert(window_answers(words, start as int).skip(0) =~= window_answers(words, start as int));
    lemma_all_words_taken(state.derived, words, start as int);
}

/// Whether an answer meets no obstacle: the lock and each block are answered within their
/// limits, however often the wait goes on before that; the random numbers come; no error
/// shows; and the state window after a block holds the words of that block.
pub open spec fn rkp_good(
    state: RkpState,
    reply: Reply,
    first: Seq<u32>,
    second: Seq<u32>,
) -> bool {
    let word = reply->word;
    reply is Word && match state.stage {
        RkpStage::Lock { polls } => word == 1 || polls > 1,
        RkpStage::Calculate { polls, .. } => word == 0 || polls > 1,
        RkpStage::BlockError { .. } => word == 0,
        RkpStage::OutputWord { block, start, offset } => word == block_words(
            block,
            first,
            second,
        )[(start + offset) % 5],
        _ => true,
    }
}

/// The words of the state window after a block.
pub open spec fn block_words(block: usize, first: Seq<u32>, second: Seq<u32>) -> Seq<u32> {
    if block == 1 {
        first
    } else {
        second
    }
}

/// Whether every answer of a run meets no obstacle.
pub open spec fn rkp_goes_well(
    input: RkpInput,
    state: RkpState,
    replies: Seq<Reply>,
    first: Seq<u32>,
    second: Seq<u32>,
) -> bool
    decreases replies.len(),
{
    replies.len() == 0 || state.stage is Finished || (rkp_good(state, replies[0], first, second)
        && rkp_goes_well(
        input,
        rkp_next(input, state, replies[0]).state,
        replies.skip(1),
        first,
        second,
    ))
}

/// The block that a stage is about; the stages before the first block count as the first.
spec fn stage_block(stage: RkpStage) -> usize {
    match stage {
        RkpStage::SaltEntropy { block } => block,
        RkpStage::Calculate { block, .. } => block,
        RkpStage::BlockError { block } => block,
        RkpStage::OutputEntropy { block } => block,
        RkpStage::OutputWord { block, .. } => block,
        _ => 1,
    }
}

/// What a run that goes well has delivered so far.
spec fn rkp_on_track(state: RkpState, first: Seq<u32>, second: Seq<u32>) -> bool {
    &&& match state.stage {
        RkpStage::Finished { result } => result == Ok::<(), CryptoError>(()) && state.output
            == window_bytes(first) + window_bytes(second).take(12),
        _ => stage_block(state.stage) == 2 ==> state.output.take(20) == window_bytes(first),
    }
    &&& match state.stage {
        RkpStage::OutputWord { block, start, offset } => holds_words(
            state.derived,
            block_words(block, first, second),
            start as int,
            offset as nat,
        ),
        _ => true,
    }
}

/// Whether the first `count` words that were read from word `start` on stand in place.
pub open spec fn holds_words(derived: Seq<u8>, words: Seq<u32>, start: int, count: nat) -> bool {
    exists|before: Seq<u8>|
        before.len() == 20 && derived == #[trigger] words_taken(before, words, start, count)
}

proof fn lemma_stays_on_track(
    input: RkpInput,
    state: RkpState,
    reply: Reply,
    first: Seq<u32>,
    second: Seq<u32>,
)
    requires
        input.valid(),
        state.valid(),
        first.len() == 5,
        second.len() == 5,
        !(state.stage is Finished),
        rkp_on_track(state, first, second),
        rkp_good(state, reply, first, second),
    ensures
        rkp_on_track(rkp_next(input, state, reply).state, first, second),
{
    let next = rkp_next(input, state, reply).state;
    match state.stage {
        RkpStage::OutputEntropy { block } => {
            let start = (reply->word % 5) as int;
            let words = block_words(block, first, second);
            assert(words_taken(state.derived, words, start, 0) == state.derived);
        },
        RkpStage::OutputWord { block, start, offset } => {
            let words = block_words(block, first, second);
            let before = choose|before: Seq<u8>|
                before.len() == 20 && state.derived == #[trigger] words_taken(
                    before,
                    words,
                    start as int,
                    offset as nat,
                );
            let taken = words_taken(before, words, start as int, offset as nat + 1);
            assert(with_word(state.derived, 4 * ((start + offset) % 5), reply->word) == taken);
            if offset == 4 {
                lemma_all_words_taken(before, words, start as int);
                assert(next.output == with_block(state.output, block as int, window_bytes(words)));
                if block == 1 {
                    assert(next.output.take(20) =~= window_bytes(first));
                } else {
                    assert(next.output =~= window_bytes(first) + window_bytes(second).take(12));
                }
            }
        },
        _ => {},
    }
}

/// Success is owed: where every answer of a run meets no obstacle, the derivation does not
/// fail, and once it is over its output is the state window after the first block followed
/// by the first twelve bytes of the one after the second. After `rkp_fuel` answers it is
/// over.
pub proof fn law_rkp_success(
    input: RkpInput,
    state: RkpState,
    replies: Seq<Reply>,
    first: Seq<u32>,
    second: Seq<u32>,
)
    requires
        input.valid(),
        state.valid(),
        state.stage is Lock,
        first.len() == 5,
        second.len() == 5,
        rkp_goes_well(input, state, replies, first, second),
    ensures
        ({
            let end = rkp_run(input, state, replies).state;
            &&& replies.len() >= rkp_fuel(input, state.stage) ==> end.stage is Finished
            &&& end.stage is Finished ==> end.stage == (RkpStage::Finished { result: Ok(()) })
                && end.output == window_bytes(first) + window_bytes(second).take(12)
        }),
{
    if replies.len() >= rkp_fuel(input, state.stage) {
        law_rkp_run_ends(input, state, replies);
    }
    lemma_well_run(input, state, replies, first, second);
}

proof fn lemma_well_run(
    input: RkpInput,
    state: RkpState,
    replies: Seq<Reply>,
    first: Seq<u32>,
    second: Seq<u32>,
)
    requires
        input.valid(),
        state.valid(),
        first.len() == 5,
        second.len() == 5,
        rkp_on_track(state, first, second),
        rkp_goes_well(input, state, replies, first, second),
    ensures
        rkp_on_track(rkp_run(input, state, replies).state, first, second),
    decreases replies.len(),
{
    if replies.len() > 0 && !(state.stage is Finished) {
        let next = rkp_next(input, state, replies[0]).state;
        law_rkp_step_is_bounded(input, state, replies[0]);
        lemma_stays_on_track(input, state, replies[0], first, second);
        lemma_well_run(input, next, replies.skip(1), first, second);
    }
}

/// Whether a command sets a word of a window.
pub open spec fn sets_word(command: Command, window: Window, index: int) -> bool {
    match command {
        Command::RkpKey { index: at, .. } => window is Password && at == index,
        Command::RkpData { index: at, .. } => window is Salt && at == index,
        Command::RkpVal { index: at, .. } => window is State && at == index,
        _ => false,
    }
}

/// Where a write that starts at word `start` reaches word `index`.
pub open spec fn write_position(start: int, index: int) -> int {
    2 * ((index - start) % 32)
}

/// A write that starts at word `start` reaches word `index` with one step alone.
pub(crate) proof fn lemma_reached_once(start: int, index: int, k: int)
    requires
        0 <= start < 32,
        0 <= index < 32,
        0 <= k < 32,
    ensures
        (start + k) % 32 == index <==> k == (index - start) % 32,
{
    let step = if index >= start {
        index - start
    } else {
        index - start + 32
    };
    let reached = if start + k < 32 {
        start + k
    } else {
        start + k - 32
    };
    assert((index - start) % 32 == step);
    assert((start + k) % 32 == reached);
}

/// The random write order does not change what is written: every word of the window is
/// set exactly once, to its word of the image.
pub proof fn law_rkp_window_is_written_once(
    window: Window,
    image: Seq<u8>,
    start: int,
    index: int,
)
    requires
        0 <= start < 32,
        0 <= index < 32,
    ensures
        0 <= write_position(start, index) < 64,
        window_commands(window, image, start)[write_position(start, index)] == window_word(
            window,
            index,
            le_word(image, 4 * index),
        ),
        forall|i: int|
            0 <= i < 64 && i != write_position(start, index) ==> !sets_word(
                #[trigger] window_commands(window, image, start)[i],
                window,
                index,
            ),
{
    let k = (index - start) % 32;
    lemma_reached_once(start, index, k);
    let commands = window_commands(window, image, start);
    assert((2 * k) % 2 == 0 && (2 * k) / 2 == k);
    assert(commands[2 * k] == window_word(window, index, le_word(image, 4 * index)));
    assert forall|i: int| 0 <= i < 64 && i != 2 * k implies !sets_word(
        #[trigger] commands[i],
        window,
        index,
    ) by {
        let j = i / 2;
        if i % 2 == 0 {
            lemma_reached_once(start, index, j);
            let at = (start + j) % 32;
            assert(0 <= at < 32 && at != index);
            assert(commands[i] == window_word(window, at, le_word(image, 4 * at)));
        } else {
            assert(commands[i] == Command::Fence);
        }
    }
}

} // verus!
