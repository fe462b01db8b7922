//! The RKP engine as a machine, and what a derivation delivers when it answers.
//!
//! The machine has its three windows. When a block is started it computes one PBKDF2 block
//! from them: the password window holds the key, the salt window the last block of the
//! first inner hash, and the state window the state that every hash starts from and, after
//! that, the result.
use crate::bus::{Ask, Command, Reply, Source};
use crate::bytes::{be_bytes_32, be_bytes_64, le_byte, le_bytes, le_word};
use crate::error::CryptoError;
use crate::laws::hash_device::lemma_initial_words;
use crate::laws::rkp::{
    holds_words, law_rkp_step_is_bounded, lemma_all_words_taken, lemma_reached_once, rkp_run,
    window_bytes, words_taken,
};
use crate::laws::standard::{
    hmac_from, hmac_key, lemma_register, lemma_sha_blocks, pbkdf2_32, pbkdf2_block, pbkdf2_sum,
    register_of, sha_blocks, sha_chain, sha_from, sha_initial, word_bytes, xor_byte, Compression,
};
use crate::laws::trace::{after, lemma_after_both, lemma_after_few, lemma_after_next};
use crate::padding::{be_number_64, is_sha_padding, law_padding_is_unique, lemma_from_bytes};
use crate::rkp::{
    initial_state_commands, rkp_ask, rkp_cleanup, rkp_next, sha1_salt_block, window_clear,
    window_commands, window_image, window_word, with_block, with_word, RkpInput, RkpStage,
    RkpState, Window,
};
use crate::spacc_hash::HashAlgorithm;
use vstd::prelude::*;

verus! {

/// The windows of the engine and what it is doing.
pub struct RkpMachine {
    /// The password window.
    pub key: Map<int, u32>,
    /// The salt window.
    pub data: Map<int, u32>,
    /// The state window.
    pub val: Map<int, u32>,
    /// The owner of the lock.
    pub owner: u8,
    /// Whether a block has been started and not been seen to finish.
    pub running: bool,
    /// What the state window will hold when the block is finished.
    pub pending: Map<int, u32>,
    /// Whether the derivation goes wrong.
    pub faulty: bool,
}

/// The first `count` bytes of a window.
pub open spec fn window_content(window: Map<int, u32>, count: nat) -> Seq<u8> {
    Seq::new(count, |i: int| le_byte(window[i / 4], i % 4))
}

/// The state that the state window holds, as words.
pub open spec fn window_state(window: Map<int, u32>) -> Seq<u32> {
    Seq::new(5, |i: int| register_of(window[i]))
}

/// One PBKDF2 block out of the windows: the first round goes on from the inner pad with
/// the block in the salt window, which is already padded.
pub open spec fn computed_block(
    compress: Compression,
    machine: RkpMachine,
    iterations: nat,
) -> Seq<u8> {
    let key_block = window_content(machine.key, 64);
    let initial = window_state(machine.val);
    let inner = word_bytes(
        sha_chain(
            compress,
            HashAlgorithm::Sha1,
            initial,
            xor_byte(key_block, 0x36) + window_content(machine.data, 64),
        ),
        5,
    );
    let first = sha_from(
        compress,
        HashAlgorithm::Sha1,
        initial,
        xor_byte(key_block, 0x5c) + inner,
    );
    pbkdf2_sum(compress, initial, key_block, first, iterations)
}

/// The engine after a start. Nothing is known of the state window until the block is seen
/// to finish. Where the derivation goes wrong, or with another key source or algorithm than
/// those for PBKDF2 with HMAC-SHA1 and a key from the window, nothing is known of it after
/// that either.
pub open spec fn started(
    compress: Compression,
    machine: RkpMachine,
    iterations: u16,
    key_source: u8,
    algorithm: u8,
) -> RkpMachine {
    RkpMachine {
        running: true,
        val: Map::empty(),
        pending: if key_source == 3 && algorithm == 1 && !machine.faulty {
            let block = computed_block(compress, machine, iterations as nat);
            Map::new(|i: int| 0 <= i < 5, |i: int| le_word(block, 4 * i))
        } else {
            Map::empty()
        },
        ..machine
    }
}

/// What one command does to the engine.
pub open spec fn rkp_machine_step(
    compress: Compression,
    machine: RkpMachine,
    command: Command,
) -> RkpMachine {
    match command {
        Command::RkpKey { index, word } => RkpMachine {
            key: machine.key.insert(index as int, word),
            ..machine
        },
        Command::RkpData { index, word } => RkpMachine {
            data: machine.data.insert(index as int, word),
            ..machine
        },
        Command::RkpVal { index, word } => RkpMachine {
            val: machine.val.insert(index as int, word),
            ..machine
        },
        Command::RkpStart { iterations, key_source, algorithm } => started(
            compress,
            machine,
            iterations,
            key_source,
            algorithm,
        ),
        Command::RkpLock { owner } => RkpMachine { owner, ..machine },
        _ => machine,
    }
}

/// The effect of single commands.
pub open spec fn rkp_stepper(compress: Compression) -> spec_fn(RkpMachine, Command) -> RkpMachine {
    |machine: RkpMachine, command: Command| rkp_machine_step(compress, machine, command)
}

/// Whether the engine gives an answer: the state window reads as it is, and of what the
/// machine does not keep any answer may come.
pub open spec fn rkp_machine_answers(machine: RkpMachine, ask: Ask, reply: Reply) -> bool {
    match ask {
        Ask::Read { source: Source::RkpVal { index } } => reply == (Reply::Word {
            word: machine.val[index as int],
        }),
        Ask::Read { source: Source::KdfError } => machine.faulty ==> reply->word != 0,
        _ => true,
    }
}

/// The engine after it has given an answer: when a block is no longer requested, the state
/// window holds its result.
pub open spec fn rkp_machine_seen(machine: RkpMachine, ask: Ask, reply: Reply) -> RkpMachine {
    match ask {
        Ask::Read { source: Source::RkpRequest } => if reply->word == 0 && machine.running {
            RkpMachine { running: false, val: machine.pending, ..machine }
        } else {
            machine
        },
        _ => machine,
    }
}

/// The engine after it has given an answer and taken the commands that follow it.
pub open spec fn rkp_machine_next(
    compress: Compression,
    machine: RkpMachine,
    ask: Ask,
    reply: Reply,
    commands: Seq<Command>,
) -> RkpMachine {
    after(rkp_stepper(compress), rkp_machine_seen(machine, ask, reply), commands)
}

/// The engine at the end of a run.
pub open spec fn rkp_machine_end(
    compress: Compression,
    input: RkpInput,
    state: RkpState,
    machine: RkpMachine,
    replies: Seq<Reply>,
) -> RkpMachine
    decreases replies.len(),
{
    if replies.len() == 0 || state.stage is Finished {
        machine
    } else {
        let next = rkp_next(input, state, replies[0]);
        rkp_machine_end(
            compress,
            input,
            next.state,
            rkp_machine_next(
                compress,
                machine,
                rkp_ask(state.stage),
                replies[0],
                next.commands,
            ),
            replies.skip(1),
        )
    }
}

/// Whether the windows hold nothing and the lock is free.
pub open spec fn is_given_back(machine: RkpMachine) -> bool {
    &&& forall|i: int| 0 <= i < 32 ==> #[trigger] machine.key[i] == 0
    &&& forall|i: int| 0 <= i < 32 ==> #[trigger] machine.data[i] == 0
    &&& forall|i: int| 0 <= i < 16 ==> #[trigger] machine.val[i] == 0
    &&& machine.owner == 0
}

/// Whether every answer of a run is one that the engine gives.
pub open spec fn rkp_meets_machine(
    compress: Compression,
    input: RkpInput,
    state: RkpState,
    machine: RkpMachine,
    replies: Seq<Reply>,
) -> bool
    decreases replies.len(),
{
    replies.len() == 0 || state.stage is Finished || (rkp_machine_answers(
        machine,
        rkp_ask(state.stage),
        replies[0],
    ) && ({
        let next = rkp_next(input, state, replies[0]);
        rkp_meets_machine(
            compress,
            input,
            next.state,
            rkp_machine_next(
                compress,
                machine,
                rkp_ask(state.stage),
                replies[0],
                next.commands,
            ),
            replies.skip(1),
        )
    }))
}

/// The contents of a window.
spec fn window_of(machine: RkpMachine, window: Window) -> Map<int, u32> {
    match window {
        Window::Password => machine.key,
        Window::Salt => machine.data,
        Window::State => machine.val,
    }
}

/// The machine with other contents of a window.
spec fn with_window(machine: RkpMachine, window: Window, contents: Map<int, u32>) -> RkpMachine {
    match window {
        Window::Password => RkpMachine { key: contents, ..machine },
        Window::Salt => RkpMachine { data: contents, ..machine },
        Window::State => RkpMachine { val: contents, ..machine },
    }
}

/// The first words of a write have reached their places.
proof fn lemma_window_part(
    compress: Compression,
    machine: RkpMachine,
    window: Window,
    image: Seq<u8>,
    start: int,
    count: int,
)
    requires
        0 <= start < 32,
        0 <= count <= 32,
    ensures
        ({
            let end = after(
                rkp_stepper(compress),
                machine,
                window_commands(window, image, start).take(2 * count),
            );
            &&& end == with_window(machine, window, window_of(end, window))
            &&& forall|k: int|
                0 <= k < count ==> #[trigger] window_of(end, window)[(start + k) % 32] == le_word(
                    image,
                    4 * ((start + k) % 32),
                )
        }),
    decreases count,
{
    let all = window_commands(window, image, start);
    let step = rkp_stepper(compress);
    if count == 0 {
        assert(all.take(0) =~= Seq::<Command>::empty());
    } else {
        lemma_window_part(compress, machine, window, image, start, count - 1);
        let i = 2 * (count - 1);
        let at = (start + count - 1) % 32;
        lemma_after_next(step, machine, all, i);
        lemma_after_next(step, machine, all, i + 1);
        assert(i % 2 == 0 && i / 2 == count - 1 && (i + 1) % 2 == 1);
        assert(all[i] == window_word(window, at, le_word(image, 4 * at)));
        assert(all[i + 1] == Command::Fence);
        let before = after(step, machine, all.take(i));
        let end = after(step, machine, all.take(2 * count));
        assert(window_of(end, window) == window_of(before, window).insert(
            at,
            le_word(image, 4 * at),
        ));
        assert forall|k: int| 0 <= k < count implies #[trigger] window_of(end, window)[(start + k)
            % 32] == le_word(image, 4 * ((start + k) % 32)) by {
            if (start + k) % 32 != at {
                assert(k < count - 1);
            }
        }
    }
}

/// A write leaves the image in the window, wherever it starts.
proof fn lemma_window_written(
    compress: Compression,
    machine: RkpMachine,
    window: Window,
    image: Seq<u8>,
    start: int,
)
    requires
        0 <= start < 32,
    ensures
        ({
            let end = after(rkp_stepper(compress), machine, window_commands(window, image, start));
            &&& end == with_window(machine, window, window_of(end, window))
            &&& forall|i: int|
                0 <= i < 32 ==> #[trigger] window_of(end, window)[i] == le_word(image, 4 * i)
        }),
{
    let all = window_commands(window, image, start);
    assert(all.take(64) =~= all);
    lemma_window_part(compress, machine, window, image, start, 32);
    let end = after(rkp_stepper(compress), machine, all);
    assert forall|i: int| 0 <= i < 32 implies #[trigger] window_of(end, window)[i] == le_word(
        image,
        4 * i,
    ) by {
        let k = (i - start) % 32;
        lemma_reached_once(start, i, k);
        assert(window_of(end, window)[(start + k) % 32] == le_word(image, 4 * ((start + k) % 32)));
    }
}

/// The bytes of a window that holds an image.
pub(crate) proof fn lemma_window_bytes(
    window: Map<int, u32>,
    image: Seq<u8>,
    words: int,
    count: nat,
)
    requires
        count <= 4 * words <= image.len(),
        forall|i: int| 0 <= i < words ==> #[trigger] window[i] == le_word(image, 4 * i),
    ensures
        window_content(window, count) == image.take(count as int),
{
    assert forall|i: int| 0 <= i < count implies window_content(window, count)[i] == image[i] by {
        let at = i / 4;
        assert(window[at] == le_word(image, 4 * at));
        lemma_word_bytes(image, 4 * at);
        assert(image[4 * at + (i % 4)] == le_byte(window[at], i % 4));
    }
    assert(window_content(window, count) =~= image.take(count as int));
}

/// A word that was put together from bytes has these bytes.
pub(crate) proof fn lemma_word_bytes(bytes: Seq<u8>, at: int)
    ensures
        forall|k: int| 0 <= k < 4 ==> #[trigger] bytes[at + k] == le_byte(le_word(bytes, at), k),
{
    let (b0, b1, b2, b3) = (
        bytes[at] as int,
        bytes[at + 1] as int,
        bytes[at + 2] as int,
        bytes[at + 3] as int,
    );
    let w = le_word(bytes, at);
    assert(w == b0 + 0x100 * b1 + 0x1_0000 * b2 + 0x100_0000 * b3);
    assert(w % 0x100 == b0);
    assert(w / 0x100 % 0x100 == b1);
    assert(w / 0x1_0000 % 0x100 == b2);
    assert(w / 0x100_0000 == b3);
    assert(bytes[at + 0] == le_byte(w, 0));
}

/// The first words of the initial state are in the state window.
proof fn lemma_initial_loaded(compress: Compression, machine: RkpMachine, count: int)
    requires
        0 <= count <= 5,
    ensures
        ({
            let end = after(
                rkp_stepper(compress),
                machine,
                initial_state_commands().take(2 * count),
            );
            &&& end == (RkpMachine { val: end.val, ..machine })
            &&& forall|i: int|
                0 <= i < count ==> #[trigger] end.val[i] == register_of(
                    sha_initial(HashAlgorithm::Sha1)[i],
                )
        }),
    decreases count,
{
    let all = initial_state_commands();
    let step = rkp_stepper(compress);
    if count == 0 {
        assert(all.take(0) =~= Seq::<Command>::empty());
    } else {
        lemma_initial_loaded(compress, machine, count - 1);
        lemma_initial_words(HashAlgorithm::Sha1, count - 1);
        let i = 2 * (count - 1);
        lemma_after_next(step, machine, all, i);
        lemma_after_next(step, machine, all, i + 1);
        assert(i % 2 == 0 && i / 2 == count - 1 && (i + 1) % 2 == 1);
        assert(all[i + 1] == Command::Fence);
    }
}

/// The block in the salt window completes the inner message of the first round.
proof fn lemma_salt_block(pad: Seq<u8>, salt: Seq<u8>, number: u8)
    requires
        pad.len() == 64,
        salt.len() <= 51,
    ensures
        sha_blocks(pad + (salt + seq![0u8, 0u8, 0u8, number])) == pad + sha1_salt_block(
            salt,
            number as int,
        ).take(64),
{
    let message = pad + (salt + seq![0u8, 0u8, 0u8, number]);
    let block = sha1_salt_block(salt, number as int);
    let blocks = pad + block.take(64);
    let bits = ((64 + salt.len() + 4) * 8) as u64;
    assert(number as int as u32 == number);
    let word = number as u32;
    assert(be_bytes_32(word) =~= seq![0u8, 0u8, 0u8, number]) by {
        assert(word % 0x100 == number);
        assert(word / 0x100 % 0x100 == 0);
        assert(word / 0x1_0000 % 0x100 == 0);
        assert(word / 0x100_0000 == 0);
    }
    assert forall|i: int| 0 <= i < message.len() implies #[trigger] blocks[i] == message[i] by {
        if i >= 64 {
            assert(blocks[i] == block[i - 64]);
            assert(message[i] == (salt + seq![0u8, 0u8, 0u8, number])[i - 64]);
        }
    }
    assert(blocks[message.len() as int] == block[message.len() - 64]);
    assert forall|i: int| message.len() < i < blocks.len() - 8 implies #[trigger] blocks[i] == 0 by {
        assert(blocks[i] == block[i - 64]);
    }
    lemma_from_bytes(bits);
    assert forall|k: int| 0 <= k < 8 implies #[trigger] blocks[120 + k] == be_bytes_64(bits)[k] by {
        assert(blocks[120 + k] == block[56 + k]);
    }
    assert(blocks[120int + 0] == be_bytes_64(bits)[0]);
    assert(be_number_64(blocks, 120) == 8 * message.len());
    assert(is_sha_padding(message, blocks));
    lemma_sha_blocks(message);
    law_padding_is_unique(message, sha_blocks(message), blocks);
}

/// A key of at most one block fills the front of the password window.
proof fn lemma_key_block(compress: Compression, password: Seq<u8>)
    requires
        password.len() <= 64,
    ensures
        window_image(password).take(64) == hmac_key(compress, HashAlgorithm::Sha1, password),
{
    assert(window_image(password).take(64) =~= hmac_key(
        compress,
        HashAlgorithm::Sha1,
        password,
    ));
}

/// The password window holds the password.
spec fn has_key(machine: RkpMachine, input: RkpInput) -> bool {
    window_content(machine.key, 64) == window_image(input.password).take(64)
}

/// The block that a derivation owes.
spec fn owed(compress: Compression, input: RkpInput, block: usize) -> Seq<u8> {
    pbkdf2_block(compress, input.password, input.salt, input.iterations as nat, block as u8)
}

/// The words of the state window.
spec fn val_words(val: Map<int, u32>) -> Seq<u32> {
    Seq::new(5, |i: int| val[i])
}

/// The state window holds a block.
spec fn has_block(
    compress: Compression,
    val: Map<int, u32>,
    input: RkpInput,
    block: usize,
) -> bool {
    window_bytes(val_words(val)) == owed(compress, input, block)
}

/// The first block stands in the output once the second is worked on.
spec fn first_is_out(
    compress: Compression,
    input: RkpInput,
    state: RkpState,
    block: usize,
) -> bool {
    block == 2 ==> state.output.take(20) == owed(compress, input, 1)
}

/// What holds between a derivation and the engine.
spec fn in_step(
    compress: Compression,
    input: RkpInput,
    state: RkpState,
    machine: RkpMachine,
) -> bool {
    match state.stage {
        RkpStage::SaltEntropy { block } => has_key(machine, input) && first_is_out(
            compress,
            input,
            state,
            block,
        ),
        RkpStage::Calculate { block, .. } => has_key(machine, input) && first_is_out(
            compress,
            input,
            state,
            block,
        ) && machine.running && (!machine.faulty ==> has_block(
            compress,
            machine.pending,
            input,
            block,
        )),
        RkpStage::BlockError { block } => has_key(machine, input) && first_is_out(
            compress,
            input,
            state,
            block,
        ) && (!machine.faulty ==> has_block(compress, machine.val, input, block)),
        RkpStage::OutputEntropy { block } => has_key(machine, input) && first_is_out(
            compress,
            input,
            state,
            block,
        ) && has_block(compress, machine.val, input, block),
        RkpStage::OutputWord { block, start, offset } => has_key(machine, input) && first_is_out(
            compress,
            input,
            state,
            block,
        ) && has_block(compress, machine.val, input, block) && holds_words(
            state.derived,
            val_words(machine.val),
            start as int,
            offset as nat,
        ),
        RkpStage::Finished { result } => (result is Ok ==> state.output == owed(compress, input, 1)
            + owed(compress, input, 2).take(12)) && (result == Err::<(), CryptoError>(
            CryptoError::Backend(0xffff_1102),
        ) || is_given_back(machine)),
        _ => true,
    }
}

/// A PBKDF2 block has 20 bytes.
proof fn lemma_sum_len(
    compress: Compression,
    initial: Seq<u32>,
    key_block: Seq<u8>,
    first: Seq<u8>,
    n: nat,
)
    requires
        first.len() == 20,
    ensures
        pbkdf2_sum(compress, initial, key_block, first, n).len() == 20,
    decreases n,
{
}

/// A start on the windows of a derivation leaves the block of that number.
proof fn lemma_block_computed(
    compress: Compression,
    input: RkpInput,
    machine: RkpMachine,
    block: usize,
)
    requires
        input.password.len() <= 64,
        input.salt.len() <= 51,
        1 <= block <= 2,
        has_key(machine, input),
        window_content(machine.data, 64) == sha1_salt_block(input.salt, block as int).take(64),
        forall|i: int|
            0 <= i < 5 ==> #[trigger] machine.val[i] == register_of(
                sha_initial(HashAlgorithm::Sha1)[i],
            ),
    ensures
        !machine.faulty ==> has_block(
            compress,
            started(compress, machine, input.iterations, 3, 1).pending,
            input,
            block,
        ),
{
    let sha1 = HashAlgorithm::Sha1;
    let initial = sha_initial(sha1);
    let key = hmac_key(compress, sha1, input.password);
    lemma_key_block(compress, input.password);
    assert forall|i: int| 0 <= i < 5 implies window_state(machine.val)[i] == initial[i] by {
        assert(machine.val[i] == register_of(initial[i]));
        lemma_register(initial[i]);
    }
    assert(window_state(machine.val) =~= initial);
    lemma_salt_block(xor_byte(key, 0x36), input.salt, block as u8);
    let counter = seq![0u8, 0u8, 0u8, block as u8];
    let first = hmac_from(compress, sha1, initial, key, input.salt + counter);
    let result = computed_block(compress, machine, input.iterations as nat);
    assert(result == owed(compress, input, block));
    lemma_sum_len(compress, initial, key, first, input.iterations as nat);
    let end = started(compress, machine, input.iterations, 3, 1);
    let words = val_words(end.pending);
    if !machine.faulty {
        assert forall|i: int| 0 <= i < 20 implies window_bytes(words)[i] == result[i] by {
            let at = i / 4;
            assert(words[at] == le_word(result, 4 * at));
            lemma_word_bytes(result, 4 * at);
            assert(result[4 * at + (i % 4)] == le_byte(words[at], i % 4));
            assert(window_bytes(words)[i] == le_bytes(words[at])[i - 4 * at]);
        }
        assert(window_bytes(words) =~= result);
    }
}

proof fn lemma_block_started(
    compress: Compression,
    input: RkpInput,
    state: RkpState,
    machine: RkpMachine,
    reply: Reply,
    block: usize,
)
    requires
        input.password.len() <= 64,
        input.salt.len() <= 51,
        state.valid(),
        state.stage == (RkpStage::SaltEntropy { block }),
        !(reply is RandomFailed),
        in_step(compress, input, state, machine),
    ensures
        ({
            let next = rkp_next(input, state, reply);
            in_step(
                compress,
                input,
                next.state,
                after(rkp_stepper(compress), machine, next.commands),
            )
        }),
{
    let next = rkp_next(input, state, reply);
    let step = rkp_stepper(compress);
    let start = (reply->word % 32) as int;
    let image = sha1_salt_block(input.salt, block as int);
    let salt = window_commands(Window::Salt, image, start);
    let initial = initial_state_commands();
    let c = next.commands;
    let last = c.skip(74);
    assert(c =~= salt + initial + last);
    lemma_after_both(step, machine, salt + initial, last);
    lemma_after_both(step, machine, salt, initial);
    let salted = after(step, machine, salt);
    lemma_window_written(compress, machine, Window::Salt, image, start);
    assert forall|i: int| 0 <= i < 32 implies #[trigger] salted.data[i] == le_word(image, 4 * i) by {
        assert(window_of(salted, Window::Salt)[i] == le_word(image, 4 * i));
    }
    lemma_window_bytes(salted.data, image, 32, 64);
    assert(initial.take(10) =~= initial);
    lemma_initial_loaded(compress, salted, 5);
    let ready = after(step, salted, initial);
    assert(last.len() == 2);
    lemma_after_few(step, ready, last);
    let end = after(step, machine, c);
    assert(end == started(compress, ready, input.iterations, 3, 1));
    lemma_block_computed(compress, input, ready, block);
}

proof fn lemma_word_taken(
    compress: Compression,
    input: RkpInput,
    state: RkpState,
    machine: RkpMachine,
    reply: Reply,
)
    requires
        state.valid(),
        state.stage is OutputWord,
        in_step(compress, input, state, machine),
        rkp_machine_answers(machine, rkp_ask(state.stage), reply),
    ensures
        ({
            let next = rkp_next(input, state, reply);
            !(next.state.stage is Finished) ==> in_step(compress, input, next.state, machine)
        }),
        ({
            let next = rkp_next(input, state, reply);
            next.state.stage is Finished ==> next.state.output == owed(compress, input, 1)
                + owed(compress, input, 2).take(12)
        }),
{
    let next = rkp_next(input, state, reply).state;
    let words = val_words(machine.val);
    match state.stage {
        RkpStage::OutputWord { block, start, offset } => {
            let before = choose|before: Seq<u8>|
                before.len() == 20 && state.derived == #[trigger] words_taken(
                    before,
                    words,
                    start as int,
                    offset as nat,
                );
            let at = ((start + offset) % 5) as int;
            assert(reply->word == words[at]);
            let taken = words_taken(before, words, start as int, offset as nat + 1);
            assert(with_word(state.derived, 4 * at, reply->word) == taken);
            if offset == 4 {
                lemma_all_words_taken(before, words, start as int);
                assert(next.output == with_block(state.output, block as int, window_bytes(words)));
                if block == 1 {
                    assert(next.output.take(20) =~= owed(compress, input, 1));
                } else {
                    assert(next.output =~= owed(compress, input, 1) + owed(
                        compress,
                        input,
                        2,
                    ).take(12));
                }
            } else {
                assert(holds_words(next.derived, words, start as int, offset as nat + 1));
            }
        },
        _ => {},
    }
}

/// Clearing the first words of a window.
proof fn lemma_window_cleared(
    compress: Compression,
    machine: RkpMachine,
    window: Window,
    size: nat,
    count: int,
)
    requires
        0 <= count <= size <= 32,
    ensures
        ({
            let end = after(
                rkp_stepper(compress),
                machine,
                window_clear(window, size).take(count),
            );
            &&& end == with_window(machine, window, window_of(end, window))
            &&& forall|i: int| 0 <= i < count ==> #[trigger] window_of(end, window)[i] == 0
        }),
    decreases count,
{
    let all = window_clear(window, size);
    let step = rkp_stepper(compress);
    if count == 0 {
        assert(all.take(0) =~= Seq::<Command>::empty());
    } else {
        lemma_window_cleared(compress, machine, window, size, count - 1);
        lemma_after_next(step, machine, all, count - 1);
        assert(all[count - 1] == window_word(window, count - 1, 0));
    }
}

/// The cleanup empties the windows and frees the lock.
proof fn lemma_given_back(compress: Compression, machine: RkpMachine)
    ensures
        is_given_back(after(rkp_stepper(compress), machine, rkp_cleanup())),
{
    let step = rkp_stepper(compress);
    let all = rkp_cleanup();
    let salt = window_clear(Window::Salt, 32);
    let password = window_clear(Window::Password, 32);
    let state = window_clear(Window::State, 16);
    let last = seq![
        Command::Fence,
        Command::RkpLock { owner: 0 },
        Command::Fence,
    ];
    assert(all =~= salt + password + state + last);
    assert(salt.take(32) =~= salt);
    assert(password.take(32) =~= password);
    assert(state.take(16) =~= state);
    lemma_after_both(step, machine, salt + password + state, last);
    lemma_after_both(step, machine, salt + password, state);
    lemma_after_both(step, machine, salt, password);
    lemma_window_cleared(compress, machine, Window::Salt, 32, 32);
    let one = after(step, machine, salt);
    lemma_window_cleared(compress, one, Window::Password, 32, 32);
    let two = after(step, one, password);
    lemma_window_cleared(compress, two, Window::State, 16, 16);
    let three = after(step, two, state);
    lemma_after_few(step, three, last);
    let end = after(step, machine, all);
    assert forall|i: int| 0 <= i < 32 implies #[trigger] end.key[i] == 0 by {
        assert(window_of(two, Window::Password)[i] == 0);
    }
    assert forall|i: int| 0 <= i < 32 implies #[trigger] end.data[i] == 0 by {
        assert(window_of(one, Window::Salt)[i] == 0);
    }
    assert forall|i: int| 0 <= i < 16 implies #[trigger] end.val[i] == 0 by {
        assert(window_of(three, Window::State)[i] == 0);
    }
}

proof fn lemma_stays_in_step(
    compress: Compression,
    input: RkpInput,
    state: RkpState,
    machine: RkpMachine,
    reply: Reply,
)
    requires
        input.valid(),
        input.password.len() <= 64,
        input.salt.len() <= 51,
        state.valid(),
        !(state.stage is Finished),
        in_step(compress, input, state, machine),
        rkp_machine_answers(machine, rkp_ask(state.stage), reply),
    ensures
        ({
            let next = rkp_next(input, state, reply);
            in_step(
                compress,
                input,
                next.state,
                rkp_machine_next(compress, machine, rkp_ask(state.stage), reply, next.commands),
            )
        }),
{
    let next = rkp_next(input, state, reply);
    let step = rkp_stepper(compress);
    let seen = rkp_machine_seen(machine, rkp_ask(state.stage), reply);
    lemma_after_few(step, seen, next.commands);
    if next.state.stage is Finished && !(state.stage is Lock) {
        lemma_given_back(compress, seen);
    }
    match state.stage {
        RkpStage::PasswordEntropy => {
            if !(reply is RandomFailed) {
                let start = (reply->word % 32) as int;
                let image = window_image(input.password);
                lemma_window_written(compress, machine, Window::Password, image, start);
                let end = after(step, machine, next.commands);
                assert forall|i: int| 0 <= i < 32 implies #[trigger] end.key[i] == le_word(
                    image,
                    4 * i,
                ) by {
                    assert(window_of(end, Window::Password)[i] == le_word(image, 4 * i));
                }
                lemma_window_bytes(end.key, image, 32, 64);
            }
        },
        RkpStage::SaltEntropy { block } => {
            if !(reply is RandomFailed) {
                lemma_block_started(compress, input, state, machine, reply, block);
            }
        },
        RkpStage::OutputEntropy { block } => {
            if !(reply is RandomFailed) {
                let start = (reply->word % 5) as int;
                let words = val_words(machine.val);
                assert(words_taken(state.derived, words, start, 0) == state.derived);
            }
        },
        RkpStage::OutputWord { .. } => {
            lemma_word_taken(compress, input, state, machine, reply);
        },
        _ => {},
    }
}

proof fn lemma_run_in_step(
    compress: Compression,
    input: RkpInput,
    state: RkpState,
    machine: RkpMachine,
    replies: Seq<Reply>,
)
    requires
        input.valid(),
        input.password.len() <= 64,
        input.salt.len() <= 51,
        state.valid(),
        in_step(compress, input, state, machine),
        rkp_meets_machine(compress, input, state, machine, replies),
    ensures
        ({
            let end = rkp_run(input, state, replies).state;
            let last = rkp_machine_end(compress, input, state, machine, replies);
            in_step(compress, input, end, last)
        }),
    decreases replies.len(),
{
    if replies.len() > 0 && !(state.stage is Finished) {
        let next = rkp_next(input, state, replies[0]);
        law_rkp_step_is_bounded(input, state, replies[0]);
        lemma_stays_in_step(compress, input, state, machine, replies[0]);
        lemma_run_in_step(
            compress,
            input,
            next.state,
            rkp_machine_next(
                compress,
                machine,
                rkp_ask(state.stage),
                replies[0],
                next.commands,
            ),
            replies.skip(1),
        );
    }
}

/// A derivation is PBKDF2-HMAC-SHA1 with the caller's password, salt and number of
/// iterations: whatever the windows held before, whatever random numbers were drawn, and
/// whatever the compression function of the engine is, a run that the engine answers and
/// that ends well delivers the first 32 bytes of PBKDF2.
pub proof fn law_derivation_is_pbkdf2(
    compress: Compression,
    input: RkpInput,
    state: RkpState,
    machine: RkpMachine,
    replies: Seq<Reply>,
)
    requires
        input.valid(),
        input.password.len() <= 64,
        input.salt.len() <= 51,
        input.iterations >= 1,
        state.valid(),
        state.stage is Lock,
        rkp_meets_machine(compress, input, state, machine, replies),
        rkp_run(input, state, replies).state.stage == (RkpStage::Finished { result: Ok(()) }),
    ensures
        rkp_run(input, state, replies).state.output == pbkdf2_32(
            compress,
            input.password,
            input.salt,
            input.iterations as nat,
        ),
{
    lemma_run_in_step(compress, input, state, machine, replies);
}

/// Nothing stays behind: a derivation that is over has left zeros in every window and has
/// freed the lock, unless it never had the lock.
pub proof fn law_derivation_leaves_nothing(
    compress: Compression,
    input: RkpInput,
    state: RkpState,
    machine: RkpMachine,
    replies: Seq<Reply>,
)
    requires
        input.valid(),
        input.password.len() <= 64,
        input.salt.len() <= 51,
        state.valid(),
        state.stage is Lock,
        rkp_meets_machine(compress, input, state, machine, replies),
        rkp_run(input, state, replies).state.stage is Finished,
        rkp_run(input, state, replies).state.stage != (RkpStage::Finished {
            result: Err(CryptoError::Backend(0xffff_1102)),
        }),
    ensures
        is_given_back(rkp_machine_end(compress, input, state, machine, replies)),
{
    lemma_run_in_step(compress, input, state, machine, replies);
}

} // verus!
