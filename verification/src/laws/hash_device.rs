//! The SPACC hash channel as a machine, and what a hash and a MAC deliver when it answers.
//!
//! The machine has registers, sees memory only as far as the cache was cleaned, and, when
//! its ring is advanced, runs its compression function over the bytes that the descriptor
//! at the programmed address points to, from the state that its registers hold.
use crate::bus::{Ask, Command, Region, Reply, Source};
use crate::bytes::{be_bytes_32, le_bytes, le_word};
use crate::error::CryptoError;
use crate::laws::hash::{hash_run, hmac_run, law_hash_step_is_bounded, law_hmac_step_is_bounded};
use crate::laws::standard::{
    hmac, hmac_key, lemma_register, lemma_sha_blocks, register_of, sha, sha_chain, sha_initial,
    sha_words, word_bytes, xor_byte, Compression,
};
use crate::laws::trace::{after, lemma_after_both, lemma_after_few, lemma_after_next};
use crate::padding::{fits, law_padded_shape, padded, padded_len};
use crate::spacc_hash::{
    empty_hash_memory, hash_ask, hash_next, hash_start, hash_state_commands, hash_wipe,
    initial_state_of, HashAlgorithm, HashInput, HashMemory, HashMessage, HashNode, HashStage,
    HashState,
};
use crate::spacc_hmac::{
    hmac_message, hmac_next, hmac_start, pad_block, HmacInput, HmacPhase, HmacState,
};
use vstd::prelude::*;

verus! {

/// What can go wrong with a hash on the channel.
pub enum HashFault {
    /// Nothing.
    Nothing,
    /// The bus refuses an access.
    Bus,
    /// The channel meets a control error.
    Control,
    /// The channel reports a control error status.
    Status,
}

/// What the channel knows and where its memory lies.
pub struct HashMachine {
    /// Where the descriptor ring lies.
    pub nodes_address: int,
    /// Where the message buffer lies.
    pub bytes_address: int,
    /// What the processor has stored last.
    pub stored: HashMemory,
    /// What has reached the memory that the channel reads.
    pub visible: HashMemory,
    /// The security selector and whether the channel is enabled.
    pub control: (u8, bool),
    /// The algorithm selector, its mode and the MAC switch.
    pub algorithm: (u8, u8, bool),
    /// The address of the ring: high and low word.
    pub ring: (u8, u32),
    /// The number of descriptors.
    pub depth: u8,
    /// The position up to which the ring has been handed over.
    pub position: int,
    /// The state word that is accessed.
    pub index: int,
    /// The state words.
    pub state: Map<int, u32>,
    /// What goes wrong with the next hash.
    pub fault: HashFault,
    /// Whether a clear has been requested and not been seen to finish.
    pub clearing: bool,
    /// Whether a hash has been started and not been seen to finish.
    pub running: bool,
    /// The state words that the hash will leave.
    pub pending: Map<int, u32>,
    /// Whether the completion bit of the channel stands.
    pub latched: bool,
}

/// The hash function that the selectors choose.
pub open spec fn selected(algorithm: (u8, u8, bool)) -> Option<HashAlgorithm> {
    if algorithm == (0x0au8, 0u8, false) {
        Some(HashAlgorithm::Sha1)
    } else if algorithm == (0x0bu8, 1u8, false) {
        Some(HashAlgorithm::Sha256)
    } else {
        None
    }
}

/// The descriptor that the channel takes next, where it finds one: the channel is enabled
/// and the ring lies where the registers say.
pub open spec fn fetched(machine: HashMachine) -> Option<HashNode> {
    if machine.control == (0x0au8, true) && machine.ring.0 == 0 && machine.ring.1
        == machine.nodes_address && machine.depth == 2 && 0 <= machine.position < 2
        && machine.visible.nodes.len() == 2 {
        Some(machine.visible.nodes[machine.position])
    } else {
        None
    }
}

/// The bytes that a descriptor points to, where it marks a whole message.
pub open spec fn pointed_to(machine: HashMachine, node: HashNode) -> Option<Seq<u8>> {
    if node.flags == 3 && node.address_high == 0 && node.address_low == machine.bytes_address
        && node.length <= machine.visible.bytes.len() {
        Some(machine.visible.bytes.take(node.length as int))
    } else {
        None
    }
}

/// The state that the registers hold, as words.
pub open spec fn register_words(machine: HashMachine, count: nat) -> Seq<u32> {
    Seq::new(count, |i: int| register_of(machine.state[i]))
}

/// The channel after its ring has been advanced. Nothing is known of its state until the
/// hash is seen to finish. Where it does not find a whole message, no hash function is
/// chosen or something goes wrong, nothing is known of its state after that either.
pub open spec fn advanced(
    machine: HashMachine,
    compress: Compression,
    position: u8,
) -> HashMachine {
    let known = fetched(machine) is Some && pointed_to(machine, fetched(machine)->0) is Some
        && selected(machine.algorithm) is Some && position == (machine.position + 1) % 2
        && machine.fault is Nothing;
    HashMachine {
        position: position as int,
        running: true,
        state: Map::empty(),
        pending: if known {
            let chosen = selected(machine.algorithm)->0;
            let result = sha_chain(
                compress,
                chosen,
                register_words(machine, sha_words(chosen)),
                pointed_to(machine, fetched(machine)->0)->0,
            );
            Map::new(|i: int| 0 <= i < sha_words(chosen), |i: int| register_of(result[i]))
        } else {
            Map::empty()
        },
        ..machine
    }
}

/// What one command does to the channel; `memory` is the storage that is copied when the
/// processor stores it.
pub open spec fn hash_machine_step(
    compress: Compression,
    memory: HashMemory,
    machine: HashMachine,
    command: Command,
) -> HashMachine {
    match command {
        Command::HashStore => HashMachine { stored: memory, ..machine },
        Command::CacheClean { region: Region::HashNodes } => HashMachine {
            visible: HashMemory { nodes: machine.stored.nodes, ..machine.visible },
            ..machine
        },
        Command::CacheClean { region: Region::HashMessage { length } } => HashMachine {
            visible: HashMemory {
                bytes: machine.stored.bytes.take(length as int) + machine.visible.bytes.skip(
                    length as int,
                ),
                ..machine.visible
            },
            ..machine
        },
        Command::HashClear { channels } => if channels == 2 {
            HashMachine { clearing: true, ..machine }
        } else {
            machine
        },
        Command::HashAcknowledge { bits } => if bits == 2 {
            HashMachine { latched: false, ..machine }
        } else {
            machine
        },
        Command::HashControl { selector, enable } => HashMachine {
            control: (selector, enable),
            ..machine
        },
        Command::HashAlgorithm { select, mode, hmac } => HashMachine {
            algorithm: (select, mode, hmac),
            ..machine
        },
        Command::HashNodesHigh { high } => HashMachine { ring: (high, machine.ring.1), ..machine },
        Command::HashNodesLow { word } => HashMachine { ring: (machine.ring.0, word), ..machine },
        Command::HashNodesLength { count } => HashMachine { depth: count, ..machine },
        Command::HashStateIndex { index } => HashMachine { index: index as int, ..machine },
        Command::HashState { word } => HashMachine {
            state: machine.state.insert(machine.index, word),
            ..machine
        },
        Command::HashPointer { position } => advanced(machine, compress, position),
        _ => machine,
    }
}

/// The effect of single commands while the storage holds `memory`.
pub open spec fn hash_stepper(compress: Compression, memory: HashMemory) -> spec_fn(
    HashMachine,
    Command,
) -> HashMachine {
    |machine: HashMachine, command: Command| hash_machine_step(compress, memory, machine, command)
}

/// Whether the channel gives an answer: its registers read as they are, and of what the
/// machine does not keep any answer may come.
pub open spec fn hash_machine_answers(machine: HashMachine, ask: Ask, reply: Reply) -> bool {
    match ask {
        Ask::Read { source: Source::HashState } => reply == (Reply::Word {
            word: machine.state[machine.index],
        }),
        Ask::Read { source: Source::HashPointer } => reply == (Reply::Word {
            word: machine.position as u32,
        }),
        Ask::Read { source: Source::HashInterrupt } => {
            &&& machine.latched ==> reply->word & 2 != 0
            &&& reply->word & 2 != 0 ==> machine.latched || machine.running
        },
        Ask::Read { source: Source::BusError } => machine.fault is Bus ==> reply->word != 0,
        Ask::Read { source: Source::HashControlError } => machine.fault is Control ==> reply->word
            != 0,
        Ask::Read { source: Source::HashControlStatus } => machine.fault is Status ==> reply->word
            != 0,
        _ => true,
    }
}

/// The channel after it has given an answer: with the bit that reports a finished clear,
/// the channel has been stopped and its ring is at the start; with the completion bit of a
/// hash, the state is there.
pub open spec fn hash_machine_seen(machine: HashMachine, ask: Ask, reply: Reply) -> HashMachine {
    match ask {
        Ask::Read { source: Source::HashClearFinish } => if reply->word & 2 != 0
            && machine.clearing {
            HashMachine { clearing: false, running: false, position: 0, ..machine }
        } else {
            machine
        },
        Ask::Read { source: Source::HashInterrupt } => if reply->word & 2 != 0 && machine.running
            && !machine.latched {
            HashMachine { running: false, latched: true, state: machine.pending, ..machine }
        } else {
            machine
        },
        _ => machine,
    }
}

/// The channel after it has given an answer and taken the commands that follow it.
pub open spec fn hash_machine_next(
    compress: Compression,
    machine: HashMachine,
    ask: Ask,
    reply: Reply,
    commands: Seq<Command>,
    memory: HashMemory,
) -> HashMachine {
    after(hash_stepper(compress, memory), hash_machine_seen(machine, ask, reply), commands)
}

/// Whether every answer of a run is one that the channel gives.
pub open spec fn hash_meets_machine(
    compress: Compression,
    input: HashInput,
    message: HashMessage,
    state: HashState,
    machine: HashMachine,
    replies: Seq<Reply>,
) -> bool
    decreases replies.len(),
{
    replies.len() == 0 || state.stage is Finished || (hash_machine_answers(
        machine,
        hash_ask(state.stage),
        replies[0],
    ) && ({
        let next = hash_next(input, message, state, replies[0]);
        hash_meets_machine(
            compress,
            input,
            message,
            next.state,
            hash_machine_next(
                compress,
                machine,
                hash_ask(state.stage),
                replies[0],
                next.commands,
                next.state.memory,
            ),
            replies.skip(1),
        )
    }))
}

/// The channel at the end of a run.
pub open spec fn hash_machine_end(
    compress: Compression,
    input: HashInput,
    message: HashMessage,
    state: HashState,
    machine: HashMachine,
    replies: Seq<Reply>,
) -> HashMachine
    decreases replies.len(),
{
    if replies.len() == 0 || state.stage is Finished {
        machine
    } else {
        let next = hash_next(input, message, state, replies[0]);
        hash_machine_end(
            compress,
            input,
            message,
            next.state,
            hash_machine_next(
                compress,
                machine,
                hash_ask(state.stage),
                replies[0],
                next.commands,
                next.state.memory,
            ),
            replies.skip(1),
        )
    }
}

/// Whether the memory that the channel reads holds nothing.
pub open spec fn is_wiped(machine: HashMachine) -> bool {
    &&& machine.visible.bytes.len() == 4224
    &&& forall|i: int| 0 <= i < 4224 ==> #[trigger] machine.visible.bytes[i] == 0
    &&& machine.visible.nodes.len() == 2
    &&& forall|i: int|
        0 <= i < 2 ==> #[trigger] machine.visible.nodes[i] == (HashNode {
            flags: 0,
            length: 0,
            address_low: 0,
            address_high: 0,
        })
}

/// The words that the channel starts from are in its registers.
spec fn starts_from(machine: HashMachine, algorithm: HashAlgorithm) -> bool {
    forall|i: int|
        0 <= i < sha_words(algorithm) ==> #[trigger] machine.state[i] == register_of(
            sha_initial(algorithm)[i],
        )
}

/// The channel is set up for a message.
spec fn is_set_up(machine: HashMachine, input: HashInput, message: Seq<u8>) -> bool {
    &&& machine.control == (0x0au8, true)
    &&& selected(machine.algorithm) == Some(input.algorithm)
    &&& machine.ring == (0u8, input.nodes_address as u32)
    &&& input.nodes_address <= u32::MAX
    &&& input.bytes_address <= u32::MAX
    &&& machine.depth == 2
    &&& machine.position == 0
    &&& !machine.running
    &&& starts_from(machine, input.algorithm)
    &&& holds(machine.stored, input, message)
}

/// Memory that holds the descriptor of a padded message and that message.
spec fn holds(memory: HashMemory, input: HashInput, message: Seq<u8>) -> bool {
    let count = padded_len(message.len()) as int;
    &&& memory.nodes.len() == 2
    &&& memory.nodes[0] == (HashNode {
        flags: 3,
        length: count as u32,
        address_low: input.bytes_address as u32,
        address_high: 0,
    })
    &&& memory.bytes.len() == 4224
    &&& count <= 4224
    &&& memory.bytes.take(count) == padded(message)
}

/// The digest that the channel owes.
spec fn owed(compress: Compression, input: HashInput, message: Seq<u8>) -> Seq<u32> {
    sha_chain(compress, input.algorithm, sha_initial(input.algorithm), padded(message))
}

spec fn has_result(state: Map<int, u32>, algorithm: HashAlgorithm, result: Seq<u32>) -> bool {
    forall|i: int|
        0 <= i < sha_words(algorithm) ==> #[trigger] state[i] == register_of(result[i])
}

/// What holds between a hash and the channel.
spec fn in_step(
    compress: Compression,
    input: HashInput,
    message: HashMessage,
    state: HashState,
    machine: HashMachine,
) -> bool {
    let whole = message.prefix + message.body;
    let result = owed(compress, input, whole);
    &&& machine.nodes_address == input.nodes_address
    &&& machine.bytes_address == input.bytes_address
    &&& machine.visible.bytes.len() == 4224
    &&& match state.stage {
        HashStage::Clear { .. } => machine.clearing,
        HashStage::Stale { padded } => fits(message.prefix, message.body) && is_set_up(
            machine,
            input,
            whole,
        ) && padded == padded_len(whole.len()),
        HashStage::Configured { padded } => fits(message.prefix, message.body) && is_set_up(
            machine,
            input,
            whole,
        ) && padded == padded_len(whole.len()) && !machine.latched,
        HashStage::Position => fits(message.prefix, message.body) && is_set_up(
            machine,
            input,
            whole,
        ) && holds(machine.visible, input, whole) && !machine.latched,
        HashStage::Wait { .. } => fits(message.prefix, message.body) && machine.running
            && !machine.latched && (machine.fault is Nothing ==> has_result(
            machine.pending,
            input.algorithm,
            result,
        )),
        HashStage::BusError => fits(message.prefix, message.body) && (machine.fault is Nothing
            ==> has_result(machine.state, input.algorithm, result)),
        HashStage::ControlError => fits(message.prefix, message.body) && (machine.fault is Nothing
            ==> has_result(machine.state, input.algorithm, result)) && !(machine.fault is Bus),
        HashStage::ControlStatus => fits(message.prefix, message.body) && (machine.fault is Nothing
            ==> has_result(machine.state, input.algorithm, result)) && !(machine.fault is Bus)
            && !(machine.fault is Control),
        HashStage::Digest { index } => fits(message.prefix, message.body) && has_result(
            machine.state,
            input.algorithm,
            result,
        ) && machine.index == index && state.digest.take(4 * index) == word_bytes(
            result,
            index as nat,
        ),
        HashStage::Release { result: end } => is_wiped(machine) && (end is Ok ==> fits(
            message.prefix,
            message.body,
        ) && state.digest.take(4 * sha_words(input.algorithm) as int) == word_bytes(
            result,
            sha_words(input.algorithm),
        )),
        HashStage::Finished { result: end } => (end == Err::<(), CryptoError>(
            CryptoError::Backend(0xffff_1201),
        ) || is_wiped(machine)) && (end is Ok ==> fits(message.prefix, message.body)
            && state.digest.take(4 * sha_words(input.algorithm) as int) == word_bytes(
            result,
            sha_words(input.algorithm),
        )),
        _ => true,
    }
}

/// The constants are the initial words in register byte order.
pub(crate) proof fn lemma_initial_words(algorithm: HashAlgorithm, i: int)
    requires
        0 <= i < sha_words(algorithm),
    ensures
        le_word(initial_state_of(algorithm), 4 * i) == register_of(
            sha_initial(algorithm)[i],
        ),
{
    reveal(register_of);
    let bytes = initial_state_of(algorithm);
    let word = sha_initial(algorithm)[i];
    assert(bytes.subrange(4 * i, 4 * i + 4) =~= be_bytes_32(word)) by {
        assert(be_bytes_32(word)[0] == bytes[4 * i]);
        assert(be_bytes_32(word)[1] == bytes[4 * i + 1]);
        assert(be_bytes_32(word)[2] == bytes[4 * i + 2]);
        assert(be_bytes_32(word)[3] == bytes[4 * i + 3]);
    }
    assert(bytes[4 * i] == bytes.subrange(4 * i, 4 * i + 4)[0]);
    assert(bytes[4 * i + 1] == bytes.subrange(4 * i, 4 * i + 4)[1]);
    assert(bytes[4 * i + 2] == bytes.subrange(4 * i, 4 * i + 4)[2]);
    assert(bytes[4 * i + 3] == bytes.subrange(4 * i, 4 * i + 4)[3]);
}

/// Loading the initial state sets the state words and nothing else but the index.
proof fn lemma_state_loaded(
    compress: Compression,
    memory: HashMemory,
    machine: HashMachine,
    algorithm: HashAlgorithm,
    count: int,
)
    requires
        0 <= count <= sha_words(algorithm),
    ensures
        ({
            let end = after(
                hash_stepper(compress, memory),
                machine,
                hash_state_commands(algorithm).take(2 * count),
            );
            &&& end == (HashMachine { index: end.index, state: end.state, ..machine })
            &&& forall|i: int|
                0 <= i < count ==> #[trigger] end.state[i] == register_of(
                    sha_initial(algorithm)[i],
                )
            &&& forall|i: int| 0 <= i < count ==> #[trigger] end.state.dom().contains(i)
        }),
    decreases count,
{
    let all = hash_state_commands(algorithm);
    let step = hash_stepper(compress, memory);
    if count == 0 {
        assert(all.take(0) =~= Seq::<Command>::empty());
    } else {
        lemma_state_loaded(compress, memory, machine, algorithm, count - 1);
        lemma_initial_words(algorithm, count - 1);
        let i = 2 * (count - 1);
        lemma_after_next(step, machine, all, i);
        lemma_after_next(step, machine, all, i + 1);
        assert(all[i] == Command::HashStateIndex { index: (count - 1) as usize });
        assert(all[i + 1] == Command::HashState {
            word: le_word(initial_state_of(algorithm), 4 * (count - 1)),
        });
    }
}

/// The preparation sets the channel up.
proof fn lemma_set_up(
    compress: Compression,
    input: HashInput,
    message: HashMessage,
    state: HashState,
    machine: HashMachine,
    reply: Reply,
)
    requires
        state.stage is Clear,
        in_step(compress, input, message, state, machine),
        hash_next(input, message, state, reply).state.stage is Stale,
    ensures
        ({
            let next = hash_next(input, message, state, reply);
            in_step(
                compress,
                input,
                message,
                next.state,
                hash_machine_next(
                    compress,
                    machine,
                    hash_ask(state.stage),
                    reply,
                    next.commands,
                    next.state.memory,
                ),
            )
        }),
{
    let next = hash_next(input, message, state, reply);
    let machine = hash_machine_seen(machine, hash_ask(state.stage), reply);
    let step = hash_stepper(compress, next.state.memory);
    let end = after(step, machine, next.commands);
    let states = hash_state_commands(input.algorithm);
    let count = sha_words(input.algorithm) as int;
    let front = next.commands.take(next.commands.len() - states.len());
    assert(next.commands =~= front + states);
    assert(states.take(2 * count) =~= states);
    let whole = message.prefix + message.body;
    law_padded_shape(whole);
    assert(next.state.memory.bytes.take(padded_len(whole.len()) as int) =~= padded(whole));
    assert(front =~= seq![
        Command::HashClearAcknowledge { bits: 2 },
        Command::Fence,
        Command::HashStore,
        Command::HashControl { selector: 0x0a, enable: true },
        next.commands[4],
        Command::HashNodesHigh { high: 0 },
        Command::HashNodesLow { word: input.nodes_address as u32 },
        Command::HashNodesLength { count: 2 },
    ]);
    let ready = after(step, machine, front);
    let c = next.commands;
    let opening = seq![c[0], c[1], c[2], c[3]];
    let ringing = seq![c[4], c[5], c[6], c[7]];
    assert(front =~= opening + ringing);
    lemma_after_both(step, machine, opening, ringing);
    lemma_after_both(step, machine, front, states);
    lemma_after_few(step, machine, opening);
    let opened = step(step(step(machine, c[0]), c[1]), c[2]);
    let chosen = step(opened, c[3]);
    lemma_after_few(step, chosen, ringing);
    assert(opened == (HashMachine { stored: next.state.memory, ..machine }));
    assert(chosen.control == (0x0au8, true));
    lemma_state_loaded(compress, next.state.memory, ready, input.algorithm, count);
    assert(end == after(step, ready, states));
    assert(ready.control == (0x0au8, true));
    assert(selected(ready.algorithm) == Some(input.algorithm));
    assert(ready.ring == (0u8, input.nodes_address as u32));
    assert(ready.depth == 2 && ready.position == 0);
    assert(ready.stored == next.state.memory);
    assert(holds(ready.stored, input, whole));
    assert(starts_from(end, input.algorithm));
    assert(is_set_up(end, input, whole));
}

/// Advancing the ring leaves the digest in the registers.
proof fn lemma_started(
    compress: Compression,
    input: HashInput,
    message: HashMessage,
    state: HashState,
    machine: HashMachine,
    reply: Reply,
)
    requires
        state.stage is Position,
        in_step(compress, input, message, state, machine),
        hash_machine_answers(machine, hash_ask(state.stage), reply),
    ensures
        ({
            let next = hash_next(input, message, state, reply);
            in_step(
                compress,
                input,
                message,
                next.state,
                hash_machine_next(
                    compress,
                    machine,
                    hash_ask(state.stage),
                    reply,
                    next.commands,
                    next.state.memory,
                ),
            )
        }),
{
    let next = hash_next(input, message, state, reply);
    let machine = hash_machine_seen(machine, hash_ask(state.stage), reply);
    let step = hash_stepper(compress, next.state.memory);
    let end = after(step, machine, next.commands);
    lemma_after_few(step, machine, next.commands);
    let n = sha_words(input.algorithm);
    assert(end == advanced(machine, compress, 1));
    assert(machine.position == 0);
    let words = register_words(machine, n);
    assert forall|i: int| 0 <= i < n implies words[i] == sha_initial(input.algorithm)[i] by {
        assert(machine.state[i] == register_of(sha_initial(input.algorithm)[i]));
        lemma_register(sha_initial(input.algorithm)[i]);
    }
    assert(words =~= sha_initial(input.algorithm));
    assert(fetched(machine) is Some);
    assert(pointed_to(machine, fetched(machine)->0) == Some(
        padded(message.prefix + message.body),
    ));
    let result = owed(compress, input, message.prefix + message.body);
    if machine.fault is Nothing {
        assert(has_result(end.pending, input.algorithm, result));
    }
}

/// One digest word is taken over.
proof fn lemma_word_taken(
    compress: Compression,
    input: HashInput,
    message: HashMessage,
    state: HashState,
    machine: HashMachine,
    reply: Reply,
)
    requires
        state.stage is Digest,
        state.valid(input),
        in_step(compress, input, message, state, machine),
        hash_machine_answers(machine, hash_ask(state.stage), reply),
    ensures
        ({
            let next = hash_next(input, message, state, reply);
            in_step(
                compress,
                input,
                message,
                next.state,
                hash_machine_next(
                    compress,
                    machine,
                    hash_ask(state.stage),
                    reply,
                    next.commands,
                    next.state.memory,
                ),
            )
        }),
{
    let next = hash_next(input, message, state, reply);
    let machine = hash_machine_seen(machine, hash_ask(state.stage), reply);
    let step = hash_stepper(compress, next.state.memory);
    let end = after(step, machine, next.commands);
    lemma_after_few(step, machine, next.commands);
    let index = state.stage->Digest_index as int;
    let result = owed(compress, input, message.prefix + message.body);
    assert(machine.state[index] == register_of(result[index]));
    lemma_register(result[index]);
    let before = word_bytes(result, index as nat);
    let whole = word_bytes(result, (index + 1) as nat);
    assert(le_bytes(reply->word) == be_bytes_32(result[index]));
    assert forall|i: int| 0 <= i < 4 * (index + 1) implies next.state.digest[i] == whole[i] by {
        if i < 4 * index {
            assert(state.digest.take(4 * index)[i] == before[i]);
        } else {
            assert(i / 4 == index && i % 4 == i - 4 * index);
        }
    }
    assert(next.state.digest.take(4 * (index + 1)) =~= whole);
    if next.state.stage is Release {
        assert(next.commands =~= Seq::<Command>::empty() + hash_wipe());
        lemma_after_few(step, machine, Seq::<Command>::empty());
        lemma_wiped(compress, machine, Seq::<Command>::empty(), next.commands);
    }
    assert(end.state == machine.state);
    assert(has_result(end.state, input.algorithm, result));
}

/// The wiping commands wipe.
proof fn lemma_wiped(
    compress: Compression,
    machine: HashMachine,
    front: Seq<Command>,
    commands: Seq<Command>,
)
    requires
        commands == front + hash_wipe(),
        after(hash_stepper(compress, empty_hash_memory()), machine, front).visible.bytes.len()
            == 4224,
    ensures
        ({
            let step = hash_stepper(compress, empty_hash_memory());
            let end = after(step, machine, commands);
            let middle = after(step, machine, front);
            &&& is_wiped(end)
            &&& end.nodes_address == middle.nodes_address
            &&& end.bytes_address == middle.bytes_address
        }),
{
    let step = hash_stepper(compress, empty_hash_memory());
    let wipe = hash_wipe();
    lemma_after_both(step, machine, front, wipe);
    let middle = after(step, machine, front);
    lemma_after_few(step, middle, wipe);
    let end = after(step, middle, wipe);
    assert(end.visible.bytes =~= empty_hash_memory().bytes);
    assert(end.visible.nodes == empty_hash_memory().nodes);
}

/// The channel is claimed.
proof fn lemma_claim_step(
    compress: Compression,
    input: HashInput,
    message: HashMessage,
    state: HashState,
    machine: HashMachine,
    reply: Reply,
)
    requires
        input.valid(),
        state.valid(input),
        state.stage is Claim || state.stage is Verify || state.stage is Enables
            || state.stage is Release,
        in_step(compress, input, message, state, machine),
        hash_machine_answers(machine, hash_ask(state.stage), reply),
    ensures
        ({
            let next = hash_next(input, message, state, reply);
            in_step(
                compress,
                input,
                message,
                next.state,
                hash_machine_next(
                    compress,
                    machine,
                    hash_ask(state.stage),
                    reply,
                    next.commands,
                    next.state.memory,
                ),
            )
        }),
{
    let next = hash_next(input, message, state, reply);
    let seen = hash_machine_seen(machine, hash_ask(state.stage), reply);
    let step = hash_stepper(compress, next.state.memory);
    let end = after(step, seen, next.commands);
    lemma_after_few(step, seen, next.commands);
}

/// The channel is cleared and set up.
proof fn lemma_clear_step(
    compress: Compression,
    input: HashInput,
    message: HashMessage,
    state: HashState,
    machine: HashMachine,
    reply: Reply,
)
    requires
        input.valid(),
        state.valid(input),
        state.stage is Clear,
        in_step(compress, input, message, state, machine),
        hash_machine_answers(machine, hash_ask(state.stage), reply),
    ensures
        ({
            let next = hash_next(input, message, state, reply);
            in_step(
                compress,
                input,
                message,
                next.state,
                hash_machine_next(
                    compress,
                    machine,
                    hash_ask(state.stage),
                    reply,
                    next.commands,
                    next.state.memory,
                ),
            )
        }),
{
    let next = hash_next(input, message, state, reply);
    let seen = hash_machine_seen(machine, hash_ask(state.stage), reply);
    let step = hash_stepper(compress, next.state.memory);
    let end = after(step, seen, next.commands);
    lemma_after_few(step, seen, next.commands);
    if next.state.stage is Stale {
        lemma_set_up(compress, input, message, state, machine, reply);
    } else if next.state.stage is Release {
        let n = next.commands.len() - 4;
        let front = next.commands.take(n);
        assert(next.commands =~= front + hash_wipe());
        lemma_after_few(step, seen, front);
        lemma_wiped(compress, seen, front, next.commands);
    }
}

/// The message is handed over.
proof fn lemma_ready_step(
    compress: Compression,
    input: HashInput,
    message: HashMessage,
    state: HashState,
    machine: HashMachine,
    reply: Reply,
)
    requires
        input.valid(),
        state.valid(input),
        state.stage is Stale || state.stage is Configured,
        in_step(compress, input, message, state, machine),
        hash_machine_answers(machine, hash_ask(state.stage), reply),
    ensures
        ({
            let next = hash_next(input, message, state, reply);
            in_step(
                compress,
                input,
                message,
                next.state,
                hash_machine_next(
                    compress,
                    machine,
                    hash_ask(state.stage),
                    reply,
                    next.commands,
                    next.state.memory,
                ),
            )
        }),
{
    let next = hash_next(input, message, state, reply);
    let seen = hash_machine_seen(machine, hash_ask(state.stage), reply);
    let step = hash_stepper(compress, next.state.memory);
    let end = after(step, seen, next.commands);
    lemma_after_few(step, seen, next.commands);
    if next.state.stage is Release {
        assert(next.commands =~= Seq::<Command>::empty() + hash_wipe());
        lemma_after_few(step, seen, Seq::<Command>::empty());
        lemma_wiped(compress, seen, Seq::<Command>::empty(), next.commands);
    } else if let HashStage::Configured { padded } = state.stage {
        assert(end.visible.bytes.take(padded as int) =~= seen.stored.bytes.take(padded as int));
    }
}

/// The hash is waited for.
proof fn lemma_wait_step(
    compress: Compression,
    input: HashInput,
    message: HashMessage,
    state: HashState,
    machine: HashMachine,
    reply: Reply,
)
    requires
        input.valid(),
        state.valid(input),
        state.stage is Wait || state.stage is BusError || state.stage is ControlError
            || state.stage is ControlStatus,
        in_step(compress, input, message, state, machine),
        hash_machine_answers(machine, hash_ask(state.stage), reply),
    ensures
        ({
            let next = hash_next(input, message, state, reply);
            in_step(
                compress,
                input,
                message,
                next.state,
                hash_machine_next(
                    compress,
                    machine,
                    hash_ask(state.stage),
                    reply,
                    next.commands,
                    next.state.memory,
                ),
            )
        }),
{
    let next = hash_next(input, message, state, reply);
    let seen = hash_machine_seen(machine, hash_ask(state.stage), reply);
    let step = hash_stepper(compress, next.state.memory);
    let end = after(step, seen, next.commands);
    lemma_after_few(step, seen, next.commands);
    if next.state.stage is Release {
        assert(next.commands =~= Seq::<Command>::empty() + hash_wipe());
        lemma_after_few(step, seen, Seq::<Command>::empty());
        lemma_wiped(compress, seen, Seq::<Command>::empty(), next.commands);
    } else if state.stage is ControlStatus {
        let result = owed(compress, input, message.prefix + message.body);
        assert(next.state.digest.take(0) =~= word_bytes(result, 0));
    }
}

proof fn lemma_stays_in_step(
    compress: Compression,
    input: HashInput,
    message: HashMessage,
    state: HashState,
    machine: HashMachine,
    reply: Reply,
)
    requires
        input.valid(),
        state.valid(input),
        !(state.stage is Finished),
        in_step(compress, input, message, state, machine),
        hash_machine_answers(machine, hash_ask(state.stage), reply),
    ensures
        ({
            let next = hash_next(input, message, state, reply);
            in_step(
                compress,
                input,
                message,
                next.state,
                hash_machine_next(
                    compress,
                    machine,
                    hash_ask(state.stage),
                    reply,
                    next.commands,
                    next.state.memory,
                ),
            )
        }),
{
    match state.stage {
        HashStage::Claim { .. } | HashStage::Verify { .. } | HashStage::Enables
        | HashStage::Release { .. } => {
            lemma_claim_step(compress, input, message, state, machine, reply);
        },
        HashStage::Clear { .. } => {
            lemma_clear_step(compress, input, message, state, machine, reply);
        },
        HashStage::Stale { .. } | HashStage::Configured { .. } => {
            lemma_ready_step(compress, input, message, state, machine, reply);
        },
        HashStage::Position => {
            lemma_started(compress, input, message, state, machine, reply);
        },
        HashStage::Digest { .. } => {
            lemma_word_taken(compress, input, message, state, machine, reply);
        },
        _ => {
            lemma_wait_step(compress, input, message, state, machine, reply);
        },
    }
}

proof fn lemma_run_in_step(
    compress: Compression,
    input: HashInput,
    message: HashMessage,
    state: HashState,
    machine: HashMachine,
    replies: Seq<Reply>,
)
    requires
        input.valid(),
        state.valid(input),
        in_step(compress, input, message, state, machine),
        hash_meets_machine(compress, input, message, state, machine, replies),
    ensures
        ({
            let end = hash_run(input, message, state, replies).state;
            let last = hash_machine_end(compress, input, message, state, machine, replies);
            in_step(compress, input, message, end, last)
        }),
    decreases replies.len(),
{
    if replies.len() > 0 && !(state.stage is Finished) {
        let next = hash_next(input, message, state, replies[0]);
        law_hash_step_is_bounded(input, message, state, replies[0]);
        lemma_stays_in_step(compress, input, message, state, machine, replies[0]);
        lemma_run_in_step(
            compress,
            input,
            message,
            next.state,
            hash_machine_next(
                compress,
                machine,
                hash_ask(state.stage),
                replies[0],
                next.commands,
                next.state.memory,
            ),
            replies.skip(1),
        );
    }
}

/// A hash is the SHA digest of its message: whatever the channel was like before, and
/// whatever its compression function is, a run that it answers and that ends well delivers
/// the SHA-1 or SHA-256 digest of the prefix and the body.
pub proof fn law_hash_is_sha(
    compress: Compression,
    input: HashInput,
    message: HashMessage,
    memory: HashMemory,
    machine: HashMachine,
    replies: Seq<Reply>,
)
    requires
        input.valid(),
        hash_start(input, memory).valid(input),
        machine.nodes_address == input.nodes_address,
        machine.bytes_address == input.bytes_address,
        machine.visible.bytes.len() == 4224,
        hash_meets_machine(
            compress,
            input,
            message,
            hash_start(input, memory),
            machine,
            replies,
        ),
        hash_run(input, message, hash_start(input, memory), replies).state.stage == (
        HashStage::Finished { result: Ok(()) }),
    ensures
        hash_run(input, message, hash_start(input, memory), replies).state.digest.take(
            4 * sha_words(input.algorithm) as int,
        ) == sha(compress, input.algorithm, message.prefix + message.body),
{
    lemma_run_in_step(
        compress,
        input,
        message,
        hash_start(input, memory),
        machine,
        replies,
    );
    law_padded_shape(message.prefix + message.body);
    lemma_sha_blocks(message.prefix + message.body);
}

/// Whether every answer of a MAC is one that the channel gives.
pub open spec fn hmac_meets_machine(
    compress: Compression,
    input: HmacInput,
    state: HmacState,
    machine: HashMachine,
    replies: Seq<Reply>,
) -> bool
    decreases replies.len(),
{
    replies.len() == 0 || state.phase is Finished || (hash_machine_answers(
        machine,
        hash_ask(state.hash.stage),
        replies[0],
    ) && ({
        let next = hmac_next(input, state, replies[0]);
        hmac_meets_machine(
            compress,
            input,
            next.state,
            hash_machine_next(
                compress,
                machine,
                hash_ask(state.hash.stage),
                replies[0],
                next.commands,
                next.state.hash.memory,
            ),
            replies.skip(1),
        )
    }))
}

/// The channel at the end of a MAC.
pub open spec fn hmac_machine_end(
    compress: Compression,
    input: HmacInput,
    state: HmacState,
    machine: HashMachine,
    replies: Seq<Reply>,
) -> HashMachine
    decreases replies.len(),
{
    if replies.len() == 0 || state.phase is Finished {
        machine
    } else {
        let next = hmac_next(input, state, replies[0]);
        hmac_machine_end(
            compress,
            input,
            next.state,
            hash_machine_next(
                compress,
                machine,
                hash_ask(state.hash.stage),
                replies[0],
                next.commands,
                next.state.hash.memory,
            ),
            replies.skip(1),
        )
    }
}

/// The inner digest of a MAC.
spec fn inner_digest(compress: Compression, input: HmacInput) -> Seq<u8> {
    let algorithm = input.hash.algorithm;
    sha(
        compress,
        algorithm,
        xor_byte(hmac_key(compress, algorithm, input.key), 0x36) + input.message,
    )
}

/// What holds between a MAC and the channel.
spec fn hmac_in_step(
    compress: Compression,
    input: HmacInput,
    state: HmacState,
    machine: HashMachine,
) -> bool {
    let algorithm = input.hash.algorithm;
    let count = 4 * sha_words(algorithm) as int;
    &&& !(state.phase is Finished) ==> in_step(
        compress,
        input.hash,
        hmac_message(input, state),
        state.hash,
        machine,
    )
    &&& match state.phase {
        HmacPhase::Key => input.key.len() > 64,
        HmacPhase::Inner => state.key_block == hmac_key(compress, algorithm, input.key),
        HmacPhase::Outer => state.key_block == hmac_key(compress, algorithm, input.key)
            && state.inner.take(count) == inner_digest(compress, input),
        HmacPhase::Finished { result } => (result is Ok ==> state.hash.digest.take(count) == hmac(
            compress,
            algorithm,
            input.key,
            input.message,
        )) && (result == Err::<(), CryptoError>(CryptoError::Backend(0xffff_1201)) || is_wiped(
            machine,
        )),
    }
}

/// A hash that is over has delivered its digest.
proof fn lemma_delivered(
    compress: Compression,
    input: HashInput,
    message: HashMessage,
    state: HashState,
    machine: HashMachine,
)
    requires
        in_step(compress, input, message, state, machine),
        state.stage is Finished,
        state.stage->Finished_result is Ok,
    ensures
        state.digest.take(4 * sha_words(input.algorithm) as int) == sha(
            compress,
            input.algorithm,
            message.prefix + message.body,
        ),
{
    law_padded_shape(message.prefix + message.body);
    lemma_sha_blocks(message.prefix + message.body);
}

proof fn lemma_hmac_stays_in_step(
    compress: Compression,
    input: HmacInput,
    state: HmacState,
    machine: HashMachine,
    reply: Reply,
)
    requires
        input.valid(),
        state.valid(input),
        !(state.phase is Finished),
        hmac_in_step(compress, input, state, machine),
        hash_machine_answers(machine, hash_ask(state.hash.stage), reply),
    ensures
        ({
            let next = hmac_next(input, state, reply);
            hmac_in_step(
                compress,
                input,
                next.state,
                hash_machine_next(
                    compress,
                    machine,
                    hash_ask(state.hash.stage),
                    reply,
                    next.commands,
                    next.state.hash.memory,
                ),
            )
        }),
{
    let message = hmac_message(input, state);
    let hash = hash_next(input.hash, message, state.hash, reply);
    let next = hmac_next(input, state, reply);
    let step = hash_stepper(compress, next.state.hash.memory);
    let algorithm = input.hash.algorithm;
    let count = 4 * sha_words(algorithm) as int;
    lemma_stays_in_step(compress, input.hash, message, state.hash, machine, reply);
    let machine = hash_machine_seen(machine, hash_ask(state.hash.stage), reply);
    let middle = after(step, machine, hash.commands);
    assert(next.state.hash.memory == hash.state.memory);
    lemma_after_both(step, machine, hash.commands, seq![Command::EnterCritical]);
    lemma_after_few(step, middle, seq![Command::EnterCritical]);
    let key = hmac_key(compress, algorithm, input.key);
    if hash.state.stage is Finished && hash.state.stage->Finished_result is Ok {
        lemma_delivered(compress, input.hash, message, hash.state, middle);
        let digest = hash.state.digest.take(count);
        match state.phase {
            HmacPhase::Key => {
                assert(message.prefix + message.body =~= input.key);
                assert(next.state.key_block =~= key);
            },
            HmacPhase::Inner => {
                assert(pad_block(key, 0x36) =~= xor_byte(key, 0x36));
                assert(digest == inner_digest(compress, input));
            },
            _ => {
                assert(pad_block(key, 0x5c) =~= xor_byte(key, 0x5c));
                assert(message.body == inner_digest(compress, input));
                assert(digest == hmac(compress, algorithm, input.key, input.message));
            },
        }
    } else if !(hash.state.stage is Finished) {
        assert(hmac_message(input, next.state) == message);
    }
}

proof fn lemma_hmac_run_in_step(
    compress: Compression,
    input: HmacInput,
    state: HmacState,
    machine: HashMachine,
    replies: Seq<Reply>,
)
    requires
        input.valid(),
        state.valid(input),
        hmac_in_step(compress, input, state, machine),
        hmac_meets_machine(compress, input, state, machine, replies),
    ensures
        ({
            let end = hmac_run(input, state, replies).state;
            let last = hmac_machine_end(compress, input, state, machine, replies);
            hmac_in_step(compress, input, end, last)
        }),
    decreases replies.len(),
{
    if replies.len() > 0 && !(state.phase is Finished) {
        let next = hmac_next(input, state, replies[0]);
        law_hmac_step_is_bounded(input, state, replies[0]);
        lemma_hmac_stays_in_step(compress, input, state, machine, replies[0]);
        lemma_hmac_run_in_step(
            compress,
            input,
            next.state,
            hash_machine_next(
                compress,
                machine,
                hash_ask(state.hash.stage),
                replies[0],
                next.commands,
                next.state.hash.memory,
            ),
            replies.skip(1),
        );
    }
}

/// A MAC is the HMAC of its message under its key: whatever the channel was like before,
/// and whatever its compression function is, a run that it answers and that ends well
/// delivers HMAC-SHA1 or HMAC-SHA256, for keys of every length that is taken.
pub proof fn law_mac_is_hmac(
    compress: Compression,
    input: HmacInput,
    memory: HashMemory,
    machine: HashMachine,
    replies: Seq<Reply>,
)
    requires
        input.valid(),
        hmac_start(input, memory).valid(input),
        machine.nodes_address == input.hash.nodes_address,
        machine.bytes_address == input.hash.bytes_address,
        machine.visible.bytes.len() == 4224,
        hmac_meets_machine(compress, input, hmac_start(input, memory), machine, replies),
        hmac_run(input, hmac_start(input, memory), replies).state.phase == (HmacPhase::Finished {
            result: Ok(()),
        }),
    ensures
        hmac_run(input, hmac_start(input, memory), replies).state.hash.digest.take(
            4 * sha_words(input.hash.algorithm) as int,
        ) == hmac(compress, input.hash.algorithm, input.key, input.message),
{
    let start = hmac_start(input, memory);
    if input.key.len() <= 64 {
        assert(start.key_block =~= hmac_key(compress, input.hash.algorithm, input.key));
    }
    lemma_hmac_run_in_step(compress, input, start, machine, replies);
}

/// Nothing of the message stays behind: a hash that is over has left zeros in the memory
/// that the channel reads, and empty descriptors, unless it never had the channel.
pub proof fn law_hash_leaves_no_message(
    compress: Compression,
    input: HashInput,
    message: HashMessage,
    memory: HashMemory,
    machine: HashMachine,
    replies: Seq<Reply>,
)
    requires
        input.valid(),
        hash_start(input, memory).valid(input),
        machine.nodes_address == input.nodes_address,
        machine.bytes_address == input.bytes_address,
        machine.visible.bytes.len() == 4224,
        hash_meets_machine(compress, input, message, hash_start(input, memory), machine, replies),
        hash_run(input, message, hash_start(input, memory), replies).state.stage is Finished,
        hash_run(input, message, hash_start(input, memory), replies).state.stage != (
        HashStage::Finished { result: Err(CryptoError::Backend(0xffff_1201)) }),
    ensures
        is_wiped(
            hash_machine_end(
                compress,
                input,
                message,
                hash_start(input, memory),
                machine,
                replies,
            ),
        ),
{
    lemma_run_in_step(compress, input, message, hash_start(input, memory), machine, replies);
}

/// Nothing of the key and the message stays behind: a MAC that is over has left zeros in the
/// memory that the channel reads, and empty descriptors, unless the channel could not be
/// claimed.
pub proof fn law_mac_leaves_no_message(
    compress: Compression,
    input: HmacInput,
    memory: HashMemory,
    machine: HashMachine,
    replies: Seq<Reply>,
)
    requires
        input.valid(),
        hmac_start(input, memory).valid(input),
        machine.nodes_address == input.hash.nodes_address,
        machine.bytes_address == input.hash.bytes_address,
        machine.visible.bytes.len() == 4224,
        hmac_meets_machine(compress, input, hmac_start(input, memory), machine, replies),
        hmac_run(input, hmac_start(input, memory), replies).state.phase is Finished,
        hmac_run(input, hmac_start(input, memory), replies).state.phase != (HmacPhase::Finished {
            result: Err(CryptoError::Backend(0xffff_1201)),
        }),
    ensures
        is_wiped(
            hmac_machine_end(compress, input, hmac_start(input, memory), machine, replies),
        ),
{
    let start = hmac_start(input, memory);
    if input.key.len() <= 64 {
        assert(start.key_block =~= hmac_key(compress, input.hash.algorithm, input.key));
    }
    lemma_hmac_run_in_step(compress, input, start, machine, replies);
}

} // verus!
