//! The key ladder and the SPACC symmetric channel as a machine, and what a block operation
//! delivers when it answers.
//!
//! The ladder brings what is in its staging area into the half of a keyslot that was
//! addressed. The channel, when its input ring is advanced, applies AES with the key in the
//! keyslot that was chosen to the block that the input descriptor points to, and writes
//! where the output descriptor points to. It sees memory only as far as the cache was
//! cleaned, and the processor sees its output only after the cached lines are dropped.
use crate::bus::{Ask, Command, Region, Reply, Source};
use crate::bytes::le_word;
use crate::error::CryptoError;
use crate::laws::cipher::{cipher_run, law_cipher_step_is_bounded};
use crate::laws::rkp_device::{lemma_window_bytes, window_content};
use crate::laws::trace::{after, lemma_after_both, lemma_after_few, lemma_after_push};
use crate::spacc_cipher::{
    cipher_ask, cipher_configuration, cipher_next, cipher_publish, cipher_scrub, cipher_start,
    empty_cipher_memory, key_half, ladder_route, ladder_setup, ladder_wipe, CipherAddresses, CipherInput, CipherMemory, CipherStage, CipherState,
};
use vstd::prelude::*;

verus! {

/// AES: whether to decrypt, the key and the block, to the block that comes out.
pub type BlockCipher = spec_fn(bool, Seq<u8>, Seq<u8>) -> Seq<u8>;

/// What can go wrong with a block operation.
pub enum CipherFault {
    /// Nothing.
    Nothing,
    /// The key ladder fails.
    Ladder,
    /// The keyslot controller fails.
    Slot,
    /// The bus refuses an access.
    Bus,
    /// The channel meets a control error.
    Control,
    /// The channel reports a control error status.
    Status,
}

/// A half of a keyslot: its bytes and the size code of the key that it belongs to.
pub struct SlotHalf {
    pub bytes: Seq<u8>,
    pub size: u8,
}

/// What the ladder and the channel know and where their memory lies.
pub struct CipherMachine {
    /// Where the rings and the blocks lie.
    pub addresses: CipherAddresses,
    /// The half of a keyslot that the ladder writes next.
    pub half: int,
    /// Port, algorithm and permissions of the key that is delivered.
    pub purpose: (u8, u8, bool, bool),
    /// Security attributes of the key that is delivered.
    pub security: (bool, bool, bool, bool, bool, bool),
    /// The staging area.
    pub staging: Map<int, u32>,
    /// The keyslots that are locked.
    pub locked: Set<int>,
    /// The halves of the keyslots that hold a key for this channel.
    pub halves: Map<int, SlotHalf>,
    /// What the processor has stored last.
    pub stored: CipherMemory,
    /// What has reached the memory that the channel reads and writes.
    pub visible: CipherMemory,
    /// Whether cached lines may still be written over the output block.
    pub dirty: bool,
    /// The output block as the processor reads it.
    pub read: Seq<u8>,
    /// The security selectors and whether the channel is enabled.
    pub control: (u8, u8, bool),
    /// Whether the channel only copies.
    pub copy: bool,
    /// Keyslot, selector, mode, key length, width and direction.
    pub algorithm: (u16, u8, u8, u8, u8, bool),
    /// Address and depth of the input ring.
    pub input_ring: (u8, u32, u8),
    /// Address and depth of the output ring.
    pub output_ring: (u8, u32, u8),
    /// Positions up to which the rings have been handed over.
    pub input_position: int,
    pub output_position: int,
    /// The descriptor that the channel takes next.
    pub taken: int,
    /// The keyslot that the owner question is about.
    pub asked: int,
    /// What goes wrong.
    pub fault: CipherFault,
    /// Whether a delivery has been requested and not been seen to finish, and what it brings.
    pub routing: bool,
    pub delivery: Option<SlotHalf>,
    /// Whether a clear has been requested and not been seen to finish.
    pub clearing: bool,
    /// Whether a block has been started and not been seen to finish, and what it leaves.
    pub running: bool,
    pub pending: Seq<u8>,
    /// Whether the completion bit of the channel stands.
    pub latched: bool,
}

/// The key in a keyslot, by the size code of the key: 1, 2 and 3 stand for 128, 192 and 256
/// bits.
pub open spec fn slot_key(machine: CipherMachine, slot: int, size: u8) -> Option<Seq<u8>> {
    let even = machine.halves[2 * slot];
    let odd = machine.halves[2 * slot + 1];
    if !machine.locked.contains(slot) || !machine.halves.dom().contains(2 * slot) || even.size
        != size {
        None
    } else if size == 1 {
        Some(even.bytes)
    } else if !machine.halves.dom().contains(2 * slot + 1) || odd.size != size {
        None
    } else if size == 2 {
        Some(even.bytes + odd.bytes.take(8))
    } else if size == 3 {
        Some(even.bytes + odd.bytes)
    } else {
        None
    }
}

/// Whether the ladder delivers AES keys to the symmetric channel, for both directions and
/// for buffers that are not secure.
pub open spec fn is_for_channel(machine: CipherMachine) -> bool {
    machine.purpose == (1u8, 0x20u8, true, true) && machine.security == (
        false,
        true,
        false,
        true,
        false,
        false,
    )
}

/// The ladder after it has been told to deliver.
pub open spec fn delivered(machine: CipherMachine, size: u8, count: u8) -> CipherMachine {
    CipherMachine {
        routing: true,
        delivery: if is_for_channel(machine) && count == 0 && machine.locked.contains(
            machine.half / 2,
        ) && !(machine.fault is Ladder) && !(machine.fault is Slot) {
            Some(SlotHalf { bytes: window_content(machine.staging, 16), size })
        } else {
            None
        },
        ..machine
    }
}

/// Whether both rings lie where the registers say, and the channel finds in each a
/// descriptor of one block in the buffer of that ring.
pub open spec fn finds_block(machine: CipherMachine) -> bool {
    &&& machine.input_ring.0 == 0 && machine.input_ring.1 == machine.addresses.input_nodes
    &&& machine.input_ring.2 == 2
    &&& machine.output_ring.0 == 0 && machine.output_ring.1 == machine.addresses.output_nodes
    &&& machine.output_ring.2 == 2
    &&& 0 <= machine.taken < 2
    &&& machine.output_position == (machine.taken + 1) % 2
    &&& machine.visible.input_nodes.len() == 2
    &&& machine.visible.output_nodes.len() == 2
    &&& ({
        let from = machine.visible.input_nodes[machine.taken];
        let to = machine.visible.output_nodes[machine.taken];
        &&& from.flags == 3 && from.length == 16
        &&& from.address_high == 0 && from.address_low == machine.addresses.input
        &&& to.length == 16 && to.address_high == 0 && to.address_low == machine.addresses.output
    })
}

/// The channel after its input ring has been advanced. Nothing is known of the output until
/// the block is seen to finish. Where the channel is not set up for AES in single blocks, has
/// no key, does not find a block, cached lines may be written over its output or something
/// goes wrong, nothing is known of it after that either.
pub open spec fn advanced(machine: CipherMachine, aes: BlockCipher, position: u8) -> CipherMachine {
    let (slot, select, mode, size, width, decrypt) = machine.algorithm;
    let key = slot_key(machine, slot as int, size);
    let known = machine.control == (0x0au8, 0x0au8, true) && !machine.copy && select == 2 && mode
        == 1 && width == 0 && key is Some && finds_block(machine) && !machine.dirty && position
        == (machine.taken + 1) % 2 && machine.fault is Nothing;
    CipherMachine {
        input_position: position as int,
        taken: position as int,
        visible: CipherMemory { output: Seq::empty(), ..machine.visible },
        running: true,
        pending: if known {
            aes(decrypt, key->0, machine.visible.input)
        } else {
            Seq::empty()
        },
        ..machine
    }
}

/// What one command does; `memory` is the storage that is copied when the processor stores
/// it.
#[verifier::opaque]
pub open spec fn cipher_machine_step(
    aes: BlockCipher,
    memory: CipherMemory,
    machine: CipherMachine,
    command: Command,
) -> CipherMachine {
    match command {
        Command::KeyslotLock { slot, lock } => if lock {
            CipherMachine { locked: machine.locked.insert(slot as int), ..machine }
        } else {
            CipherMachine { locked: machine.locked.remove(slot as int), ..machine }
        },
        Command::KladAddress { address } => CipherMachine { half: address as int, ..machine },
        Command::KladConfig { port, algorithm, encrypt, decrypt } => CipherMachine {
            purpose: (port, algorithm, encrypt, decrypt),
            ..machine
        },
        Command::KladSecurity {
            key_secure,
            source_nonsecure,
            source_secure,
            destination_nonsecure,
            destination_secure,
            master_only,
        } => CipherMachine {
            security: (
                key_secure,
                source_nonsecure,
                source_secure,
                destination_nonsecure,
                destination_secure,
                master_only,
            ),
            ..machine
        },
        Command::KladData { index, word } => CipherMachine {
            staging: machine.staging.insert(index as int, word),
            ..machine
        },
        Command::KladRoute { key_size, key_count } => delivered(machine, key_size, key_count),
        Command::CipherStore => CipherMachine {
            stored: memory,
            read: memory.output,
            dirty: true,
            ..machine
        },
        Command::CacheClean { region } => cipher_cleaned(machine, region),
        Command::CacheFlush { region } => cipher_cleaned(machine, region),
        Command::CacheInvalidate { region: Region::CipherOutput } => CipherMachine {
            read: machine.visible.output,
            ..machine
        },
        Command::CipherClear { channels } => if channels == 2 {
            CipherMachine { clearing: true, ..machine }
        } else {
            machine
        },
        Command::CipherAcknowledge { bits } => if bits == 2 {
            CipherMachine { latched: false, ..machine }
        } else {
            machine
        },
        Command::KeyslotSelect { slot } => CipherMachine { asked: slot as int, ..machine },
        Command::CipherControl { source, destination, enable } => CipherMachine {
            control: (source, destination, enable),
            ..machine
        },
        Command::CipherCopy { copy } => CipherMachine { copy, ..machine },
        Command::CipherAlgorithm { keyslot, select, mode, key_length, width, decrypt } =>
        CipherMachine {
            algorithm: (keyslot, select, mode, key_length, width, decrypt),
            ..machine
        },
        Command::CipherInputHigh { high } => CipherMachine {
            input_ring: (high, machine.input_ring.1, machine.input_ring.2),
            ..machine
        },
        Command::CipherInputLow { word } => CipherMachine {
            input_ring: (machine.input_ring.0, word, machine.input_ring.2),
            ..machine
        },
        Command::CipherInputLength { count } => CipherMachine {
            input_ring: (machine.input_ring.0, machine.input_ring.1, count),
            ..machine
        },
        Command::CipherOutputHigh { high } => CipherMachine {
            output_ring: (high, machine.output_ring.1, machine.output_ring.2),
            ..machine
        },
        Command::CipherOutputLow { word } => CipherMachine {
            output_ring: (machine.output_ring.0, word, machine.output_ring.2),
            ..machine
        },
        Command::CipherOutputLength { count } => CipherMachine {
            output_ring: (machine.output_ring.0, machine.output_ring.1, count),
            ..machine
        },
        Command::CipherOutputPointer { position } => CipherMachine {
            output_position: position as int,
            ..machine
        },
        Command::CipherInputPointer { position } => advanced(machine, aes, position),
        _ => machine,
    }
}

/// The machine after cached lines of a region were written back.
pub open spec fn cipher_cleaned(machine: CipherMachine, region: Region) -> CipherMachine {
    match region {
        Region::CipherInputNodes => CipherMachine {
            visible: CipherMemory { input_nodes: machine.stored.input_nodes, ..machine.visible },
            ..machine
        },
        Region::CipherOutputNodes => CipherMachine {
            visible: CipherMemory { output_nodes: machine.stored.output_nodes, ..machine.visible },
            ..machine
        },
        Region::CipherInput => CipherMachine {
            visible: CipherMemory { input: machine.stored.input, ..machine.visible },
            ..machine
        },
        Region::CipherOutput => CipherMachine {
            visible: CipherMemory { output: machine.stored.output, ..machine.visible },
            dirty: false,
            ..machine
        },
        _ => machine,
    }
}

/// The effect of single commands while the storage holds `memory`.
pub open spec fn cipher_stepper(aes: BlockCipher, memory: CipherMemory) -> spec_fn(
    CipherMachine,
    Command,
) -> CipherMachine {
    |machine: CipherMachine, command: Command| cipher_machine_step(aes, memory, machine, command)
}

/// Whether the machine gives an answer: the ring positions and the output block read as
/// they are, and of what the machine does not keep any answer may come.
pub open spec fn cipher_machine_answers(machine: CipherMachine, ask: Ask, reply: Reply) -> bool {
    match ask {
        Ask::Read { source: Source::CipherOutputPointer } => reply == (Reply::Word {
            word: machine.output_position as u32,
        }),
        Ask::Read { source: Source::CipherInputPointer } => reply == (Reply::Word {
            word: machine.input_position as u32,
        }),
        Ask::CipherBlock => reply is Block && reply->block@ == machine.read,
        Ask::Read { source: Source::KeyslotOwner } => machine.locked.contains(machine.asked)
            ==> reply->word != 0,
        Ask::Read { source: Source::CipherInterrupt } => {
            &&& machine.latched ==> reply->word & 2 != 0
            &&& reply->word & 2 != 0 ==> machine.latched || machine.running
        },
        Ask::Read { source: Source::KladError } => machine.fault is Ladder ==> reply->word != 0,
        Ask::Read { source: Source::KeyslotError } => machine.fault is Slot ==> reply->word != 0,
        Ask::Read { source: Source::BusError } => machine.fault is Bus ==> reply->word != 0,
        Ask::Read { source: Source::CipherControlError } => machine.fault is Control
            ==> reply->word != 0,
        Ask::Read { source: Source::CipherControlStatus } => machine.fault is Status
            ==> reply->word != 0,
        _ => true,
    }
}

/// The machine after it has given an answer: when a delivery is no longer requested, the
/// half of the key is in its place; with the bit that reports a finished clear, the channel
/// has been stopped and its rings are at the start; with the completion bit of a block, the
/// output is there.
pub open spec fn cipher_machine_seen(
    machine: CipherMachine,
    ask: Ask,
    reply: Reply,
) -> CipherMachine {
    match ask {
        Ask::Read { source: Source::KladRequest } => if reply->word == 0 && machine.routing {
            CipherMachine {
                routing: false,
                halves: match machine.delivery {
                    Some(half) => machine.halves.insert(machine.half, half),
                    None => machine.halves.remove(machine.half),
                },
                ..machine
            }
        } else {
            machine
        },
        Ask::Read { source: Source::CipherClearFinish } => if reply->word & 2 != 0
            && machine.clearing {
            CipherMachine {
                clearing: false,
                running: false,
                input_position: 0,
                output_position: 0,
                taken: 0,
                ..machine
            }
        } else {
            machine
        },
        Ask::Read { source: Source::CipherInterrupt } => if reply->word & 2 != 0
            && machine.running && !machine.latched {
            CipherMachine {
                running: false,
                latched: true,
                visible: CipherMemory { output: machine.pending, ..machine.visible },
                ..machine
            }
        } else {
            machine
        },
        _ => machine,
    }
}

/// The machine after it has given an answer and taken the commands that follow it.
pub open spec fn cipher_machine_next(
    aes: BlockCipher,
    machine: CipherMachine,
    ask: Ask,
    reply: Reply,
    commands: Seq<Command>,
    memory: CipherMemory,
) -> CipherMachine {
    after(cipher_stepper(aes, memory), cipher_machine_seen(machine, ask, reply), commands)
}

/// The machine at the end of a run.
pub open spec fn cipher_machine_end(
    aes: BlockCipher,
    input: CipherInput,
    state: CipherState,
    machine: CipherMachine,
    replies: Seq<Reply>,
) -> CipherMachine
    decreases replies.len(),
{
    if replies.len() == 0 || state.stage is Finished {
        machine
    } else {
        let next = cipher_next(input, state, replies[0]);
        cipher_machine_end(
            aes,
            input,
            next.state,
            cipher_machine_next(
                aes,
                machine,
                cipher_ask(state.stage),
                replies[0],
                next.commands,
                next.state.memory,
            ),
            replies.skip(1),
        )
    }
}

/// Whether the staging area of the ladder holds nothing.
pub open spec fn is_unstaged(machine: CipherMachine) -> bool {
    machine.staging[0] == 0 && machine.staging[1] == 0 && machine.staging[2] == 0
        && machine.staging[3] == 0
}

/// Whether the memory that the channel accesses holds nothing.
pub open spec fn is_scrubbed(machine: CipherMachine) -> bool {
    &&& machine.visible.input.len() == 16
    &&& machine.visible.output.len() == 16
    &&& forall|i: int| 0 <= i < 16 ==> #[trigger] machine.visible.input[i] == 0
    &&& forall|i: int| 0 <= i < 16 ==> #[trigger] machine.visible.output[i] == 0
    &&& machine.visible.input_nodes.len() == 2
    &&& machine.visible.output_nodes.len() == 2
    &&& forall|i: int|
        0 <= i < 2 ==> (#[trigger] machine.visible.input_nodes[i]).address_low == 0
            && machine.visible.input_nodes[i].length == 0
    &&& forall|i: int|
        0 <= i < 2 ==> (#[trigger] machine.visible.output_nodes[i]).address_low == 0
            && machine.visible.output_nodes[i].length == 0
}

/// Whether every answer of a run is one that the machine gives.
pub open spec fn cipher_meets_machine(
    aes: BlockCipher,
    input: CipherInput,
    state: CipherState,
    machine: CipherMachine,
    replies: Seq<Reply>,
) -> bool
    decreases replies.len(),
{
    replies.len() == 0 || state.stage is Finished || (cipher_machine_answers(
        machine,
        cipher_ask(state.stage),
        replies[0],
    ) && ({
        let next = cipher_next(input, state, replies[0]);
        cipher_meets_machine(
            aes,
            input,
            next.state,
            cipher_machine_next(
                aes,
                machine,
                cipher_ask(state.stage),
                replies[0],
                next.commands,
                next.state.memory,
            ),
            replies.skip(1),
        )
    }))
}

/// The size code of a key.
spec fn size_of(key: Seq<u8>) -> u8 {
    if key.len() == 16 {
        1
    } else if key.len() == 24 {
        2
    } else {
        3
    }
}

/// The block that comes out.
spec fn owed(aes: BlockCipher, input: CipherInput) -> Seq<u8> {
    aes(input.decrypt, input.key, input.block)
}

/// A half of the key is in its place.
spec fn has_half(machine: CipherMachine, input: CipherInput, slot: u16, odd: bool) -> bool {
    let at = 2 * slot + if odd {
        1int
    } else {
        0
    };
    &&& machine.halves.dom().contains(at)
    &&& machine.halves[at].bytes == key_half(input.key, odd)
    &&& machine.halves[at].size == size_of(input.key)
}

/// The key is in its slot.
spec fn has_key(machine: CipherMachine, input: CipherInput, slot: u16) -> bool {
    machine.locked.contains(slot as int) && slot_key(
        machine,
        slot as int,
        size_of(input.key),
    ) == Some(input.key)
}

/// The channel is set up for the key and the rings.
spec fn is_set_up(machine: CipherMachine, input: CipherInput, slot: u16) -> bool {
    &&& has_key(machine, input, slot)
    &&& input.addresses.reachable()
    &&& machine.control == (0x0au8, 0x0au8, true)
    &&& !machine.copy
    &&& machine.algorithm == (slot, 2u8, 1u8, size_of(input.key), 0u8, input.decrypt)
    &&& machine.input_ring == (0u8, input.addresses.input_nodes as u32, 2u8)
    &&& machine.output_ring == (0u8, input.addresses.output_nodes as u32, 2u8)
    &&& machine.input_position == 0
    &&& machine.taken == 0
    &&& !machine.running
    &&& is_unstaged(machine)
    &&& works(machine)
}

/// Memory that holds the descriptors and the block.
spec fn holds(memory: CipherMemory, input: CipherInput) -> bool {
    &&& memory.input_nodes.len() == 2
    &&& memory.output_nodes.len() == 2
    &&& memory.input_nodes[0].flags == 3
    &&& memory.input_nodes[0].length == 16
    &&& memory.input_nodes[0].address_high == 0
    &&& memory.input_nodes[0].address_low == input.addresses.input
    &&& memory.output_nodes[0].length == 16
    &&& memory.output_nodes[0].address_high == 0
    &&& memory.output_nodes[0].address_low == input.addresses.output
    &&& memory.input == input.block
}

/// What holds between a block operation and the machine.
spec fn in_step(
    aes: BlockCipher,
    input: CipherInput,
    state: CipherState,
    machine: CipherMachine,
) -> bool {
    let slot = state.slot;
    let here = machine.addresses == input.addresses;
    match state.stage {
        CipherStage::SlotOwner | CipherStage::SlotIdle { .. } => here,
        CipherStage::SlotVerify | CipherStage::LadderFailure { .. }
        | CipherStage::LadderOwner { .. } => here && machine.locked.contains(slot as int),
        CipherStage::Route { odd, .. } => here && machine.locked.contains(slot as int)
            && is_for_channel(machine) && machine.routing && brings_half(machine, input, slot, odd)
            && (odd ==> has_half(machine, input, slot, false) && works(machine)),
        CipherStage::LadderError { odd } | CipherStage::SlotError { odd } => here
            && machine.locked.contains(slot as int) && is_for_channel(machine) && (works(machine)
            ==> has_half(machine, input, slot, odd)) && (odd ==> has_half(
            machine,
            input,
            slot,
            false,
        ) && works(machine)) && (state.stage is SlotError ==> !(machine.fault is Ladder)),
        CipherStage::LadderUnlock | CipherStage::LadderUnlocked => here && is_unstaged(machine) && (
        state.result is Ok ==> has_key(machine, input, slot) && works(machine)),
        CipherStage::Claim { .. } | CipherStage::Verify { .. } => here && is_unstaged(machine)
            && has_key(machine, input, slot) && works(machine),
        CipherStage::Clear { .. } => here && is_unstaged(machine) && has_key(machine, input, slot)
            && machine.clearing && works(machine),
        CipherStage::Stale => here && is_set_up(machine, input, slot) && machine.output_position
            == 0 && holds(machine.stored, input),
        CipherStage::Configured => here && is_set_up(machine, input, slot)
            && machine.output_position == 0 && holds(machine.stored, input) && !machine.latched,
        CipherStage::OutputPosition => here && is_set_up(machine, input, slot)
            && machine.output_position == 0 && holds(machine.visible, input) && !machine.dirty
            && !machine.latched,
        CipherStage::InputPosition => here && is_set_up(machine, input, slot)
            && machine.output_position == 1 && holds(machine.visible, input) && !machine.dirty
            && !machine.latched,
        CipherStage::Wait { .. } => works(machine) && is_unstaged(machine) && machine.running
            && !machine.latched && (
        machine.fault is Nothing ==> machine.pending == owed(aes, input)),
        CipherStage::BusError => is_unstaged(machine) && has_output(aes, machine, input),
        CipherStage::ControlError => is_unstaged(machine) && has_output(aes, machine, input) && !(
        machine.fault is Bus),
        CipherStage::ControlStatus => is_unstaged(machine) && has_output(aes, machine, input) && !(
        machine.fault is Bus) && !(machine.fault is Control),
        CipherStage::Block => is_unstaged(machine) && (machine.fault is Nothing ==> machine.read
            == owed(aes, input)) && !(machine.fault is Bus) && !(machine.fault is Control) && !(
        machine.fault is Status) && works(machine),
        CipherStage::Stop { .. } => state.result is Ok ==> state.output == owed(aes, input)
            && is_unstaged(machine),
        CipherStage::Release => is_scrubbed(machine) && (state.result is Ok ==> state.output
            == owed(aes, input) && is_unstaged(machine)),
        CipherStage::SlotUnlock => state.result is Ok ==> state.output == owed(aes, input)
            && is_unstaged(machine) && is_scrubbed(machine) && machine.asked == slot,
        CipherStage::SlotFlush { .. } | CipherStage::SlotUnlocked | CipherStage::Finished =>
        state.result is Ok ==> state.output == owed(aes, input) && is_unstaged(machine)
            && is_scrubbed(machine) && !machine.locked.contains(slot as int),
    }
}

/// The ladder and the keyslots do not fail.
spec fn works(machine: CipherMachine) -> bool {
    !(machine.fault is Ladder) && !(machine.fault is Slot)
}

/// The delivery brings a half of the key.
spec fn brings_half(machine: CipherMachine, input: CipherInput, slot: u16, odd: bool) -> bool {
    &&& machine.half == 2 * slot + if odd {
        1int
    } else {
        0
    }
    &&& works(machine) ==> machine.delivery is Some && machine.delivery->0.bytes == key_half(
        input.key,
        odd,
    ) && machine.delivery->0.size == size_of(input.key)
}

/// The output is there where nothing went wrong.
spec fn has_output(aes: BlockCipher, machine: CipherMachine, input: CipherInput) -> bool {
    works(machine) && (machine.fault is Nothing ==> machine.visible.output == owed(aes, input))
}

/// Whether a command changes nothing that the machine keeps.
spec fn is_idle(command: Command) -> bool {
    command is Fence || command is EnterCritical || command is ExitCritical
        || command is CipherOwners || command is CipherClearAcknowledge || command is KladLock
        || command is KladUnlock || command is KladAcknowledge
}

/// Idle commands leave the machine alone.
proof fn lemma_idle(
    aes: BlockCipher,
    memory: CipherMemory,
    machine: CipherMachine,
    commands: Seq<Command>,
)
    requires
        forall|i: int| 0 <= i < commands.len() ==> is_idle(#[trigger] commands[i]),
    ensures
        after(cipher_stepper(aes, memory), machine, commands) == machine,
    decreases commands.len(),
{
    reveal(cipher_machine_step);
    if commands.len() > 0 {
        lemma_idle(aes, memory, machine, commands.drop_last());
        assert(is_idle(commands.last()));
    }
}

/// What a command does that only idle ones surround.
proof fn lemma_amid_idle(
    aes: BlockCipher,
    memory: CipherMemory,
    machine: CipherMachine,
    commands: Seq<Command>,
    k: int,
)
    requires
        0 <= k < commands.len(),
        forall|i: int| 0 <= i < commands.len() && i != k ==> is_idle(#[trigger] commands[i]),
    ensures
        after(cipher_stepper(aes, memory), machine, commands) == cipher_machine_step(
            aes,
            memory,
            machine,
            commands[k],
        ),
{
    let step = cipher_stepper(aes, memory);
    let front = commands.take(k);
    let back = commands.skip(k + 1);
    assert(commands =~= front.push(commands[k]) + back);
    lemma_after_both(step, machine, front.push(commands[k]), back);
    lemma_after_push(step, machine, front, commands[k]);
    lemma_idle(aes, memory, machine, front);
    lemma_idle(aes, memory, step(machine, commands[k]), back);
}

/// What the commands that stand alone do.
proof fn lemma_effects(aes: BlockCipher, memory: CipherMemory, machine: CipherMachine, slot: u16)
    ensures
        cipher_machine_step(aes, memory, machine, Command::KeyslotSelect { slot }) == (
        CipherMachine { asked: slot as int, ..machine }),
        cipher_machine_step(aes, memory, machine, Command::KeyslotLock { slot, lock: true }) == (
        CipherMachine { locked: machine.locked.insert(slot as int), ..machine }),
        cipher_machine_step(aes, memory, machine, Command::KeyslotLock { slot, lock: false }) == (
        CipherMachine { locked: machine.locked.remove(slot as int), ..machine }),
        cipher_machine_step(aes, memory, machine, Command::CipherClear { channels: 2 }) == (
        CipherMachine { clearing: true, ..machine }),
        cipher_machine_step(aes, memory, machine, Command::CipherAcknowledge { bits: 2 }) == (
        CipherMachine { latched: false, ..machine }),
        cipher_machine_step(aes, memory, machine, Command::CipherOutputPointer { position: 1 }) == (
        CipherMachine { output_position: 1, ..machine }),
        cipher_machine_step(aes, memory, machine, Command::CipherInputPointer { position: 1 })
            == advanced(machine, aes, 1),
        cipher_machine_step(
            aes,
            memory,
            machine,
            Command::CacheInvalidate { region: Region::CipherOutput },
        ) == (CipherMachine { read: machine.visible.output, ..machine }),
{
    reveal(cipher_machine_step);
}

/// Routing a half of the key has that half brought to its place.
proof fn lemma_routed(
    aes: BlockCipher,
    memory: CipherMemory,
    machine: CipherMachine,
    input: CipherInput,
    slot: u16,
    odd: bool,
)
    requires
        input.valid(),
        slot < 8,
        machine.locked.contains(slot as int),
        is_for_channel(machine),
    ensures
        ({
            let end = after(
                cipher_stepper(aes, memory),
                machine,
                ladder_route(input.key, slot, odd),
            );
            &&& end == (CipherMachine {
                half: end.half,
                staging: end.staging,
                routing: true,
                delivery: end.delivery,
                ..machine
            })
            &&& brings_half(end, input, slot, odd)
        }),
{
    reveal(cipher_machine_step);
    let c = ladder_route(input.key, slot, odd);
    let step = cipher_stepper(aes, memory);
    let front = seq![c[0], c[1], c[2], c[3]];
    let back = seq![c[4], c[5], c[6]];
    assert(c =~= front + back);
    lemma_after_both(step, machine, front, back);
    lemma_after_few(step, machine, front);
    let middle = after(step, machine, front);
    lemma_after_few(step, middle, back);
    let half = key_half(input.key, odd);
    let staged = step(middle, c[4]);
    let at = 2 * slot + if odd {
        1int
    } else {
        0
    };
    assert(at / 2 == slot);
    assert(staged.half == at);
    assert forall|i: int| 0 <= i < 4 implies #[trigger] staged.staging[i] == le_word(
        half,
        4 * i,
    ) by {}
    lemma_window_bytes(staged.staging, half, 4, 16);
    assert(half.take(16) =~= half);
}

/// The halves make up the key.
proof fn lemma_key_complete(machine: CipherMachine, input: CipherInput, slot: u16)
    requires
        input.valid(),
        machine.locked.contains(slot as int),
        has_half(machine, input, slot, false),
        input.key.len() > 16 ==> has_half(machine, input, slot, true),
    ensures
        has_key(machine, input, slot),
{
    let even = key_half(input.key, false);
    let odd = key_half(input.key, true);
    if input.key.len() == 16 {
        assert(even =~= input.key);
    } else if input.key.len() == 24 {
        assert(even + odd.take(8) =~= input.key);
    } else {
        assert(even + odd =~= input.key);
    }
}

/// The configuration sets its registers and nothing else.
proof fn lemma_configured(
    aes: BlockCipher,
    memory: CipherMemory,
    machine: CipherMachine,
    input: CipherInput,
    slot: u16,
)
    requires
        input.valid(),
    ensures
        after(cipher_stepper(aes, memory), machine, cipher_configuration(input, slot)) == (
        CipherMachine {
            control: (0x0au8, 0x0au8, true),
            copy: false,
            algorithm: (slot, 2u8, 1u8, size_of(input.key), 0u8, input.decrypt),
            input_ring: (0u8, input.addresses.input_nodes as u32, 2u8),
            output_ring: (0u8, input.addresses.output_nodes as u32, 2u8),
            ..machine
        }),
{
    let step = cipher_stepper(aes, memory);
    reveal(cipher_machine_step);
    let c = cipher_configuration(input, slot);
    let first = seq![c[0], c[1], c[2]];
    let second = seq![c[3], c[4], c[5]];
    let third = seq![c[6], c[7], c[8]];
    assert(c =~= first + second + third);
    lemma_after_both(step, machine, first + second, third);
    lemma_after_both(step, machine, first, second);
    lemma_after_few(step, machine, first);
    let opened = after(step, machine, first);
    assert(opened == (CipherMachine {
        control: (0x0au8, 0x0au8, true),
        copy: false,
        algorithm: (slot, 2u8, 1u8, size_of(input.key), 0u8, input.decrypt),
        ..machine
    }));
    lemma_after_few(step, opened, second);
    let middle = after(step, opened, second);
    assert(middle == (CipherMachine {
        input_ring: (0u8, input.addresses.input_nodes as u32, 2u8),
        ..opened
    }));
    lemma_after_few(step, middle, third);
}

/// The preparation sets the channel up.
proof fn lemma_set_up(
    aes: BlockCipher,
    input: CipherInput,
    state: CipherState,
    machine: CipherMachine,
    reply: Reply,
)
    requires
        input.valid(),
        state.stage is Clear,
        in_step(aes, input, state, machine),
        cipher_next(input, state, reply).state.stage is Stale,
    ensures
        ({
            let next = cipher_next(input, state, reply);
            in_step(
                aes,
                input,
                next.state,
                cipher_machine_next(
                    aes,
                    machine,
                    cipher_ask(state.stage),
                    reply,
                    next.commands,
                    next.state.memory,
                ),
            )
        }),
{
    let next = cipher_next(input, state, reply);
    let step = cipher_stepper(aes, next.state.memory);
    let seen = cipher_machine_seen(machine, cipher_ask(state.stage), reply);
    let c = next.commands;
    let front = seq![c[0], c[1], c[2]];
    let back = cipher_configuration(input, state.slot);
    assert(c =~= front + back);
    lemma_after_both(step, seen, front, back);
    lemma_amid_idle(aes, next.state.memory, seen, front, 2);
    let opened = after(step, seen, front);
    reveal(cipher_machine_step);
    assert(opened == (CipherMachine {
        stored: next.state.memory,
        read: next.state.memory.output,
        dirty: true,
        ..seen
    }));
    lemma_configured(aes, next.state.memory, opened, input, state.slot);
}

/// Publishing makes the stored memory visible.
proof fn lemma_published(aes: BlockCipher, memory: CipherMemory, machine: CipherMachine)
    ensures
        after(cipher_stepper(aes, memory), machine, cipher_publish()) == (CipherMachine {
            visible: machine.stored,
            dirty: false,
            ..machine
        }),
{
    reveal(cipher_machine_step);
    let c = cipher_publish();
    let step = cipher_stepper(aes, memory);
    let front = seq![c[0], c[1], c[2], c[3]];
    let back = seq![c[4]];
    assert(c =~= front + back);
    lemma_after_both(step, machine, front, back);
    lemma_after_few(step, machine, front);
    lemma_after_few(step, after(step, machine, front), back);
}

/// Scrubbing leaves nothing in the memory.
proof fn lemma_scrubbed(aes: BlockCipher, machine: CipherMachine)
    ensures
        ({
            let end = after(
                cipher_stepper(aes, empty_cipher_memory()),
                machine,
                cipher_scrub(),
            );
            &&& is_scrubbed(end)
            &&& end.staging == machine.staging
        }),
{
    reveal(cipher_machine_step);
    let c = cipher_scrub();
    let step = cipher_stepper(aes, empty_cipher_memory());
    let front = seq![c[0], c[1], c[2]];
    let back = seq![c[3], c[4], c[5]];
    assert(c =~= front + back);
    lemma_after_both(step, machine, front, back);
    lemma_after_few(step, machine, front);
    let middle = after(step, machine, front);
    lemma_after_few(step, middle, back);
    let end = after(step, machine, c);
    assert(end.visible == empty_cipher_memory());
}

/// A keyslot is looked for.
proof fn lemma_slot_step(
    aes: BlockCipher,
    input: CipherInput,
    state: CipherState,
    machine: CipherMachine,
    reply: Reply,
)
    requires
        input.valid(),
        state.valid(),
        state.stage is SlotOwner
            || state.stage is SlotIdle
            || state.stage is SlotVerify
            || state.stage is LadderFailure,
        in_step(aes, input, state, machine),
        cipher_machine_answers(machine, cipher_ask(state.stage), reply),
    ensures
        ({
            let next = cipher_next(input, state, reply);
            in_step(
                aes,
                input,
                next.state,
                cipher_machine_next(
                    aes,
                    machine,
                    cipher_ask(state.stage),
                    reply,
                    next.commands,
                    next.state.memory,
                ),
            )
        }),
{
    let next = cipher_next(input, state, reply);
    let step = cipher_stepper(aes, next.state.memory);
    let seen = cipher_machine_seen(machine, cipher_ask(state.stage), reply);
    let end = after(step, seen, next.commands);
    let c = next.commands;
    let memory = next.state.memory;
    lemma_effects(aes, memory, seen, next.state.slot);
    if next.state.stage is SlotOwner {
        lemma_amid_idle(aes, memory, seen, c, 0);
    } else if next.state.stage is SlotVerify {
        let front = seq![c[0], c[1]];
        let back = seq![c[2], c[3]];
        assert(c =~= front + back);
        lemma_after_both(step, seen, front, back);
        lemma_amid_idle(aes, memory, seen, front, 0);
        let locked = after(step, seen, front);
        lemma_amid_idle(aes, memory, locked, back, 0);
        lemma_effects(aes, memory, locked, state.slot);
    } else if !(next.state.stage is SlotUnlock) {
        lemma_idle(aes, memory, seen, c);
    }
}

/// The ladder is told what to bring first.
proof fn lemma_owner_step(
    aes: BlockCipher,
    input: CipherInput,
    state: CipherState,
    machine: CipherMachine,
    reply: Reply,
)
    requires
        input.valid(),
        state.valid(),
        state.stage is LadderOwner,
        in_step(aes, input, state, machine),
        cipher_machine_answers(machine, cipher_ask(state.stage), reply),
    ensures
        ({
            let next = cipher_next(input, state, reply);
            in_step(
                aes,
                input,
                next.state,
                cipher_machine_next(
                    aes,
                    machine,
                    cipher_ask(state.stage),
                    reply,
                    next.commands,
                    next.state.memory,
                ),
            )
        }),
{
    let next = cipher_next(input, state, reply);
    let step = cipher_stepper(aes, next.state.memory);
    let seen = cipher_machine_seen(machine, cipher_ask(state.stage), reply);
    let end = after(step, seen, next.commands);
    let c = next.commands;
    if next.state.stage is Route {
        let setup = ladder_setup(state.slot);
        let route = ladder_route(input.key, state.slot, false);
        lemma_after_both(step, seen, setup, route);
        lemma_after_few(step, seen, setup);
        let ready = after(step, seen, setup);
        assert(is_for_channel(ready) && ready == (CipherMachine {
            half: ready.half,
            purpose: ready.purpose,
            security: ready.security,
            ..seen
        })) by {
            reveal(cipher_machine_step);
        }
        lemma_routed(aes, next.state.memory, ready, input, state.slot, false);
    } else if !(next.state.stage is SlotUnlock) {
        lemma_idle(aes, next.state.memory, seen, c);
    }
}

/// The ladder brings a half of the key.
proof fn lemma_route_step(
    aes: BlockCipher,
    input: CipherInput,
    state: CipherState,
    machine: CipherMachine,
    reply: Reply,
)
    requires
        input.valid(),
        state.valid(),
        state.stage is Route || state.stage is LadderError,
        in_step(aes, input, state, machine),
        cipher_machine_answers(machine, cipher_ask(state.stage), reply),
    ensures
        ({
            let next = cipher_next(input, state, reply);
            in_step(
                aes,
                input,
                next.state,
                cipher_machine_next(
                    aes,
                    machine,
                    cipher_ask(state.stage),
                    reply,
                    next.commands,
                    next.state.memory,
                ),
            )
        }),
{
    let next = cipher_next(input, state, reply);
    let step = cipher_stepper(aes, next.state.memory);
    let seen = cipher_machine_seen(machine, cipher_ask(state.stage), reply);
    let end = after(step, seen, next.commands);
    let c = next.commands;
    if next.state.stage is LadderUnlock {
        lemma_wiped(aes, next.state.memory, seen);
    } else {
        lemma_idle(aes, next.state.memory, seen, c);
    }
}

/// The ladder goes on with the second half, or is done.
proof fn lemma_half_step(
    aes: BlockCipher,
    input: CipherInput,
    state: CipherState,
    machine: CipherMachine,
    reply: Reply,
)
    requires
        input.valid(),
        state.valid(),
        state.stage is SlotError,
        in_step(aes, input, state, machine),
        cipher_machine_answers(machine, cipher_ask(state.stage), reply),
    ensures
        ({
            let next = cipher_next(input, state, reply);
            in_step(
                aes,
                input,
                next.state,
                cipher_machine_next(
                    aes,
                    machine,
                    cipher_ask(state.stage),
                    reply,
                    next.commands,
                    next.state.memory,
                ),
            )
        }),
{
    let next = cipher_next(input, state, reply);
    let step = cipher_stepper(aes, next.state.memory);
    let seen = cipher_machine_seen(machine, cipher_ask(state.stage), reply);
    let end = after(step, seen, next.commands);
    let c = next.commands;
    let odd = state.stage->SlotError_odd;
    if next.state.stage is Route {
        lemma_routed(aes, next.state.memory, seen, input, state.slot, true);
    } else {
        if next.state.result is Ok {
            assert(has_half(seen, input, state.slot, odd));
            lemma_key_complete(seen, input, state.slot);
        }
        lemma_wiped(aes, next.state.memory, seen);
    }
}

/// The channel is claimed for the key.
proof fn lemma_claim_step(
    aes: BlockCipher,
    input: CipherInput,
    state: CipherState,
    machine: CipherMachine,
    reply: Reply,
)
    requires
        input.valid(),
        state.valid(),
        state.stage is LadderUnlock
            || state.stage is LadderUnlocked
            || state.stage is Claim
            || state.stage is Verify,
        in_step(aes, input, state, machine),
        cipher_machine_answers(machine, cipher_ask(state.stage), reply),
    ensures
        ({
            let next = cipher_next(input, state, reply);
            in_step(
                aes,
                input,
                next.state,
                cipher_machine_next(
                    aes,
                    machine,
                    cipher_ask(state.stage),
                    reply,
                    next.commands,
                    next.state.memory,
                ),
            )
        }),
{
    let next = cipher_next(input, state, reply);
    let step = cipher_stepper(aes, next.state.memory);
    let seen = cipher_machine_seen(machine, cipher_ask(state.stage), reply);
    let end = after(step, seen, next.commands);
    let c = next.commands;
    let memory = next.state.memory;
    if next.state.stage is Clear {
        lemma_amid_idle(aes, memory, seen, c, 1);
        lemma_effects(aes, memory, seen, state.slot);
    } else if !(next.state.stage is SlotUnlock) {
        lemma_idle(aes, memory, seen, c);
    }
}

/// The channel is made ready.
proof fn lemma_ready_step(
    aes: BlockCipher,
    input: CipherInput,
    state: CipherState,
    machine: CipherMachine,
    reply: Reply,
)
    requires
        input.valid(),
        state.valid(),
        state.stage is Clear
            || state.stage is Stale
            || state.stage is Configured,
        in_step(aes, input, state, machine),
        cipher_machine_answers(machine, cipher_ask(state.stage), reply),
    ensures
        ({
            let next = cipher_next(input, state, reply);
            in_step(
                aes,
                input,
                next.state,
                cipher_machine_next(
                    aes,
                    machine,
                    cipher_ask(state.stage),
                    reply,
                    next.commands,
                    next.state.memory,
                ),
            )
        }),
{
    let next = cipher_next(input, state, reply);
    let step = cipher_stepper(aes, next.state.memory);
    let seen = cipher_machine_seen(machine, cipher_ask(state.stage), reply);
    let end = after(step, seen, next.commands);
    let c = next.commands;
    let memory = next.state.memory;
    lemma_effects(aes, memory, seen, state.slot);
    if next.state.stage is Stale {
        lemma_set_up(aes, input, state, machine, reply);
    } else if next.state.stage is OutputPosition {
        lemma_published(aes, memory, seen);
    } else if next.state.stage is Configured && c.len() == 1 {
        lemma_amid_idle(aes, memory, seen, c, 0);
    } else if !(next.state.stage is Stop) {
        lemma_idle(aes, memory, seen, c);
    }
}

/// The rings are handed over.
proof fn lemma_start_step(
    aes: BlockCipher,
    input: CipherInput,
    state: CipherState,
    machine: CipherMachine,
    reply: Reply,
)
    requires
        input.valid(),
        state.valid(),
        state.stage is OutputPosition
            || state.stage is InputPosition,
        in_step(aes, input, state, machine),
        cipher_machine_answers(machine, cipher_ask(state.stage), reply),
    ensures
        ({
            let next = cipher_next(input, state, reply);
            in_step(
                aes,
                input,
                next.state,
                cipher_machine_next(
                    aes,
                    machine,
                    cipher_ask(state.stage),
                    reply,
                    next.commands,
                    next.state.memory,
                ),
            )
        }),
{
    let next = cipher_next(input, state, reply);
    let step = cipher_stepper(aes, next.state.memory);
    let seen = cipher_machine_seen(machine, cipher_ask(state.stage), reply);
    let end = after(step, seen, next.commands);
    let c = next.commands;
    let memory = next.state.memory;
    lemma_effects(aes, memory, seen, state.slot);
    lemma_amid_idle(aes, memory, seen, c, 0);
    if state.stage is InputPosition {
        assert(finds_block(seen));
        assert(end == advanced(seen, aes, 1));
    }
}

/// The block is waited for and read.
proof fn lemma_result_step(
    aes: BlockCipher,
    input: CipherInput,
    state: CipherState,
    machine: CipherMachine,
    reply: Reply,
)
    requires
        input.valid(),
        state.valid(),
        state.stage is Wait
            || state.stage is BusError
            || state.stage is ControlError
            || state.stage is ControlStatus
            || state.stage is Block,
        in_step(aes, input, state, machine),
        cipher_machine_answers(machine, cipher_ask(state.stage), reply),
    ensures
        ({
            let next = cipher_next(input, state, reply);
            in_step(
                aes,
                input,
                next.state,
                cipher_machine_next(
                    aes,
                    machine,
                    cipher_ask(state.stage),
                    reply,
                    next.commands,
                    next.state.memory,
                ),
            )
        }),
{
    let next = cipher_next(input, state, reply);
    let step = cipher_stepper(aes, next.state.memory);
    let seen = cipher_machine_seen(machine, cipher_ask(state.stage), reply);
    let end = after(step, seen, next.commands);
    let c = next.commands;
    let memory = next.state.memory;
    lemma_effects(aes, memory, seen, state.slot);
    if state.stage is Block || next.state.stage is Block || next.state.stage is BusError {
        lemma_amid_idle(aes, memory, seen, c, 0);
    } else if !(next.state.stage is Stop) {
        lemma_idle(aes, memory, seen, c);
    }
}

/// The channel is stopped and its memory scrubbed.
proof fn lemma_stop_step(
    aes: BlockCipher,
    input: CipherInput,
    state: CipherState,
    machine: CipherMachine,
    reply: Reply,
)
    requires
        input.valid(),
        state.valid(),
        state.stage is Stop,
        in_step(aes, input, state, machine),
        cipher_machine_answers(machine, cipher_ask(state.stage), reply),
    ensures
        ({
            let next = cipher_next(input, state, reply);
            in_step(
                aes,
                input,
                next.state,
                cipher_machine_next(
                    aes,
                    machine,
                    cipher_ask(state.stage),
                    reply,
                    next.commands,
                    next.state.memory,
                ),
            )
        }),
{
    let next = cipher_next(input, state, reply);
    let step = cipher_stepper(aes, next.state.memory);
    let seen = cipher_machine_seen(machine, cipher_ask(state.stage), reply);
    let end = after(step, seen, next.commands);
    let c = next.commands;
    if next.state.stage is Release {
        lemma_scrubbed(aes, seen);
        let front = seq![c[0], c[1]];
        assert(c =~= front + cipher_scrub());
        lemma_after_both(step, seen, front, cipher_scrub());
        lemma_idle(aes, next.state.memory, seen, front);
    } else {
        lemma_idle(aes, next.state.memory, seen, c);
    }
}

/// The channel is given back.
proof fn lemma_release_step(
    aes: BlockCipher,
    input: CipherInput,
    state: CipherState,
    machine: CipherMachine,
    reply: Reply,
)
    requires
        input.valid(),
        state.valid(),
        state.stage is Release,
        in_step(aes, input, state, machine),
        cipher_machine_answers(machine, cipher_ask(state.stage), reply),
    ensures
        ({
            let next = cipher_next(input, state, reply);
            in_step(
                aes,
                input,
                next.state,
                cipher_machine_next(
                    aes,
                    machine,
                    cipher_ask(state.stage),
                    reply,
                    next.commands,
                    next.state.memory,
                ),
            )
        }),
{
    let next = cipher_next(input, state, reply);
    let step = cipher_stepper(aes, next.state.memory);
    let seen = cipher_machine_seen(machine, cipher_ask(state.stage), reply);
    let end = after(step, seen, next.commands);
    let c = next.commands;
    lemma_amid_idle(aes, next.state.memory, seen, c, 3);
    lemma_effects(aes, next.state.memory, seen, state.slot);
}

/// The keyslot is given back.
proof fn lemma_free_step(
    aes: BlockCipher,
    input: CipherInput,
    state: CipherState,
    machine: CipherMachine,
    reply: Reply,
)
    requires
        input.valid(),
        state.valid(),
        state.stage is SlotUnlock || state.stage is SlotFlush || state.stage is SlotUnlocked,
        in_step(aes, input, state, machine),
        cipher_machine_answers(machine, cipher_ask(state.stage), reply),
    ensures
        ({
            let next = cipher_next(input, state, reply);
            in_step(
                aes,
                input,
                next.state,
                cipher_machine_next(
                    aes,
                    machine,
                    cipher_ask(state.stage),
                    reply,
                    next.commands,
                    next.state.memory,
                ),
            )
        }),
{
    let next = cipher_next(input, state, reply);
    let step = cipher_stepper(aes, next.state.memory);
    let seen = cipher_machine_seen(machine, cipher_ask(state.stage), reply);
    let end = after(step, seen, next.commands);
    let c = next.commands;
    lemma_effects(aes, next.state.memory, seen, state.slot);
    if next.state.stage is SlotFlush && state.stage is SlotUnlock {
        lemma_amid_idle(aes, next.state.memory, seen, c, 0);
    } else if next.state.stage is SlotUnlocked {
        lemma_amid_idle(aes, next.state.memory, seen, c, 0);
    } else {
        lemma_idle(aes, next.state.memory, seen, c);
    }
}

proof fn lemma_stays_in_step(
    aes: BlockCipher,
    input: CipherInput,
    state: CipherState,
    machine: CipherMachine,
    reply: Reply,
)
    requires
        input.valid(),
        state.valid(),
        !(state.stage is Finished),
        in_step(aes, input, state, machine),
        cipher_machine_answers(machine, cipher_ask(state.stage), reply),
    ensures
        ({
            let next = cipher_next(input, state, reply);
            in_step(
                aes,
                input,
                next.state,
                cipher_machine_next(
                    aes,
                    machine,
                    cipher_ask(state.stage),
                    reply,
                    next.commands,
                    next.state.memory,
                ),
            )
        }),
{
    match state.stage {
        CipherStage::SlotOwner | CipherStage::SlotIdle { .. } | CipherStage::SlotVerify
        | CipherStage::LadderFailure { .. } => lemma_slot_step(aes, input, state, machine, reply),
        CipherStage::LadderOwner { .. } => lemma_owner_step(aes, input, state, machine, reply),
        CipherStage::Route { .. } | CipherStage::LadderError { .. } => lemma_route_step(
            aes,
            input,
            state,
            machine,
            reply,
        ),
        CipherStage::SlotError { .. } => lemma_half_step(aes, input, state, machine, reply),
        CipherStage::LadderUnlock | CipherStage::LadderUnlocked | CipherStage::Claim { .. }
        | CipherStage::Verify { .. } => lemma_claim_step(aes, input, state, machine, reply),
        CipherStage::Clear { .. } | CipherStage::Stale | CipherStage::Configured =>
        lemma_ready_step(aes, input, state, machine, reply),
        CipherStage::OutputPosition | CipherStage::InputPosition => lemma_start_step(
            aes,
            input,
            state,
            machine,
            reply,
        ),
        CipherStage::Wait { .. } | CipherStage::BusError | CipherStage::ControlError
        | CipherStage::ControlStatus | CipherStage::Block => lemma_result_step(
            aes,
            input,
            state,
            machine,
            reply,
        ),
        CipherStage::Stop { .. } => lemma_stop_step(aes, input, state, machine, reply),
        CipherStage::Release => lemma_release_step(aes, input, state, machine, reply),
        _ => lemma_free_step(aes, input, state, machine, reply),
    }
}

/// Clearing the staging area leaves the keyslots alone.
proof fn lemma_wiped(aes: BlockCipher, memory: CipherMemory, machine: CipherMachine)
    ensures
        ({
            let end = after(
                cipher_stepper(aes, memory),
                machine,
                ladder_wipe(),
            );
            &&& end == (CipherMachine { staging: end.staging, ..machine })
            &&& is_unstaged(end)
        }),
{
    reveal(cipher_machine_step);
    let c = ladder_wipe();
    let step = cipher_stepper(aes, memory);
    let front = seq![c[0], c[1], c[2], c[3]];
    let back = seq![c[4]];
    assert(c =~= front + back);
    lemma_after_both(step, machine, front, back);
    lemma_after_few(step, machine, front);
    lemma_after_few(step, after(step, machine, front), back);
}

proof fn lemma_run_in_step(
    aes: BlockCipher,
    input: CipherInput,
    state: CipherState,
    machine: CipherMachine,
    replies: Seq<Reply>,
)
    requires
        input.valid(),
        state.valid(),
        in_step(aes, input, state, machine),
        cipher_meets_machine(aes, input, state, machine, replies),
    ensures
        ({
            let end = cipher_run(input, state, replies).state;
            let last = cipher_machine_end(aes, input, state, machine, replies);
            in_step(aes, input, end, last)
        }),
    decreases replies.len(),
{
    if replies.len() > 0 && !(state.stage is Finished) {
        let next = cipher_next(input, state, replies[0]);
        law_cipher_step_is_bounded(input, state, replies[0]);
        lemma_stays_in_step(aes, input, state, machine, replies[0]);
        lemma_run_in_step(
            aes,
            input,
            next.state,
            cipher_machine_next(
                aes,
                machine,
                cipher_ask(state.stage),
                replies[0],
                next.commands,
                next.state.memory,
            ),
            replies.skip(1),
        );
    }
}

/// A block operation is AES: whatever the ladder, the keyslots and the channel were like
/// before, and whatever block function the channel has, a run that they answer and that
/// ends well delivers that function of the caller's direction, key and block, for all three
/// key lengths.
pub proof fn law_block_is_aes(
    aes: BlockCipher,
    input: CipherInput,
    output: Seq<u8>,
    memory: CipherMemory,
    machine: CipherMachine,
    replies: Seq<Reply>,
)
    requires
        input.valid(),
        output.len() == 16,
        machine.addresses == input.addresses,
        cipher_meets_machine(aes, input, cipher_start(output, memory), machine, replies),
        cipher_run(input, cipher_start(output, memory), replies).state.stage is Finished,
        cipher_run(input, cipher_start(output, memory), replies).state.result == Ok::<
            (),
            CryptoError,
        >(()),
    ensures
        cipher_run(input, cipher_start(output, memory), replies).state.output == aes(
            input.decrypt,
            input.key,
            input.block,
        ),
{
    lemma_run_in_step(aes, input, cipher_start(output, memory), machine, replies);
}

/// Decryption undoes encryption where the block function has that property: what an
/// encryption that ends well delivers, a decryption under the same key that ends well takes
/// back to the block.
pub proof fn law_decryption_undoes_encryption(
    aes: BlockCipher,
    forth: CipherInput,
    back: CipherInput,
    output: Seq<u8>,
    memory: CipherMemory,
    first: CipherMachine,
    second: CipherMachine,
    replies: Seq<Reply>,
    answers: Seq<Reply>,
)
    requires
        aes(true, forth.key, aes(false, forth.key, forth.block)) == forth.block,
        forth.valid(),
        back.valid(),
        !forth.decrypt,
        back.decrypt,
        back.key == forth.key,
        back.block == cipher_run(forth, cipher_start(output, memory), replies).state.output,
        output.len() == 16,
        first.addresses == forth.addresses,
        second.addresses == back.addresses,
        cipher_meets_machine(aes, forth, cipher_start(output, memory), first, replies),
        cipher_meets_machine(aes, back, cipher_start(output, memory), second, answers),
        cipher_run(forth, cipher_start(output, memory), replies).state.stage is Finished,
        cipher_run(forth, cipher_start(output, memory), replies).state.result == Ok::<
            (),
            CryptoError,
        >(()),
        cipher_run(back, cipher_start(output, memory), answers).state.stage is Finished,
        cipher_run(back, cipher_start(output, memory), answers).state.result == Ok::<
            (),
            CryptoError,
        >(()),
    ensures
        cipher_run(back, cipher_start(output, memory), answers).state.output == forth.block,
{
    law_block_is_aes(aes, forth, output, memory, first, replies);
    law_block_is_aes(aes, back, output, memory, second, answers);
}

/// Nothing stays behind: a block operation that ends well has left zeros in the staging area
/// of the ladder and in the memory that the channel accesses, and no lock on the keyslot.
pub proof fn law_block_leaves_nothing(
    aes: BlockCipher,
    input: CipherInput,
    output: Seq<u8>,
    memory: CipherMemory,
    machine: CipherMachine,
    replies: Seq<Reply>,
)
    requires
        input.valid(),
        output.len() == 16,
        machine.addresses == input.addresses,
        cipher_meets_machine(aes, input, cipher_start(output, memory), machine, replies),
        cipher_run(input, cipher_start(output, memory), replies).state.stage is Finished,
        cipher_run(input, cipher_start(output, memory), replies).state.result == Ok::<
            (),
            CryptoError,
        >(()),
    ensures
        ({
            let end = cipher_machine_end(
                aes,
                input,
                cipher_start(output, memory),
                machine,
                replies,
            );
            let slot = cipher_run(input, cipher_start(output, memory), replies).state.slot;
            is_unstaged(end) && is_scrubbed(end) && !end.locked.contains(slot as int)
        }),
{
    lemma_run_in_step(aes, input, cipher_start(output, memory), machine, replies);
}

} // verus!
