//! SHA-1 and SHA-256 on a SPACC hash channel.
use crate::bus::{answers, Ask, Command, Region, Reply, Source, Step};
use crate::bytes::{copy_at, le_bytes, le_word, read_word, split_word};
use crate::channel::{
    advance_ring, channel_is_set, channel_owner, channel_set, claim_channel, claim_with, claimed,
    owner_of, release_channel, released, ring_next, try_claim, CHANNEL_BIT, CHANNEL_MASK,
    OWNER_REE, RING_DEPTH,
};
use crate::erase::erase_bytes;
use crate::error::CryptoError;
use crate::limits::{PollLimit, DEFAULT_POLL_LIMIT};
use crate::padding::{
    concat, fits, message_buffer, padded_len, prefix_bytes, prepare_padded_message, zeros,
    HASH_DMA_BYTES,
};
use crate::rkp::SHA1_INITIAL_STATE;
use vstd::prelude::*;

verus! {

/// The channel was not claimed within the poll limit.
pub const ERR_SPACC_LOCK_TIMEOUT: u32 = 0xffff_1201;

/// The channel was not cleared within the poll limit.
pub const ERR_SPACC_CLEAR_TIMEOUT: u32 = 0xffff_1202;

/// The hash did not complete within the poll limit.
pub const ERR_SPACC_OPERATION_TIMEOUT: u32 = 0xffff_1203;

/// The engine met a bus error.
pub const ERR_SPACC_BUS: u32 = 0xffff_1204;

/// The engine met a control error.
pub const ERR_SPACC_CONTROL: u32 = 0xffff_1205;

/// A buffer lies where the engine cannot reach it.
pub const ERR_SPACC_ADDRESS: u32 = 0xffff_1206;

/// SHA-256 initial state in register byte order.
pub const SHA256_INITIAL_STATE: [u8; 32] = [
    0x6a, 0x09, 0xe6, 0x67, 0xbb, 0x67, 0xae, 0x85, 0x3c, 0x6e, 0xf3, 0x72, 0xa5, 0x4f, 0xf5, 0x3a,
    0x51, 0x0e, 0x52, 0x7f, 0x9b, 0x05, 0x68, 0x8c, 0x1f, 0x83, 0xd9, 0xab, 0x5b, 0xe0, 0xcd, 0x19,
];

/// Bounded polling contract for one WS63 SPACC hash operation.
#[derive(Clone, Copy, Debug, PartialEq, Eq)]
pub struct SpaccPollLimits {
    pub lock: PollLimit,
    pub clear: PollLimit,
    pub operation: PollLimit,
}

impl SpaccPollLimits {
    /// Construct explicit non-zero channel-lock, clear, and operation limits.
    pub fn new(lock: PollLimit, clear: PollLimit, operation: PollLimit) -> (limits: Self)
        ensures
            limits.lock == lock,
            limits.clear == clear,
            limits.operation == operation,
    {
        Self { lock, clear, operation }
    }

    /// Maximum attempts used to acquire hash channel 1.
    pub fn lock(self) -> (limit: PollLimit)
        ensures
            limit == self.lock,
    {
        self.lock
    }

    /// Maximum status reads used to clear hash channel 1.
    pub fn clear(self) -> (limit: PollLimit)
        ensures
            limit == self.clear,
    {
        self.clear
    }

    /// Maximum completion-status reads used by one hash operation.
    pub fn operation(self) -> (limit: PollLimit)
        ensures
            limit == self.operation,
    {
        self.operation
    }
}

impl Default for SpaccPollLimits {
    fn default() -> (limits: Self)
        ensures
            limits.lock@ == DEFAULT_POLL_LIMIT,
            limits.clear@ == DEFAULT_POLL_LIMIT,
            limits.operation@ == DEFAULT_POLL_LIMIT,
    {
        let limit = PollLimit::conservative();
        Self::new(limit, limit, limit)
    }
}

/// The hash functions of the channel.
#[derive(Clone, Copy, Debug, PartialEq, Eq)]
pub enum HashAlgorithm {
    Sha1,
    Sha256,
}

/// Words of a digest.
pub open spec fn digest_words(algorithm: HashAlgorithm) -> nat {
    match algorithm {
        HashAlgorithm::Sha1 => 5,
        HashAlgorithm::Sha256 => 8,
    }
}

/// The initial state of a hash function in register byte order.
pub open spec fn initial_state_of(algorithm: HashAlgorithm) -> Seq<u8> {
    match algorithm {
        HashAlgorithm::Sha1 => SHA1_INITIAL_STATE@,
        HashAlgorithm::Sha256 => SHA256_INITIAL_STATE@,
    }
}

impl HashAlgorithm {
    /// Bytes of a digest.
    pub fn output_len(self) -> (len: usize)
        ensures
            len == 4 * digest_words(self),
            len == match self {
                HashAlgorithm::Sha1 => 20usize,
                HashAlgorithm::Sha256 => 32usize,
            },
    {
        match self {
            HashAlgorithm::Sha1 => 20,
            HashAlgorithm::Sha256 => 32,
        }
    }

    /// Algorithm selector of the channel.
    pub fn algorithm_select(self) -> (select: u8)
        ensures
            select == match self {
                HashAlgorithm::Sha1 => 0x0au8,
                HashAlgorithm::Sha256 => 0x0bu8,
            },
    {
        match self {
            HashAlgorithm::Sha1 => 0x0a,
            HashAlgorithm::Sha256 => 0x0b,
        }
    }

    /// Algorithm mode of the channel.
    pub fn algorithm_mode(self) -> (mode: u8)
        ensures
            mode == match self {
                HashAlgorithm::Sha1 => 0u8,
                HashAlgorithm::Sha256 => 1u8,
            },
    {
        match self {
            HashAlgorithm::Sha1 => 0,
            HashAlgorithm::Sha256 => 1,
        }
    }

    /// The initial state in register byte order.
    pub fn initial_state(self) -> (state: &'static [u8])
        ensures
            state@ == initial_state_of(self),
    {
        match self {
            HashAlgorithm::Sha1 => &SHA1_INITIAL_STATE,
            HashAlgorithm::Sha256 => &SHA256_INITIAL_STATE,
        }
    }
}

/// One descriptor of the hash ring.
#[derive(Clone, Copy, Debug, PartialEq, Eq)]
pub struct HashNode {
    pub flags: u32,
    pub length: u32,
    pub address_low: u32,
    pub address_high: u32,
}

/// A descriptor that points nowhere.
pub open spec fn empty_node() -> HashNode {
    HashNode { flags: 0, length: 0, address_low: 0, address_high: 0 }
}

impl HashNode {
    /// A descriptor that points nowhere.
    pub fn empty() -> (node: Self)
        ensures
            node == empty_node(),
    {
        Self { flags: 0, length: 0, address_low: 0, address_high: 0 }
    }
}

/// The descriptor ring and the message buffer of the hash channel.
pub struct HashDmaStorage {
    pub nodes: [HashNode; 2],
    pub bytes: [u8; HASH_DMA_BYTES],
}

/// The contents of a [`HashDmaStorage`].
pub struct HashMemory {
    pub nodes: Seq<HashNode>,
    pub bytes: Seq<u8>,
}

/// Memory with empty descriptors and a zero message buffer.
pub open spec fn empty_hash_memory() -> HashMemory {
    HashMemory { nodes: seq![empty_node(), empty_node()], bytes: zeros(HASH_DMA_BYTES as nat) }
}

impl View for HashDmaStorage {
    type V = HashMemory;

    open spec fn view(&self) -> HashMemory {
        HashMemory { nodes: self.nodes@, bytes: self.bytes@ }
    }
}

impl HashDmaStorage {
    /// Empty storage.
    pub fn new() -> (storage: Self)
        ensures
            storage@ == empty_hash_memory(),
    {
        let storage = Self { nodes: [HashNode::empty(), HashNode::empty()], bytes: [0u8; HASH_DMA_BYTES] };
        proof {
            assert(storage.nodes@ =~= seq![empty_node(), empty_node()]);
            assert(storage.bytes@ =~= zeros(HASH_DMA_BYTES as nat));
        }
        storage
    }

    /// Empties the storage.
    pub fn clear(&mut self)
        ensures
            final(self)@ == empty_hash_memory(),
    {
        erase_bytes(&mut self.bytes);
        self.nodes[0] = HashNode::empty();
        self.nodes[1] = HashNode::empty();
        proof {
            assert(self.nodes@ =~= seq![empty_node(), empty_node()]);
            assert(self.bytes@ =~= zeros(HASH_DMA_BYTES as nat));
        }
    }
}

/// Where a hash stands. Each stage but the last has one question open.
#[derive(Clone, Copy, Debug, PartialEq, Eq)]
pub enum HashStage {
    /// Reading the owner word to claim the channel; `polls` attempts are left, this one
    /// included.
    Claim { polls: u32 },
    /// Reading the owner word back after the claim was written.
    Verify { polls: u32 },
    /// Reading the interrupt enables before the channel is cleared.
    Enables,
    /// Waiting for the clear; `polls` reads are left, the open one included.
    Clear { polls: u32 },
    /// Reading the completion bits that an earlier operation may have left.
    Stale { padded: usize },
    /// Reading the control error after configuration.
    Configured { padded: usize },
    /// Reading the ring position before the start.
    Position,
    /// Waiting for completion; `polls` reads are left, the open one included.
    Wait { polls: u32 },
    /// Reading the bus error after completion.
    BusError,
    /// Reading the control error after completion.
    ControlError,
    /// Reading the control error status after completion.
    ControlStatus,
    /// Reading one word of the digest.
    Digest { index: usize },
    /// Reading the owner word to release the channel.
    Release { result: Result<(), CryptoError> },
    /// Over.
    Finished { result: Result<(), CryptoError> },
}

/// What a hash is about.
pub struct HashInput {
    pub algorithm: HashAlgorithm,
    pub lock_polls: u32,
    pub clear_polls: u32,
    pub operation_polls: u32,
    pub nodes_address: usize,
    pub bytes_address: usize,
}

/// The message of a hash: a prefix that the caller does not see, and the caller's bytes.
pub struct HashMessage {
    pub prefix: Seq<u8>,
    pub body: Seq<u8>,
}

/// What changes while a hash runs.
pub struct HashState {
    pub stage: HashStage,
    pub digest: Seq<u8>,
    pub memory: HashMemory,
}

/// A state and the commands that lead into it.
pub struct HashMove {
    pub state: HashState,
    pub commands: Seq<Command>,
}

impl HashInput {
    /// Poll limits that are not zero.
    pub open spec fn valid(self) -> bool {
        self.lock_polls > 0 && self.clear_polls > 0 && self.operation_polls > 0
    }
}

impl HashState {
    pub open spec fn valid(self, input: HashInput) -> bool {
        &&& self.digest.len() == 32
        &&& self.memory.nodes.len() == 2
        &&& self.memory.bytes.len() == HASH_DMA_BYTES
        &&& match self.stage {
            HashStage::Claim { polls } => polls > 0,
            HashStage::Verify { polls } => polls > 0,
            HashStage::Clear { polls } => polls > 0,
            HashStage::Wait { polls } => polls > 0,
            HashStage::Digest { index } => index < digest_words(input.algorithm),
            _ => true,
        }
    }
}

/// The state before the first answer.
pub open spec fn hash_start(input: HashInput, memory: HashMemory) -> HashState {
    HashState {
        stage: HashStage::Claim { polls: input.lock_polls },
        digest: zeros(32),
        memory,
    }
}

/// The question that a stage has open.
pub open spec fn hash_ask(stage: HashStage) -> Ask {
    match stage {
        HashStage::Claim { .. } => Ask::Read { source: Source::HashOwners },
        HashStage::Verify { .. } => Ask::Read { source: Source::HashOwners },
        HashStage::Enables => Ask::Read { source: Source::HashInterruptEnable },
        HashStage::Clear { .. } => Ask::Read { source: Source::HashClearFinish },
        HashStage::Stale { .. } => Ask::Read { source: Source::HashInterrupt },
        HashStage::Configured { .. } => Ask::Read { source: Source::HashControlError },
        HashStage::Position => Ask::Read { source: Source::HashPointer },
        HashStage::Wait { .. } => Ask::Read { source: Source::HashInterrupt },
        HashStage::BusError => Ask::Read { source: Source::BusError },
        HashStage::ControlError => Ask::Read { source: Source::HashControlError },
        HashStage::ControlStatus => Ask::Read { source: Source::HashControlStatus },
        HashStage::Digest { .. } => Ask::Read { source: Source::HashState },
        HashStage::Release { .. } => Ask::Read { source: Source::HashOwners },
        HashStage::Finished { .. } => Ask::Finished,
    }
}

/// Opens an attempt to claim the channel.
pub open spec fn hash_attempt() -> Seq<Command> {
    seq![Command::EnterCritical]
}

/// Acknowledges the finished clear.
pub open spec fn hash_cleared() -> Seq<Command> {
    seq![Command::HashClearAcknowledge { bits: CHANNEL_BIT }, Command::Fence]
}

/// Requests the clear after the interrupt of the channel has been disabled in `enables`.
pub open spec fn hash_clear_request(enables: u16) -> Seq<Command> {
    seq![
        Command::HashInterruptEnable { bits: enables & !CHANNEL_BIT },
        Command::ExitCritical,
        Command::HashClear { channels: CHANNEL_MASK },
        Command::Fence,
    ]
}

/// Loads the initial state of the hash function.
pub open spec fn hash_state_commands(algorithm: HashAlgorithm) -> Seq<Command> {
    Seq::new(
        2 * digest_words(algorithm),
        |i: int|
            if i % 2 == 0 {
                Command::HashStateIndex { index: (i / 2) as usize }
            } else {
                Command::HashState { word: le_word(initial_state_of(algorithm), 4 * (i / 2)) }
            },
    )
}

/// Configures the channel for a descriptor ring.
pub open spec fn hash_configuration(algorithm: HashAlgorithm, nodes: u32) -> Seq<Command> {
    seq![
        Command::HashControl { selector: 0x0a, enable: true },
        Command::HashAlgorithm {
            select: match algorithm {
                HashAlgorithm::Sha1 => 0x0a,
                HashAlgorithm::Sha256 => 0x0b,
            },
            mode: match algorithm {
                HashAlgorithm::Sha1 => 0,
                HashAlgorithm::Sha256 => 1,
            },
            hmac: false,
        },
        Command::HashNodesHigh { high: 0 },
        Command::HashNodesLow { word: nodes },
        Command::HashNodesLength { count: RING_DEPTH },
    ] + hash_state_commands(algorithm)
}

/// Makes the descriptors and the first `padded` message bytes visible to the engine.
pub open spec fn hash_publish(padded: usize) -> Seq<Command> {
    seq![
        Command::CacheClean { region: Region::HashNodes },
        Command::CacheClean { region: Region::HashMessage { length: padded } },
    ]
}

/// Wipes the memory that the engine reads and opens the release of the channel.
pub open spec fn hash_wipe() -> Seq<Command> {
    seq![Command::HashStore] + hash_publish(HASH_DMA_BYTES) + seq![Command::EnterCritical]
}

/// Acknowledges the finished hash.
pub open spec fn hash_done() -> Seq<Command> {
    seq![Command::HashAcknowledge { bits: CHANNEL_BIT }, Command::Fence]
}

/// Gives the channel back.
pub open spec fn hash_release(owners: u32) -> Seq<Command> {
    seq![
        Command::HashOwners { word: released(owners) },
        Command::Fence,
        Command::ExitCritical,
    ]
}

/// The descriptors for a padded message.
pub open spec fn hash_nodes(padded: usize, address: usize) -> Seq<HashNode> {
    seq![
        HashNode {
            flags: 3,
            length: padded as u32,
            address_low: address as u32,
            address_high: 0,
        },
        empty_node(),
    ]
}

/// A hash that goes on to another stage.
pub open spec fn hash_go(state: HashState, stage: HashStage, commands: Seq<Command>) -> HashMove {
    HashMove { state: HashState { stage, ..state }, commands }
}

/// A hash that has its result: memory wiped, channel about to be released.
pub open spec fn hash_end(
    state: HashState,
    result: Result<(), CryptoError>,
    commands: Seq<Command>,
) -> HashMove {
    HashMove {
        state: HashState {
            stage: HashStage::Release { result },
            digest: state.digest,
            memory: empty_hash_memory(),
        },
        commands: commands + hash_wipe(),
    }
}

/// An attempt to claim the channel that failed.
pub open spec fn hash_attempt_failed(state: HashState, polls: u32) -> HashMove {
    match claim_with((polls - 1) as u32, ERR_SPACC_LOCK_TIMEOUT) {
        Ok(polls) => hash_go(
            state,
            HashStage::Claim { polls },
            seq![Command::ExitCritical] + hash_attempt(),
        ),
        Err(error) => hash_go(
            state,
            HashStage::Finished { result: Err(error) },
            seq![Command::ExitCritical],
        ),
    }
}

/// What follows the clear: the message is prepared and the channel configured.
pub open spec fn hash_prepare(
    input: HashInput,
    message: HashMessage,
    state: HashState,
) -> HashMove {
    if !fits(message.prefix, message.body) {
        hash_end(state, Err(CryptoError::InvalidLength), hash_cleared())
    } else if input.nodes_address > u32::MAX || input.bytes_address > u32::MAX {
        hash_end(state, Err(CryptoError::Backend(ERR_SPACC_ADDRESS)), hash_cleared())
    } else {
        let padded = padded_len(message.prefix.len() + message.body.len()) as usize;
        HashMove {
            state: HashState {
                stage: HashStage::Stale { padded },
                digest: state.digest,
                memory: HashMemory {
                    nodes: hash_nodes(padded, input.bytes_address),
                    bytes: message_buffer(message.prefix, message.body),
                },
            },
            commands: hash_cleared() + seq![Command::HashStore] + hash_configuration(
                input.algorithm,
                input.nodes_address as u32,
            ),
        }
    }
}

/// `bytes` with the four bytes of digest word `index` put in.
pub open spec fn with_digest_word(bytes: Seq<u8>, index: int, word: u32) -> Seq<u8> {
    bytes.take(4 * index) + le_bytes(word) + bytes.skip(4 * index + 4)
}

/// What the answer to the open question leads to.
pub open spec fn hash_next(
    input: HashInput,
    message: HashMessage,
    state: HashState,
    reply: Reply,
) -> HashMove {
    let word = reply->word;
    match state.stage {
        HashStage::Claim { polls } => if owner_of(word) != 0 {
            hash_attempt_failed(state, polls)
        } else {
            hash_go(
                state,
                HashStage::Verify { polls },
                seq![Command::HashOwners { word: claimed(word) }, Command::Fence],
            )
        },
        HashStage::Verify { polls } => if owner_of(word) != OWNER_REE {
            hash_attempt_failed(state, polls)
        } else {
            hash_go(
                state,
                HashStage::Enables,
                seq![Command::ExitCritical, Command::EnterCritical],
            )
        },
        HashStage::Enables => hash_go(
            state,
            HashStage::Clear { polls: input.clear_polls },
            hash_clear_request(word as u16),
        ),
        HashStage::Clear { polls } => if channel_set(word) {
            hash_prepare(input, message, state)
        } else if polls > 1 {
            hash_go(state, HashStage::Clear { polls: (polls - 1) as u32 }, seq![])
        } else {
            hash_end(state, Err(CryptoError::Backend(ERR_SPACC_CLEAR_TIMEOUT)), seq![])
        },
        HashStage::Stale { padded } => hash_go(
            state,
            HashStage::Configured { padded },
            if channel_set(word) {
                hash_done()
            } else {
                seq![Command::Fence]
            },
        ),
        HashStage::Configured { padded } => if word != 0 {
            hash_end(state, Err(CryptoError::Backend(ERR_SPACC_CONTROL)), seq![])
        } else {
            hash_go(state, HashStage::Position, hash_publish(padded) + seq![Command::Fence])
        },
        HashStage::Position => hash_go(
            state,
            HashStage::Wait { polls: input.operation_polls },
            seq![Command::HashPointer { position: ring_next(word) }, Command::Fence],
        ),
        HashStage::Wait { polls } => if channel_set(word) {
            hash_go(state, HashStage::BusError, hash_done())
        } else if polls > 1 {
            hash_go(state, HashStage::Wait { polls: (polls - 1) as u32 }, seq![])
        } else {
            hash_end(state, Err(CryptoError::Backend(ERR_SPACC_OPERATION_TIMEOUT)), seq![])
        },
        HashStage::BusError => if word != 0 {
            hash_end(state, Err(CryptoError::Backend(ERR_SPACC_BUS)), seq![])
        } else {
            hash_go(state, HashStage::ControlError, seq![])
        },
        HashStage::ControlError => if word != 0 {
            hash_end(state, Err(CryptoError::Backend(ERR_SPACC_CONTROL)), seq![])
        } else {
            hash_go(state, HashStage::ControlStatus, seq![])
        },
        HashStage::ControlStatus => if word != 0 {
            hash_end(state, Err(CryptoError::Backend(ERR_SPACC_CONTROL)), seq![])
        } else {
            hash_go(
                state,
                HashStage::Digest { index: 0 },
                seq![Command::HashStateIndex { index: 0 }],
            )
        },
        HashStage::Digest { index } => {
            let taken = HashState {
                digest: with_digest_word(state.digest, index as int, word),
                ..state
            };
            if index + 1 < digest_words(input.algorithm) {
                hash_go(
                    taken,
                    HashStage::Digest { index: (index + 1) as usize },
                    seq![Command::HashStateIndex { index: (index + 1) as usize }],
                )
            } else {
                hash_end(taken, Ok(()), seq![])
            }
        },
        HashStage::Release { result } => hash_go(
            state,
            HashStage::Finished { result },
            hash_release(word),
        ),
        HashStage::Finished { .. } => hash_go(state, state.stage, seq![]),
    }
}

/// Appends the configuration of the channel.
fn configure_hash_channel(commands: &mut Vec<Command>, algorithm: HashAlgorithm, nodes: u32)
    ensures
        final(commands)@ == old(commands)@ + hash_configuration(algorithm, nodes),
{
    let ghost before = commands@;
    commands.push(Command::HashControl { selector: 0x0a, enable: true });
    commands.push(
        Command::HashAlgorithm {
            select: algorithm.algorithm_select(),
            mode: algorithm.algorithm_mode(),
            hmac: false,
        },
    );
    commands.push(Command::HashNodesHigh { high: 0 });
    commands.push(Command::HashNodesLow { word: nodes });
    commands.push(Command::HashNodesLength { count: RING_DEPTH });
    let ghost configured = commands@;
    let ghost all = hash_state_commands(algorithm);
    let state = algorithm.initial_state();
    let count = algorithm.output_len() / 4;
    let mut index: usize = 0;
    while index < count
        invariant
            index <= count,
            count == digest_words(algorithm),
            state@ == initial_state_of(algorithm),
            state@.len() == 4 * count,
            all == hash_state_commands(algorithm),
            commands@ == configured + all.take(2 * index),
        decreases count - index,
    {
        commands.push(Command::HashStateIndex { index });
        commands.push(Command::HashState { word: read_word(state, 4 * index) });
        proof {
            assert(all[2 * index] == Command::HashStateIndex { index });
            assert(all[2 * index + 1] == Command::HashState {
                word: le_word(initial_state_of(algorithm), 4 * index),
            });
            assert(commands@ =~= configured + all.take(2 * (index + 1)));
        }
        index += 1;
    }
    proof {
        assert(all.take(2 * count) =~= all);
        assert(commands@ =~= before + hash_configuration(algorithm, nodes));
    }
}

/// One hash on the channel, whose message is handed in with every answer.
pub(crate) struct HashCore {
    algorithm: HashAlgorithm,
    lock_polls: u32,
    clear_polls: u32,
    operation_polls: u32,
    nodes_address: usize,
    bytes_address: usize,
    stage: HashStage,
    digest: [u8; 32],
}

impl HashCore {
    /// What the hash is about.
    pub(crate) closed spec fn input(self) -> HashInput {
        HashInput {
            algorithm: self.algorithm,
            lock_polls: self.lock_polls,
            clear_polls: self.clear_polls,
            operation_polls: self.operation_polls,
            nodes_address: self.nodes_address,
            bytes_address: self.bytes_address,
        }
    }

    /// Where the hash stands, given the storage that it works on.
    pub(crate) closed spec fn state(self, storage: HashDmaStorage) -> HashState {
        HashState { stage: self.stage, digest: self.digest@, memory: storage@ }
    }

    /// The input and the state are as the engine keeps them.
    pub(crate) open spec fn valid(self, storage: HashDmaStorage) -> bool {
        self.input().valid() && self.state(storage).valid(self.input())
    }

    /// A hash that has asked for nothing yet.
    ///
    /// The addresses are those at which the engine finds the descriptors and the message.
    pub(crate) fn new(
        algorithm: HashAlgorithm,
        limits: SpaccPollLimits,
        nodes_address: usize,
        bytes_address: usize,
    ) -> (engine: Self)
        ensures
            engine.input() == (HashInput {
                algorithm,
                lock_polls: limits.lock@,
                clear_polls: limits.clear@,
                operation_polls: limits.operation@,
                nodes_address,
                bytes_address,
            }),
            forall|storage: HashDmaStorage| #[trigger] engine.valid(storage),
            forall|storage: HashDmaStorage|
                (#[trigger] engine.state(storage)) == hash_start(engine.input(), storage@),
    {
        let lock_polls = limits.lock().get();
        let clear_polls = limits.clear().get();
        let operation_polls = limits.operation().get();
        let engine = Self {
            algorithm,
            lock_polls,
            clear_polls,
            operation_polls,
            nodes_address,
            bytes_address,
            stage: Self::claim(lock_polls),
            digest: [0u8; 32],
        };
        proof {
            assert(engine.digest@ =~= zeros(32));
        }
        engine
    }

    /// The stage of a claim that has `attempts` attempts left.
    fn claim(attempts: u32) -> (stage: HashStage)
        ensures
            stage == match claim_with(attempts, ERR_SPACC_LOCK_TIMEOUT) {
                Ok(polls) => HashStage::Claim { polls },
                Err(error) => HashStage::Finished { result: Err(error) },
            },
    {
        match try_claim(attempts, ERR_SPACC_LOCK_TIMEOUT) {
            Ok(polls) => HashStage::Claim { polls },
            Err(error) => HashStage::Finished { result: Err(error) },
        }
    }

    /// The first commands and the first question.
    pub(crate) fn begin(&self) -> (step: Step)
        ensures
            step.commands@ == hash_attempt(),
            step.ask == (Ask::Read { source: Source::HashOwners }),
    {
        let mut commands: Vec<Command> = Vec::new();
        commands.push(Command::EnterCritical);
        proof {
            assert(commands@ =~= hash_attempt());
        }
        Step { commands, ask: Ask::Read { source: Source::HashOwners } }
    }

    /// Starts over with the same input, for another message.
    pub(crate) fn restart(&mut self)
        requires
            old(self).input().valid(),
        ensures
            final(self).input() == old(self).input(),
            forall|storage: HashDmaStorage|
                (#[trigger] final(self).state(storage)) == hash_start(
                    old(self).input(),
                    old(self).state(storage).memory,
                ),
    {
        erase_bytes(&mut self.digest);
        self.stage = Self::claim(self.lock_polls);
        proof {
            assert(self.digest@ =~= zeros(32));
        }
    }

    /// The question that is open.
    fn ask(&self) -> (ask: Ask)
        ensures
            forall|storage: HashDmaStorage|
                ask == hash_ask((#[trigger] self.state(storage)).stage),
    {
        match self.stage {
            HashStage::Claim { .. } => Ask::Read { source: Source::HashOwners },
            HashStage::Verify { .. } => Ask::Read { source: Source::HashOwners },
            HashStage::Enables => Ask::Read { source: Source::HashInterruptEnable },
            HashStage::Clear { .. } => Ask::Read { source: Source::HashClearFinish },
            HashStage::Stale { .. } => Ask::Read { source: Source::HashInterrupt },
            HashStage::Configured { .. } => Ask::Read { source: Source::HashControlError },
            HashStage::Position => Ask::Read { source: Source::HashPointer },
            HashStage::Wait { .. } => Ask::Read { source: Source::HashInterrupt },
            HashStage::BusError => Ask::Read { source: Source::BusError },
            HashStage::ControlError => Ask::Read { source: Source::HashControlError },
            HashStage::ControlStatus => Ask::Read { source: Source::HashControlStatus },
            HashStage::Digest { .. } => Ask::Read { source: Source::HashState },
            HashStage::Release { .. } => Ask::Read { source: Source::HashOwners },
            HashStage::Finished { .. } => Ask::Finished,
        }
    }

    /// Wipes the storage and opens the release of the channel.
    fn end(
        &mut self,
        storage: &mut HashDmaStorage,
        result: Result<(), CryptoError>,
        commands: &mut Vec<Command>,
    )
        ensures
            final(self).input() == old(self).input(),
            final(self).state(*final(storage)) == hash_end(
                old(self).state(*old(storage)),
                result,
                old(commands)@,
            ).state,
            final(commands)@ == old(commands)@ + hash_wipe(),
    {
        let ghost before = commands@;
        storage.clear();
        commands.push(Command::HashStore);
        commands.push(Command::CacheClean { region: Region::HashNodes });
        commands.push(Command::CacheClean { region: Region::HashMessage { length: HASH_DMA_BYTES } });
        commands.push(Command::EnterCritical);
        self.stage = HashStage::Release { result };
        proof {
            assert(commands@ =~= before + hash_wipe());
        }
    }

    /// Closes an attempt to claim the channel that failed.
    fn attempt_failed(&mut self, polls: u32, commands: &mut Vec<Command>)
        requires
            old(commands)@.len() == 0,
            polls > 0,
        ensures
            final(self).input() == old(self).input(),
            forall|storage: HashDmaStorage|
                (#[trigger] final(self).state(storage)) == hash_attempt_failed(
                    old(self).state(storage),
                    polls,
                ).state,
            forall|storage: HashDmaStorage|
                final(commands)@ == hash_attempt_failed(
                    #[trigger] old(self).state(storage),
                    polls,
                ).commands,
    {
        commands.push(Command::ExitCritical);
        self.stage = Self::claim(polls - 1);
        if polls > 1 {
            commands.push(Command::EnterCritical);
            proof {
                assert(commands@ =~= seq![Command::ExitCritical] + hash_attempt());
            }
        } else {
            proof {
                assert(commands@ =~= seq![Command::ExitCritical]);
            }
        }
    }

    /// Prepares the message and configures the channel once it is clear.
    fn prepare(
        &mut self,
        storage: &mut HashDmaStorage,
        prefix: Option<&[u8]>,
        parts: &[&[u8]],
        commands: &mut Vec<Command>,
    )
        requires
            old(commands)@.len() == 0,
        ensures
            final(self).input() == old(self).input(),
            ({
                let next = hash_prepare(
                    old(self).input(),
                    HashMessage { prefix: prefix_bytes(prefix), body: concat(parts@) },
                    old(self).state(*old(storage)),
                );
                final(self).state(*final(storage)) == next.state && final(commands)@
                    == next.commands
            }),
    {
        commands.push(Command::HashClearAcknowledge { bits: CHANNEL_BIT });
        commands.push(Command::Fence);
        proof {
            assert(commands@ =~= hash_cleared());
        }
        match prepare_padded_message(&mut storage.bytes, prefix, parts) {
            Err(error) => {
                self.end(storage, Err(error), commands);
            },
            Ok(padded) => {
                if self.nodes_address as u64 > u32::MAX as u64 || self.bytes_address as u64
                    > u32::MAX as u64 {
                    self.end(storage, Err(CryptoError::Backend(ERR_SPACC_ADDRESS)), commands);
                } else {
                    storage.nodes[0] = HashNode {
                        flags: 3,
                        length: padded as u32,
                        address_low: self.bytes_address as u32,
                        address_high: 0,
                    };
                    storage.nodes[1] = HashNode::empty();
                    commands.push(Command::HashStore);
                    configure_hash_channel(commands, self.algorithm, self.nodes_address as u32);
                    self.stage = HashStage::Stale { padded };
                    proof {
                        assert(storage.nodes@ =~= hash_nodes(padded, self.bytes_address));
                        assert(commands@ =~= hash_cleared() + seq![Command::HashStore]
                            + hash_configuration(self.algorithm, self.nodes_address as u32));
                    }
                }
            },
        }
    }

    /// Takes the answer to the open question and goes on to the next one.
    pub(crate) fn resume(
        &mut self,
        storage: &mut HashDmaStorage,
        prefix: Option<&[u8]>,
        parts: &[&[u8]],
        reply: Reply,
    ) -> (step: Step)
        requires
            old(self).valid(*old(storage)),
            answers(hash_ask(old(self).state(*old(storage)).stage), reply),
        ensures
            final(self).valid(*final(storage)),
            final(self).input() == old(self).input(),
            ({
                let next = hash_next(
                    old(self).input(),
                    HashMessage { prefix: prefix_bytes(prefix), body: concat(parts@) },
                    old(self).state(*old(storage)),
                    reply,
                );
                final(self).state(*final(storage)) == next.state && step.commands@ == next.commands
            }),
            step.ask == hash_ask(final(self).state(*final(storage)).stage),
    {
        let mut commands: Vec<Command> = Vec::new();
        let word: u32 = match reply {
            Reply::Word { word } => word,
            _ => 0,
        };
        match self.stage {
            HashStage::Claim { polls } => {
                if channel_owner(word) != 0 {
                    self.attempt_failed(polls, &mut commands);
                } else {
                    commands.push(Command::HashOwners { word: claim_channel(word) });
                    commands.push(Command::Fence);
                    self.stage = HashStage::Verify { polls };
                }
            },
            HashStage::Verify { polls } => {
                if channel_owner(word) != OWNER_REE {
                    self.attempt_failed(polls, &mut commands);
                } else {
                    commands.push(Command::ExitCritical);
                    commands.push(Command::EnterCritical);
                    self.stage = HashStage::Enables;
                }
            },
            HashStage::Enables => {
                commands.push(Command::HashInterruptEnable { bits: word as u16 & !CHANNEL_BIT });
                commands.push(Command::ExitCritical);
                commands.push(Command::HashClear { channels: CHANNEL_MASK });
                commands.push(Command::Fence);
                self.stage = HashStage::Clear { polls: self.clear_polls };
            },
            HashStage::Clear { polls } => {
                if channel_is_set(word) {
                    self.prepare(storage, prefix, parts, &mut commands);
                } else if polls > 1 {
                    self.stage = HashStage::Clear { polls: polls - 1 };
                } else {
                    let error = CryptoError::Backend(ERR_SPACC_CLEAR_TIMEOUT);
                    self.end(storage, Err(error), &mut commands);
                }
            },
            HashStage::Stale { padded } => {
                if channel_is_set(word) {
                    commands.push(Command::HashAcknowledge { bits: CHANNEL_BIT });
                }
                commands.push(Command::Fence);
                self.stage = HashStage::Configured { padded };
            },
            HashStage::Configured { padded } => {
                if word != 0 {
                    let error = CryptoError::Backend(ERR_SPACC_CONTROL);
                    self.end(storage, Err(error), &mut commands);
                } else {
                    commands.push(Command::CacheClean { region: Region::HashNodes });
                    commands.push(
                        Command::CacheClean { region: Region::HashMessage { length: padded } },
                    );
                    commands.push(Command::Fence);
                    self.stage = HashStage::Position;
                }
            },
            HashStage::Position => {
                commands.push(Command::HashPointer { position: advance_ring(word) });
                commands.push(Command::Fence);
                self.stage = HashStage::Wait { polls: self.operation_polls };
            },
            HashStage::Wait { polls } => {
                if channel_is_set(word) {
                    commands.push(Command::HashAcknowledge { bits: CHANNEL_BIT });
                    commands.push(Command::Fence);
                    self.stage = HashStage::BusError;
                } else if polls > 1 {
                    self.stage = HashStage::Wait { polls: polls - 1 };
                } else {
                    let error = CryptoError::Backend(ERR_SPACC_OPERATION_TIMEOUT);
                    self.end(storage, Err(error), &mut commands);
                }
            },
            HashStage::BusError => {
                if word != 0 {
                    let error = CryptoError::Backend(ERR_SPACC_BUS);
                    self.end(storage, Err(error), &mut commands);
                } else {
                    self.stage = HashStage::ControlError;
                }
            },
            HashStage::ControlError => {
                if word != 0 {
                    let error = CryptoError::Backend(ERR_SPACC_CONTROL);
                    self.end(storage, Err(error), &mut commands);
                } else {
                    self.stage = HashStage::ControlStatus;
                }
            },
            HashStage::ControlStatus => {
                if word != 0 {
                    let error = CryptoError::Backend(ERR_SPACC_CONTROL);
                    self.end(storage, Err(error), &mut commands);
                } else {
                    commands.push(Command::HashStateIndex { index: 0 });
                    self.stage = HashStage::Digest { index: 0 };
                }
            },
            HashStage::Digest { index } => {
                let bytes = split_word(word);
                copy_at(&mut self.digest, 4 * index, &bytes);
                if index + 1 < self.algorithm.output_len() / 4 {
                    commands.push(Command::HashStateIndex { index: index + 1 });
                    self.stage = HashStage::Digest { index: index + 1 };
                } else {
                    self.end(storage, Ok(()), &mut commands);
                }
            },
            HashStage::Release { result } => {
                commands.push(Command::HashOwners { word: release_channel(word) });
                commands.push(Command::Fence);
                commands.push(Command::ExitCritical);
                self.stage = HashStage::Finished { result };
            },
            HashStage::Finished { .. } => {},
        }
        proof {
            let next = hash_next(
                old(self).input(),
                HashMessage { prefix: prefix_bytes(prefix), body: concat(parts@) },
                old(self).state(*old(storage)),
                reply,
            );
            assert(commands@ =~= next.commands);
        }
        let ask = self.ask();
        Step { commands, ask }
    }

    /// Bytes of the digest.
    pub(crate) fn output_len(&self) -> (length: usize)
        ensures
            length == 4 * digest_words(self.input().algorithm),
    {
        self.algorithm.output_len()
    }

    /// The result, once the hash is over.
    pub(crate) fn result(&self) -> (result: Option<Result<(), CryptoError>>)
        ensures
            forall|storage: HashDmaStorage|
                result == match (#[trigger] self.state(storage)).stage {
                    HashStage::Finished { result } => Some(result),
                    _ => None,
                },
    {
        match self.stage {
            HashStage::Finished { result } => Some(result),
            _ => None,
        }
    }

    /// The digest words that have been read, in the first bytes of the array.
    pub(crate) fn digest(&self) -> (digest: [u8; 32])
        ensures
            forall|storage: HashDmaStorage| digest@ == (#[trigger] self.state(storage)).digest,
    {
        self.digest
    }
}

/// The message that the parts make up, with nothing in front.
pub open spec fn whole_message(parts: Seq<&[u8]>) -> HashMessage {
    HashMessage { prefix: Seq::empty(), body: concat(parts) }
}

/// One hash on the channel.
pub struct HashEngine<'m> {
    parts: &'m [&'m [u8]],
    core: HashCore,
}

impl<'m> HashEngine<'m> {
    /// What the hash is about, but for the message.
    pub closed spec fn input(self) -> HashInput {
        self.core.input()
    }

    /// The message.
    pub closed spec fn message(self) -> HashMessage {
        whole_message(self.parts@)
    }

    /// Where the hash stands, given the storage that it works on.
    pub closed spec fn state(self, storage: HashDmaStorage) -> HashState {
        self.core.state(storage)
    }

    /// The input and the state are as the engine keeps them.
    pub open spec fn valid(self, storage: HashDmaStorage) -> bool {
        self.input().valid() && self.state(storage).valid(self.input())
    }

    /// A hash that has asked for nothing yet.
    ///
    /// The addresses are those at which the engine finds the descriptors and the message.
    pub fn new(
        algorithm: HashAlgorithm,
        limits: SpaccPollLimits,
        nodes_address: usize,
        bytes_address: usize,
        parts: &'m [&'m [u8]],
    ) -> (engine: Self)
        ensures
            engine.input() == (HashInput {
                algorithm,
                lock_polls: limits.lock@,
                clear_polls: limits.clear@,
                operation_polls: limits.operation@,
                nodes_address,
                bytes_address,
            }),
            engine.message() == whole_message(parts@),
            forall|storage: HashDmaStorage| #[trigger] engine.valid(storage),
            forall|storage: HashDmaStorage|
                (#[trigger] engine.state(storage)) == hash_start(engine.input(), storage@),
    {
        let core = HashCore::new(algorithm, limits, nodes_address, bytes_address);
        let engine = Self { parts, core };
        proof {
            assert forall|storage: HashDmaStorage| #[trigger] engine.valid(storage) by {
                assert(core.valid(storage));
            }
        }
        engine
    }

    /// The first commands and the first question.
    pub fn begin(&self) -> (step: Step)
        ensures
            step.commands@ == hash_attempt(),
            step.ask == (Ask::Read { source: Source::HashOwners }),
    {
        self.core.begin()
    }

    /// Takes the answer to the open question and goes on to the next one.
    pub fn resume(&mut self, storage: &mut HashDmaStorage, reply: Reply) -> (step: Step)
        requires
            old(self).valid(*old(storage)),
            answers(hash_ask(old(self).state(*old(storage)).stage), reply),
        ensures
            final(self).valid(*final(storage)),
            final(self).input() == old(self).input(),
            final(self).message() == old(self).message(),
            ({
                let next = hash_next(
                    old(self).input(),
                    old(self).message(),
                    old(self).state(*old(storage)),
                    reply,
                );
                final(self).state(*final(storage)) == next.state && step.commands@ == next.commands
            }),
            step.ask == hash_ask(final(self).state(*final(storage)).stage),
    {
        self.core.resume(storage, None, self.parts, reply)
    }

    /// Bytes of the digest.
    pub fn output_len(&self) -> (length: usize)
        ensures
            length == 4 * digest_words(self.input().algorithm),
    {
        self.core.output_len()
    }

    /// The result, once the hash is over.
    pub fn result(&self) -> (result: Option<Result<(), CryptoError>>)
        ensures
            forall|storage: HashDmaStorage|
                result == match (#[trigger] self.state(storage)).stage {
                    HashStage::Finished { result } => Some(result),
                    _ => None,
                },
    {
        self.core.result()
    }

    /// The digest words that have been read, in the first bytes of the array.
    pub fn digest(&self) -> (digest: [u8; 32])
        ensures
            forall|storage: HashDmaStorage| digest@ == (#[trigger] self.state(storage)).digest,
    {
        self.core.digest()
    }
}

} // verus!
