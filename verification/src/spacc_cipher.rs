//! AES block encryption and decryption on a SPACC symmetric channel.
//!
//! The key goes through the key ladder into a keyslot; the block goes through a
//! descriptor ring.
use crate::bus::{answers, Ask, Command, Region, Reply, Source, Step};
use crate::bytes::{le_word, read_word};
use crate::channel::{
    advance_ring, channel_is_set, channel_owner, channel_set, claim_channel, claim_with, claimed,
    owner_of, release_channel, released, ring_next, try_claim, CHANNEL_BIT, CHANNEL_MASK,
    OWNER_REE, RING_DEPTH,
};
use crate::erase::erase_bytes;
use crate::error::CryptoError;
use crate::limits::{PollLimit, DEFAULT_POLL_LIMIT};
use crate::padding::zeros;
use vstd::prelude::*;

verus! {

/// Bytes of an AES block.
pub const AES_BLOCK_BYTES: usize = 16;

/// Keyslots that a block cipher can use.
pub const MCIPHER_KEYSLOTS: u16 = 8;

/// Owner value of a keyslot that the rich execution environment holds.
pub const KEYSLOT_OWNER_REE: u32 = 1;

/// Owner value of the key ladder while the rich execution environment holds it.
pub const KLAD_OWNER_REE: u32 = 0xaa;

/// The channel was not claimed within the poll limit.
pub const ERR_LOCK_TIMEOUT: u32 = 0xffff_1301;

/// The channel was not cleared within the poll limit.
pub const ERR_CLEAR_TIMEOUT: u32 = 0xffff_1302;

/// The block was not processed within the poll limit.
pub const ERR_OPERATION_TIMEOUT: u32 = 0xffff_1303;

/// The engine met a bus error.
pub const ERR_BUS: u32 = 0xffff_1304;

/// The engine met a control error.
pub const ERR_CONTROL: u32 = 0xffff_1305;

/// A buffer lies where the engine cannot reach it.
pub const ERR_ADDRESS: u32 = 0xffff_1306;

/// No keyslot could be locked.
pub const ERR_KEYSLOT_UNAVAILABLE: u32 = 0xffff_1307;

/// The keyslot could not be unlocked.
pub const ERR_KEYSLOT: u32 = 0xffff_1308;

/// The key ladder was not locked within the poll limit.
pub const ERR_KLAD_LOCK_TIMEOUT: u32 = 0xffff_1309;

/// The key ladder did not deliver the key within the poll limit.
pub const ERR_KLAD_ROUTE_TIMEOUT: u32 = 0xffff_130a;

/// The key ladder or the keyslot controller met an error.
pub const ERR_KLAD: u32 = 0xffff_130b;

/// Bounded polling contract for one WS63 SPACC block-cipher operation.
#[derive(Clone, Copy, Debug, PartialEq, Eq)]
pub struct SpaccCipherPollLimits {
    pub channel_lock: PollLimit,
    pub channel_clear: PollLimit,
    pub operation: PollLimit,
    pub keyslot: PollLimit,
    pub klad: PollLimit,
}

impl SpaccCipherPollLimits {
    /// Construct explicit non-zero limits for all hardware progress points.
    pub fn new(
        channel_lock: PollLimit,
        channel_clear: PollLimit,
        operation: PollLimit,
        keyslot: PollLimit,
        klad: PollLimit,
    ) -> (limits: Self)
        ensures
            limits.channel_lock == channel_lock,
            limits.channel_clear == channel_clear,
            limits.operation == operation,
            limits.keyslot == keyslot,
            limits.klad == klad,
    {
        Self { channel_lock, channel_clear, operation, keyslot, klad }
    }

    /// Maximum attempts used to acquire the symmetric channel.
    pub fn channel_lock(self) -> (limit: PollLimit)
        ensures
            limit == self.channel_lock,
    {
        self.channel_lock
    }

    /// Maximum status reads used to clear the symmetric channel.
    pub fn channel_clear(self) -> (limit: PollLimit)
        ensures
            limit == self.channel_clear,
    {
        self.channel_clear
    }

    /// Maximum completion-status reads used by one block.
    pub fn operation(self) -> (limit: PollLimit)
        ensures
            limit == self.operation,
    {
        self.operation
    }

    /// Maximum flush-status reads used to lock or unlock a keyslot.
    pub fn keyslot(self) -> (limit: PollLimit)
        ensures
            limit == self.keyslot,
    {
        self.keyslot
    }

    /// Maximum attempts and reads used on the key ladder.
    pub fn klad(self) -> (limit: PollLimit)
        ensures
            limit == self.klad,
    {
        self.klad
    }
}

impl Default for SpaccCipherPollLimits {
    fn default() -> (limits: Self)
        ensures
            limits.channel_lock@ == DEFAULT_POLL_LIMIT,
            limits.channel_clear@ == DEFAULT_POLL_LIMIT,
            limits.operation@ == DEFAULT_POLL_LIMIT,
            limits.keyslot@ == DEFAULT_POLL_LIMIT,
            limits.klad@ == DEFAULT_POLL_LIMIT,
    {
        let limit = PollLimit::conservative();
        Self::new(limit, limit, limit, limit, limit)
    }
}

/// One descriptor of the input ring.
#[derive(Clone, Copy, Debug, PartialEq, Eq)]
pub struct SymInputNode {
    pub flags: u32,
    pub length: u32,
    pub address_low: u32,
    pub address_high: u32,
    pub iv: [u32; 4],
}

impl SymInputNode {
    /// A descriptor that points nowhere.
    pub fn empty() -> (node: Self)
        ensures
            node@ == input_descriptor(0, 0, 0),
    {
        let node = Self { flags: 0, length: 0, address_low: 0, address_high: 0, iv: [0u32; 4] };
        proof {
            assert(node.iv@ =~= seq![0u32, 0u32, 0u32, 0u32]);
        }
        node
    }
}

/// One descriptor of the output ring.
#[derive(Clone, Copy, Debug, PartialEq, Eq)]
pub struct SymOutputNode {
    pub reserved: u32,
    pub length: u32,
    pub address_low: u32,
    pub address_high: u32,
}

/// An output descriptor for `length` bytes at an address.
pub open spec fn output_node(length: u32, address_low: u32) -> SymOutputNode {
    SymOutputNode { reserved: 0, length, address_low, address_high: 0 }
}

impl SymOutputNode {
    /// A descriptor that points nowhere.
    pub fn empty() -> (node: Self)
        ensures
            node == output_node(0, 0),
    {
        Self { reserved: 0, length: 0, address_low: 0, address_high: 0 }
    }
}

/// The descriptor rings and the blocks of the symmetric channel.
pub struct CipherDmaStorage {
    pub input_nodes: [SymInputNode; 2],
    pub output_nodes: [SymOutputNode; 2],
    pub input: [u8; AES_BLOCK_BYTES],
    pub output: [u8; AES_BLOCK_BYTES],
}

/// What an input descriptor says: flags, length, low and high address word, IV.
pub struct InputDescriptor {
    pub flags: u32,
    pub length: u32,
    pub address_low: u32,
    pub address_high: u32,
    pub iv: Seq<u32>,
}

/// The contents of a [`CipherDmaStorage`].
pub struct CipherMemory {
    pub input_nodes: Seq<InputDescriptor>,
    pub output_nodes: Seq<SymOutputNode>,
    pub input: Seq<u8>,
    pub output: Seq<u8>,
}

/// The descriptor for `length` bytes at an address.
pub open spec fn input_descriptor(flags: u32, length: u32, address_low: u32) -> InputDescriptor {
    InputDescriptor {
        flags,
        length,
        address_low,
        address_high: 0,
        iv: seq![0u32, 0u32, 0u32, 0u32],
    }
}

/// Memory with empty descriptors and zero blocks.
pub open spec fn empty_cipher_memory() -> CipherMemory {
    CipherMemory {
        input_nodes: seq![input_descriptor(0, 0, 0), input_descriptor(0, 0, 0)],
        output_nodes: seq![output_node(0, 0), output_node(0, 0)],
        input: zeros(AES_BLOCK_BYTES as nat),
        output: zeros(AES_BLOCK_BYTES as nat),
    }
}

impl View for SymInputNode {
    type V = InputDescriptor;

    open spec fn view(&self) -> InputDescriptor {
        InputDescriptor {
            flags: self.flags,
            length: self.length,
            address_low: self.address_low,
            address_high: self.address_high,
            iv: self.iv@,
        }
    }
}

impl View for CipherDmaStorage {
    type V = CipherMemory;

    open spec fn view(&self) -> CipherMemory {
        CipherMemory {
            input_nodes: seq![self.input_nodes@[0]@, self.input_nodes@[1]@],
            output_nodes: self.output_nodes@,
            input: self.input@,
            output: self.output@,
        }
    }
}

impl CipherDmaStorage {
    /// Empty storage.
    pub fn new() -> (storage: Self)
        ensures
            storage@ == empty_cipher_memory(),
    {
        let storage = Self {
            input_nodes: [SymInputNode::empty(), SymInputNode::empty()],
            output_nodes: [SymOutputNode::empty(), SymOutputNode::empty()],
            input: [0u8; AES_BLOCK_BYTES],
            output: [0u8; AES_BLOCK_BYTES],
        };
        proof {
            assert(storage@.output_nodes =~= empty_cipher_memory().output_nodes);
            assert(storage.input@ =~= zeros(AES_BLOCK_BYTES as nat));
            assert(storage.output@ =~= zeros(AES_BLOCK_BYTES as nat));
        }
        storage
    }

    /// Empties the storage.
    pub fn clear(&mut self)
        ensures
            final(self)@ == empty_cipher_memory(),
    {
        self.input_nodes = [SymInputNode::empty(), SymInputNode::empty()];
        self.output_nodes = [SymOutputNode::empty(), SymOutputNode::empty()];
        erase_bytes(&mut self.input);
        erase_bytes(&mut self.output);
        proof {
            assert(self@.output_nodes =~= empty_cipher_memory().output_nodes);
            assert(self.input@ =~= zeros(AES_BLOCK_BYTES as nat));
            assert(self.output@ =~= zeros(AES_BLOCK_BYTES as nat));
        }
    }
}

/// The key size code of an AES key, or `None` for a length that AES does not have.
pub open spec fn key_register(length: nat) -> Option<u8> {
    if length == 16 {
        Some(1)
    } else if length == 24 {
        Some(2)
    } else if length == 32 {
        Some(3)
    } else {
        None
    }
}

/// The size of an AES key as the registers encode it.
#[derive(Clone, Copy, Debug, PartialEq, Eq)]
pub struct KeyLength {
    pub register: u8,
}

impl KeyLength {
    /// The code for a key of `length` bytes: 16, 24 and 32 have one.
    pub fn from_bytes(length: usize) -> (result: Result<Self, CryptoError>)
        ensures
            result == match key_register(length as nat) {
                Some(register) => Ok(KeyLength { register }),
                None => Err(CryptoError::InvalidLength),
            },
    {
        if length == 16 {
            Ok(Self { register: 1 })
        } else if length == 24 {
            Ok(Self { register: 2 })
        } else if length == 32 {
            Ok(Self { register: 3 })
        } else {
            Err(CryptoError::InvalidLength)
        }
    }
}

/// Where the engine finds the parts of a [`CipherDmaStorage`].
#[derive(Clone, Copy, Debug, PartialEq, Eq)]
pub struct CipherAddresses {
    pub input_nodes: usize,
    pub output_nodes: usize,
    pub input: usize,
    pub output: usize,
}

impl CipherAddresses {
    /// Whether every part lies where the engine can reach it.
    pub open spec fn reachable(self) -> bool {
        self.input_nodes <= u32::MAX && self.output_nodes <= u32::MAX && self.input <= u32::MAX
            && self.output <= u32::MAX
    }

    /// Whether every part lies where the engine can reach it.
    pub fn is_reachable(self) -> (reachable: bool)
        ensures
            reachable == self.reachable(),
    {
        let limit = u32::MAX as u64;
        self.input_nodes as u64 <= limit && self.output_nodes as u64 <= limit && self.input as u64
            <= limit && self.output as u64 <= limit
    }
}

/// Where a block stands. Each stage but the last has one question open; `polls` counts
/// the attempts or reads that are left, the open one included.
#[derive(Clone, Copy, Debug, PartialEq, Eq)]
pub enum CipherStage {
    /// Reading the owner of a candidate keyslot.
    SlotOwner,
    /// Waiting for the keyslot controller before the slot is locked.
    SlotIdle { polls: u32 },
    /// Reading the owner of the slot back after it was locked.
    SlotVerify,
    /// Reading the lock failure of the key ladder.
    LadderFailure { polls: u32 },
    /// Reading the owner of the key ladder.
    LadderOwner { polls: u32 },
    /// Waiting for the key ladder to deliver a half of the key.
    Route { odd: bool, polls: u32 },
    /// Reading the error of the key ladder.
    LadderError { odd: bool },
    /// Reading the error of the keyslot controller.
    SlotError { odd: bool },
    /// Reading the owner of the key ladder before it is unlocked.
    LadderUnlock,
    /// Reading the unlock failure of the key ladder.
    LadderUnlocked,
    /// Reading the owner word to claim the channel.
    Claim { polls: u32 },
    /// Reading the owner word back after the claim was written.
    Verify { polls: u32 },
    /// Waiting for the clear before the block.
    Clear { polls: u32 },
    /// Reading the completion bits that an earlier operation may have left.
    Stale,
    /// Reading the control error after configuration.
    Configured,
    /// Reading the position of the output ring.
    OutputPosition,
    /// Reading the position of the input ring.
    InputPosition,
    /// Waiting for completion.
    Wait { polls: u32 },
    /// Reading the bus error after completion.
    BusError,
    /// Reading the control error after completion.
    ControlError,
    /// Reading the control error status after completion.
    ControlStatus,
    /// Reading the output block.
    Block,
    /// Waiting for the clear that stops the engine for good.
    Stop { polls: u32 },
    /// Reading the owner word to release the channel.
    Release,
    /// Reading the owner of the keyslot before it is unlocked.
    SlotUnlock,
    /// Waiting for the keyslot controller after the slot was unlocked.
    SlotFlush { polls: u32 },
    /// Reading the owner of the keyslot back after it was unlocked.
    SlotUnlocked,
    /// Over.
    Finished,
}

/// What a block operation is about.
pub struct CipherInput {
    pub key: Seq<u8>,
    pub block: Seq<u8>,
    pub decrypt: bool,
    pub lock_polls: u32,
    pub clear_polls: u32,
    pub operation_polls: u32,
    pub keyslot_polls: u32,
    pub klad_polls: u32,
    pub addresses: CipherAddresses,
}

/// What changes while a block operation runs: the stage, the keyslot at hand, the result
/// so far, the output block and the memory.
pub struct CipherState {
    pub stage: CipherStage,
    pub slot: u16,
    pub result: Result<(), CryptoError>,
    pub output: Seq<u8>,
    pub memory: CipherMemory,
}

/// A state and the commands that lead into it.
pub struct CipherMove {
    pub state: CipherState,
    pub commands: Seq<Command>,
}

impl CipherInput {
    /// A key of a length that AES has, a whole block, and poll limits that are not zero.
    pub open spec fn valid(self) -> bool {
        &&& key_register(self.key.len()) is Some
        &&& self.block.len() == AES_BLOCK_BYTES
        &&& self.lock_polls > 0
        &&& self.clear_polls > 0
        &&& self.operation_polls > 0
        &&& self.keyslot_polls > 0
        &&& self.klad_polls > 0
    }
}

impl CipherState {
    pub open spec fn valid(self) -> bool {
        &&& self.slot < MCIPHER_KEYSLOTS
        &&& self.output.len() == AES_BLOCK_BYTES
        &&& match self.stage {
            CipherStage::SlotIdle { polls } => polls > 0,
            CipherStage::LadderFailure { polls } => polls > 0,
            CipherStage::LadderOwner { polls } => polls > 0,
            CipherStage::Route { polls, .. } => polls > 0,
            CipherStage::Claim { polls } => polls > 0,
            CipherStage::Verify { polls } => polls > 0,
            CipherStage::Clear { polls } => polls > 0,
            CipherStage::Wait { polls } => polls > 0,
            CipherStage::Stop { polls } => polls > 0,
            CipherStage::SlotFlush { polls } => polls > 0,
            _ => true,
        }
    }
}

/// The state before the first answer.
pub open spec fn cipher_start(output: Seq<u8>, memory: CipherMemory) -> CipherState {
    CipherState { stage: CipherStage::SlotOwner, slot: 0, result: Ok(()), output, memory }
}

/// The question that a stage has open.
pub open spec fn cipher_ask(stage: CipherStage) -> Ask {
    match stage {
        CipherStage::SlotOwner => Ask::Read { source: Source::KeyslotOwner },
        CipherStage::SlotIdle { .. } => Ask::KeyslotFlush,
        CipherStage::SlotVerify => Ask::Read { source: Source::KeyslotOwner },
        CipherStage::LadderFailure { .. } => Ask::Read { source: Source::KladLockFail },
        CipherStage::LadderOwner { .. } => Ask::Read { source: Source::KladOwner },
        CipherStage::Route { .. } => Ask::Read { source: Source::KladRequest },
        CipherStage::LadderError { .. } => Ask::Read { source: Source::KladError },
        CipherStage::SlotError { .. } => Ask::Read { source: Source::KeyslotError },
        CipherStage::LadderUnlock => Ask::Read { source: Source::KladOwner },
        CipherStage::LadderUnlocked => Ask::Read { source: Source::KladUnlockFail },
        CipherStage::Claim { .. } => Ask::Read { source: Source::CipherOwners },
        CipherStage::Verify { .. } => Ask::Read { source: Source::CipherOwners },
        CipherStage::Clear { .. } => Ask::Read { source: Source::CipherClearFinish },
        CipherStage::Stale => Ask::Read { source: Source::CipherInterrupt },
        CipherStage::Configured => Ask::Read { source: Source::CipherControlError },
        CipherStage::OutputPosition => Ask::Read { source: Source::CipherOutputPointer },
        CipherStage::InputPosition => Ask::Read { source: Source::CipherInputPointer },
        CipherStage::Wait { .. } => Ask::Read { source: Source::CipherInterrupt },
        CipherStage::BusError => Ask::Read { source: Source::BusError },
        CipherStage::ControlError => Ask::Read { source: Source::CipherControlError },
        CipherStage::ControlStatus => Ask::Read { source: Source::CipherControlStatus },
        CipherStage::Block => Ask::CipherBlock,
        CipherStage::Stop { .. } => Ask::Read { source: Source::CipherClearFinish },
        CipherStage::Release => Ask::Read { source: Source::CipherOwners },
        CipherStage::SlotUnlock => Ask::Read { source: Source::KeyslotOwner },
        CipherStage::SlotFlush { .. } => Ask::KeyslotFlush,
        CipherStage::SlotUnlocked => Ask::Read { source: Source::KeyslotOwner },
        CipherStage::Finished => Ask::Finished,
    }
}

/// Points the owner question at a keyslot.
pub open spec fn slot_select(slot: u16) -> Seq<Command> {
    seq![Command::KeyslotSelect { slot }, Command::Fence]
}

/// Locks or unlocks a keyslot.
pub open spec fn slot_command(slot: u16, lock: bool) -> Seq<Command> {
    seq![Command::KeyslotLock { slot, lock }, Command::Fence]
}

/// Requests the key ladder.
pub open spec fn ladder_attempt() -> Seq<Command> {
    seq![Command::KladLock, Command::Fence]
}

/// Tells the key ladder what the key in a slot is for.
pub open spec fn ladder_setup(slot: u16) -> Seq<Command> {
    seq![
        Command::KladAddress { address: (2 * slot) as u16 },
        Command::KladConfig { port: 1, algorithm: 0x20, encrypt: true, decrypt: true },
        Command::KladSecurity {
            key_secure: false,
            source_nonsecure: true,
            source_secure: false,
            destination_nonsecure: true,
            destination_secure: false,
            master_only: false,
        },
    ]
}

/// Half of a key: its first sixteen bytes, or what follows them, filled up with zeros.
pub open spec fn key_half(key: Seq<u8>, odd: bool) -> Seq<u8> {
    let from: int = if odd {
        16
    } else {
        0
    };
    Seq::new(
        16,
        |i: int|
            if from + i < key.len() {
                key[from + i]
            } else {
                0u8
            },
    )
}

/// Has the key ladder deliver a half of the key.
pub open spec fn ladder_route(key: Seq<u8>, slot: u16, odd: bool) -> Seq<Command> {
    let half = key_half(key, odd);
    seq![
        Command::KladAddress {
            address: (2 * slot + if odd {
                1int
            } else {
                0
            }) as u16,
        },
        Command::KladData { index: 0, word: le_word(half, 0) },
        Command::KladData { index: 1, word: le_word(half, 4) },
        Command::KladData { index: 2, word: le_word(half, 8) },
        Command::KladData { index: 3, word: le_word(half, 12) },
        Command::KladRoute { key_size: key_register(key.len())->0, key_count: 0 },
        Command::Fence,
    ]
}

/// Acknowledges a delivered half.
pub open spec fn ladder_done() -> Seq<Command> {
    seq![Command::KladAcknowledge, Command::Fence]
}

/// Clears the staging area of the key ladder.
pub open spec fn ladder_wipe() -> Seq<Command> {
    seq![
        Command::KladData { index: 0, word: 0 },
        Command::KladData { index: 1, word: 0 },
        Command::KladData { index: 2, word: 0 },
        Command::KladData { index: 3, word: 0 },
        Command::Fence,
    ]
}

/// Requests the clear of the channel.
pub open spec fn cipher_clear_request() -> Seq<Command> {
    seq![Command::CipherClear { channels: CHANNEL_MASK }, Command::Fence]
}

/// Acknowledges the finished clear.
pub open spec fn cipher_cleared() -> Seq<Command> {
    seq![Command::CipherClearAcknowledge { bits: CHANNEL_BIT }, Command::Fence]
}

/// Configures the channel for a keyslot and two descriptor rings.
pub open spec fn cipher_configuration(input: CipherInput, slot: u16) -> Seq<Command> {
    seq![
        Command::CipherControl { source: 0x0a, destination: 0x0a, enable: true },
        Command::CipherCopy { copy: false },
        Command::CipherAlgorithm {
            keyslot: slot,
            select: 2,
            mode: 1,
            key_length: key_register(input.key.len())->0,
            width: 0,
            decrypt: input.decrypt,
        },
        Command::CipherInputHigh { high: 0 },
        Command::CipherInputLow { word: input.addresses.input_nodes as u32 },
        Command::CipherInputLength { count: RING_DEPTH },
        Command::CipherOutputHigh { high: 0 },
        Command::CipherOutputLow { word: input.addresses.output_nodes as u32 },
        Command::CipherOutputLength { count: RING_DEPTH },
    ]
}

/// Makes the descriptors and the input visible to the engine, and the output region free
/// of cached lines.
pub open spec fn cipher_publish() -> Seq<Command> {
    seq![
        Command::CacheClean { region: Region::CipherInputNodes },
        Command::CacheClean { region: Region::CipherOutputNodes },
        Command::CacheClean { region: Region::CipherInput },
        Command::CacheFlush { region: Region::CipherOutput },
        Command::Fence,
    ]
}

/// Acknowledges the finished block.
pub open spec fn cipher_done() -> Seq<Command> {
    seq![Command::CipherAcknowledge { bits: CHANNEL_BIT }, Command::Fence]
}

/// Wipes the memory of the engine and opens the release of the channel.
pub open spec fn cipher_scrub() -> Seq<Command> {
    seq![
        Command::CipherStore,
        Command::CacheClean { region: Region::CipherInputNodes },
        Command::CacheClean { region: Region::CipherOutputNodes },
        Command::CacheClean { region: Region::CipherInput },
        Command::CacheClean { region: Region::CipherOutput },
        Command::EnterCritical,
    ]
}

/// Gives the channel back.
pub open spec fn cipher_release(owners: u32) -> Seq<Command> {
    seq![
        Command::CipherOwners { word: released(owners) },
        Command::Fence,
        Command::ExitCritical,
    ]
}

/// The memory for a block.
pub open spec fn cipher_prepared(input: CipherInput) -> CipherMemory {
    CipherMemory {
        input_nodes: seq![
            input_descriptor(3, AES_BLOCK_BYTES as u32, input.addresses.input as u32),
            input_descriptor(0, 0, 0),
        ],
        output_nodes: seq![
            output_node(AES_BLOCK_BYTES as u32, input.addresses.output as u32),
            output_node(0, 0),
        ],
        input: input.block,
        output: zeros(AES_BLOCK_BYTES as nat),
    }
}

/// A block operation that goes on to another stage.
pub open spec fn cipher_go(
    state: CipherState,
    stage: CipherStage,
    commands: Seq<Command>,
) -> CipherMove {
    CipherMove { state: CipherState { stage, ..state }, commands }
}

/// The result so far, or `error` where there was none before.
pub open spec fn first_error(
    result: Result<(), CryptoError>,
    error: CryptoError,
) -> Result<(), CryptoError> {
    if result is Ok {
        Err(error)
    } else {
        result
    }
}

/// A keyslot that cannot be had: the next one is tried, if there is one.
pub open spec fn cipher_next_slot(state: CipherState) -> CipherMove {
    if state.slot + 1 < MCIPHER_KEYSLOTS {
        let slot = (state.slot + 1) as u16;
        CipherMove {
            state: CipherState { stage: CipherStage::SlotOwner, slot, ..state },
            commands: slot_select(slot),
        }
    } else {
        CipherMove {
            state: CipherState {
                stage: CipherStage::Finished,
                result: Err(CryptoError::Backend(ERR_KEYSLOT_UNAVAILABLE)),
                ..state
            },
            commands: seq![],
        }
    }
}

/// The keyslot is about to be unlocked.
pub open spec fn cipher_free_slot(
    state: CipherState,
    result: Result<(), CryptoError>,
    commands: Seq<Command>,
) -> CipherMove {
    CipherMove {
        state: CipherState { stage: CipherStage::SlotUnlock, result, ..state },
        commands: commands + slot_select(state.slot),
    }
}

/// An attempt to lock the key ladder that failed.
pub open spec fn cipher_ladder_failed(state: CipherState, polls: u32) -> CipherMove {
    if polls > 1 {
        cipher_go(
            state,
            CipherStage::LadderFailure { polls: (polls - 1) as u32 },
            ladder_attempt(),
        )
    } else {
        cipher_free_slot(state, Err(CryptoError::Backend(ERR_KLAD_LOCK_TIMEOUT)), seq![])
    }
}

/// The key ladder is done with the key, for better or worse.
pub open spec fn cipher_ladder_end(
    state: CipherState,
    result: Result<(), CryptoError>,
) -> CipherMove {
    CipherMove {
        state: CipherState { stage: CipherStage::LadderUnlock, result, ..state },
        commands: ladder_wipe(),
    }
}

/// The key ladder is given back: the channel is claimed if the key is in its slot.
pub open spec fn cipher_key_loaded(
    input: CipherInput,
    state: CipherState,
    result: Result<(), CryptoError>,
) -> CipherMove {
    if result is Ok {
        match claim_with(input.lock_polls, ERR_LOCK_TIMEOUT) {
            Ok(polls) => cipher_go(
                state,
                CipherStage::Claim { polls },
                seq![Command::EnterCritical],
            ),
            Err(error) => cipher_free_slot(state, Err(error), seq![]),
        }
    } else {
        cipher_free_slot(state, result, seq![])
    }
}

/// An attempt to claim the channel that failed.
pub open spec fn cipher_attempt_failed(state: CipherState, polls: u32) -> CipherMove {
    match claim_with((polls - 1) as u32, ERR_LOCK_TIMEOUT) {
        Ok(polls) => cipher_go(
            state,
            CipherStage::Claim { polls },
            seq![Command::ExitCritical, Command::EnterCritical],
        ),
        Err(error) => cipher_free_slot(state, Err(error), seq![Command::ExitCritical]),
    }
}

/// The block is done with, for better or worse: the engine is to be stopped.
pub open spec fn cipher_stop(
    input: CipherInput,
    state: CipherState,
    result: Result<(), CryptoError>,
    commands: Seq<Command>,
) -> CipherMove {
    CipherMove {
        state: CipherState {
            stage: CipherStage::Stop { polls: input.clear_polls },
            result,
            ..state
        },
        commands: commands + cipher_clear_request(),
    }
}

/// What follows the first clear: the block is prepared and the channel configured.
pub open spec fn cipher_prepare(input: CipherInput, state: CipherState) -> CipherMove {
    if input.addresses.reachable() {
        CipherMove {
            state: CipherState {
                stage: CipherStage::Stale,
                memory: cipher_prepared(input),
                ..state
            },
            commands: cipher_cleared() + seq![Command::CipherStore] + cipher_configuration(
                input,
                state.slot,
            ),
        }
    } else {
        cipher_stop(
            input,
            CipherState { memory: empty_cipher_memory(), ..state },
            Err(CryptoError::Backend(ERR_ADDRESS)),
            cipher_cleared() + seq![Command::CipherStore],
        )
    }
}

/// What the answer to the open question leads to.
pub open spec fn cipher_next(input: CipherInput, state: CipherState, reply: Reply) -> CipherMove {
    let word = reply->word;
    match state.stage {
        CipherStage::SlotOwner => if word != 0 {
            cipher_next_slot(state)
        } else {
            cipher_go(state, CipherStage::SlotIdle { polls: input.keyslot_polls }, seq![])
        },
        CipherStage::SlotIdle { polls } => if reply->busy {
            if polls > 1 {
                cipher_go(state, CipherStage::SlotIdle { polls: (polls - 1) as u32 }, seq![])
            } else {
                cipher_next_slot(state)
            }
        } else if reply->unlock_failed || reply->timed_out {
            cipher_next_slot(state)
        } else {
            cipher_go(
                state,
                CipherStage::SlotVerify,
                slot_command(state.slot, true) + slot_select(state.slot),
            )
        },
        CipherStage::SlotVerify => if word != KEYSLOT_OWNER_REE {
            cipher_next_slot(state)
        } else {
            cipher_go(
                state,
                CipherStage::LadderFailure { polls: input.klad_polls },
                ladder_attempt(),
            )
        },
        CipherStage::LadderFailure { polls } => if word == 1 {
            cipher_ladder_failed(state, polls)
        } else {
            cipher_go(state, CipherStage::LadderOwner { polls }, seq![])
        },
        CipherStage::LadderOwner { polls } => if word != KLAD_OWNER_REE {
            cipher_ladder_failed(state, polls)
        } else {
            cipher_go(
                state,
                CipherStage::Route { odd: false, polls: input.klad_polls },
                ladder_setup(state.slot) + ladder_route(input.key, state.slot, false),
            )
        },
        CipherStage::Route { odd, polls } => if word == 0 {
            cipher_go(state, CipherStage::LadderError { odd }, ladder_done())
        } else if polls > 1 {
            cipher_go(state, CipherStage::Route { odd, polls: (polls - 1) as u32 }, seq![])
        } else {
            cipher_ladder_end(state, Err(CryptoError::Backend(ERR_KLAD_ROUTE_TIMEOUT)))
        },
        CipherStage::LadderError { odd } => if word != 0 {
            cipher_ladder_end(state, Err(CryptoError::Backend(ERR_KLAD)))
        } else {
            cipher_go(state, CipherStage::SlotError { odd }, seq![])
        },
        CipherStage::SlotError { odd } => if word != 0 {
            cipher_ladder_end(state, Err(CryptoError::Backend(ERR_KLAD)))
        } else if !odd && input.key.len() > 16 {
            cipher_go(
                state,
                CipherStage::Route { odd: true, polls: input.klad_polls },
                ladder_route(input.key, state.slot, true),
            )
        } else {
            cipher_ladder_end(state, Ok(()))
        },
        CipherStage::LadderUnlock => if word != KLAD_OWNER_REE {
            cipher_key_loaded(input, state, state.result)
        } else {
            cipher_go(
                state,
                CipherStage::LadderUnlocked,
                seq![Command::KladUnlock, Command::Fence],
            )
        },
        CipherStage::LadderUnlocked => cipher_key_loaded(
            input,
            state,
            if word == 1 {
                first_error(state.result, CryptoError::Backend(ERR_KLAD))
            } else {
                state.result
            },
        ),
        CipherStage::Claim { polls } => if owner_of(word) != 0 {
            cipher_attempt_failed(state, polls)
        } else {
            cipher_go(
                state,
                CipherStage::Verify { polls },
                seq![Command::CipherOwners { word: claimed(word) }, Command::Fence],
            )
        },
        CipherStage::Verify { polls } => if owner_of(word) != OWNER_REE {
            cipher_attempt_failed(state, polls)
        } else {
            cipher_go(
                state,
                CipherStage::Clear { polls: input.clear_polls },
                seq![Command::ExitCritical] + cipher_clear_request(),
            )
        },
        CipherStage::Clear { polls } => if channel_set(word) {
            cipher_prepare(input, state)
        } else if polls > 1 {
            cipher_go(state, CipherStage::Clear { polls: (polls - 1) as u32 }, seq![])
        } else {
            cipher_stop(input, state, Err(CryptoError::Backend(ERR_CLEAR_TIMEOUT)), seq![])
        },
        CipherStage::Stale => cipher_go(
            state,
            CipherStage::Configured,
            if channel_set(word) {
                seq![Command::CipherAcknowledge { bits: CHANNEL_BIT }]
            } else {
                seq![]
            },
        ),
        CipherStage::Configured => if word != 0 {
            cipher_stop(input, state, Err(CryptoError::Backend(ERR_CONTROL)), seq![])
        } else {
            cipher_go(state, CipherStage::OutputPosition, cipher_publish())
        },
        CipherStage::OutputPosition => cipher_go(
            state,
            CipherStage::InputPosition,
            seq![Command::CipherOutputPointer { position: ring_next(word) }],
        ),
        CipherStage::InputPosition => cipher_go(
            state,
            CipherStage::Wait { polls: input.operation_polls },
            seq![Command::CipherInputPointer { position: ring_next(word) }, Command::Fence],
        ),
        CipherStage::Wait { polls } => if channel_set(word) {
            cipher_go(state, CipherStage::BusError, cipher_done())
        } else if polls > 1 {
            cipher_go(state, CipherStage::Wait { polls: (polls - 1) as u32 }, seq![])
        } else {
            cipher_stop(input, state, Err(CryptoError::Backend(ERR_OPERATION_TIMEOUT)), seq![])
        },
        CipherStage::BusError => if word != 0 {
            cipher_stop(input, state, Err(CryptoError::Backend(ERR_BUS)), seq![])
        } else {
            cipher_go(state, CipherStage::ControlError, seq![])
        },
        CipherStage::ControlError => if word != 0 {
            cipher_stop(input, state, Err(CryptoError::Backend(ERR_CONTROL)), seq![])
        } else {
            cipher_go(state, CipherStage::ControlStatus, seq![])
        },
        CipherStage::ControlStatus => if word != 0 {
            cipher_stop(input, state, Err(CryptoError::Backend(ERR_CONTROL)), seq![])
        } else {
            cipher_go(
                state,
                CipherStage::Block,
                seq![Command::CacheInvalidate { region: Region::CipherOutput }],
            )
        },
        CipherStage::Block => cipher_stop(
            input,
            CipherState { output: reply->block@, ..state },
            Ok(()),
            seq![],
        ),
        CipherStage::Stop { polls } => if channel_set(word) {
            cipher_go(
                CipherState { memory: empty_cipher_memory(), ..state },
                CipherStage::Release,
                cipher_cleared() + cipher_scrub(),
            )
        } else if polls > 1 {
            cipher_go(state, CipherStage::Stop { polls: (polls - 1) as u32 }, seq![])
        } else {
            cipher_go(
                CipherState { result: Err(CryptoError::Backend(ERR_CLEAR_TIMEOUT)), ..state },
                CipherStage::Finished,
                seq![],
            )
        },
        CipherStage::Release => cipher_free_slot(state, state.result, cipher_release(word)),
        CipherStage::SlotUnlock => if word == 0 {
            cipher_go(state, CipherStage::Finished, seq![])
        } else {
            cipher_go(
                state,
                CipherStage::SlotFlush { polls: input.keyslot_polls },
                slot_command(state.slot, false),
            )
        },
        CipherStage::SlotFlush { polls } => if reply->busy && polls > 1 {
            cipher_go(state, CipherStage::SlotFlush { polls: (polls - 1) as u32 }, seq![])
        } else if reply->busy || reply->unlock_failed || reply->timed_out {
            cipher_go(
                CipherState {
                    result: first_error(state.result, CryptoError::Backend(ERR_KEYSLOT)),
                    ..state
                },
                CipherStage::Finished,
                seq![],
            )
        } else {
            cipher_go(state, CipherStage::SlotUnlocked, slot_select(state.slot))
        },
        CipherStage::SlotUnlocked => cipher_go(
            CipherState {
                result: if word != 0 {
                    first_error(state.result, CryptoError::Backend(ERR_KEYSLOT))
                } else {
                    state.result
                },
                ..state
            },
            CipherStage::Finished,
            seq![],
        ),
        CipherStage::Finished => cipher_go(state, state.stage, seq![]),
    }
}

/// Appends the commands that point the owner question at a keyslot.
fn push_select(commands: &mut Vec<Command>, slot: u16)
    ensures
        final(commands)@ == old(commands)@ + slot_select(slot),
{
    let ghost before = commands@;
    commands.push(Command::KeyslotSelect { slot });
    commands.push(Command::Fence);
    proof {
        assert(commands@ =~= before + slot_select(slot));
    }
}

/// Appends the commands that tell the key ladder what the key is for.
fn push_setup(commands: &mut Vec<Command>, slot: u16)
    requires
        slot < MCIPHER_KEYSLOTS,
    ensures
        final(commands)@ == old(commands)@ + ladder_setup(slot),
{
    let ghost before = commands@;
    commands.push(Command::KladAddress { address: 2 * slot });
    commands.push(
        Command::KladConfig { port: 1, algorithm: 0x20, encrypt: true, decrypt: true },
    );
    commands.push(
        Command::KladSecurity {
            key_secure: false,
            source_nonsecure: true,
            source_secure: false,
            destination_nonsecure: true,
            destination_secure: false,
            master_only: false,
        },
    );
    proof {
        assert(commands@ =~= before + ladder_setup(slot));
    }
}

/// Appends the commands that have the key ladder deliver a half of the key.
fn push_route(
    commands: &mut Vec<Command>,
    key: &[u8],
    key_length: KeyLength,
    slot: u16,
    odd: bool,
)
    requires
        slot < MCIPHER_KEYSLOTS,
        key_register(key@.len()) == Some(key_length.register),
    ensures
        final(commands)@ == old(commands)@ + ladder_route(key@, slot, odd),
{
    let ghost before = commands@;
    let from: usize = if odd {
        16
    } else {
        0
    };
    let mut padded: [u8; 16] = [0u8; 16];
    let mut i: usize = 0;
    while i < 16
        invariant
            i <= 16,
            from == if odd {
                16int
            } else {
                0
            },
            forall|j: int| 0 <= j < i ==> padded@[j] == key_half(key@, odd)[j],
        decreases 16 - i,
    {
        padded[i] = if from + i < key.len() {
            key[from + i]
        } else {
            0
        };
        i += 1;
    }
    proof {
        assert(padded@ =~= key_half(key@, odd));
    }
    let parity: u16 = if odd {
        1
    } else {
        0
    };
    commands.push(Command::KladAddress { address: 2 * slot + parity });
    commands.push(Command::KladData { index: 0, word: read_word(&padded, 0) });
    commands.push(Command::KladData { index: 1, word: read_word(&padded, 4) });
    commands.push(Command::KladData { index: 2, word: read_word(&padded, 8) });
    commands.push(Command::KladData { index: 3, word: read_word(&padded, 12) });
    erase_bytes(&mut padded);
    commands.push(Command::KladRoute { key_size: key_length.register, key_count: 0 });
    commands.push(Command::Fence);
    proof {
        assert(commands@ =~= before + ladder_route(key@, slot, odd));
    }
}

/// Appends the commands that clear the staging area of the key ladder.
fn push_ladder_wipe(commands: &mut Vec<Command>)
    ensures
        final(commands)@ == old(commands)@ + ladder_wipe(),
{
    let ghost before = commands@;
    commands.push(Command::KladData { index: 0, word: 0 });
    commands.push(Command::KladData { index: 1, word: 0 });
    commands.push(Command::KladData { index: 2, word: 0 });
    commands.push(Command::KladData { index: 3, word: 0 });
    commands.push(Command::Fence);
    proof {
        assert(commands@ =~= before + ladder_wipe());
    }
}

/// Appends the commands that wipe the memory of the engine and open the release.
fn push_scrub(commands: &mut Vec<Command>)
    ensures
        final(commands)@ == old(commands)@ + cipher_scrub(),
{
    let ghost before = commands@;
    commands.push(Command::CipherStore);
    commands.push(Command::CacheClean { region: Region::CipherInputNodes });
    commands.push(Command::CacheClean { region: Region::CipherOutputNodes });
    commands.push(Command::CacheClean { region: Region::CipherInput });
    commands.push(Command::CacheClean { region: Region::CipherOutput });
    commands.push(Command::EnterCritical);
    proof {
        assert(commands@ =~= before + cipher_scrub());
    }
}

/// The result so far, or `error` where there was none before.
fn keep_first(result: Result<(), CryptoError>, error: CryptoError) -> (kept: Result<
    (),
    CryptoError,
>)
    ensures
        kept == first_error(result, error),
{
    match result {
        Ok(()) => Err(error),
        Err(earlier) => Err(earlier),
    }
}

/// One block on the symmetric channel.
pub struct CipherEngine<'m> {
    key: &'m [u8],
    key_length: KeyLength,
    block: &'m [u8; AES_BLOCK_BYTES],
    decrypt: bool,
    lock_polls: u32,
    clear_polls: u32,
    operation_polls: u32,
    keyslot_polls: u32,
    klad_polls: u32,
    addresses: CipherAddresses,
    stage: CipherStage,
    slot: u16,
    result: Result<(), CryptoError>,
    output: [u8; AES_BLOCK_BYTES],
}

impl<'m> CipherEngine<'m> {
    /// What the operation is about.
    pub closed spec fn input(self) -> CipherInput {
        CipherInput {
            key: self.key@,
            block: self.block@,
            decrypt: self.decrypt,
            lock_polls: self.lock_polls,
            clear_polls: self.clear_polls,
            operation_polls: self.operation_polls,
            keyslot_polls: self.keyslot_polls,
            klad_polls: self.klad_polls,
            addresses: self.addresses,
        }
    }

    /// Where the operation stands, given the storage that it works on.
    pub closed spec fn state(self, storage: CipherDmaStorage) -> CipherState {
        CipherState {
            stage: self.stage,
            slot: self.slot,
            result: self.result,
            output: self.output@,
            memory: storage@,
        }
    }

    /// The key length that the engine keeps is that of the key.
    pub closed spec fn knows_key_length(self) -> bool {
        key_register(self.key@.len()) == Some(self.key_length.register)
    }

    /// The input and the state are as the engine keeps them.
    pub open spec fn valid(self, storage: CipherDmaStorage) -> bool {
        self.input().valid() && self.state(storage).valid() && self.knows_key_length()
    }

    /// An operation that has asked for nothing yet, or `InvalidLength` for a key of a
    /// length that AES does not have.
    ///
    /// `output` is what the output buffer holds until a block has been read.
    pub fn new(
        key: &'m [u8],
        block: &'m [u8; AES_BLOCK_BYTES],
        decrypt: bool,
        limits: SpaccCipherPollLimits,
        addresses: CipherAddresses,
        output: [u8; AES_BLOCK_BYTES],
    ) -> (result: Result<Self, CryptoError>)
        ensures
            result is Ok <==> key_register(key@.len()) is Some,
            result is Err ==> result->Err_0 == CryptoError::InvalidLength,
            result is Ok ==> ({
                let engine = result->Ok_0;
                &&& engine.input() == (CipherInput {
                    key: key@,
                    block: block@,
                    decrypt,
                    lock_polls: limits.channel_lock@,
                    clear_polls: limits.channel_clear@,
                    operation_polls: limits.operation@,
                    keyslot_polls: limits.keyslot@,
                    klad_polls: limits.klad@,
                    addresses,
                })
                &&& forall|storage: CipherDmaStorage| #[trigger] engine.valid(storage)
                &&& forall|storage: CipherDmaStorage|
                    (#[trigger] engine.state(storage)) == cipher_start(output@, storage@)
            }),
    {
        let key_length = match KeyLength::from_bytes(key.len()) {
            Ok(key_length) => key_length,
            Err(error) => {
                return Err(error);
            },
        };
        Ok(
            Self {
                key,
                key_length,
                block,
                decrypt,
                lock_polls: limits.channel_lock().get(),
                clear_polls: limits.channel_clear().get(),
                operation_polls: limits.operation().get(),
                keyslot_polls: limits.keyslot().get(),
                klad_polls: limits.klad().get(),
                addresses,
                stage: CipherStage::SlotOwner,
                slot: 0,
                result: Ok(()),
                output,
            },
        )
    }

    /// The first commands and the first question.
    pub fn begin(&self) -> (step: Step)
        ensures
            step.commands@ == slot_select(0),
            step.ask == (Ask::Read { source: Source::KeyslotOwner }),
    {
        let mut commands: Vec<Command> = Vec::new();
        push_select(&mut commands, 0);
        proof {
            assert(commands@ =~= slot_select(0));
        }
        Step { commands, ask: Ask::Read { source: Source::KeyslotOwner } }
    }

    /// The question that is open.
    fn ask(&self) -> (ask: Ask)
        ensures
            forall|storage: CipherDmaStorage|
                ask == cipher_ask((#[trigger] self.state(storage)).stage),
    {
        match self.stage {
            CipherStage::SlotOwner => Ask::Read { source: Source::KeyslotOwner },
            CipherStage::SlotIdle { .. } => Ask::KeyslotFlush,
            CipherStage::SlotVerify => Ask::Read { source: Source::KeyslotOwner },
            CipherStage::LadderFailure { .. } => Ask::Read { source: Source::KladLockFail },
            CipherStage::LadderOwner { .. } => Ask::Read { source: Source::KladOwner },
            CipherStage::Route { .. } => Ask::Read { source: Source::KladRequest },
            CipherStage::LadderError { .. } => Ask::Read { source: Source::KladError },
            CipherStage::SlotError { .. } => Ask::Read { source: Source::KeyslotError },
            CipherStage::LadderUnlock => Ask::Read { source: Source::KladOwner },
            CipherStage::LadderUnlocked => Ask::Read { source: Source::KladUnlockFail },
            CipherStage::Claim { .. } => Ask::Read { source: Source::CipherOwners },
            CipherStage::Verify { .. } => Ask::Read { source: Source::CipherOwners },
            CipherStage::Clear { .. } => Ask::Read { source: Source::CipherClearFinish },
            CipherStage::Stale => Ask::Read { source: Source::CipherInterrupt },
            CipherStage::Configured => Ask::Read { source: Source::CipherControlError },
            CipherStage::OutputPosition => Ask::Read { source: Source::CipherOutputPointer },
            CipherStage::InputPosition => Ask::Read { source: Source::CipherInputPointer },
            CipherStage::Wait { .. } => Ask::Read { source: Source::CipherInterrupt },
            CipherStage::BusError => Ask::Read { source: Source::BusError },
            CipherStage::ControlError => Ask::Read { source: Source::CipherControlError },
            CipherStage::ControlStatus => Ask::Read { source: Source::CipherControlStatus },
            CipherStage::Block => Ask::CipherBlock,
            CipherStage::Stop { .. } => Ask::Read { source: Source::CipherClearFinish },
            CipherStage::Release => Ask::Read { source: Source::CipherOwners },
            CipherStage::SlotUnlock => Ask::Read { source: Source::KeyslotOwner },
            CipherStage::SlotFlush { .. } => Ask::KeyslotFlush,
            CipherStage::SlotUnlocked => Ask::Read { source: Source::KeyslotOwner },
            CipherStage::Finished => Ask::Finished,
        }
    }

    /// Everything but the stage, the slot and the result is as it was.
    spec fn same_but_progress(self, other: Self) -> bool {
        self == (Self { stage: self.stage, slot: self.slot, result: self.result, ..other })
    }

    /// Tries the next keyslot, if there is one.
    fn next_slot(&mut self, commands: &mut Vec<Command>)
        requires
            old(commands)@.len() == 0,
            old(self).slot < MCIPHER_KEYSLOTS,
        ensures
            final(self).same_but_progress(*old(self)),
            forall|storage: CipherDmaStorage|
                (#[trigger] final(self).state(storage)) == cipher_next_slot(
                    old(self).state(storage),
                ).state,
            forall|storage: CipherDmaStorage|
                final(commands)@ == cipher_next_slot(
                    #[trigger] old(self).state(storage),
                ).commands,
    {
        if self.slot + 1 < MCIPHER_KEYSLOTS {
            self.slot = self.slot + 1;
            self.stage = CipherStage::SlotOwner;
            push_select(commands, self.slot);
            proof {
                assert(commands@ =~= slot_select(self.slot));
            }
        } else {
            self.stage = CipherStage::Finished;
            self.result = Err(CryptoError::Backend(ERR_KEYSLOT_UNAVAILABLE));
            proof {
                assert(commands@ =~= seq![]);
            }
        }
    }

    /// Opens the unlocking of the keyslot.
    fn free_slot(&mut self, result: Result<(), CryptoError>, commands: &mut Vec<Command>)
        ensures
            final(self).same_but_progress(*old(self)),
            final(self).slot == old(self).slot,
            forall|storage: CipherDmaStorage|
                (#[trigger] final(self).state(storage)) == cipher_free_slot(
                    old(self).state(storage),
                    result,
                    old(commands)@,
                ).state,
            final(commands)@ == old(commands)@ + slot_select(old(self).slot),
    {
        self.result = result;
        self.stage = CipherStage::SlotUnlock;
        push_select(commands, self.slot);
    }

    /// Closes an attempt to lock the key ladder that failed.
    fn ladder_failed(&mut self, polls: u32, commands: &mut Vec<Command>)
        requires
            old(commands)@.len() == 0,
            polls > 0,
        ensures
            final(self).same_but_progress(*old(self)),
            forall|storage: CipherDmaStorage|
                (#[trigger] final(self).state(storage)) == cipher_ladder_failed(
                    old(self).state(storage),
                    polls,
                ).state,
            forall|storage: CipherDmaStorage|
                final(commands)@ == cipher_ladder_failed(
                    #[trigger] old(self).state(storage),
                    polls,
                ).commands,
    {
        if polls > 1 {
            commands.push(Command::KladLock);
            commands.push(Command::Fence);
            self.stage = CipherStage::LadderFailure { polls: polls - 1 };
            proof {
                assert(commands@ =~= ladder_attempt());
            }
        } else {
            self.free_slot(Err(CryptoError::Backend(ERR_KLAD_LOCK_TIMEOUT)), commands);
            proof {
                assert(commands@ =~= seq![] + slot_select(self.slot));
            }
        }
    }

    /// Clears the staging area and opens the unlocking of the key ladder.
    fn ladder_end(&mut self, result: Result<(), CryptoError>, commands: &mut Vec<Command>)
        ensures
            final(self).same_but_progress(*old(self)),
            forall|storage: CipherDmaStorage|
                (#[trigger] final(self).state(storage)) == cipher_ladder_end(
                    old(self).state(storage),
                    result,
                ).state,
            final(commands)@ == old(commands)@ + ladder_wipe(),
    {
        self.result = result;
        self.stage = CipherStage::LadderUnlock;
        push_ladder_wipe(commands);
    }

    /// Claims the channel if the key is in its slot.
    fn key_loaded(&mut self, result: Result<(), CryptoError>, commands: &mut Vec<Command>)
        requires
            old(commands)@.len() == 0,
            result is Ok ==> old(self).result is Ok,
        ensures
            final(self).same_but_progress(*old(self)),
            forall|storage: CipherDmaStorage|
                (#[trigger] final(self).state(storage)) == cipher_key_loaded(
                    old(self).input(),
                    old(self).state(storage),
                    result,
                ).state,
            forall|storage: CipherDmaStorage|
                final(commands)@ == cipher_key_loaded(
                    old(self).input(),
                    #[trigger] old(self).state(storage),
                    result,
                ).commands,
    {
        let mut ended = result;
        if result.is_ok() {
            match try_claim(self.lock_polls, ERR_LOCK_TIMEOUT) {
                Ok(polls) => {
                    commands.push(Command::EnterCritical);
                    self.stage = CipherStage::Claim { polls };
                    proof {
                        assert(commands@ =~= seq![Command::EnterCritical]);
                    }
                    return;
                },
                Err(error) => {
                    ended = Err(error);
                },
            }
        }
        self.free_slot(ended, commands);
        proof {
            assert(commands@ =~= seq![] + slot_select(self.slot));
        }
    }

    /// Closes an attempt to claim the channel that failed.
    fn attempt_failed(&mut self, polls: u32, commands: &mut Vec<Command>)
        requires
            old(commands)@.len() == 0,
            polls > 0,
        ensures
            final(self).same_but_progress(*old(self)),
            forall|storage: CipherDmaStorage|
                (#[trigger] final(self).state(storage)) == cipher_attempt_failed(
                    old(self).state(storage),
                    polls,
                ).state,
            forall|storage: CipherDmaStorage|
                final(commands)@ == cipher_attempt_failed(
                    #[trigger] old(self).state(storage),
                    polls,
                ).commands,
    {
        commands.push(Command::ExitCritical);
        match try_claim(polls - 1, ERR_LOCK_TIMEOUT) {
            Ok(polls) => {
                commands.push(Command::EnterCritical);
                self.stage = CipherStage::Claim { polls };
                proof {
                    assert(commands@ =~= seq![Command::ExitCritical, Command::EnterCritical]);
                }
            },
            Err(error) => {
                self.free_slot(Err(error), commands);
                proof {
                    assert(commands@ =~= seq![Command::ExitCritical] + slot_select(self.slot));
                }
            },
        }
    }

    /// Requests the clear that stops the engine.
    fn stop(&mut self, result: Result<(), CryptoError>, commands: &mut Vec<Command>)
        ensures
            final(self).same_but_progress(*old(self)),
            forall|storage: CipherDmaStorage|
                (#[trigger] final(self).state(storage)) == cipher_stop(
                    old(self).input(),
                    old(self).state(storage),
                    result,
                    old(commands)@,
                ).state,
            final(commands)@ == old(commands)@ + cipher_clear_request(),
    {
        let ghost before = commands@;
        self.result = result;
        self.stage = CipherStage::Stop { polls: self.clear_polls };
        commands.push(Command::CipherClear { channels: CHANNEL_MASK });
        commands.push(Command::Fence);
        proof {
            assert(commands@ =~= before + cipher_clear_request());
        }
    }

    /// Prepares the block and configures the channel once it is clear.
    fn prepare(&mut self, storage: &mut CipherDmaStorage, commands: &mut Vec<Command>)
        requires
            old(commands)@.len() == 0,
            old(self).knows_key_length(),
        ensures
            final(self).same_but_progress(*old(self)),
            ({
                let next = cipher_prepare(old(self).input(), old(self).state(*old(storage)));
                final(self).state(*final(storage)) == next.state && final(commands)@
                    == next.commands
            }),
    {
        commands.push(Command::CipherClearAcknowledge { bits: CHANNEL_BIT });
        commands.push(Command::Fence);
        storage.clear();
        commands.push(Command::CipherStore);
        let ghost stored = cipher_cleared() + seq![Command::CipherStore];
        proof {
            assert(commands@ =~= stored);
        }
        if self.addresses.is_reachable() {
            storage.input = *self.block;
            let mut filled = SymInputNode::empty();
            filled.flags = 3;
            filled.length = AES_BLOCK_BYTES as u32;
            filled.address_low = self.addresses.input as u32;
            storage.input_nodes[0] = filled;
            storage.output_nodes[0] = SymOutputNode {
                reserved: 0,
                length: AES_BLOCK_BYTES as u32,
                address_low: self.addresses.output as u32,
                address_high: 0,
            };
            commands.push(
                Command::CipherControl { source: 0x0a, destination: 0x0a, enable: true },
            );
            commands.push(Command::CipherCopy { copy: false });
            commands.push(
                Command::CipherAlgorithm {
                    keyslot: self.slot,
                    select: 2,
                    mode: 1,
                    key_length: self.key_length.register,
                    width: 0,
                    decrypt: self.decrypt,
                },
            );
            commands.push(Command::CipherInputHigh { high: 0 });
            commands.push(Command::CipherInputLow { word: self.addresses.input_nodes as u32 });
            commands.push(Command::CipherInputLength { count: RING_DEPTH });
            commands.push(Command::CipherOutputHigh { high: 0 });
            commands.push(Command::CipherOutputLow { word: self.addresses.output_nodes as u32 });
            commands.push(Command::CipherOutputLength { count: RING_DEPTH });
            self.stage = CipherStage::Stale;
            proof {
                assert(commands@ =~= stored + cipher_configuration(self.input(), self.slot));
                assert(storage@.output_nodes =~= cipher_prepared(self.input()).output_nodes);
                assert(storage@.input_nodes =~= cipher_prepared(self.input()).input_nodes);
            }
        } else {
            self.stop(Err(CryptoError::Backend(ERR_ADDRESS)), commands);
        }
    }

    /// Takes the answer to the open question and goes on to the next one.
    pub fn resume(&mut self, storage: &mut CipherDmaStorage, reply: Reply) -> (step: Step)
        requires
            old(self).valid(*old(storage)),
            answers(cipher_ask(old(self).state(*old(storage)).stage), reply),
        ensures
            final(self).valid(*final(storage)),
            final(self).input() == old(self).input(),
            ({
                let next = cipher_next(old(self).input(), old(self).state(*old(storage)), reply);
                final(self).state(*final(storage)) == next.state && step.commands@ == next.commands
            }),
            step.ask == cipher_ask(final(self).state(*final(storage)).stage),
    {
        let mut commands: Vec<Command> = Vec::new();
        let word: u32 = match reply {
            Reply::Word { word } => word,
            _ => 0,
        };
        match self.stage {
            CipherStage::SlotOwner => {
                if word != 0 {
                    self.next_slot(&mut commands);
                } else {
                    self.stage = CipherStage::SlotIdle { polls: self.keyslot_polls };
                }
            },
            CipherStage::SlotIdle { polls } => {
                if let Reply::Flush { busy, unlock_failed, timed_out } = reply {
                    if busy && polls > 1 {
                        self.stage = CipherStage::SlotIdle { polls: polls - 1 };
                    } else if busy || unlock_failed || timed_out {
                        self.next_slot(&mut commands);
                    } else {
                        commands.push(Command::KeyslotLock { slot: self.slot, lock: true });
                        commands.push(Command::Fence);
                        push_select(&mut commands, self.slot);
                        self.stage = CipherStage::SlotVerify;
                    }
                }
            },
            CipherStage::SlotVerify => {
                if word != KEYSLOT_OWNER_REE {
                    self.next_slot(&mut commands);
                } else {
                    commands.push(Command::KladLock);
                    commands.push(Command::Fence);
                    self.stage = CipherStage::LadderFailure { polls: self.klad_polls };
                }
            },
            CipherStage::LadderFailure { polls } => {
                if word == 1 {
                    self.ladder_failed(polls, &mut commands);
                } else {
                    self.stage = CipherStage::LadderOwner { polls };
                }
            },
            CipherStage::LadderOwner { polls } => {
                if word != KLAD_OWNER_REE {
                    self.ladder_failed(polls, &mut commands);
                } else {
                    push_setup(&mut commands, self.slot);
                    push_route(&mut commands, self.key, self.key_length, self.slot, false);
                    self.stage = CipherStage::Route { odd: false, polls: self.klad_polls };
                }
            },
            CipherStage::Route { odd, polls } => {
                if word == 0 {
                    commands.push(Command::KladAcknowledge);
                    commands.push(Command::Fence);
                    self.stage = CipherStage::LadderError { odd };
                } else if polls > 1 {
                    self.stage = CipherStage::Route { odd, polls: polls - 1 };
                } else {
                    let error = CryptoError::Backend(ERR_KLAD_ROUTE_TIMEOUT);
                    self.ladder_end(Err(error), &mut commands);
                }
            },
            CipherStage::LadderError { odd } => {
                if word != 0 {
                    self.ladder_end(Err(CryptoError::Backend(ERR_KLAD)), &mut commands);
                } else {
                    self.stage = CipherStage::SlotError { odd };
                }
            },
            CipherStage::SlotError { odd } => {
                if word != 0 {
                    self.ladder_end(Err(CryptoError::Backend(ERR_KLAD)), &mut commands);
                } else if !odd && self.key.len() > 16 {
                    push_route(&mut commands, self.key, self.key_length, self.slot, true);
                    self.stage = CipherStage::Route { odd: true, polls: self.klad_polls };
                } else {
                    self.ladder_end(Ok(()), &mut commands);
                }
            },
            CipherStage::LadderUnlock => {
                if word != KLAD_OWNER_REE {
                    self.key_loaded(self.result, &mut commands);
                } else {
                    commands.push(Command::KladUnlock);
                    commands.push(Command::Fence);
                    self.stage = CipherStage::LadderUnlocked;
                }
            },
            CipherStage::LadderUnlocked => {
                if word == 1 {
                    let result = keep_first(self.result, CryptoError::Backend(ERR_KLAD));
                    self.key_loaded(result, &mut commands);
                } else {
                    self.key_loaded(self.result, &mut commands);
                }
            },
            CipherStage::Claim { polls } => {
                if channel_owner(word) != 0 {
                    self.attempt_failed(polls, &mut commands);
                } else {
                    commands.push(Command::CipherOwners { word: claim_channel(word) });
                    commands.push(Command::Fence);
                    self.stage = CipherStage::Verify { polls };
                }
            },
            CipherStage::Verify { polls } => {
                if channel_owner(word) != OWNER_REE {
                    self.attempt_failed(polls, &mut commands);
                } else {
                    commands.push(Command::ExitCritical);
                    commands.push(Command::CipherClear { channels: CHANNEL_MASK });
                    commands.push(Command::Fence);
                    self.stage = CipherStage::Clear { polls: self.clear_polls };
                }
            },
            CipherStage::Clear { polls } => {
                if channel_is_set(word) {
                    self.prepare(storage, &mut commands);
                } else if polls > 1 {
                    self.stage = CipherStage::Clear { polls: polls - 1 };
                } else {
                    self.stop(Err(CryptoError::Backend(ERR_CLEAR_TIMEOUT)), &mut commands);
                }
            },
            CipherStage::Stale => {
                if channel_is_set(word) {
                    commands.push(Command::CipherAcknowledge { bits: CHANNEL_BIT });
                }
                self.stage = CipherStage::Configured;
            },
            CipherStage::Configured => {
                if word != 0 {
                    self.stop(Err(CryptoError::Backend(ERR_CONTROL)), &mut commands);
                } else {
                    commands.push(Command::CacheClean { region: Region::CipherInputNodes });
                    commands.push(Command::CacheClean { region: Region::CipherOutputNodes });
                    commands.push(Command::CacheClean { region: Region::CipherInput });
                    commands.push(Command::CacheFlush { region: Region::CipherOutput });
                    commands.push(Command::Fence);
                    self.stage = CipherStage::OutputPosition;
                }
            },
            CipherStage::OutputPosition => {
                commands.push(Command::CipherOutputPointer { position: advance_ring(word) });
                self.stage = CipherStage::InputPosition;
            },
            CipherStage::InputPosition => {
                commands.push(Command::CipherInputPointer { position: advance_ring(word) });
                commands.push(Command::Fence);
                self.stage = CipherStage::Wait { polls: self.operation_polls };
            },
            CipherStage::Wait { polls } => {
                if channel_is_set(word) {
                    commands.push(Command::CipherAcknowledge { bits: CHANNEL_BIT });
                    commands.push(Command::Fence);
                    self.stage = CipherStage::BusError;
                } else if polls > 1 {
                    self.stage = CipherStage::Wait { polls: polls - 1 };
                } else {
                    self.stop(Err(CryptoError::Backend(ERR_OPERATION_TIMEOUT)), &mut commands);
                }
            },
            CipherStage::BusError => {
                if word != 0 {
                    self.stop(Err(CryptoError::Backend(ERR_BUS)), &mut commands);
                } else {
                    self.stage = CipherStage::ControlError;
                }
            },
            CipherStage::ControlError => {
                if word != 0 {
                    self.stop(Err(CryptoError::Backend(ERR_CONTROL)), &mut commands);
                } else {
                    self.stage = CipherStage::ControlStatus;
                }
            },
            CipherStage::ControlStatus => {
                if word != 0 {
                    self.stop(Err(CryptoError::Backend(ERR_CONTROL)), &mut commands);
                } else {
                    commands.push(Command::CacheInvalidate { region: Region::CipherOutput });
                    self.stage = CipherStage::Block;
                }
            },
            CipherStage::Block => {
                if let Reply::Block { block } = reply {
                    self.output = block;
                    self.stop(Ok(()), &mut commands);
                }
            },
            CipherStage::Stop { polls } => {
                if channel_is_set(word) {
                    commands.push(Command::CipherClearAcknowledge { bits: CHANNEL_BIT });
                    commands.push(Command::Fence);
                    storage.clear();
                    push_scrub(&mut commands);
                    self.stage = CipherStage::Release;
                } else if polls > 1 {
                    self.stage = CipherStage::Stop { polls: polls - 1 };
                } else {
                    self.result = Err(CryptoError::Backend(ERR_CLEAR_TIMEOUT));
                    self.stage = CipherStage::Finished;
                }
            },
            CipherStage::Release => {
                commands.push(Command::CipherOwners { word: release_channel(word) });
                commands.push(Command::Fence);
                commands.push(Command::ExitCritical);
                self.free_slot(self.result, &mut commands);
            },
            CipherStage::SlotUnlock => {
                if word == 0 {
                    self.stage = CipherStage::Finished;
                } else {
                    commands.push(Command::KeyslotLock { slot: self.slot, lock: false });
                    commands.push(Command::Fence);
                    self.stage = CipherStage::SlotFlush { polls: self.keyslot_polls };
                }
            },
            CipherStage::SlotFlush { polls } => {
                if let Reply::Flush { busy, unlock_failed, timed_out } = reply {
                    if busy && polls > 1 {
                        self.stage = CipherStage::SlotFlush { polls: polls - 1 };
                    } else if busy || unlock_failed || timed_out {
                        self.result = keep_first(self.result, CryptoError::Backend(ERR_KEYSLOT));
                        self.stage = CipherStage::Finished;
                    } else {
                        push_select(&mut commands, self.slot);
                        self.stage = CipherStage::SlotUnlocked;
                    }
                }
            },
            CipherStage::SlotUnlocked => {
                if word != 0 {
                    self.result = keep_first(self.result, CryptoError::Backend(ERR_KEYSLOT));
                }
                self.stage = CipherStage::Finished;
            },
            CipherStage::Finished => {},
        }
        proof {
            let next = cipher_next(old(self).input(), old(self).state(*old(storage)), reply);
            assert(commands@ =~= next.commands);
        }
        let ask = self.ask();
        Step { commands, ask }
    }

    /// The result, once the operation is over.
    pub fn result(&self) -> (result: Option<Result<(), CryptoError>>)
        ensures
            forall|storage: CipherDmaStorage|
                result == if (#[trigger] self.state(storage)).stage is Finished {
                    Some(self.state(storage).result)
                } else {
                    None
                },
    {
        match self.stage {
            CipherStage::Finished => Some(self.result),
            _ => None,
        }
    }

    /// The block that was read, or what the output buffer held before.
    pub fn output(&self) -> (output: [u8; AES_BLOCK_BYTES])
        ensures
            forall|storage: CipherDmaStorage| output@ == (#[trigger] self.state(storage)).output,
    {
        self.output
    }
}

} // verus!
