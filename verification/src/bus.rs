//! What the engines ask of the hardware, and what they are told.
//!
//! An engine never touches a register. Each of its steps hands out the register
//! commands to perform, in order, and one question; the next step takes the answer.
use crate::error::CryptoError;
use vstd::prelude::*;

verus! {

/// A part of the memory that the SPACC engines access on their own.
#[derive(Clone, Copy, Debug, PartialEq, Eq)]
pub enum Region {
    /// The hash descriptor ring.
    HashNodes,
    /// The first `length` bytes of the hash message buffer.
    HashMessage { length: usize },
    /// The cipher input descriptor ring.
    CipherInputNodes,
    /// The cipher output descriptor ring.
    CipherOutputNodes,
    /// The cipher input block.
    CipherInput,
    /// The cipher output block.
    CipherOutput,
}

/// One thing to do to the hardware, with nothing to report back.
#[derive(Clone, Copy, Debug, PartialEq, Eq)]
pub enum Command {
    /// Order every register access before it ahead of every one after it.
    Fence,
    /// Enter the critical section that shared registers are changed in.
    EnterCritical,
    /// Leave that critical section.
    ExitCritical,
    /// Set the owner of the RKP lock.
    RkpLock { owner: u8 },
    /// Set one word of the PBKDF2 password window.
    RkpKey { index: usize, word: u32 },
    /// Set one word of the PBKDF2 salt window.
    RkpData { index: usize, word: u32 },
    /// Set one word of the PBKDF2 state window.
    RkpVal { index: usize, word: u32 },
    /// Start one PBKDF2 block.
    RkpStart { iterations: u16, key_source: u8, algorithm: u8 },
    /// Acknowledge the RKP interrupt.
    RkpAcknowledge,
    /// Choose the keyslot that the owner question is about.
    KeyslotSelect { slot: u16 },
    /// Lock or unlock a keyslot.
    KeyslotLock { slot: u16, lock: bool },
    /// Set the keyslot half that the key ladder writes next.
    KladAddress { address: u16 },
    /// Set the use of the key that the key ladder delivers.
    KladConfig { port: u8, algorithm: u8, encrypt: bool, decrypt: bool },
    /// Set the security attributes of the key that the key ladder delivers.
    KladSecurity {
        key_secure: bool,
        source_nonsecure: bool,
        source_secure: bool,
        destination_nonsecure: bool,
        destination_secure: bool,
        master_only: bool,
    },
    /// Set one word of the key ladder's staging area.
    KladData { index: usize, word: u32 },
    /// Start the clear route with the given key size and count.
    KladRoute { key_size: u8, key_count: u8 },
    /// Acknowledge the clear-route interrupt.
    KladAcknowledge,
    /// Request the key ladder lock.
    KladLock,
    /// Release the key ladder lock.
    KladUnlock,
    /// Set the owner word of the hash channels.
    HashOwners { word: u32 },
    /// Set the hash interrupt enables.
    HashInterruptEnable { bits: u16 },
    /// Request that hash channels be cleared.
    HashClear { channels: u32 },
    /// Acknowledge finished hash clears.
    HashClearAcknowledge { bits: u16 },
    /// Set the security selector of the hash channel and enable it.
    HashControl { selector: u8, enable: bool },
    /// Set the algorithm of the hash channel.
    HashAlgorithm { select: u8, mode: u8, hmac: bool },
    /// Set the high address word of the hash descriptor ring.
    HashNodesHigh { high: u8 },
    /// Set the low address word of the hash descriptor ring.
    HashNodesLow { word: u32 },
    /// Set the number of hash descriptors.
    HashNodesLength { count: u8 },
    /// Choose the hash state word that is accessed next.
    HashStateIndex { index: usize },
    /// Set the chosen hash state word.
    HashState { word: u32 },
    /// Acknowledge finished hash operations.
    HashAcknowledge { bits: u16 },
    /// Set the write pointer of the hash descriptor ring.
    HashPointer { position: u8 },
    /// Copy the prepared hash descriptors and message to the memory the engine reads.
    HashStore,
    /// Set the owner word of the symmetric channels.
    CipherOwners { word: u32 },
    /// Request that symmetric channels be cleared.
    CipherClear { channels: u32 },
    /// Acknowledge finished symmetric clears.
    CipherClearAcknowledge { bits: u16 },
    /// Set the security selectors of the symmetric channel and enable it.
    CipherControl { source: u8, destination: u8, enable: bool },
    /// Set whether the symmetric channel only copies.
    CipherCopy { copy: bool },
    /// Set the key and algorithm of the symmetric channel.
    CipherAlgorithm { keyslot: u16, select: u8, mode: u8, key_length: u8, width: u8, decrypt: bool },
    /// Set the high address word of the input descriptor ring.
    CipherInputHigh { high: u8 },
    /// Set the low address word of the input descriptor ring.
    CipherInputLow { word: u32 },
    /// Set the number of input descriptors.
    CipherInputLength { count: u8 },
    /// Set the high address word of the output descriptor ring.
    CipherOutputHigh { high: u8 },
    /// Set the low address word of the output descriptor ring.
    CipherOutputLow { word: u32 },
    /// Set the number of output descriptors.
    CipherOutputLength { count: u8 },
    /// Acknowledge finished symmetric operations.
    CipherAcknowledge { bits: u16 },
    /// Set the write pointer of the output descriptor ring.
    CipherOutputPointer { position: u8 },
    /// Set the write pointer of the input descriptor ring.
    CipherInputPointer { position: u8 },
    /// Copy the prepared cipher descriptors and blocks to the memory the engine reads.
    CipherStore,
    /// Write cached lines of a region back to memory.
    CacheClean { region: Region },
    /// Write cached lines of a region back to memory and drop them.
    CacheFlush { region: Region },
    /// Drop cached lines of a region.
    CacheInvalidate { region: Region },
    /// Switch the PKE mask generator.
    PkeMaskGenerator { enable: bool },
    /// Set the PKE data RAM mask; zero disables masking.
    PkeMask { mask: u32 },
    /// Request (`release` false) or give back (`release` true) the PKE lock.
    PkeLock { release: bool },
    /// Switch the PKE noise.
    PkeNoise { enable: bool },
    /// Set the PKE operand length code.
    PkeWorkLength { length: u32 },
    /// Set the low address word of the instruction batch.
    PkeAddressLow { word: u32 },
    /// Set the high address word of the instruction batch.
    PkeAddressHigh { word: u32 },
    /// Set the byte length of the instruction batch.
    PkeLength { length: u32 },
    /// Write the completion latch.
    PkeFinish { latch: u8 },
    /// Write the start register.
    PkeStart { code: u16 },
    /// Set the first Montgomery parameter word.
    PkeMontgomeryLow { word: u32 },
    /// Set the second Montgomery parameter word.
    PkeMontgomeryHigh { word: u32 },
    /// Clear the PKE data RAM.
    PkeRamClear,
    /// Load an operand into a section of the PKE data RAM.
    PkeRam { section: u32, operand: [u8; 32] },
}

/// A register or register field that can be read.
#[derive(Clone, Copy, Debug, PartialEq, Eq)]
pub enum Source {
    /// Owner of the RKP lock.
    RkpLock,
    /// Whether a PBKDF2 block is still requested.
    RkpRequest,
    /// Error word of the key derivation.
    KdfError,
    /// One word of the PBKDF2 state window.
    RkpVal { index: usize },
    /// Owner of the selected keyslot.
    KeyslotOwner,
    /// Error word of the keyslot controller.
    KeyslotError,
    /// Whether the clear route is still requested.
    KladRequest,
    /// Error word of the key ladder.
    KladError,
    /// Lock-failure field of the key ladder.
    KladLockFail,
    /// Unlock-failure field of the key ladder.
    KladUnlockFail,
    /// Owner of the key ladder.
    KladOwner,
    /// Bus error word of SPACC.
    BusError,
    /// Owner word of the hash channels.
    HashOwners,
    /// Hash interrupt enables.
    HashInterruptEnable,
    /// Finished hash clears.
    HashClearFinish,
    /// Finished hash operations.
    HashInterrupt,
    /// Hash control error.
    HashControlError,
    /// Hash control error status.
    HashControlStatus,
    /// Write pointer of the hash descriptor ring.
    HashPointer,
    /// The chosen hash state word.
    HashState,
    /// Owner word of the symmetric channels.
    CipherOwners,
    /// Finished symmetric clears.
    CipherClearFinish,
    /// Finished symmetric operations.
    CipherInterrupt,
    /// Symmetric control error.
    CipherControlError,
    /// Symmetric control error status.
    CipherControlStatus,
    /// Write pointer of the output descriptor ring.
    CipherOutputPointer,
    /// Write pointer of the input descriptor ring.
    CipherInputPointer,
    /// PKE lock owner code.
    PkeLock,
    /// Whether PKE takes an instruction batch.
    PkeReady,
    /// Whether PKE is busy.
    PkeBusy,
    /// PKE completion latch.
    PkeFinish,
}

/// What an engine wants to know next.
#[derive(Clone, Copy, Debug, PartialEq, Eq)]
pub enum Ask {
    /// The value of a register or field.
    Read { source: Source },
    /// The flush status of the keyslot controller.
    KeyslotFlush,
    /// One word of the hardware random number generator.
    Random,
    /// Four bytes of the caller's entropy.
    Entropy,
    /// The status of the ROM call that loads the curve parameters.
    LoadCurve,
    /// The operand in a section of the PKE data RAM.
    PkeRam { section: u32 },
    /// The block in the cipher output buffer.
    CipherBlock,
    /// Nothing: the operation is over.
    Finished,
}

/// The answer to an [`Ask`].
#[derive(Clone, Copy, Debug, PartialEq, Eq)]
pub enum Reply {
    /// A register value or a random word.
    Word { word: u32 },
    /// The three bits of the keyslot flush status.
    Flush { busy: bool, unlock_failed: bool, timed_out: bool },
    /// The random number generator gave nothing.
    RandomFailed,
    /// Four entropy bytes.
    Entropy { seed: [u8; 4] },
    /// The entropy source failed.
    EntropyFailed { error: CryptoError },
    /// A ROM status.
    Status { status: i32 },
    /// A PKE operand.
    Operand { operand: [u8; 32] },
    /// A cipher block.
    Block { block: [u8; 16] },
}

/// Whether a reply is of the kind that a question calls for.
pub open spec fn answers(ask: Ask, reply: Reply) -> bool {
    match ask {
        Ask::Read { .. } => reply is Word,
        Ask::KeyslotFlush => reply is Flush,
        Ask::Random => reply is Word || reply is RandomFailed,
        Ask::Entropy => reply is Entropy || reply is EntropyFailed,
        Ask::LoadCurve => reply is Status,
        Ask::PkeRam { .. } => reply is Operand,
        Ask::CipherBlock => reply is Block,
        Ask::Finished => false,
    }
}

/// Commands to perform in order, and the question to answer after them.
pub struct Step {
    pub commands: Vec<Command>,
    pub ask: Ask,
}

} // verus!
