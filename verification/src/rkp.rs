//! PBKDF2-HMAC-SHA1 on the RKP engine.
use crate::bus::{answers, Ask, Command, Reply, Source, Step};
use crate::bytes::{
    be_bytes_32, be_bytes_64, copy_at, le_bytes, le_word, read_word, split_be_64, split_word,
};
use crate::erase::erase_bytes;
use crate::error::CryptoError;
use crate::limits::{PollLimit, DEFAULT_POLL_LIMIT};
use crate::padding::zeros;
use vstd::prelude::*;

verus! {

/// Bytes of the password and salt windows.
pub const PASSWORD_BLOCK_BYTES: usize = 128;

/// Bytes of one SHA-1 block.
pub const SHA1_BLOCK_BYTES: usize = 64;

/// Bytes of one PBKDF2 output block.
pub const SHA1_OUTPUT_BYTES: usize = 20;

/// SHA-1 initial state in register byte order.
pub const SHA1_INITIAL_STATE: [u8; 20] = [
    0x67, 0x45, 0x23, 0x01, 0xef, 0xcd, 0xab, 0x89, 0x98, 0xba, 0xdc, 0xfe, 0x10, 0x32, 0x54, 0x76,
    0xc3, 0xd2, 0xe1, 0xf0,
];

/// The RKP lock was not granted within the poll limit.
pub const ERR_LOCK_TIMEOUT: u32 = 0xffff_1102;

/// A block did not complete within the poll limit.
pub const ERR_OPERATION_TIMEOUT: u32 = 0xffff_1103;

/// The random number generator gave nothing.
pub const ERR_TRNG: u32 = 0xffff_1104;

/// Bounded polling contract for the WS63 RKP engine.
#[derive(Clone, Copy, Debug, PartialEq, Eq)]
pub struct RkpPollLimits {
    pub lock: PollLimit,
    pub operation: PollLimit,
}

impl RkpPollLimits {
    /// Construct explicit non-zero lock and operation poll limits.
    pub fn new(lock: PollLimit, operation: PollLimit) -> (limits: Self)
        ensures
            limits.lock == lock,
            limits.operation == operation,
    {
        Self { lock, operation }
    }

    /// Maximum attempts used to acquire the RKP hardware lock.
    pub fn lock(self) -> (limit: PollLimit)
        ensures
            limit == self.lock,
    {
        self.lock
    }

    /// Maximum status reads used to await one PBKDF2 output block.
    pub fn operation(self) -> (limit: PollLimit)
        ensures
            limit == self.operation,
    {
        self.operation
    }
}

impl Default for RkpPollLimits {
    fn default() -> (limits: Self)
        ensures
            limits.lock@ == DEFAULT_POLL_LIMIT,
            limits.operation@ == DEFAULT_POLL_LIMIT,
    {
        let limit = PollLimit::conservative();
        Self::new(limit, limit)
    }
}

/// One padded SHA-1 message block that holds a salt and a block number, in a window
/// whose second half is zero. The length field counts the inner HMAC block as well.
pub open spec fn sha1_salt_block(salt: Seq<u8>, block_index: int) -> Seq<u8> {
    let n = salt.len();
    let number = be_bytes_32(block_index as u32);
    let bits = be_bytes_64(((SHA1_BLOCK_BYTES + n + 4) * 8) as u64);
    Seq::new(
        PASSWORD_BLOCK_BYTES as nat,
        |i: int|
            if 56 <= i < 64 {
                bits[i - 56]
            } else if i < n {
                salt[i]
            } else if i < n + 4 {
                number[i - n]
            } else if i == n + 4 {
                0x80u8
            } else {
                0u8
            },
    )
}

/// Builds the padded salt block for one PBKDF2 output block.
pub fn prepare_sha1_salt_block(salt: &[u8], block_index: usize) -> (block: [u8; 128])
    requires
        salt@.len() <= 123,
        block_index <= u32::MAX,
    ensures
        block@ == sha1_salt_block(salt@, block_index as int),
{
    let mut padded: [u8; 128] = [0u8; 128];
    let number = split_word(block_index as u32);
    copy_at(&mut padded, 0, salt);
    padded[salt.len()] = number[3];
    padded[salt.len() + 1] = number[2];
    padded[salt.len() + 2] = number[1];
    padded[salt.len() + 3] = number[0];
    padded[salt.len() + 4] = 0x80;
    let bit_length: u64 = ((SHA1_BLOCK_BYTES + salt.len() + 4) * 8) as u64;
    let length_bytes = split_be_64(bit_length);
    copy_at(&mut padded, 56, &length_bytes);
    proof {
        assert(padded@ =~= sha1_salt_block(salt@, block_index as int));
    }
    padded
}

/// The little-endian word at a word index of a window image.
pub fn word_at(bytes: &[u8; 128], index: usize) -> (word: u32)
    requires
        index < 32,
    ensures
        word == le_word(bytes@, 4 * index),
{
    read_word(bytes, index * 4)
}

/// A byte string extended with zeros to the size of a window.
pub open spec fn window_image(bytes: Seq<u8>) -> Seq<u8> {
    Seq::new(
        PASSWORD_BLOCK_BYTES as nat,
        |i: int|
            if i < bytes.len() {
                bytes[i]
            } else {
                0u8
            },
    )
}

/// The register windows of the engine.
#[derive(Clone, Copy, Debug, PartialEq, Eq)]
pub enum Window {
    Password,
    Salt,
    State,
}

/// The command that sets one word of a window.
pub open spec fn window_word(window: Window, index: int, word: u32) -> Command {
    match window {
        Window::Password => Command::RkpKey { index: index as usize, word },
        Window::Salt => Command::RkpData { index: index as usize, word },
        Window::State => Command::RkpVal { index: index as usize, word },
    }
}

/// Writes a window image word by word, each word ordered by a fence, from word
/// `start` on and around the end of the window.
pub open spec fn window_commands(window: Window, image: Seq<u8>, start: int) -> Seq<Command> {
    Seq::new(
        64,
        |i: int|
            if i % 2 == 0 {
                let index = (start + i / 2) % 32;
                window_word(window, index, le_word(image, 4 * index))
            } else {
                Command::Fence
            },
    )
}

/// Writes the SHA-1 initial state.
pub open spec fn initial_state_commands() -> Seq<Command> {
    Seq::new(
        10,
        |i: int|
            if i % 2 == 0 {
                window_word(Window::State, i / 2, le_word(SHA1_INITIAL_STATE@, 4 * (i / 2)))
            } else {
                Command::Fence
            },
    )
}

/// Sets the first `count` words of a window to zero.
pub open spec fn window_clear(window: Window, count: nat) -> Seq<Command> {
    Seq::new(count, |i: int| window_word(window, i, 0))
}

/// Asks for the lock.
pub open spec fn rkp_lock_request() -> Seq<Command> {
    seq![Command::RkpLock { owner: 1 }, Command::Fence]
}

/// Clears every sensitive window.
pub open spec fn rkp_clear() -> Seq<Command> {
    window_clear(Window::Salt, 32) + window_clear(Window::Password, 32) + window_clear(
        Window::State,
        16,
    ) + seq![Command::Fence]
}

/// Clears every sensitive window and gives the lock back.
pub open spec fn rkp_cleanup() -> Seq<Command> {
    rkp_clear() + seq![Command::RkpLock { owner: 0 }, Command::Fence]
}

/// Starts one block on a salt block image.
pub open spec fn rkp_block_commands(image: Seq<u8>, start: int, iterations: u16) -> Seq<Command> {
    window_commands(Window::Salt, image, start) + initial_state_commands() + seq![
        Command::RkpStart { iterations, key_source: 3, algorithm: 1 },
        Command::Fence,
    ]
}

/// Where a derivation stands. Each stage but the last has one question open.
#[derive(Clone, Copy, Debug, PartialEq, Eq)]
pub enum RkpStage {
    /// Waiting for the lock; `polls` reads are left, the open one included.
    Lock { polls: u32 },
    /// Drawing where the password write starts.
    PasswordEntropy,
    /// Drawing where the salt write of a block starts.
    SaltEntropy { block: usize },
    /// Waiting for a block; `polls` reads are left, the open one included.
    Calculate { block: usize, polls: u32 },
    /// Reading the error word of a block.
    BlockError { block: usize },
    /// Drawing where the result read of a block starts.
    OutputEntropy { block: usize },
    /// Reading one result word of a block.
    OutputWord { block: usize, start: usize, offset: usize },
    /// Over.
    Finished { result: Result<(), CryptoError> },
}

/// What a derivation is about.
pub struct RkpInput {
    pub password: Seq<u8>,
    pub salt: Seq<u8>,
    pub iterations: u16,
    pub lock_polls: u32,
    pub operation_polls: u32,
}

/// What changes while a derivation runs.
pub struct RkpState {
    pub stage: RkpStage,
    pub derived: Seq<u8>,
    pub output: Seq<u8>,
}

/// A state and the commands that lead into it.
pub struct RkpMove {
    pub state: RkpState,
    pub commands: Seq<Command>,
}

impl RkpInput {
    /// The lengths that fit the windows, and poll limits that are not zero.
    pub open spec fn valid(self) -> bool {
        &&& self.password.len() <= PASSWORD_BLOCK_BYTES
        &&& self.salt.len() <= 123
        &&& self.lock_polls > 0
        &&& self.operation_polls > 0
    }
}

impl RkpState {
    pub open spec fn valid(self) -> bool {
        &&& self.derived.len() == SHA1_OUTPUT_BYTES
        &&& self.output.len() == 32
        &&& match self.stage {
            RkpStage::Lock { polls } => polls > 0,
            RkpStage::PasswordEntropy => true,
            RkpStage::SaltEntropy { block } => 1 <= block <= 2,
            RkpStage::Calculate { block, polls } => 1 <= block <= 2 && polls > 0,
            RkpStage::BlockError { block } => 1 <= block <= 2,
            RkpStage::OutputEntropy { block } => 1 <= block <= 2,
            RkpStage::OutputWord { block, start, offset } => 1 <= block <= 2 && start < 5 && offset
                < 5,
            RkpStage::Finished { .. } => true,
        }
    }
}

/// The question that a stage has open.
pub open spec fn rkp_ask(stage: RkpStage) -> Ask {
    match stage {
        RkpStage::Lock { .. } => Ask::Read { source: Source::RkpLock },
        RkpStage::PasswordEntropy => Ask::Random,
        RkpStage::SaltEntropy { .. } => Ask::Random,
        RkpStage::Calculate { .. } => Ask::Read { source: Source::RkpRequest },
        RkpStage::BlockError { .. } => Ask::Read { source: Source::KdfError },
        RkpStage::OutputEntropy { .. } => Ask::Random,
        RkpStage::OutputWord { start, offset, .. } => Ask::Read {
            source: Source::RkpVal { index: ((start + offset) % 5) as usize },
        },
        RkpStage::Finished { .. } => Ask::Finished,
    }
}

/// A derivation that gives up: windows cleared, lock given back.
pub open spec fn rkp_fail(state: RkpState, error: CryptoError) -> RkpMove {
    RkpMove {
        state: RkpState {
            stage: RkpStage::Finished { result: Err(error) },
            derived: Seq::new(SHA1_OUTPUT_BYTES as nat, |i: int| 0u8),
            output: state.output,
        },
        commands: rkp_cleanup(),
    }
}

/// A derivation that goes on to another stage.
pub open spec fn rkp_go(state: RkpState, stage: RkpStage, commands: Seq<Command>) -> RkpMove {
    RkpMove { state: RkpState { stage, ..state }, commands }
}

/// `bytes` with the four bytes of a word put in from index `at` on.
pub open spec fn with_word(bytes: Seq<u8>, at: int, word: u32) -> Seq<u8> {
    bytes.take(at) + le_bytes(word) + bytes.skip(at + 4)
}

/// The output after one block: the first block fills bytes 0 to 19, the second bytes
/// 20 to 31.
pub open spec fn with_block(output: Seq<u8>, block: int, derived: Seq<u8>) -> Seq<u8> {
    if block == 1 {
        derived + output.skip(20)
    } else {
        output.take(20) + derived.take(12)
    }
}

/// What the answer to the open question leads to.
pub open spec fn rkp_next(input: RkpInput, state: RkpState, reply: Reply) -> RkpMove {
    let word = reply->word;
    match state.stage {
        RkpStage::Lock { polls } => if word == 1 {
            rkp_go(state, RkpStage::PasswordEntropy, seq![])
        } else if polls > 1 {
            rkp_go(state, RkpStage::Lock { polls: (polls - 1) as u32 }, rkp_lock_request())
        } else {
            rkp_go(
                state,
                RkpStage::Finished { result: Err(CryptoError::Backend(ERR_LOCK_TIMEOUT)) },
                seq![],
            )
        },
        RkpStage::PasswordEntropy => if reply is RandomFailed {
            rkp_fail(state, CryptoError::Backend(ERR_TRNG))
        } else {
            rkp_go(
                state,
                RkpStage::SaltEntropy { block: 1 },
                window_commands(Window::Password, window_image(input.password), (word % 32) as int),
            )
        },
        RkpStage::SaltEntropy { block } => if reply is RandomFailed {
            rkp_fail(state, CryptoError::Backend(ERR_TRNG))
        } else {
            rkp_go(
                state,
                RkpStage::Calculate { block, polls: input.operation_polls },
                rkp_block_commands(
                    sha1_salt_block(input.salt, block as int),
                    (word % 32) as int,
                    input.iterations,
                ),
            )
        },
        RkpStage::Calculate { block, polls } => if word == 0 {
            rkp_go(
                state,
                RkpStage::BlockError { block },
                seq![Command::RkpAcknowledge, Command::Fence],
            )
        } else if polls > 1 {
            rkp_go(state, RkpStage::Calculate { block, polls: (polls - 1) as u32 }, seq![])
        } else {
            rkp_fail(state, CryptoError::Backend(ERR_OPERATION_TIMEOUT))
        },
        RkpStage::BlockError { block } => if word != 0 {
            rkp_fail(state, CryptoError::Backend(word))
        } else {
            rkp_go(state, RkpStage::OutputEntropy { block }, seq![])
        },
        RkpStage::OutputEntropy { block } => if reply is RandomFailed {
            rkp_fail(state, CryptoError::Backend(ERR_TRNG))
        } else {
            rkp_go(
                state,
                RkpStage::OutputWord { block, start: (word % 5) as usize, offset: 0 },
                seq![],
            )
        },
        RkpStage::OutputWord { block, start, offset } => {
            let derived = with_word(state.derived, 4 * ((start + offset) % 5), word);
            if offset < 4 {
                RkpMove {
                    state: RkpState {
                        stage: RkpStage::OutputWord { block, start, offset: (offset + 1) as usize },
                        derived,
                        output: state.output,
                    },
                    commands: seq![],
                }
            } else {
                RkpMove {
                    state: RkpState {
                        stage: if block == 1 {
                            RkpStage::SaltEntropy { block: 2 }
                        } else {
                            RkpStage::Finished { result: Ok(()) }
                        },
                        derived: Seq::new(SHA1_OUTPUT_BYTES as nat, |i: int| 0u8),
                        output: with_block(state.output, block as int, derived),
                    },
                    commands: if block == 1 {
                        seq![]
                    } else {
                        rkp_cleanup()
                    },
                }
            }
        },
        RkpStage::Finished { .. } => rkp_go(state, state.stage, seq![]),
    }
}

/// Appends one word of a window.
fn push_window_word(commands: &mut Vec<Command>, window: Window, index: usize, word: u32)
    ensures
        final(commands)@ == old(commands)@.push(window_word(window, index as int, word)),
{
    match window {
        Window::Password => commands.push(Command::RkpKey { index, word }),
        Window::Salt => commands.push(Command::RkpData { index, word }),
        Window::State => commands.push(Command::RkpVal { index, word }),
    }
}

/// Appends the write of a whole window image.
fn write_window(commands: &mut Vec<Command>, window: Window, image: &[u8; 128], start: usize)
    requires
        start < 32,
    ensures
        final(commands)@ == old(commands)@ + window_commands(window, image@, start as int),
{
    let ghost before = commands@;
    let ghost all = window_commands(window, image@, start as int);
    let mut offset: usize = 0;
    while offset < 32
        invariant
            offset <= 32,
            start < 32,
            before == old(commands)@,
            all == window_commands(window, image@, start as int),
            commands@ == before + all.take(2 * offset),
        decreases 32 - offset,
    {
        let index = (start + offset) % 32;
        push_window_word(commands, window, index, word_at(image, index));
        commands.push(Command::Fence);
        proof {
            assert(all[2 * offset] == window_word(window, index as int, le_word(image@, 4 * index)));
            assert(all[2 * offset + 1] == Command::Fence);
            assert(commands@ =~= before + all.take(2 * (offset + 1)));
        }
        offset += 1;
    }
    proof {
        assert(all.take(64) =~= all);
    }
}

/// Appends the write of the password window.
fn write_password(commands: &mut Vec<Command>, password: &[u8], random: u32)
    requires
        password@.len() <= PASSWORD_BLOCK_BYTES,
    ensures
        final(commands)@ == old(commands)@ + window_commands(
            Window::Password,
            window_image(password@),
            (random % 32) as int,
        ),
{
    let mut password_block: [u8; 128] = [0u8; 128];
    copy_at(&mut password_block, 0, password);
    proof {
        assert(password_block@ =~= window_image(password@));
    }
    write_window(commands, Window::Password, &password_block, (random % 32) as usize);
    erase_bytes(&mut password_block);
}

/// Appends the commands that start one output block.
fn calculate_block(
    commands: &mut Vec<Command>,
    salt: &[u8],
    block: usize,
    iterations: u16,
    random: u32,
)
    requires
        salt@.len() <= 123,
        block <= 2,
    ensures
        final(commands)@ == old(commands)@ + rkp_block_commands(
            sha1_salt_block(salt@, block as int),
            (random % 32) as int,
            iterations,
        ),
{
    let ghost before = commands@;
    let mut salt_block = prepare_sha1_salt_block(salt, block);
    let ghost image = salt_block@;
    write_window(commands, Window::Salt, &salt_block, (random % 32) as usize);
    erase_bytes(&mut salt_block);
    let ghost written = commands@;
    let ghost all = initial_state_commands();
    let mut index: usize = 0;
    while index < 5
        invariant
            index <= 5,
            all == initial_state_commands(),
            commands@ == written + all.take(2 * index),
        decreases 5 - index,
    {
        let word = read_word(&SHA1_INITIAL_STATE, index * 4);
        push_window_word(commands, Window::State, index, word);
        commands.push(Command::Fence);
        proof {
            assert(all[2 * index] == window_word(
                Window::State,
                index as int,
                le_word(SHA1_INITIAL_STATE@, 4 * index),
            ));
            assert(all[2 * index + 1] == Command::Fence);
            assert(commands@ =~= written + all.take(2 * (index + 1)));
        }
        index += 1;
    }
    commands.push(Command::RkpStart { iterations, key_source: 3, algorithm: 1 });
    commands.push(Command::Fence);
    proof {
        assert(all.take(10) =~= all);
        assert(commands@ =~= before + rkp_block_commands(
            image,
            (random % 32) as int,
            iterations,
        ));
    }
}

/// Appends zeros for the first `count` words of a window.
fn clear_window(commands: &mut Vec<Command>, window: Window, count: usize)
    ensures
        final(commands)@ == old(commands)@ + window_clear(window, count as nat),
{
    let ghost before = commands@;
    let ghost all = window_clear(window, count as nat);
    let mut index: usize = 0;
    while index < count
        invariant
            index <= count,
            before == old(commands)@,
            all == window_clear(window, count as nat),
            commands@ == before + all.take(index as int),
        decreases count - index,
    {
        push_window_word(commands, window, index, 0);
        proof {
            assert(commands@ =~= before + all.take(index + 1));
        }
        index += 1;
    }
    proof {
        assert(all.take(count as int) =~= all);
    }
}

/// Appends the clearing of every sensitive window.
fn clear_sensitive_registers(commands: &mut Vec<Command>)
    ensures
        final(commands)@ == old(commands)@ + rkp_clear(),
{
    let ghost before = commands@;
    clear_window(commands, Window::Salt, 32);
    clear_window(commands, Window::Password, 32);
    clear_window(commands, Window::State, 16);
    commands.push(Command::Fence);
    proof {
        assert(commands@ =~= before + rkp_clear());
    }
}

/// Appends the request for the lock.
fn lock_rkp(commands: &mut Vec<Command>)
    ensures
        final(commands)@ == old(commands)@ + rkp_lock_request(),
{
    let ghost before = commands@;
    commands.push(Command::RkpLock { owner: 1 });
    commands.push(Command::Fence);
    proof {
        assert(commands@ =~= before + rkp_lock_request());
    }
}

/// Appends the release of the lock.
fn unlock_rkp(commands: &mut Vec<Command>)
    ensures
        final(commands)@ == old(commands)@ + seq![
            Command::RkpLock { owner: 0 },
            Command::Fence,
        ],
{
    let ghost before = commands@;
    commands.push(Command::RkpLock { owner: 0 });
    commands.push(Command::Fence);
    proof {
        assert(commands@ =~= before + seq![Command::RkpLock { owner: 0 }, Command::Fence]);
    }
}

/// One PBKDF2-HMAC-SHA1 derivation of 32 bytes.
pub struct Pbkdf2<'m> {
    password: &'m [u8],
    salt: &'m [u8],
    iterations: u16,
    lock_polls: u32,
    operation_polls: u32,
    stage: RkpStage,
    derived: [u8; 20],
    output: [u8; 32],
}

impl<'m> Pbkdf2<'m> {
    /// What the derivation is about.
    pub closed spec fn input(self) -> RkpInput {
        RkpInput {
            password: self.password@,
            salt: self.salt@,
            iterations: self.iterations,
            lock_polls: self.lock_polls,
            operation_polls: self.operation_polls,
        }
    }

    /// Where the derivation stands.
    pub closed spec fn state(self) -> RkpState {
        RkpState { stage: self.stage, derived: self.derived@, output: self.output@ }
    }

    /// The input and the state are as the engine keeps them.
    pub open spec fn valid(self) -> bool {
        self.input().valid() && self.state().valid()
    }

    /// A derivation that has asked for nothing yet. `output` is what the caller's
    /// buffer holds; bytes that the derivation does not reach stay as they are.
    pub fn new(
        password: &'m [u8],
        salt: &'m [u8],
        iterations: u16,
        limits: RkpPollLimits,
        output: [u8; 32],
    ) -> (operation: Self)
        requires
            password@.len() <= PASSWORD_BLOCK_BYTES,
            salt@.len() <= 123,
        ensures
            operation.valid(),
            operation.input() == (RkpInput {
                password: password@,
                salt: salt@,
                iterations,
                lock_polls: limits.lock@,
                operation_polls: limits.operation@,
            }),
            operation.state() == (RkpState {
                stage: RkpStage::Lock { polls: limits.lock@ },
                derived: zeros(20),
                output: output@,
            }),
    {
        let lock_polls = limits.lock().get();
        let operation_polls = limits.operation().get();
        let operation = Self {
            password,
            salt,
            iterations,
            lock_polls,
            operation_polls,
            stage: RkpStage::Lock { polls: lock_polls },
            derived: [0u8; 20],
            output,
        };
        proof {
            assert(operation.derived@ =~= zeros(20));
        }
        operation
    }

    /// The first commands and the first question.
    pub fn begin(&self) -> (step: Step)
        ensures
            step.commands@ == rkp_lock_request(),
            step.ask == (Ask::Read { source: Source::RkpLock }),
    {
        let mut commands: Vec<Command> = Vec::new();
        lock_rkp(&mut commands);
        proof {
            assert(commands@ =~= rkp_lock_request());
        }
        Step { commands, ask: Ask::Read { source: Source::RkpLock } }
    }

    /// The question that is open.
    fn ask(&self) -> (ask: Ask)
        requires
            self.valid(),
        ensures
            ask == rkp_ask(self.state().stage),
    {
        match self.stage {
            RkpStage::Lock { .. } => Ask::Read { source: Source::RkpLock },
            RkpStage::PasswordEntropy => Ask::Random,
            RkpStage::SaltEntropy { .. } => Ask::Random,
            RkpStage::Calculate { .. } => Ask::Read { source: Source::RkpRequest },
            RkpStage::BlockError { .. } => Ask::Read { source: Source::KdfError },
            RkpStage::OutputEntropy { .. } => Ask::Random,
            RkpStage::OutputWord { start, offset, .. } => Ask::Read {
                source: Source::RkpVal { index: (start + offset) % 5 },
            },
            RkpStage::Finished { .. } => Ask::Finished,
        }
    }

    /// Ends the derivation with the windows cleared and the lock given back.
    fn finish(&mut self, result: Result<(), CryptoError>, commands: &mut Vec<Command>)
        requires
            old(commands)@.len() == 0,
        ensures
            final(self).input() == old(self).input(),
            final(self).state() == (RkpState {
                stage: RkpStage::Finished { result },
                derived: Seq::new(SHA1_OUTPUT_BYTES as nat, |i: int| 0u8),
                output: old(self).state().output,
            }),
            final(commands)@ == rkp_cleanup(),
    {
        clear_sensitive_registers(commands);
        unlock_rkp(commands);
        erase_bytes(&mut self.derived);
        self.stage = RkpStage::Finished { result };
        proof {
            assert(commands@ =~= rkp_cleanup());
        }
    }

    /// Takes one result word and, after the last one, the block.
    fn take_word(&mut self, block: usize, start: usize, offset: usize, word: u32)
        requires
            old(self).valid(),
            old(self).state().stage == (RkpStage::OutputWord { block, start, offset }),
        ensures
            final(self).input() == old(self).input(),
            final(self).state().stage == old(self).state().stage,
            ({
                let derived = with_word(old(self).state().derived, 4 * ((start + offset) % 5), word);
                if offset < 4 {
                    final(self).state().derived == derived && final(self).state().output == old(
                        self,
                    ).state().output
                } else {
                    final(self).state().derived == Seq::new(
                        SHA1_OUTPUT_BYTES as nat,
                        |i: int| 0u8,
                    ) && final(self).state().output == with_block(
                        old(self).state().output,
                        block as int,
                        derived,
                    )
                }
            }),
    {
        let bytes = split_word(word);
        let at = (start + offset) % 5 * 4;
        copy_at(&mut self.derived, at, &bytes);
        let ghost derived = self.derived@;
        if offset >= 4 {
            let ghost output = self.output@;
            if block == 1 {
                copy_at(&mut self.output, 0, &self.derived);
                proof {
                    assert(self.output@ =~= derived + output.skip(20));
                }
            } else {
                copy_at(
                    &mut self.output,
                    20,
                    vstd::slice::slice_subrange(&self.derived, 0, 12),
                );
                proof {
                    assert(self.output@ =~= output.take(20) + derived.take(12));
                }
            }
            erase_bytes(&mut self.derived);
        }
    }

    /// Takes the answer to the open question and goes on to the next one.
    pub fn resume(&mut self, reply: Reply) -> (step: Step)
        requires
            old(self).valid(),
            answers(rkp_ask(old(self).state().stage), reply),
        ensures
            final(self).valid(),
            final(self).input() == old(self).input(),
            final(self).state() == rkp_next(old(self).input(), old(self).state(), reply).state,
            step.commands@ == rkp_next(old(self).input(), old(self).state(), reply).commands,
            step.ask == rkp_ask(final(self).state().stage),
    {
        let mut commands: Vec<Command> = Vec::new();
        let word: u32 = match reply {
            Reply::Word { word } => word,
            _ => 0,
        };
        let failed = matches!(reply, Reply::RandomFailed);
        match self.stage {
            RkpStage::Lock { polls } => {
                if word == 1 {
                    self.stage = RkpStage::PasswordEntropy;
                } else if polls > 1 {
                    lock_rkp(&mut commands);
                    self.stage = RkpStage::Lock { polls: polls - 1 };
                } else {
                    let error = CryptoError::Backend(ERR_LOCK_TIMEOUT);
                    self.stage = RkpStage::Finished { result: Err(error) };
                }
            },
            RkpStage::PasswordEntropy => {
                if failed {
                    self.finish(Err(CryptoError::Backend(ERR_TRNG)), &mut commands);
                } else {
                    write_password(&mut commands, self.password, word);
                    self.stage = RkpStage::SaltEntropy { block: 1 };
                }
            },
            RkpStage::SaltEntropy { block } => {
                if failed {
                    self.finish(Err(CryptoError::Backend(ERR_TRNG)), &mut commands);
                } else {
                    calculate_block(&mut commands, self.salt, block, self.iterations, word);
                    let polls = self.operation_polls;
                    self.stage = RkpStage::Calculate { block, polls };
                }
            },
            RkpStage::Calculate { block, polls } => {
                if word == 0 {
                    commands.push(Command::RkpAcknowledge);
                    commands.push(Command::Fence);
                    self.stage = RkpStage::BlockError { block };
                } else if polls > 1 {
                    self.stage = RkpStage::Calculate { block, polls: polls - 1 };
                } else {
                    self.finish(Err(CryptoError::Backend(ERR_OPERATION_TIMEOUT)), &mut commands);
                }
            },
            RkpStage::BlockError { block } => {
                if word != 0 {
                    self.finish(Err(CryptoError::Backend(word)), &mut commands);
                } else {
                    self.stage = RkpStage::OutputEntropy { block };
                }
            },
            RkpStage::OutputEntropy { block } => {
                if failed {
                    self.finish(Err(CryptoError::Backend(ERR_TRNG)), &mut commands);
                } else {
                    let start = (word % 5) as usize;
                    self.stage = RkpStage::OutputWord { block, start, offset: 0 };
                }
            },
            RkpStage::OutputWord { block, start, offset } => {
                self.take_word(block, start, offset, word);
                if offset < 4 {
                    self.stage = RkpStage::OutputWord { block, start, offset: offset + 1 };
                } else if block == 1 {
                    self.stage = RkpStage::SaltEntropy { block: 2 };
                } else {
                    self.finish(Ok(()), &mut commands);
                }
            },
            RkpStage::Finished { .. } => {},
        }
        proof {
            let next = rkp_next(old(self).input(), old(self).state(), reply);
            assert(commands@ =~= next.commands);
            assert(self.state().derived =~= next.state.derived);
        }
        let ask = self.ask();
        Step { commands, ask }
    }

    /// The result, once the derivation is over.
    pub fn result(&self) -> (result: Option<Result<(), CryptoError>>)
        ensures
            result == match self.state().stage {
                RkpStage::Finished { result } => Some(result),
                _ => None,
            },
    {
        match self.stage {
            RkpStage::Finished { result } => Some(result),
            _ => None,
        }
    }

    /// What the caller's buffer holds now.
    pub fn output(&self) -> (output: [u8; 32])
        ensures
            output@ == self.state().output,
    {
        self.output
    }
}

} // verus!
