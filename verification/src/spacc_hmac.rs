//! HMAC-SHA1 and HMAC-SHA256 out of hashes on a SPACC hash channel.
use crate::bus::{answers, Ask, Command, Reply, Source, Step};
use crate::bytes::copy_at;
use crate::erase::erase_bytes;
use crate::error::CryptoError;
use crate::padding::{checked_parts_len, concat, zeros, HASH_BLOCK_BYTES, MAX_HASH_INPUT_BYTES};
use crate::spacc_hash::{
    digest_words, hash_ask, hash_attempt, hash_next, hash_start, HashAlgorithm, HashDmaStorage,
    HashCore, HashInput, HashMemory, HashMessage, HashStage, HashState, SpaccPollLimits,
};
use vstd::prelude::*;

verus! {

/// The byte that the key is combined with for the inner hash.
pub const INNER_PAD: u8 = 0x36;

/// The byte that the key is combined with for the outer hash.
pub const OUTER_PAD: u8 = 0x5c;

/// Which of the hashes runs.
#[derive(Clone, Copy, Debug, PartialEq, Eq)]
pub enum HmacPhase {
    /// The hash of a key that is longer than a block.
    Key,
    /// The hash of the inner pad and the message.
    Inner,
    /// The hash of the outer pad and the inner digest.
    Outer,
    /// None: over.
    Finished { result: Result<(), CryptoError> },
}

/// What a MAC is about.
pub struct HmacInput {
    pub hash: HashInput,
    pub key: Seq<u8>,
    pub message: Seq<u8>,
    pub output_len: nat,
}

/// What changes while a MAC runs.
pub struct HmacState {
    pub phase: HmacPhase,
    pub key_block: Seq<u8>,
    pub inner: Seq<u8>,
    pub hash: HashState,
}

/// A state and the commands that lead into it.
pub struct HmacMove {
    pub state: HmacState,
    pub commands: Seq<Command>,
}

/// Bytes extended with zeros to one block.
pub open spec fn block_image(bytes: Seq<u8>) -> Seq<u8> {
    Seq::new(
        HASH_BLOCK_BYTES as nat,
        |i: int|
            if i < bytes.len() {
                bytes[i]
            } else {
                0u8
            },
    )
}

/// A key block combined with a pad byte.
pub open spec fn pad_block(key_block: Seq<u8>, pad: u8) -> Seq<u8> {
    Seq::new(HASH_BLOCK_BYTES as nat, |i: int| key_block[i] ^ pad)
}

/// The bytes of a digest.
pub open spec fn digest_of(algorithm: HashAlgorithm, digest: Seq<u8>) -> Seq<u8> {
    digest.take(4 * digest_words(algorithm) as int)
}

/// The message that the running hash is about.
pub open spec fn hmac_message(input: HmacInput, state: HmacState) -> HashMessage {
    match state.phase {
        HmacPhase::Key => HashMessage { prefix: Seq::empty(), body: input.key },
        HmacPhase::Inner => HashMessage {
            prefix: pad_block(state.key_block, INNER_PAD),
            body: input.message,
        },
        _ => HashMessage {
            prefix: pad_block(state.key_block, OUTER_PAD),
            body: digest_of(input.hash.algorithm, state.inner),
        },
    }
}

/// The state before the first answer.
pub open spec fn hmac_start(input: HmacInput, memory: HashMemory) -> HmacState {
    HmacState {
        phase: if input.key.len() > HASH_BLOCK_BYTES {
            HmacPhase::Key
        } else {
            HmacPhase::Inner
        },
        key_block: if input.key.len() > HASH_BLOCK_BYTES {
            zeros(HASH_BLOCK_BYTES as nat)
        } else {
            block_image(input.key)
        },
        inner: zeros(32),
        hash: hash_start(input.hash, memory),
    }
}

impl HmacInput {
    /// Whether the output has the length of the digest.
    pub open spec fn output_fits(self) -> bool {
        self.output_len == 4 * digest_words(self.hash.algorithm)
    }

    /// Lengths within the message limit, and poll limits that are not zero.
    pub open spec fn valid(self) -> bool {
        &&& self.hash.valid()
        &&& self.key.len() <= MAX_HASH_INPUT_BYTES
        &&& self.message.len() <= MAX_HASH_INPUT_BYTES
    }
}

impl HmacState {
    pub open spec fn valid(self, input: HmacInput) -> bool {
        &&& self.key_block.len() == HASH_BLOCK_BYTES
        &&& self.inner.len() == 32
        &&& self.hash.valid(input.hash)
        &&& self.phase is Finished <==> self.hash.stage is Finished
        &&& self.phase is Outer ==> input.output_fits()
        &&& self.phase == (HmacPhase::Finished { result: Ok(()) }) ==> input.output_fits()
    }
}

/// A MAC that is over: secrets cleared.
pub open spec fn hmac_end(
    hash: HashState,
    result: Result<(), CryptoError>,
    commands: Seq<Command>,
) -> HmacMove {
    HmacMove {
        state: HmacState {
            phase: HmacPhase::Finished { result },
            key_block: zeros(HASH_BLOCK_BYTES as nat),
            inner: zeros(32),
            hash,
        },
        commands,
    }
}

/// What the answer to the open question leads to.
pub open spec fn hmac_next(input: HmacInput, state: HmacState, reply: Reply) -> HmacMove {
    let next = hash_next(input.hash, hmac_message(input, state), state.hash, reply);
    match next.state.stage {
        HashStage::Finished { result } => if result is Err {
            hmac_end(next.state, result, next.commands)
        } else {
            match state.phase {
                HmacPhase::Key => HmacMove {
                    state: HmacState {
                        phase: HmacPhase::Inner,
                        key_block: block_image(
                            digest_of(input.hash.algorithm, next.state.digest),
                        ),
                        inner: state.inner,
                        hash: hash_start(input.hash, next.state.memory),
                    },
                    commands: next.commands + hash_attempt(),
                },
                HmacPhase::Inner => if !input.output_fits() {
                    hmac_end(next.state, Err(CryptoError::InvalidLength), next.commands)
                } else {
                    HmacMove {
                        state: HmacState {
                            phase: HmacPhase::Outer,
                            key_block: state.key_block,
                            inner: next.state.digest,
                            hash: hash_start(input.hash, next.state.memory),
                        },
                        commands: next.commands + hash_attempt(),
                    }
                },
                _ => hmac_end(next.state, result, next.commands),
            }
        },
        _ => HmacMove {
            state: HmacState { hash: next.state, ..state },
            commands: next.commands,
        },
    }
}

/// Combines a key block with a pad byte.
fn fill_pad(pad: &mut [u8; 64], key_block: &[u8; 64], byte: u8)
    ensures
        final(pad)@ == pad_block(key_block@, byte),
{
    let mut i: usize = 0;
    while i < 64
        invariant
            i <= 64,
            forall|j: int| 0 <= j < i ==> pad@[j] == key_block@[j] ^ byte,
        decreases 64 - i,
    {
        pad[i] = key_block[i] ^ byte;
        i += 1;
    }
    proof {
        assert(pad@ =~= pad_block(key_block@, byte));
    }
}

/// One MAC on the hash channel.
pub struct HmacEngine<'m> {
    key: &'m [u8],
    parts: &'m [&'m [u8]],
    algorithm: HashAlgorithm,
    output_len: usize,
    phase: HmacPhase,
    key_block: [u8; 64],
    pad: [u8; 64],
    inner: [u8; 32],
    hash: HashCore,
}

impl<'m> HmacEngine<'m> {
    /// What the MAC is about.
    pub closed spec fn input(self) -> HmacInput {
        HmacInput {
            hash: self.hash.input(),
            key: self.key@,
            message: concat(self.parts@),
            output_len: self.output_len as nat,
        }
    }

    /// Where the MAC stands, given the storage that it works on.
    pub closed spec fn state(self, storage: HashDmaStorage) -> HmacState {
        HmacState {
            phase: self.phase,
            key_block: self.key_block@,
            inner: self.inner@,
            hash: self.hash.state(storage),
        }
    }

    /// The input and the state are as the engine keeps them.
    pub closed spec fn valid(self, storage: HashDmaStorage) -> bool {
        &&& self.input().valid()
        &&& self.state(storage).valid(self.input())
        &&& self.algorithm == self.hash.input().algorithm
        &&& self.phase is Inner ==> self.pad@ == pad_block(self.key_block@, INNER_PAD)
        &&& self.phase is Outer ==> self.pad@ == pad_block(self.key_block@, OUTER_PAD)
        &&& self.phase is Finished ==> self.pad@ == zeros(HASH_BLOCK_BYTES as nat)
    }

    /// A MAC that has asked for nothing yet; a key or message that is too long is refused.
    ///
    /// `output_len` is the length of the caller's buffer.
    pub fn new(
        algorithm: HashAlgorithm,
        limits: SpaccPollLimits,
        nodes_address: usize,
        bytes_address: usize,
        key: &'m [u8],
        parts: &'m [&'m [u8]],
        output_len: usize,
    ) -> (operation: Result<Self, CryptoError>)
        ensures
            operation is Ok <==> key@.len() <= MAX_HASH_INPUT_BYTES && concat(parts@).len()
                <= MAX_HASH_INPUT_BYTES,
            operation is Err ==> operation->Err_0 == CryptoError::InvalidLength,
            operation is Ok ==> operation->Ok_0.input() == (HmacInput {
                hash: HashInput {
                    algorithm,
                    lock_polls: limits.lock@,
                    clear_polls: limits.clear@,
                    operation_polls: limits.operation@,
                    nodes_address,
                    bytes_address,
                },
                key: key@,
                message: concat(parts@),
                output_len: output_len as nat,
            }),
            operation is Ok ==> forall|storage: HashDmaStorage|
                #[trigger] operation->Ok_0.valid(storage),
            operation is Ok ==> forall|storage: HashDmaStorage|
                (#[trigger] operation->Ok_0.state(storage)) == hmac_start(
                    operation->Ok_0.input(),
                    storage@,
                ),
    {
        let input_len = match checked_parts_len(parts) {
            Ok(input_len) => input_len,
            Err(error) => {
                return Err(error);
            },
        };
        if input_len > MAX_HASH_INPUT_BYTES || key.len() > MAX_HASH_INPUT_BYTES {
            return Err(CryptoError::InvalidLength);
        }
        let hash = HashCore::new(algorithm, limits, nodes_address, bytes_address);
        let mut key_block: [u8; 64] = [0u8; 64];
        let mut pad: [u8; 64] = [0u8; 64];
        let long = key.len() > HASH_BLOCK_BYTES;
        if !long {
            copy_at(&mut key_block, 0, key);
            proof {
                assert(key_block@ =~= block_image(key@));
            }
            fill_pad(&mut pad, &key_block, INNER_PAD);
        }
        let operation = Self {
            key,
            parts,
            algorithm,
            output_len,
            phase: if long {
                HmacPhase::Key
            } else {
                HmacPhase::Inner
            },
            key_block,
            pad,
            inner: [0u8; 32],
            hash,
        };
        proof {
            assert(operation.inner@ =~= zeros(32));
            assert(long ==> key_block@ =~= zeros(64));
            assert forall|storage: HashDmaStorage| #[trigger] operation.valid(storage) by {
                assert(hash.valid(storage));
            }
        }
        erase_bytes(&mut key_block);
        erase_bytes(&mut pad);
        Ok(operation)
    }

    /// The first commands and the first question.
    pub fn begin(&self) -> (step: Step)
        ensures
            step.commands@ == hash_attempt(),
            step.ask == (Ask::Read { source: Source::HashOwners }),
    {
        self.hash.begin()
    }

    /// Clears the secrets and ends the MAC.
    fn end(&mut self, result: Result<(), CryptoError>)
        ensures
            final(self).input() == old(self).input(),
            final(self).algorithm == old(self).algorithm,
            final(self).pad@ == zeros(HASH_BLOCK_BYTES as nat),
            forall|storage: HashDmaStorage|
                (#[trigger] final(self).state(storage)) == hmac_end(
                    old(self).state(storage).hash,
                    result,
                    seq![],
                ).state,
    {
        erase_bytes(&mut self.key_block);
        erase_bytes(&mut self.pad);
        erase_bytes(&mut self.inner);
        self.phase = HmacPhase::Finished { result };
        proof {
            assert(self.key_block@ =~= zeros(64));
            assert(self.pad@ =~= zeros(64));
            assert(self.inner@ =~= zeros(32));
        }
    }

    /// Takes the answer to the open question and goes on to the next one.
    pub fn resume(&mut self, storage: &mut HashDmaStorage, reply: Reply) -> (step: Step)
        requires
            old(self).valid(*old(storage)),
            answers(hash_ask(old(self).state(*old(storage)).hash.stage), reply),
        ensures
            final(self).valid(*final(storage)),
            final(self).input() == old(self).input(),
            final(self).state(*final(storage)) == hmac_next(
                old(self).input(),
                old(self).state(*old(storage)),
                reply,
            ).state,
            step.commands@ == hmac_next(
                old(self).input(),
                old(self).state(*old(storage)),
                reply,
            ).commands,
            step.ask == hash_ask(final(self).state(*final(storage)).hash.stage),
    {
        let ghost next = hash_next(
            self.input().hash,
            hmac_message(self.input(), self.state(*storage)),
            self.state(*storage).hash,
            reply,
        );
        let mut step = match self.phase {
            HmacPhase::Key => {
                let parts: [&[u8]; 1] = [self.key];
                proof {
                    assert(parts@.drop_last() =~= Seq::<&[u8]>::empty());
                    assert(concat(parts@.drop_last()) =~= Seq::<u8>::empty());
                    assert(concat(parts@) =~= self.key@);
                }
                self.hash.resume(storage, None, &parts, reply)
            },
            HmacPhase::Inner => self.hash.resume(storage, Some(&self.pad), self.parts, reply),
            _ => {
                let digest = vstd::slice::slice_subrange(
                    &self.inner,
                    0,
                    self.algorithm.output_len(),
                );
                let parts: [&[u8]; 1] = [digest];
                proof {
                    assert(parts@.drop_last() =~= Seq::<&[u8]>::empty());
                    assert(concat(parts@.drop_last()) =~= Seq::<u8>::empty());
                    assert(concat(parts@) =~= digest@);
                    assert(digest@ =~= digest_of(self.algorithm, self.inner@));
                }
                self.hash.resume(storage, Some(&self.pad), &parts, reply)
            },
        };
        assert(self.hash.state(*storage) == next.state);
        if let Some(result) = self.hash.result() {
            if result.is_err() {
                self.end(result);
            } else {
                match self.phase {
                    HmacPhase::Key => {
                        let mut digest = self.hash.digest();
                        let len = self.algorithm.output_len();
                        erase_bytes(&mut self.key_block);
                        copy_at(
                            &mut self.key_block,
                            0,
                            vstd::slice::slice_subrange(&digest, 0, len),
                        );
                        proof {
                            assert(self.key_block@ =~= block_image(
                                digest_of(self.algorithm, next.state.digest),
                            ));
                        }
                        erase_bytes(&mut digest);
                        fill_pad(&mut self.pad, &self.key_block, INNER_PAD);
                        self.phase = HmacPhase::Inner;
                        self.hash.restart();
                        step = self.again(step);
                    },
                    HmacPhase::Inner if self.output_len != self.algorithm.output_len() => {
                        self.end(Err(CryptoError::InvalidLength));
                    },
                    HmacPhase::Inner => {
                        self.inner = self.hash.digest();
                        fill_pad(&mut self.pad, &self.key_block, OUTER_PAD);
                        self.phase = HmacPhase::Outer;
                        self.hash.restart();
                        step = self.again(step);
                    },
                    _ => {
                        self.end(result);
                    },
                }
            }
        }
        step
    }

    /// Goes from the end of one hash straight into the next.
    fn again(&self, step: Step) -> (joined: Step)
        ensures
            joined.commands@ == step.commands@ + hash_attempt(),
            joined.ask == (Ask::Read { source: Source::HashOwners }),
    {
        let mut commands = step.commands;
        commands.push(Command::EnterCritical);
        proof {
            assert(commands@ =~= step.commands@ + hash_attempt());
        }
        Step { commands, ask: Ask::Read { source: Source::HashOwners } }
    }

    /// Bytes of the MAC.
    pub fn output_len(&self) -> (length: usize)
        ensures
            length == 4 * digest_words(self.input().hash.algorithm),
    {
        self.hash.output_len()
    }

    /// The result, once the MAC is over.
    pub fn result(&self) -> (result: Option<Result<(), CryptoError>>)
        ensures
            forall|storage: HashDmaStorage|
                result == match (#[trigger] self.state(storage)).phase {
                    HmacPhase::Finished { result } => Some(result),
                    _ => None,
                },
    {
        match self.phase {
            HmacPhase::Finished { result } => Some(result),
            _ => None,
        }
    }

    /// The MAC in the first bytes of the array, once it is over with success.
    pub fn digest(&self) -> (digest: [u8; 32])
        ensures
            forall|storage: HashDmaStorage| digest@ == (#[trigger] self.state(storage)).hash.digest,
    {
        self.hash.digest()
    }
}

} // verus!
