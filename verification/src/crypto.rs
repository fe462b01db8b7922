//! The capability that owns the key manager, SPACC and the random number generator.
use crate::bytes::copy_at;
use crate::diagnostics::{CipherDiagnostic, HashDiagnostic, Trial};
use crate::error::CryptoError;
use crate::gate::{entry, take};
use crate::limits::DEFAULT_POLL_LIMIT;
use crate::padding::{checked_parts_len, concat, zeros, MAX_HASH_INPUT_BYTES};
use crate::rkp::{
    Pbkdf2, RkpInput, RkpPollLimits, RkpStage, RkpState, ERR_TRNG, SHA1_BLOCK_BYTES,
};
use crate::spacc_cipher::{
    cipher_start, key_register, CipherAddresses, CipherEngine, CipherInput, SpaccCipherPollLimits,
    AES_BLOCK_BYTES,
};
use crate::spacc_hash::{
    digest_words, hash_start, whole_message, HashAlgorithm, HashEngine, HashInput,
    SpaccPollLimits,
};
use crate::spacc_hmac::{hmac_start, HmacEngine, HmacInput};
use crate::storage::Ws63CryptoStorage;
use vstd::prelude::*;

verus! {

/// An operation is in progress.
pub const ERR_BUSY: u32 = 0xffff_1101;

/// The ownership token of the key manager, from the `hisi_hal` crate.
#[verifier::external_type_specification]
#[verifier::external_body]
pub struct ExKm<'d>(hisi_hal::peripherals::Km<'d>);

/// The ownership token of SPACC, from the `hisi_hal` crate.
#[verifier::external_type_specification]
#[verifier::external_body]
pub struct ExSpacc<'d>(hisi_hal::peripherals::Spacc<'d>);

/// The ownership token of the random number generator, from the `hisi_hal` crate.
#[verifier::external_type_specification]
#[verifier::external_body]
pub struct ExTrng<'d>(hisi_hal::peripherals::Trng<'d>);

/// The driver of the random number generator, from the `hisi_hal` crate.
#[verifier::external_type_specification]
#[verifier::external_body]
pub struct ExTrngDriver<'d>(hisi_hal::trng::TrngDriver<'d>);

/// `TrngDriver::new` turns the token into a driver; nothing is claimed of the driver.
pub assume_specification<'d>[ hisi_hal::trng::TrngDriver::<'d>::new ](
    trng: hisi_hal::peripherals::Trng<'d>,
) -> (driver: hisi_hal::trng::TrngDriver<'d>)
;

/// Explicit hardware resources used by [`Ws63Crypto`].
///
/// PKE remains a separate [`crate::pke::p256::Ws63P256`] capability. This bundle is limited
/// to the engines shared by PBKDF2, SPACC hash/cipher, and entropy.
pub struct Ws63CryptoResources<'d> {
    pub km: hisi_hal::peripherals::Km<'d>,
    pub spacc: hisi_hal::peripherals::Spacc<'d>,
    pub trng: hisi_hal::peripherals::Trng<'d>,
    pub storage: &'static mut Ws63CryptoStorage,
}

impl<'d> Ws63CryptoResources<'d> {
    /// Bind the unique HAL tokens to caller-owned static DMA storage.
    pub fn new(
        km: hisi_hal::peripherals::Km<'d>,
        spacc: hisi_hal::peripherals::Spacc<'d>,
        trng: hisi_hal::peripherals::Trng<'d>,
        storage: &'static mut Ws63CryptoStorage,
    ) -> (resources: Self)
        ensures
            resources.km == km,
            resources.spacc == spacc,
            resources.trng == trng,
            *resources.storage == *old(storage),
            *final(resources.storage) == *final(storage),
    {
        Self { km, spacc, trng, storage }
    }
}

/// Exclusive WS63 KM/RKP and TRNG crypto capability.
///
/// One operation runs at a time: an operation is accepted, stepped through its engine, and
/// finished; until then every other operation is refused as busy.
pub struct Ws63Crypto<'d> {
    km: hisi_hal::peripherals::Km<'d>,
    spacc: hisi_hal::peripherals::Spacc<'d>,
    trng: hisi_hal::trng::TrngDriver<'d>,
    limits: RkpPollLimits,
    spacc_limits: SpaccPollLimits,
    cipher_limits: SpaccCipherPollLimits,
    busy: bool,
    storage: &'static mut Ws63CryptoStorage,
}

/// Why a derivation is refused, if it is.
pub open spec fn derive_refusal(
    busy: bool,
    password: Seq<u8>,
    salt: Seq<u8>,
    iterations: u32,
) -> Option<CryptoError> {
    if password.len() > 64 || salt.len() > 51 || iterations == 0 || iterations > 65535 {
        Some(CryptoError::InvalidLength)
    } else if busy {
        Some(CryptoError::Backend(ERR_BUSY))
    } else {
        None
    }
}

/// Why a hash is refused, if it is.
pub open spec fn hash_refusal(
    busy: bool,
    algorithm: HashAlgorithm,
    message: Seq<u8>,
    output_len: nat,
) -> Option<CryptoError> {
    if busy {
        Some(CryptoError::Backend(ERR_BUSY))
    } else if message.len() > MAX_HASH_INPUT_BYTES || output_len != 4 * digest_words(algorithm) {
        Some(CryptoError::InvalidLength)
    } else {
        None
    }
}

/// Why a MAC is refused, if it is.
pub open spec fn mac_refusal(busy: bool, key: Seq<u8>, message: Seq<u8>) -> Option<CryptoError> {
    if busy {
        Some(CryptoError::Backend(ERR_BUSY))
    } else if key.len() > MAX_HASH_INPUT_BYTES || message.len() > MAX_HASH_INPUT_BYTES {
        Some(CryptoError::InvalidLength)
    } else {
        None
    }
}

/// Why a block operation is refused, if it is.
pub open spec fn block_refusal(busy: bool, key: Seq<u8>) -> Option<CryptoError> {
    if busy {
        Some(CryptoError::Backend(ERR_BUSY))
    } else if key_register(key.len()) is None {
        Some(CryptoError::InvalidLength)
    } else {
        None
    }
}

impl<'d> Ws63Crypto<'d> {
    /// Whether an operation is in progress.
    pub closed spec fn is_busy(self) -> bool {
        self.busy
    }

    /// Poll limits of derivations.
    pub closed spec fn rkp_limits(self) -> RkpPollLimits {
        self.limits
    }

    /// Poll limits of hashes and MACs.
    pub closed spec fn hash_limits(self) -> SpaccPollLimits {
        self.spacc_limits
    }

    /// Poll limits of block operations.
    pub closed spec fn block_limits(self) -> SpaccCipherPollLimits {
        self.cipher_limits
    }

    /// What the storage holds.
    pub closed spec fn memory(self) -> Ws63CryptoStorage {
        *self.storage
    }

    /// The tokens of the key manager and of SPACC.
    pub closed spec fn tokens(self) -> (
        hisi_hal::peripherals::Km<'d>,
        hisi_hal::peripherals::Spacc<'d>,
    ) {
        (self.km, self.spacc)
    }

    /// The random number generator.
    pub closed spec fn generator(self) -> hisi_hal::trng::TrngDriver<'d> {
        self.trng
    }

    /// Everything but the busy flag is as it was.
    pub open spec fn same_but_busy(self, other: Self) -> bool {
        &&& self.tokens() == other.tokens()
        &&& self.generator() == other.generator()
        &&& self.rkp_limits() == other.rkp_limits()
        &&& self.hash_limits() == other.hash_limits()
        &&& self.block_limits() == other.block_limits()
        &&& self.memory() == other.memory()
    }

    /// An operation asked to be let in, with a result: the capability is busy afterwards
    /// either way, and nothing else has changed.
    pub open spec fn enters(self, before: Self, result: Result<(), CryptoError>) -> bool {
        &&& self.same_but_busy(before)
        &&& self.is_busy()
        &&& result == entry(before.is_busy(), ERR_BUSY)
    }

    /// An operation was refused, or accepted where there was no reason to refuse it: the
    /// first leaves everything as it was, the second makes the capability busy.
    pub open spec fn answers_request(self, before: Self, refusal: Option<CryptoError>) -> bool {
        &&& self.same_but_busy(before)
        &&& self.is_busy() == (before.is_busy() || refusal is None)
    }

    /// An operation ended: the capability is free, and nothing else has changed.
    pub open spec fn leaves(self, before: Self) -> bool {
        &&& self.same_but_busy(before)
        &&& !self.is_busy()
    }

    /// Claim the explicit WS63 resources with conservative poll limits.
    pub fn new(resources: Ws63CryptoResources<'d>) -> (crypto: Self)
        ensures
            !crypto.is_busy(),
            crypto.tokens() == (resources.km, resources.spacc),
            crypto.memory() == *old(resources.storage),
            crypto.rkp_limits().lock@ == DEFAULT_POLL_LIMIT,
            crypto.rkp_limits().operation@ == DEFAULT_POLL_LIMIT,
            crypto.hash_limits().lock@ == DEFAULT_POLL_LIMIT,
            crypto.hash_limits().clear@ == DEFAULT_POLL_LIMIT,
            crypto.hash_limits().operation@ == DEFAULT_POLL_LIMIT,
            crypto.block_limits().channel_lock@ == DEFAULT_POLL_LIMIT,
            crypto.block_limits().channel_clear@ == DEFAULT_POLL_LIMIT,
            crypto.block_limits().operation@ == DEFAULT_POLL_LIMIT,
            crypto.block_limits().keyslot@ == DEFAULT_POLL_LIMIT,
            crypto.block_limits().klad@ == DEFAULT_POLL_LIMIT,
    {
        Self::with_poll_limits(
            resources,
            RkpPollLimits::default(),
            SpaccPollLimits::default(),
            SpaccCipherPollLimits::default(),
        )
    }

    /// Claim the hardware with an explicit bounded polling contract.
    pub fn with_poll_limits(
        resources: Ws63CryptoResources<'d>,
        limits: RkpPollLimits,
        spacc_limits: SpaccPollLimits,
        cipher_limits: SpaccCipherPollLimits,
    ) -> (crypto: Self)
        ensures
            !crypto.is_busy(),
            crypto.tokens() == (resources.km, resources.spacc),
            crypto.memory() == *old(resources.storage),
            crypto.rkp_limits() == limits,
            crypto.hash_limits() == spacc_limits,
            crypto.block_limits() == cipher_limits,
    {
        Self {
            km: resources.km,
            spacc: resources.spacc,
            trng: hisi_hal::trng::TrngDriver::new(resources.trng),
            limits,
            spacc_limits,
            cipher_limits,
            busy: false,
            storage: resources.storage,
        }
    }

    /// The random number generator.
    pub fn trng(&self) -> (driver: &hisi_hal::trng::TrngDriver<'d>)
        ensures
            *driver == self.generator(),
    {
        &self.trng
    }

    /// The storage, for the steps of the operation in progress.
    pub fn storage(&mut self) -> (storage: &mut Ws63CryptoStorage)
        ensures
            *storage == old(self).memory(),
            final(self).memory() == *final(storage),
            final(self).tokens() == old(self).tokens(),
            final(self).generator() == old(self).generator(),
            final(self).is_busy() == old(self).is_busy(),
            final(self).rkp_limits() == old(self).rkp_limits(),
            final(self).hash_limits() == old(self).hash_limits(),
            final(self).block_limits() == old(self).block_limits(),
    {
        &mut *self.storage
    }

    /// Takes the engines, unless an operation is in progress.
    fn enter(&mut self) -> (result: Result<(), CryptoError>)
        ensures
            final(self).enters(*old(self), result),
    {
        take(&mut self.busy, ERR_BUSY)
    }

    /// Accepts a PBKDF2-HMAC-SHA1 derivation of 32 bytes with a password of at most 64
    /// bytes, a salt of at most 51 bytes and 1 to 65535 iterations.
    ///
    /// `output` is what the caller's buffer holds.
    pub fn derive_32<'m>(
        &mut self,
        password: &'m [u8],
        salt: &'m [u8],
        iterations: u32,
        output: &[u8; 32],
    ) -> (result: Result<Pbkdf2<'m>, CryptoError>)
        ensures
            final(self).answers_request(
                *old(self),
                derive_refusal(old(self).is_busy(), password@, salt@, iterations),
            ),
            match derive_refusal(old(self).is_busy(), password@, salt@, iterations) {
                Some(error) => result == Err::<Pbkdf2<'m>, _>(error),
                None => result is Ok && result->Ok_0.valid()
                    && result->Ok_0.input() == (RkpInput {
                    password: password@,
                    salt: salt@,
                    iterations: iterations as u16,
                    lock_polls: old(self).rkp_limits().lock@,
                    operation_polls: old(self).rkp_limits().operation@,
                }) && result->Ok_0.state() == (RkpState {
                    stage: RkpStage::Lock { polls: old(self).rkp_limits().lock@ },
                    derived: zeros(20),
                    output: output@,
                }),
            },
    {
        if password.len() > SHA1_BLOCK_BYTES || salt.len() > SHA1_BLOCK_BYTES - 13 || iterations
            == 0 || iterations > u16::MAX as u32 {
            return Err(CryptoError::InvalidLength);
        }
        if let Err(error) = self.enter() {
            return Err(error);
        }
        Ok(Pbkdf2::new(password, salt, iterations as u16, self.limits, *output))
    }

    /// Ends a derivation and delivers its output.
    pub fn finish_derive(
        &mut self,
        operation: &Pbkdf2<'_>,
        output: &mut [u8; 32],
    ) -> (result: Result<(), CryptoError>)
        requires
            operation.state().stage is Finished,
        ensures
            final(self).leaves(*old(self)),
            operation.state().stage == (RkpStage::Finished { result }),
            final(output)@ == operation.state().output,
    {
        self.busy = false;
        *output = operation.output();
        match operation.result() {
            Some(result) => result,
            None => Ok(()),
        }
    }

    /// Accepts a hash of a message of at most 4096 bytes.
    ///
    /// `output` is the caller's buffer, which must have the length of the digest; the
    /// addresses are those at which SPACC finds the parts of the hash storage.
    pub fn hash<'m>(
        &mut self,
        algorithm: HashAlgorithm,
        parts: &'m [&'m [u8]],
        output: &[u8],
        nodes_address: usize,
        bytes_address: usize,
    ) -> (result: Result<HashEngine<'m>, CryptoError>)
        ensures
            final(self).answers_request(
                *old(self),
                hash_refusal(old(self).is_busy(), algorithm, concat(parts@), output@.len()),
            ),
            match hash_refusal(old(self).is_busy(), algorithm, concat(parts@), output@.len()) {
                Some(error) => result == Err::<HashEngine<'m>, _>(error),
                None => result is Ok && result->Ok_0.valid(
                    final(self).memory().hash,
                ) && result->Ok_0.input() == (HashInput {
                    algorithm,
                    lock_polls: old(self).hash_limits().lock@,
                    clear_polls: old(self).hash_limits().clear@,
                    operation_polls: old(self).hash_limits().operation@,
                    nodes_address,
                    bytes_address,
                }) && result->Ok_0.message() == whole_message(parts@) && result->Ok_0.state(
                    final(self).memory().hash,
                ) == hash_start(
                    result->Ok_0.input(),
                    final(self).memory().hash@,
                ),
            },
    {
        if let Err(error) = self.enter() {
            return Err(error);
        }
        match checked_parts_len(parts) {
            Ok(length) if length <= MAX_HASH_INPUT_BYTES && output.len()
                == algorithm.output_len() => Ok(
                HashEngine::new(
                    algorithm,
                    self.spacc_limits,
                    nodes_address,
                    bytes_address,
                    parts,
                ),
            ),
            _ => {
                self.busy = false;
                Err(CryptoError::InvalidLength)
            },
        }
    }

    /// Ends a hash; a digest is delivered with success alone, and to a buffer of its length
    /// alone.
    pub fn finish_hash(
        &mut self,
        engine: &HashEngine<'_>,
        output: &mut [u8],
    ) -> (result: Result<(), CryptoError>)
        requires
            engine.valid(old(self).memory().hash),
            engine.state(old(self).memory().hash).stage is Finished,
        ensures
            final(self).leaves(*old(self)),
            result == if old(output)@.len() != 4 * digest_words(engine.input().algorithm) {
                Err(CryptoError::InvalidLength)
            } else {
                engine.state(old(self).memory().hash).stage->Finished_result
            },
            final(output)@ == if result is Ok {
                engine.state(old(self).memory().hash).digest.take(old(output)@.len() as int)
            } else {
                old(output)@
            },
    {
        self.busy = false;
        if output.len() != engine.output_len() {
            return Err(CryptoError::InvalidLength);
        }
        deliver(engine.result(), &engine.digest(), output)
    }

    /// Accepts an HMAC with key and message of at most 4096 bytes each.
    ///
    /// `output` is the caller's buffer; where it does not have the length of the digest, the
    /// MAC fails before its last hash. The addresses are those at which SPACC finds the
    /// parts of the hash storage.
    pub fn mac<'m>(
        &mut self,
        algorithm: HashAlgorithm,
        key: &'m [u8],
        parts: &'m [&'m [u8]],
        output: &[u8],
        nodes_address: usize,
        bytes_address: usize,
    ) -> (result: Result<HmacEngine<'m>, CryptoError>)
        ensures
            final(self).answers_request(
                *old(self),
                mac_refusal(old(self).is_busy(), key@, concat(parts@)),
            ),
            match mac_refusal(old(self).is_busy(), key@, concat(parts@)) {
                Some(error) => result == Err::<HmacEngine<'m>, _>(error),
                None => result is Ok && result->Ok_0.valid(
                    final(self).memory().hash,
                ) && result->Ok_0.input() == (HmacInput {
                    hash: HashInput {
                        algorithm,
                        lock_polls: old(self).hash_limits().lock@,
                        clear_polls: old(self).hash_limits().clear@,
                        operation_polls: old(self).hash_limits().operation@,
                        nodes_address,
                        bytes_address,
                    },
                    key: key@,
                    message: concat(parts@),
                    output_len: output@.len(),
                }) && result->Ok_0.state(final(self).memory().hash) == hmac_start(
                    result->Ok_0.input(),
                    final(self).memory().hash@,
                ),
            },
    {
        if let Err(error) = self.enter() {
            return Err(error);
        }
        let limits = self.spacc_limits;
        let length = output.len();
        match HmacEngine::new(algorithm, limits, nodes_address, bytes_address, key, parts, length) {
            Ok(engine) => Ok(engine),
            Err(error) => {
                self.busy = false;
                Err(error)
            },
        }
    }

    /// Ends a MAC; it is delivered with success alone, and to a buffer of its length alone.
    pub fn finish_mac(
        &mut self,
        engine: &HmacEngine<'_>,
        output: &mut [u8],
    ) -> (result: Result<(), CryptoError>)
        requires
            engine.valid(old(self).memory().hash),
            engine.state(old(self).memory().hash).phase is Finished,
        ensures
            final(self).leaves(*old(self)),
            result == if engine.state(old(self).memory().hash).phase->result is Ok && old(
                output,
            )@.len() != 4 * digest_words(engine.input().hash.algorithm) {
                Err(CryptoError::InvalidLength)
            } else {
                engine.state(old(self).memory().hash).phase->result
            },
            final(output)@ == if result is Ok {
                engine.state(old(self).memory().hash).hash.digest.take(old(output)@.len() as int)
            } else {
                old(output)@
            },
    {
        self.busy = false;
        let result = engine.result();
        if output.len() != engine.output_len() {
            return match result {
                Some(Err(error)) => Err(error),
                _ => Err(CryptoError::InvalidLength),
            };
        }
        deliver(result, &engine.digest(), output)
    }

    /// Accepts a block operation.
    fn block<'m>(
        &mut self,
        key: &'m [u8],
        input: &'m [u8; AES_BLOCK_BYTES],
        output: &[u8; AES_BLOCK_BYTES],
        addresses: CipherAddresses,
        decrypt: bool,
    ) -> (result: Result<CipherEngine<'m>, CryptoError>)
        ensures
            final(self).answers_request(*old(self), block_refusal(old(self).is_busy(), key@)),
            match block_refusal(old(self).is_busy(), key@) {
                Some(error) => result == Err::<CipherEngine<'m>, _>(error),
                None => result is Ok && result->Ok_0.valid(
                    final(self).memory().cipher,
                ) && result->Ok_0.input() == block_input(
                    old(self).block_limits(),
                    key@,
                    input@,
                    addresses,
                    decrypt,
                ) && result->Ok_0.state(final(self).memory().cipher) == cipher_start(
                    output@,
                    final(self).memory().cipher@,
                ),
            },
    {
        if let Err(error) = self.enter() {
            return Err(error);
        }
        match CipherEngine::new(key, input, decrypt, self.cipher_limits, addresses, *output) {
            Ok(engine) => Ok(engine),
            Err(error) => {
                self.busy = false;
                Err(error)
            },
        }
    }

    /// Accepts the encryption of a block with a key of 16, 24 or 32 bytes.
    ///
    /// `output` is what the caller's buffer holds; the addresses are those at which SPACC
    /// finds the parts of the cipher storage.
    pub fn encrypt_block<'m>(
        &mut self,
        key: &'m [u8],
        input: &'m [u8; AES_BLOCK_BYTES],
        output: &[u8; AES_BLOCK_BYTES],
        addresses: CipherAddresses,
    ) -> (result: Result<CipherEngine<'m>, CryptoError>)
        ensures
            final(self).answers_request(*old(self), block_refusal(old(self).is_busy(), key@)),
            match block_refusal(old(self).is_busy(), key@) {
                Some(error) => result == Err::<CipherEngine<'m>, _>(error),
                None => result is Ok && result->Ok_0.valid(
                    final(self).memory().cipher,
                ) && result->Ok_0.input() == block_input(
                    old(self).block_limits(),
                    key@,
                    input@,
                    addresses,
                    false,
                ) && result->Ok_0.state(final(self).memory().cipher) == cipher_start(
                    output@,
                    final(self).memory().cipher@,
                ),
            },
    {
        self.block(key, input, output, addresses, false)
    }

    /// Accepts the decryption of a block with a key of 16, 24 or 32 bytes.
    ///
    /// `output` is what the caller's buffer holds; the addresses are those at which SPACC
    /// finds the parts of the cipher storage.
    pub fn decrypt_block<'m>(
        &mut self,
        key: &'m [u8],
        input: &'m [u8; AES_BLOCK_BYTES],
        output: &[u8; AES_BLOCK_BYTES],
        addresses: CipherAddresses,
    ) -> (result: Result<CipherEngine<'m>, CryptoError>)
        ensures
            final(self).answers_request(*old(self), block_refusal(old(self).is_busy(), key@)),
            match block_refusal(old(self).is_busy(), key@) {
                Some(error) => result == Err::<CipherEngine<'m>, _>(error),
                None => result is Ok && result->Ok_0.valid(
                    final(self).memory().cipher,
                ) && result->Ok_0.input() == block_input(
                    old(self).block_limits(),
                    key@,
                    input@,
                    addresses,
                    true,
                ) && result->Ok_0.state(final(self).memory().cipher) == cipher_start(
                    output@,
                    final(self).memory().cipher@,
                ),
            },
    {
        self.block(key, input, output, addresses, true)
    }

    /// Ends a block operation and delivers its output.
    pub fn finish_block(
        &mut self,
        engine: &CipherEngine<'_>,
        output: &mut [u8; AES_BLOCK_BYTES],
    ) -> (result: Result<(), CryptoError>)
        requires
            engine.state(old(self).memory().cipher).stage is Finished,
        ensures
            final(self).leaves(*old(self)),
            result == engine.state(old(self).memory().cipher).result,
            final(output)@ == engine.state(old(self).memory().cipher).output,
    {
        self.busy = false;
        *output = engine.output();
        match engine.result() {
            Some(result) => result,
            None => Ok(()),
        }
    }

    /// Accepts a request for entropy.
    pub fn begin_fill_entropy(&mut self) -> (result: Result<(), CryptoError>)
        ensures
            final(self).enters(*old(self), result),
    {
        self.enter()
    }

    /// Ends a request for entropy; `filled` says whether the generator filled the buffer.
    pub fn finish_fill_entropy(&mut self, filled: bool) -> (result: Result<(), CryptoError>)
        ensures
            final(self).leaves(*old(self)),
            result == if filled {
                Ok::<(), CryptoError>(())
            } else {
                Err(CryptoError::Backend(ERR_TRNG))
            },
    {
        self.busy = false;
        if filled {
            Ok(())
        } else {
            Err(CryptoError::Backend(ERR_TRNG))
        }
    }

    /// Gives up the operation in progress without a result.
    pub fn abandon(&mut self)
        ensures
            final(self).leaves(*old(self)),
    {
        self.busy = false;
    }

    /// The self-test of the hash channel.
    pub fn diagnostic_lock_timeout_recovery(&self) -> (diagnostic: HashDiagnostic)
        ensures
            diagnostic.trial() == Trial::Claim,
    {
        HashDiagnostic::new()
    }

    /// The self-test of the symmetric channel.
    pub fn diagnostic_cipher_recovery(&self) -> (diagnostic: CipherDiagnostic)
        ensures
            diagnostic.trial() == Trial::Claim,
    {
        CipherDiagnostic::new()
    }
}

/// What a block operation is about.
pub open spec fn block_input(
    limits: SpaccCipherPollLimits,
    key: Seq<u8>,
    block: Seq<u8>,
    addresses: CipherAddresses,
    decrypt: bool,
) -> CipherInput {
    CipherInput {
        key,
        block,
        decrypt,
        lock_polls: limits.channel_lock@,
        clear_polls: limits.channel_clear@,
        operation_polls: limits.operation@,
        keyslot_polls: limits.keyslot@,
        klad_polls: limits.klad@,
        addresses,
    }
}

/// Copies the first bytes of a digest to the output if the operation succeeded.
fn deliver(
    result: Option<Result<(), CryptoError>>,
    digest: &[u8; 32],
    output: &mut [u8],
) -> (delivered: Result<(), CryptoError>)
    requires
        result is Some,
        old(output)@.len() <= 32,
    ensures
        delivered == result->0,
        final(output)@ == if delivered is Ok {
            digest@.take(old(output)@.len() as int)
        } else {
            old(output)@
        },
{
    match result {
        Some(delivered) => {
            if delivered.is_ok() {
                let length = output.len();
                copy_at(output, 0, vstd::slice::slice_subrange(digest, 0, length));
                proof {
                    assert(output@ =~= digest@.take(length as int));
                }
            }
            delivered
        },
        None => Ok(()),
    }
}

} // verus!
