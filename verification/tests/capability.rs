use hisi_crypto::{Pbkdf2HmacSha1, RustCryptoProvider};
use hisi_crypto_ws63::bus::{Ask, Reply, Source};
use hisi_crypto_ws63::cache::{clean_dcache_range, CACHE_LINE};
use hisi_crypto_ws63::crypto::ERR_BUSY;
use hisi_crypto_ws63::diagnostics::{
    claim_without_attempts, HashDiagnostic, Trial, ERR_HASH_CLAIM, ERR_HASH_DIGEST, HASH_DIGEST,
};
use hisi_crypto_ws63::layout::{array_layout, byte_layout, struct_layout, word_layout, Layout};
use hisi_crypto_ws63::limits::DEFAULT_POLL_LIMIT;
use hisi_crypto_ws63::padding::checked_parts_len;
use hisi_crypto_ws63::rkp::ERR_TRNG;
use hisi_crypto_ws63::spacc_cipher::{CipherAddresses, ERR_KEYSLOT_UNAVAILABLE};
use hisi_crypto_ws63::spacc_hash::{HashAlgorithm, ERR_SPACC_LOCK_TIMEOUT};
use hisi_crypto_ws63::{
    CryptoError, PollLimit, RkpPollLimits, SpaccCipherPollLimits, SpaccPollLimits, Ws63Crypto,
    Ws63CryptoResources, Ws63CryptoStorage,
};

const ADDRESSES: CipherAddresses =
    CipherAddresses { input_nodes: 0, output_nodes: 64, input: 96, output: 112 };

fn resources() -> Ws63CryptoResources<'static> {
    let tokens = hisi_hal::peripherals::Peripherals::take().unwrap();
    let storage = Box::leak(Box::new(Ws63CryptoStorage::new()));
    Ws63CryptoResources::new(tokens.KM, tokens.SPACC, tokens.TRNG, storage)
}

fn crypto() -> Ws63Crypto<'static> {
    let limit = PollLimit::new(2).unwrap();
    Ws63Crypto::with_poll_limits(
        resources(),
        RkpPollLimits::new(limit, limit),
        SpaccPollLimits::new(limit, limit, limit),
        SpaccCipherPollLimits::new(limit, limit, limit, limit, limit),
    )
}

#[test]
fn default_limits_bound_a_claim() {
    let mut crypto = Ws63Crypto::new(resources());
    let parts: [&[u8]; 1] = [b"abc"];
    let mut engine = crypto.hash(HashAlgorithm::Sha1, &parts, &[0; 20], 0, 64).unwrap();
    let mut step = engine.begin();
    let mut asked = 0;
    while step.ask != Ask::Finished {
        asked += 1;
        step = engine.resume(&mut crypto.storage().hash, Reply::Word { word: 0xf0 });
    }
    assert_eq!(asked, DEFAULT_POLL_LIMIT);
    let mut output = [7u8; 20];
    assert_eq!(
        crypto.finish_hash(&engine, &mut output),
        Err(CryptoError::Backend(ERR_SPACC_LOCK_TIMEOUT))
    );
    assert_eq!(output, [7; 20]);
}

#[test]
fn one_operation_at_a_time() {
    let mut crypto = crypto();
    let busy = Some(CryptoError::Backend(ERR_BUSY));
    assert_eq!(crypto.begin_fill_entropy(), Ok(()));
    assert_eq!(crypto.derive_32(b"a", b"b", 1, &[0; 32]).err(), busy);
    assert_eq!(crypto.hash(HashAlgorithm::Sha1, &[], &[0; 20], 0, 0).err(), busy);
    assert_eq!(crypto.mac(HashAlgorithm::Sha1, b"", &[], &[0; 20], 0, 0).err(), busy);
    assert_eq!(crypto.encrypt_block(&[0; 16], &[0; 16], &[0; 16], ADDRESSES).err(), busy);
    assert_eq!(crypto.decrypt_block(&[0; 16], &[0; 16], &[0; 16], ADDRESSES).err(), busy);
    assert_eq!(crypto.begin_fill_entropy().err(), busy);
    // A derivation is checked before the engines are taken, the others after.
    let length = Some(CryptoError::InvalidLength);
    assert_eq!(crypto.derive_32(&[0; 65], b"b", 1, &[0; 32]).err(), length);
    assert_eq!(crypto.encrypt_block(&[0; 15], &[0; 16], &[0; 16], ADDRESSES).err(), busy);
    assert_eq!(crypto.finish_fill_entropy(true), Ok(()));
    assert_eq!(crypto.begin_fill_entropy(), Ok(()));
    assert_eq!(crypto.finish_fill_entropy(false), Err(CryptoError::Backend(ERR_TRNG)));
    // A refused operation leaves the engines free.
    let long = [0u8; 4097];
    assert_eq!(crypto.hash(HashAlgorithm::Sha256, &[&long], &[0; 32], 0, 0).err(), length);
    assert_eq!(crypto.mac(HashAlgorithm::Sha256, &long, &[], &[0; 32], 0, 0).err(), length);
    assert_eq!(crypto.decrypt_block(&[0; 15], &[0; 16], &[0; 16], ADDRESSES).err(), length);
    assert_eq!(crypto.begin_fill_entropy(), Ok(()));
}

#[test]
fn derivation_limits() {
    let mut crypto = crypto();
    let mut accepted = |password: usize, salt: usize, iterations: u32| {
        let password = vec![0u8; password];
        let salt = vec![0u8; salt];
        let result = crypto.derive_32(&password, &salt, iterations, &[0; 32]).err();
        if result.is_none() {
            crypto.finish_fill_entropy(true).unwrap();
        }
        result
    };
    let length = Some(CryptoError::InvalidLength);
    assert_eq!(accepted(64, 51, 65535), None);
    assert_eq!(accepted(0, 0, 1), None);
    assert_eq!(accepted(65, 51, 1), length);
    assert_eq!(accepted(64, 52, 1), length);
    assert_eq!(accepted(64, 51, 0), length);
    assert_eq!(accepted(64, 51, 65536), length);
}

#[test]
fn derivation_is_delivered() {
    let mut crypto = crypto();
    let mut expected = [0u8; 32];
    RustCryptoProvider.derive_32(b"password", b"salt", 4096, &mut expected).unwrap();
    let mut output = [1u8; 32];
    let mut operation = crypto.derive_32(b"password", b"salt", 4096, &output).unwrap();
    let mut step = operation.begin();
    let mut block = 0;
    while step.ask != Ask::Finished {
        let word = match step.ask {
            Ask::Read { source: Source::RkpLock } => 1,
            Ask::Read { source: Source::RkpVal { index } } => {
                // The second block has twelve bytes in the output.
                let at = 20 * block + 4 * index;
                let bytes = if at + 4 <= 32 { expected[at..at + 4].try_into().unwrap() } else { [0; 4] };
                u32::from_le_bytes(bytes)
            }
            Ask::Random => {
                block = usize::from(operation.output() != [1; 32]);
                3
            }
            _ => 0,
        };
        step = operation.resume(Reply::Word { word });
    }
    assert_eq!(crypto.finish_derive(&operation, &mut output), Ok(()));
    assert_eq!(output, expected);
    assert_eq!(crypto.begin_fill_entropy(), Ok(()));
}

#[test]
fn block_failure_is_delivered() {
    let mut crypto = crypto();
    let mut output = [9u8; 16];
    let mut engine = crypto.decrypt_block(&[1; 24], &[2; 16], &output, ADDRESSES).unwrap();
    let mut step = engine.begin();
    while step.ask != Ask::Finished {
        step = engine.resume(&mut crypto.storage().cipher, Reply::Word { word: 5 });
    }
    assert_eq!(
        crypto.finish_block(&engine, &mut output),
        Err(CryptoError::Backend(ERR_KEYSLOT_UNAVAILABLE))
    );
    assert_eq!(output, [9; 16]);
    assert_eq!(crypto.begin_fill_entropy(), Ok(()));
}

#[test]
fn mac_failure_is_delivered() {
    let mut crypto = crypto();
    let parts: [&[u8]; 1] = [b"m"];
    let mut engine = crypto.mac(HashAlgorithm::Sha256, b"k", &parts, &[0; 32], 0, 64).unwrap();
    let mut step = engine.begin();
    while step.ask != Ask::Finished {
        step = engine.resume(&mut crypto.storage().hash, Reply::Word { word: 0x20 });
    }
    let mut output = [9u8; 32];
    assert_eq!(
        crypto.finish_mac(&engine, &mut output),
        Err(CryptoError::Backend(ERR_SPACC_LOCK_TIMEOUT))
    );
    assert_eq!(output, [9; 32]);
}

#[test]
fn outputs_of_another_length_are_refused() {
    let mut crypto = crypto();
    let length = Some(CryptoError::InvalidLength);
    for output in [&[0u8; 0][..], &[0; 19], &[0; 21], &[0; 32]] {
        assert_eq!(crypto.hash(HashAlgorithm::Sha1, &[b"abc"], output, 0, 64).err(), length);
    }
    assert_eq!(crypto.hash(HashAlgorithm::Sha256, &[b"abc"], &[0; 20], 0, 64).err(), length);
    // The refusals left the engines free, and an operation in progress is named first.
    let parts: [&[u8]; 1] = [b"abc"];
    let mut engine = crypto.hash(HashAlgorithm::Sha1, &parts, &[0; 20], 0, 64).unwrap();
    let busy = Some(CryptoError::Backend(ERR_BUSY));
    assert_eq!(crypto.hash(HashAlgorithm::Sha1, &[b"abc"], &[0; 19], 0, 64).err(), busy);
    let mut step = engine.begin();
    while step.ask != Ask::Finished {
        let reply = Reply::Word { word: 0xf0 };
        step = engine.resume(&mut crypto.storage().hash, reply);
    }
    let mut output = [7u8; 19];
    assert_eq!(crypto.finish_hash(&engine, &mut output), Err(CryptoError::InvalidLength));
    assert_eq!(output, [7; 19]);
    assert_eq!(crypto.begin_fill_entropy(), Ok(()));
}

#[test]
fn failed_mac_names_its_error_before_the_output_length() {
    let mut crypto = crypto();
    let parts: [&[u8]; 1] = [b"m"];
    let mut output = [9u8; 31];
    let mut engine = crypto.mac(HashAlgorithm::Sha256, b"k", &parts, &output, 0, 64).unwrap();
    let mut step = engine.begin();
    while step.ask != Ask::Finished {
        step = engine.resume(&mut crypto.storage().hash, Reply::Word { word: 0x20 });
    }
    assert_eq!(
        crypto.finish_mac(&engine, &mut output),
        Err(CryptoError::Backend(ERR_SPACC_LOCK_TIMEOUT))
    );
    assert_eq!(output, [9; 31]);
    assert_eq!(crypto.begin_fill_entropy(), Ok(()));
}

#[test]
fn refused_entries_do_not_free_the_engines() {
    let mut crypto = crypto();
    let busy = CryptoError::Backend(ERR_BUSY);
    assert!(crypto.hash(HashAlgorithm::Sha1, &[b"abc"], &[0; 20], 0, 64).is_ok());
    for _ in 0..3 {
        assert_eq!(crypto.begin_fill_entropy(), Err(busy));
    }
    crypto.abandon();
    assert_eq!(crypto.begin_fill_entropy(), Ok(()));
    assert_eq!(crypto.begin_fill_entropy(), Err(busy));
    assert_eq!(crypto.finish_fill_entropy(true), Ok(()));
    assert_eq!(crypto.begin_fill_entropy(), Ok(()));
}

#[test]
fn hash_diagnostic_tells_failures_apart() {
    let crypto = crypto();
    assert_eq!(crypto.diagnostic_cipher_recovery().next(), Trial::Claim);
    let mut diagnostic: HashDiagnostic = crypto.diagnostic_lock_timeout_recovery();
    assert_eq!(diagnostic.next(), Trial::Claim);
    diagnostic.claimed(claim_without_attempts(ERR_SPACC_LOCK_TIMEOUT));
    assert_eq!(diagnostic.next(), Trial::Hash);
    diagnostic.hashed(Ok(HASH_DIGEST));
    assert_eq!(diagnostic.next(), Trial::Over { result: Ok(()) });

    let mut diagnostic = HashDiagnostic::new();
    diagnostic.claimed(Ok(()));
    let error = CryptoError::Backend(ERR_HASH_CLAIM);
    assert_eq!(diagnostic.next(), Trial::Over { result: Err(error) });

    let mut diagnostic = HashDiagnostic::new();
    diagnostic.claimed(claim_without_attempts(ERR_SPACC_LOCK_TIMEOUT));
    diagnostic.hashed(Ok([0; 20]));
    let error = CryptoError::Backend(ERR_HASH_DIGEST);
    assert_eq!(diagnostic.next(), Trial::Over { result: Err(error) });

    let mut diagnostic = HashDiagnostic::new();
    diagnostic.claimed(claim_without_attempts(ERR_SPACC_LOCK_TIMEOUT));
    diagnostic.hashed(Err(CryptoError::Unsupported));
    assert_eq!(diagnostic.next(), Trial::Over { result: Err(CryptoError::Unsupported) });
}

#[test]
fn poll_limits_refuse_zero() {
    assert_eq!(PollLimit::new(0), None);
    assert_eq!(PollLimit::new(1).unwrap().get(), 1);
    let (one, two, three) =
        (PollLimit::new(1).unwrap(), PollLimit::new(2).unwrap(), PollLimit::new(3).unwrap());
    let limits = SpaccPollLimits::new(one, two, three);
    assert_eq!((limits.lock(), limits.clear(), limits.operation()), (one, two, three));
    let limits = RkpPollLimits::new(one, two);
    assert_eq!((limits.lock(), limits.operation()), (one, two));
    let limits = SpaccCipherPollLimits::new(one, two, three, two, one);
    assert_eq!((limits.channel_lock(), limits.channel_clear()), (one, two));
    assert_eq!((limits.operation(), limits.keyslot(), limits.klad()), (three, two, one));
}

#[test]
fn new_storage_is_empty() {
    let storage = Ws63CryptoStorage::default();
    assert!(storage.hash.bytes.iter().all(|byte| *byte == 0));
    assert_eq!((storage.cipher.input, storage.cipher.output), ([0; 16], [0; 16]));
    let mut storage = Ws63CryptoStorage::new();
    storage.hash.bytes[5] = 1;
    storage.cipher.output[3] = 1;
    storage.hash.clear();
    storage.cipher.clear();
    assert!(storage.hash.bytes.iter().all(|byte| *byte == 0));
    assert_eq!(storage.cipher.output, [0; 16]);
}

#[test]
fn cache_lines_of_a_range() {
    assert_eq!(CACHE_LINE, 32);
    assert_eq!(clean_dcache_range(0x100, 0), vec![]);
    assert_eq!(clean_dcache_range(0x100, 1), vec![0x100]);
    assert_eq!(clean_dcache_range(0x11f, 1), vec![0x100]);
    assert_eq!(clean_dcache_range(0x11f, 2), vec![0x100, 0x120]);
    assert_eq!(clean_dcache_range(0x100, 64), vec![0x100, 0x120]);
    assert_eq!(clean_dcache_range(0x101, 64), vec![0x100, 0x120, 0x140]);
    assert_eq!(clean_dcache_range(usize::MAX - 10, 5), vec![]);
    assert_eq!(clean_dcache_range(usize::MAX, 5), vec![]);
}

#[test]
fn layouts_are_padded_and_aligned() {
    let word = word_layout();
    let byte = byte_layout();
    assert_eq!(struct_layout(&[byte, word, byte], 1), Layout { size: 12, align: 4 });
    assert_eq!(struct_layout(&[byte, word, byte], 32), Layout { size: 32, align: 32 });
    assert_eq!(struct_layout(&[], 1), Layout { size: 0, align: 1 });
    assert_eq!(array_layout(word, 3), Layout { size: 12, align: 4 });
}

#[test]
fn part_lengths_add_up() {
    assert_eq!(checked_parts_len(&[]), Ok(0));
    assert_eq!(checked_parts_len(&[b"ab", b"", b"cde"]), Ok(5));
}
