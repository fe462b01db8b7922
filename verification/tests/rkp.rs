use hisi_crypto::{Pbkdf2HmacSha1, RustCryptoProvider, TryMac};
use hisi_crypto_ws63::bus::{Ask, Command, Reply, Source, Step};
use hisi_crypto_ws63::rkp::{
    prepare_sha1_salt_block, word_at, Pbkdf2, ERR_LOCK_TIMEOUT, ERR_OPERATION_TIMEOUT, ERR_TRNG,
    SHA1_INITIAL_STATE,
};
use hisi_crypto_ws63::{CryptoError, PollLimit, RkpPollLimits};

/// A key derivation engine that works on its windows.
struct Engine {
    owner: u8,
    key: [u32; 32],
    data: [u32; 32],
    val: [u32; 16],
    request: bool,
    lock_after: u32,
    busy_reads: u32,
    error: u32,
    random: Vec<Option<u32>>,
    fences: u32,
}

impl Engine {
    fn new() -> Self {
        Self {
            owner: 0,
            key: [0xdead_beef; 32],
            data: [0xdead_beef; 32],
            val: [0xdead_beef; 16],
            request: false,
            lock_after: 0,
            busy_reads: 0,
            error: 0,
            random: vec![],
            fences: 0,
        }
    }

    fn bytes(words: &[u32]) -> Vec<u8> {
        words.iter().flat_map(|word| word.to_le_bytes()).collect()
    }

    fn calculate(&mut self, iterations: u16) {
        let state = Self::bytes(&self.val[..5]);
        assert_eq!(state, SHA1_INITIAL_STATE);
        let password = Self::bytes(&self.key);
        assert!(password[64..].iter().all(|byte| *byte == 0));
        let salt = Self::bytes(&self.data);
        let bits = u64::from_be_bytes(salt[56..64].try_into().unwrap());
        let length = (bits / 8 - 64) as usize;
        assert_eq!(salt[length], 0x80);
        assert!(salt[length + 1..56].iter().all(|byte| *byte == 0));
        assert!(salt[64..].iter().all(|byte| *byte == 0));
        let mut block = [0u8; 20];
        let mut last = [0u8; 20];
        RustCryptoProvider.mac(&password[..64], &[&salt[..length]], &mut last).unwrap();
        for _ in 0..iterations {
            for (byte, other) in block.iter_mut().zip(last) {
                *byte ^= other;
            }
            let mut next = [0u8; 20];
            RustCryptoProvider.mac(&password[..64], &[&last], &mut next).unwrap();
            last = next;
        }
        for (index, chunk) in block.chunks(4).enumerate() {
            self.val[index] = u32::from_le_bytes(chunk.try_into().unwrap());
        }
    }

    fn perform(&mut self, commands: &[Command]) {
        for command in commands {
            match *command {
                Command::Fence => self.fences += 1,
                Command::RkpLock { owner } => {
                    if owner == 0 {
                        self.owner = 0;
                    } else if self.lock_after == 0 {
                        self.owner = owner;
                    } else {
                        self.lock_after -= 1;
                    }
                }
                Command::RkpKey { index, word } => self.key[index] = word,
                Command::RkpData { index, word } => self.data[index] = word,
                Command::RkpVal { index, word } => self.val[index] = word,
                Command::RkpStart { iterations, key_source, algorithm } => {
                    assert_eq!((key_source, algorithm), (3, 1));
                    assert_eq!(self.owner, 1);
                    self.calculate(iterations);
                    self.request = true;
                }
                Command::RkpAcknowledge => assert!(!self.request),
                other => panic!("unexpected {other:?}"),
            }
        }
    }

    fn answer(&mut self, ask: Ask) -> Reply {
        match ask {
            Ask::Read { source: Source::RkpLock } => Reply::Word { word: u32::from(self.owner) },
            Ask::Read { source: Source::RkpRequest } => {
                if self.busy_reads == 0 {
                    self.request = false;
                } else {
                    self.busy_reads -= 1;
                }
                Reply::Word { word: u32::from(self.request) }
            }
            Ask::Read { source: Source::KdfError } => Reply::Word { word: self.error },
            Ask::Read { source: Source::RkpVal { index } } => Reply::Word { word: self.val[index] },
            Ask::Random => match self.random.pop() {
                Some(Some(word)) => Reply::Word { word },
                Some(None) => Reply::RandomFailed,
                None => Reply::Word { word: 0x1234_5677 },
            },
            other => panic!("unexpected {other:?}"),
        }
    }

    fn run(&mut self, operation: &mut Pbkdf2) -> (Result<(), CryptoError>, [u8; 32], usize) {
        let mut step: Step = operation.begin();
        let mut asked = 0;
        loop {
            self.perform(&step.commands);
            if step.ask == Ask::Finished {
                return (operation.result().unwrap(), operation.output(), asked);
            }
            assert_eq!(operation.result(), None);
            asked += 1;
            let reply = self.answer(step.ask);
            step = operation.resume(reply);
        }
    }

    fn is_wiped(&self) -> bool {
        self.owner == 0
            && self.key.iter().all(|word| *word == 0)
            && self.data.iter().all(|word| *word == 0)
            && self.val.iter().all(|word| *word == 0)
    }
}

fn limits(lock: u32, operation: u32) -> RkpPollLimits {
    RkpPollLimits::new(PollLimit::new(lock).unwrap(), PollLimit::new(operation).unwrap())
}

#[test]
fn derivation_equals_software() {
    for (password, salt, iterations) in [
        (&b"password"[..], &b"IEEE"[..], 1u16),
        (b"password", b"IEEE", 3),
        (&[7u8; 64], &[9u8; 51], 2),
        (b"", b"", 5),
    ] {
        let mut expected = [0u8; 32];
        RustCryptoProvider
            .derive_32(password, salt, u32::from(iterations), &mut expected)
            .unwrap();
        let mut engine = Engine::new();
        let mut operation = Pbkdf2::new(password, salt, iterations, limits(1, 1), [0xff; 32]);
        let (result, output, _) = engine.run(&mut operation);
        assert_eq!(result, Ok(()));
        assert_eq!(output, expected);
        assert!(engine.is_wiped());
    }
}

#[test]
fn known_derivation() {
    // PBKDF2-HMAC-SHA1 of "password" and "salt", two iterations.
    let mut engine = Engine::new();
    let mut operation = Pbkdf2::new(b"password", b"salt", 2, limits(1, 1), [0; 32]);
    let (result, output, _) = engine.run(&mut operation);
    assert_eq!(result, Ok(()));
    assert_eq!(
        &output[..20],
        &[
            0xea, 0x6c, 0x01, 0x4d, 0xc7, 0x2d, 0x6f, 0x8c, 0xcd, 0x1e, 0xd9, 0x2a, 0xce, 0x1d,
            0x41, 0xf0, 0xd8, 0xde, 0x89, 0x57,
        ]
    );
}

#[test]
fn write_and_read_order_do_not_matter() {
    let mut outputs = vec![];
    for word in [0u32, 1, 4, 31, 32, u32::MAX] {
        let mut engine = Engine::new();
        engine.random = vec![Some(word); 5];
        let mut operation = Pbkdf2::new(b"secret", b"net", 2, limits(1, 1), [0; 32]);
        let (result, output, _) = engine.run(&mut operation);
        assert_eq!(result, Ok(()));
        outputs.push(output);
    }
    assert!(outputs.iter().all(|output| *output == outputs[0]));
}

#[test]
fn waits_may_take_their_limits() {
    let mut expected = [0u8; 32];
    RustCryptoProvider.derive_32(b"password", b"salt", 2, &mut expected).unwrap();
    let mut engine = Engine::new();
    engine.lock_after = 2;
    engine.busy_reads = 2;
    let mut operation = Pbkdf2::new(b"password", b"salt", 2, limits(3, 3), [0; 32]);
    let (result, output, _) = engine.run(&mut operation);
    assert_eq!((result, output), (Ok(()), expected));
    assert!(engine.is_wiped());
}

#[test]
fn lock_is_retried_up_to_the_limit() {
    let mut engine = Engine::new();
    engine.lock_after = 2;
    let mut operation = Pbkdf2::new(b"a", b"b", 1, limits(3, 1), [0; 32]);
    assert_eq!(engine.run(&mut operation).0, Ok(()));

    let mut engine = Engine::new();
    engine.lock_after = 3;
    let mut operation = Pbkdf2::new(b"a", b"b", 1, limits(3, 1), [5; 32]);
    let (result, output, asked) = engine.run(&mut operation);
    assert_eq!(result, Err(CryptoError::Backend(ERR_LOCK_TIMEOUT)));
    assert_eq!(output, [5; 32]);
    assert_eq!(asked, 3);
    assert_eq!(engine.key, [0xdead_beef; 32]);
}

#[test]
fn slow_block_times_out_and_is_wiped() {
    let mut engine = Engine::new();
    engine.busy_reads = 4;
    let mut operation = Pbkdf2::new(b"a", b"b", 1, limits(1, 5), [0; 32]);
    assert_eq!(engine.run(&mut operation).0, Ok(()));

    let mut engine = Engine::new();
    engine.busy_reads = 5;
    let mut operation = Pbkdf2::new(b"a", b"b", 1, limits(1, 5), [5; 32]);
    let (result, output, _) = engine.run(&mut operation);
    assert_eq!(result, Err(CryptoError::Backend(ERR_OPERATION_TIMEOUT)));
    assert_eq!(output, [5; 32]);
    assert!(engine.is_wiped());
}

#[test]
fn hardware_error_word_is_reported() {
    let mut engine = Engine::new();
    engine.error = 0x77;
    let mut operation = Pbkdf2::new(b"a", b"b", 1, limits(1, 1), [5; 32]);
    assert_eq!(engine.run(&mut operation).0, Err(CryptoError::Backend(0x77)));
    assert!(engine.is_wiped());
}

#[test]
fn generator_failure_is_reported_at_every_draw() {
    let whole = {
        let mut expected = [0u8; 32];
        RustCryptoProvider.derive_32(b"a", b"b", 1, &mut expected).unwrap();
        expected
    };
    for draw in 0..5usize {
        let mut engine = Engine::new();
        let mut draws = vec![Some(3u32); 5];
        draws[draw] = None;
        draws.reverse();
        engine.random = draws;
        let mut operation = Pbkdf2::new(b"a", b"b", 1, limits(1, 1), [5; 32]);
        let (result, output, _) = engine.run(&mut operation);
        assert_eq!(result, Err(CryptoError::Backend(ERR_TRNG)));
        assert!(engine.is_wiped());
        // The first block is delivered before the second is started.
        if draw < 3 {
            assert_eq!(output, [5; 32]);
        } else {
            assert_eq!(output[..20], whole[..20]);
            assert_eq!(output[20..], [5; 12]);
        }
    }
}

#[test]
fn salt_block_holds_index_and_bit_length() {
    let block = prepare_sha1_salt_block(&[0xaa; 51], 2);
    assert_eq!(&block[..51], &[0xaa; 51]);
    assert_eq!(&block[51..55], &[0, 0, 0, 2]);
    assert_eq!(block[55], 0x80);
    assert_eq!(&block[56..64], &(119u64 * 8).to_be_bytes());
    assert_eq!(word_at(&block, 13), u32::from_le_bytes([0, 0, 2, 0x80]));
}
