use hisi_crypto::{RustCryptoProvider, TryBlockCipher};
use hisi_crypto_ws63::bus::{Ask, Command, Region, Reply, Source, Step};
use hisi_crypto_ws63::diagnostics::{
    claim_without_attempts, CipherDiagnostic, Trial, CIPHER_PLAINTEXT, ERR_CIPHER_CLAIM,
    ERR_CIPHER_DECRYPT, ERR_CIPHER_ENCRYPT,
};
use hisi_crypto_ws63::spacc_cipher::{
    CipherAddresses, CipherDmaStorage, CipherEngine, SymInputNode, SymOutputNode, ERR_ADDRESS,
    ERR_BUS, ERR_CLEAR_TIMEOUT, ERR_CONTROL, ERR_KEYSLOT, ERR_KEYSLOT_UNAVAILABLE, ERR_KLAD,
    ERR_KLAD_LOCK_TIMEOUT, ERR_KLAD_ROUTE_TIMEOUT, ERR_LOCK_TIMEOUT, ERR_OPERATION_TIMEOUT,
};
use hisi_crypto_ws63::{CryptoError, PollLimit, SpaccCipherPollLimits};

const ADDRESSES: CipherAddresses = CipherAddresses {
    input_nodes: 0x2000_0000,
    output_nodes: 0x2000_0040,
    input: 0x2000_0060,
    output: 0x2000_0070,
};

/// A symmetric channel with its key ladder and keyslots.
struct Device {
    slot_owner: [u32; 8],
    slot_key: [[u8; 32]; 8],
    selected: usize,
    stubborn_slots: bool,
    flush_busy: u32,
    flush_failed: Vec<bool>,
    unlock_flush_failed: bool,
    unlocks_ignored: bool,
    klad_owner: u32,
    klad_lock_fail: Vec<u32>,
    klad_unlock_fail: u32,
    klad_address: u16,
    staging: [u32; 4],
    route_busy: u32,
    klad_errors: Vec<u32>,
    slot_errors: Vec<u32>,
    routes: u32,
    owners: u32,
    critical: bool,
    foreign_claims: u32,
    clear_replies: Vec<u32>,
    done: bool,
    busy_reads: u32,
    control_errors: Vec<u32>,
    control_status: u32,
    bus_error: u32,
    slot: usize,
    key_length: u8,
    decrypt: bool,
    in_position: u8,
    out_position: u8,
    started: u32,
    ram_input: [u8; 16],
    ram_in_node: SymInputNode,
    ram_out_node: SymOutputNode,
    seen_input: [u8; 16],
    seen_in_node: SymInputNode,
    seen_out_node: SymOutputNode,
    produced: [u8; 16],
    visible: [u8; 16],
}

impl Device {
    fn new() -> Self {
        Self {
            slot_owner: [0; 8],
            slot_key: [[0; 32]; 8],
            selected: 0,
            stubborn_slots: false,
            flush_busy: 0,
            flush_failed: vec![],
            unlock_flush_failed: false,
            unlocks_ignored: false,
            klad_owner: 0,
            klad_lock_fail: vec![],
            klad_unlock_fail: 0,
            klad_address: 0,
            staging: [0; 4],
            route_busy: 0,
            klad_errors: vec![],
            slot_errors: vec![],
            routes: 0,
            owners: 0x1234_5600,
            critical: false,
            foreign_claims: 0,
            clear_replies: vec![],
            done: true,
            busy_reads: 0,
            control_errors: vec![],
            control_status: 0,
            bus_error: 0,
            slot: 0,
            key_length: 0,
            decrypt: false,
            in_position: 0,
            out_position: 1,
            started: 0,
            ram_input: [0xcc; 16],
            ram_in_node: SymInputNode::empty(),
            ram_out_node: SymOutputNode::empty(),
            seen_input: [0xdd; 16],
            seen_in_node: SymInputNode::empty(),
            seen_out_node: SymOutputNode::empty(),
            produced: [0xee; 16],
            visible: [0; 16],
        }
    }

    fn work(&mut self) {
        assert_eq!(self.seen_in_node.flags, 3);
        assert_eq!(self.seen_in_node.length, 16);
        assert_eq!(self.seen_in_node.address_low, ADDRESSES.input as u32);
        assert_eq!(self.seen_out_node.length, 16);
        assert_eq!(self.seen_out_node.address_low, ADDRESSES.output as u32);
        assert_eq!(self.slot_owner[self.slot], 1);
        let key = &self.slot_key[self.slot][..8 + 8 * usize::from(self.key_length)];
        if self.decrypt {
            RustCryptoProvider.decrypt_block(key, &self.seen_input, &mut self.produced).unwrap();
        } else {
            RustCryptoProvider.encrypt_block(key, &self.seen_input, &mut self.produced).unwrap();
        }
        self.done = true;
        self.started += 1;
    }

    fn perform(&mut self, commands: &[Command], storage: &CipherDmaStorage) {
        for command in commands {
            match *command {
                Command::Fence => {}
                Command::EnterCritical => {
                    assert!(!self.critical);
                    self.critical = true;
                }
                Command::ExitCritical => {
                    assert!(self.critical);
                    self.critical = false;
                }
                Command::KeyslotSelect { slot } => self.selected = usize::from(slot),
                Command::KeyslotLock { slot, lock } => {
                    let slot = usize::from(slot);
                    if lock {
                        if !self.stubborn_slots {
                            self.slot_owner[slot] = 1;
                        }
                    } else {
                        assert_eq!(self.owners & 0xf0, 0);
                        if !self.unlocks_ignored {
                            self.slot_owner[slot] = 0;
                            self.slot_key[slot] = [0; 32];
                        }
                    }
                }
                Command::KladLock => self.klad_owner = 0xaa,
                Command::KladUnlock => {
                    assert_eq!(self.staging, [0; 4]);
                    self.klad_owner = 0;
                }
                Command::KladAddress { address } => self.klad_address = address,
                Command::KladConfig { port, algorithm, encrypt, decrypt } => {
                    assert_eq!((port, algorithm, encrypt, decrypt), (1, 0x20, true, true));
                }
                Command::KladSecurity {
                    key_secure,
                    source_nonsecure,
                    source_secure,
                    destination_nonsecure,
                    destination_secure,
                    master_only,
                } => {
                    assert!(source_nonsecure && destination_nonsecure);
                    assert!(!key_secure && !source_secure && !destination_secure && !master_only);
                }
                Command::KladData { index, word } => {
                    assert_eq!(self.klad_owner, 0xaa);
                    self.staging[index] = word;
                }
                Command::KladRoute { key_size, key_count } => {
                    assert!((1..=3).contains(&key_size));
                    assert_eq!(key_count, 0);
                    let slot = usize::from(self.klad_address >> 1);
                    let half = usize::from(self.klad_address & 1) * 16;
                    for (i, word) in self.staging.iter().enumerate() {
                        self.slot_key[slot][half + 4 * i..half + 4 * i + 4]
                            .copy_from_slice(&word.to_le_bytes());
                    }
                    self.routes += 1;
                }
                Command::KladAcknowledge => {}
                Command::CipherOwners { word } => {
                    assert!(self.critical);
                    assert_eq!(word & !0xf0, self.owners & !0xf0);
                    if self.foreign_claims > 0 {
                        self.foreign_claims -= 1;
                    } else {
                        self.owners = word;
                    }
                }
                Command::CipherClear { channels } => assert_eq!(channels, 2),
                Command::CipherClearAcknowledge { bits } => assert_eq!(bits, 2),
                Command::CipherControl { source, destination, enable } => {
                    assert_eq!((source, destination, enable), (0x0a, 0x0a, true));
                }
                Command::CipherCopy { copy } => assert!(!copy),
                Command::CipherAlgorithm { keyslot, select, mode, key_length, width, decrypt } => {
                    assert_eq!((select, mode, width), (2, 1, 0));
                    self.slot = usize::from(keyslot);
                    self.key_length = key_length;
                    self.decrypt = decrypt;
                }
                Command::CipherInputHigh { high } => assert_eq!(high, 0),
                Command::CipherInputLow { word } => assert_eq!(word, ADDRESSES.input_nodes as u32),
                Command::CipherInputLength { count } => assert_eq!(count, 2),
                Command::CipherOutputHigh { high } => assert_eq!(high, 0),
                Command::CipherOutputLow { word } => {
                    assert_eq!(word, ADDRESSES.output_nodes as u32);
                }
                Command::CipherOutputLength { count } => assert_eq!(count, 2),
                Command::CipherAcknowledge { bits } => {
                    assert_eq!(bits, 2);
                    self.done = false;
                }
                Command::CipherOutputPointer { position } => {
                    assert_eq!(position, (self.out_position + 1) % 2);
                    self.out_position = position;
                }
                Command::CipherInputPointer { position } => {
                    assert_eq!(position, (self.in_position + 1) % 2);
                    self.in_position = position;
                    self.work();
                }
                Command::CipherStore => {
                    self.ram_input = storage.input;
                    self.ram_in_node = storage.input_nodes[0];
                    self.ram_out_node = storage.output_nodes[0];
                }
                Command::CacheClean { region: Region::CipherInputNodes } => {
                    self.seen_in_node = self.ram_in_node;
                }
                Command::CacheClean { region: Region::CipherOutputNodes } => {
                    self.seen_out_node = self.ram_out_node;
                }
                Command::CacheClean { region: Region::CipherInput } => {
                    self.seen_input = self.ram_input;
                }
                Command::CacheClean { region: Region::CipherOutput } => self.produced = [0; 16],
                Command::CacheFlush { region: Region::CipherOutput } => self.visible = [0; 16],
                Command::CacheInvalidate { region: Region::CipherOutput } => {
                    self.visible = self.produced;
                }
                other => panic!("unexpected {other:?}"),
            }
        }
    }

    fn answer(&mut self, ask: Ask) -> Reply {
        let word = match ask {
            Ask::KeyslotFlush => {
                let unlocking = self.started > 0 || self.routes > 0;
                let busy = self.flush_busy > 0;
                self.flush_busy = self.flush_busy.saturating_sub(1);
                let failed = if unlocking {
                    self.unlock_flush_failed
                } else {
                    !busy && self.flush_failed.pop().unwrap_or(false)
                };
                return Reply::Flush { busy, unlock_failed: failed, timed_out: false };
            }
            Ask::CipherBlock => return Reply::Block { block: self.visible },
            Ask::Read { source: Source::KeyslotOwner } => self.slot_owner[self.selected],
            Ask::Read { source: Source::KladLockFail } => self.klad_lock_fail.pop().unwrap_or(0),
            Ask::Read { source: Source::KladOwner } => self.klad_owner,
            Ask::Read { source: Source::KladUnlockFail } => self.klad_unlock_fail,
            Ask::Read { source: Source::KladRequest } => {
                if self.route_busy > 0 {
                    self.route_busy -= 1;
                    1
                } else {
                    0
                }
            }
            Ask::Read { source: Source::KladError } => self.klad_errors.pop().unwrap_or(0),
            Ask::Read { source: Source::KeyslotError } => self.slot_errors.pop().unwrap_or(0),
            Ask::Read { source: Source::CipherOwners } => self.owners,
            Ask::Read { source: Source::CipherClearFinish } => {
                self.clear_replies.pop().unwrap_or(2)
            }
            Ask::Read { source: Source::CipherInterrupt } => {
                if self.started > 0 && self.busy_reads > 0 {
                    self.busy_reads -= 1;
                    0
                } else {
                    2 * u32::from(self.done)
                }
            }
            Ask::Read { source: Source::CipherControlError } => {
                self.control_errors.pop().unwrap_or(0)
            }
            Ask::Read { source: Source::CipherControlStatus } => self.control_status,
            Ask::Read { source: Source::CipherOutputPointer } => u32::from(self.out_position),
            Ask::Read { source: Source::CipherInputPointer } => u32::from(self.in_position),
            Ask::Read { source: Source::BusError } => self.bus_error,
            other => panic!("unexpected {other:?}"),
        };
        Reply::Word { word }
    }

    fn drive(
        &mut self,
        engine: &mut CipherEngine,
        storage: &mut CipherDmaStorage,
    ) -> Result<(), CryptoError> {
        let mut step: Step = engine.begin();
        loop {
            self.perform(&step.commands, storage);
            if step.ask == Ask::Finished {
                return engine.result().unwrap();
            }
            assert_eq!(engine.result(), None);
            let reply = self.answer(step.ask);
            step = engine.resume(storage, reply);
        }
    }

    fn run(&mut self, key: &[u8], block: &[u8; 16], decrypt: bool) -> Result<[u8; 16], CryptoError> {
        let mut storage = CipherDmaStorage::new();
        let mut engine =
            CipherEngine::new(key, block, decrypt, limits(), ADDRESSES, [0x5a; 16]).unwrap();
        let result = self.drive(&mut engine, &mut storage);
        assert_eq!(self.staging, [0; 4]);
        assert!(!self.critical);
        if result.is_err() && self.started == 0 {
            assert_eq!(engine.output(), [0x5a; 16]);
        }
        result.map(|()| engine.output())
    }

    fn is_released(&self) -> bool {
        self.owners & 0xf0 == 0
            && self.slot_owner.iter().all(|owner| *owner != 1)
            && self.slot_key.iter().all(|key| *key == [0; 32])
            && self.ram_input == [0; 16]
            && self.seen_input == [0; 16]
            && self.produced == [0; 16]
            && self.ram_in_node == SymInputNode::empty()
            && self.seen_in_node == SymInputNode::empty()
            && self.seen_out_node == SymOutputNode::empty()
    }
}

fn limits() -> SpaccCipherPollLimits {
    let limit = PollLimit::new(3).unwrap();
    SpaccCipherPollLimits::new(limit, limit, limit, limit, limit)
}

const KEY: [u8; 16] = [7; 16];
const BLOCK: [u8; 16] = [9; 16];

#[test]
fn known_vectors_in_both_directions() {
    for vector in 0..3 {
        let key = CipherDiagnostic::key(vector);
        let ciphertext = CipherDiagnostic::ciphertext(vector);
        let mut device = Device::new();
        assert_eq!(device.run(key, &CIPHER_PLAINTEXT, false), Ok(ciphertext));
        assert!(device.is_released());
        assert_eq!(device.owners, 0x1234_5600);
        assert_eq!(device.routes, if vector == 0 { 1 } else { 2 });
        let mut device = Device::new();
        assert_eq!(device.run(key, &ciphertext, true), Ok(CIPHER_PLAINTEXT));
        assert!(device.is_released());
    }
}

#[test]
fn blocks_equal_software() {
    for length in [16usize, 24, 32] {
        let key: Vec<u8> = (0..length).map(|i| (i * 31 + 5) as u8).collect();
        let mut expected = [0u8; 16];
        RustCryptoProvider.encrypt_block(&key, &BLOCK, &mut expected).unwrap();
        assert_eq!(Device::new().run(&key, &BLOCK, false), Ok(expected));
        assert_eq!(Device::new().run(&key, &expected, true), Ok(BLOCK));
    }
}

#[test]
fn cipher_waits_may_take_their_limits() {
    let mut expected = [0u8; 16];
    RustCryptoProvider.encrypt_block(&KEY, &BLOCK, &mut expected).unwrap();
    let mut device = Device::new();
    device.flush_busy = 2;
    device.klad_lock_fail = vec![1, 1];
    device.route_busy = 2;
    device.foreign_claims = 2;
    device.clear_replies = vec![2, 0, 0, 2, 0, 0];
    device.busy_reads = 2;
    assert_eq!(device.run(&KEY, &BLOCK, false), Ok(expected));
    assert!(device.is_released());
}

#[test]
fn other_key_lengths_are_refused() {
    for length in [0usize, 15, 17, 23, 25, 31, 33] {
        let key = vec![0u8; length];
        let refused = CipherEngine::new(&key, &BLOCK, false, limits(), ADDRESSES, [0; 16]).err();
        assert_eq!(refused, Some(CryptoError::InvalidLength));
    }
}

#[test]
fn taken_keyslots_are_passed_over() {
    let mut device = Device::new();
    device.slot_owner = [2, 2, 2, 0, 0, 0, 0, 0];
    device.flush_failed = vec![false, true];
    assert!(device.run(&KEY, &BLOCK, false).is_ok());
    assert_eq!(device.slot, 4);
    assert_eq!(device.slot_owner, [2, 2, 2, 0, 0, 0, 0, 0]);
}

#[test]
fn no_keyslot_is_reported() {
    for stubborn in [false, true] {
        let mut device = Device::new();
        device.stubborn_slots = stubborn;
        if !stubborn {
            device.slot_owner = [2; 8];
        }
        assert_eq!(
            device.run(&KEY, &BLOCK, false),
            Err(CryptoError::Backend(ERR_KEYSLOT_UNAVAILABLE))
        );
        assert_eq!(device.routes, 0);
    }
    let mut device = Device::new();
    device.flush_busy = 24;
    assert_eq!(
        device.run(&KEY, &BLOCK, false),
        Err(CryptoError::Backend(ERR_KEYSLOT_UNAVAILABLE))
    );
    let mut device = Device::new();
    device.flush_busy = 23;
    assert!(device.run(&KEY, &BLOCK, false).is_ok());
    assert_eq!(device.slot, 7);
}

#[test]
fn key_ladder_failures_are_reported_and_the_slot_is_freed() {
    let mut device = Device::new();
    device.klad_lock_fail = vec![1, 1, 1];
    assert_eq!(
        device.run(&KEY, &BLOCK, false),
        Err(CryptoError::Backend(ERR_KLAD_LOCK_TIMEOUT))
    );
    assert_eq!(device.slot_owner, [0; 8]);

    let mut device = Device::new();
    device.klad_lock_fail = vec![1, 1];
    assert!(device.run(&KEY, &BLOCK, false).is_ok());

    let mut device = Device::new();
    device.route_busy = 3;
    assert_eq!(
        device.run(&KEY, &BLOCK, false),
        Err(CryptoError::Backend(ERR_KLAD_ROUTE_TIMEOUT))
    );
    assert_eq!((device.slot_owner, device.klad_owner), ([0; 8], 0));

    let mut device = Device::new();
    device.klad_errors = vec![4];
    assert_eq!(device.run(&KEY, &BLOCK, false), Err(CryptoError::Backend(ERR_KLAD)));
    assert_eq!((device.slot_owner, device.klad_owner), ([0; 8], 0));

    let mut device = Device::new();
    device.slot_errors = vec![4, 0];
    assert_eq!(device.run(&[1; 32], &BLOCK, false), Err(CryptoError::Backend(ERR_KLAD)));
    assert_eq!((device.routes, device.klad_owner), (2, 0));

    let mut device = Device::new();
    device.klad_unlock_fail = 1;
    assert_eq!(device.run(&KEY, &BLOCK, false), Err(CryptoError::Backend(ERR_KLAD)));
    assert_eq!(device.slot_owner, [0; 8]);

    // The first error is kept.
    let mut device = Device::new();
    device.route_busy = 3;
    device.klad_unlock_fail = 1;
    device.unlocks_ignored = true;
    assert_eq!(
        device.run(&KEY, &BLOCK, false),
        Err(CryptoError::Backend(ERR_KLAD_ROUTE_TIMEOUT))
    );
}

#[test]
fn channel_claim_times_out_and_the_slot_is_freed() {
    let mut device = Device::new();
    device.foreign_claims = 2;
    assert!(device.run(&KEY, &BLOCK, false).is_ok());
    let mut device = Device::new();
    device.foreign_claims = 3;
    assert_eq!(device.run(&KEY, &BLOCK, false), Err(CryptoError::Backend(ERR_LOCK_TIMEOUT)));
    assert_eq!((device.slot_owner, device.owners), ([0; 8], 0x1234_5600));
}

#[test]
fn engine_errors_are_reported_and_everything_is_released() {
    let check = |device: &mut Device, code: u32| {
        assert_eq!(device.run(&KEY, &BLOCK, false), Err(CryptoError::Backend(code)));
        assert!(device.is_released());
    };
    let mut device = Device::new();
    device.control_errors = vec![1];
    check(&mut device, ERR_CONTROL);
    assert_eq!(device.started, 0);
    let mut device = Device::new();
    device.control_errors = vec![1, 0];
    check(&mut device, ERR_CONTROL);
    assert_eq!(device.started, 1);
    let mut device = Device::new();
    device.control_status = 1;
    check(&mut device, ERR_CONTROL);
    let mut device = Device::new();
    device.bus_error = 1;
    check(&mut device, ERR_BUS);
    let mut device = Device::new();
    device.busy_reads = 3;
    check(&mut device, ERR_OPERATION_TIMEOUT);
    // A first clear that fails is followed by one that works.
    let mut device = Device::new();
    device.clear_replies = vec![2, 0, 0, 0];
    assert_eq!(device.run(&KEY, &BLOCK, false), Err(CryptoError::Backend(ERR_CLEAR_TIMEOUT)));
    assert_eq!(device.owners & 0xf0, 0);
    assert_eq!(device.slot_owner, [0; 8]);
}

#[test]
fn engine_that_does_not_stop_fails_closed() {
    let mut device = Device::new();
    device.clear_replies = vec![0, 0, 0, 2];
    let mut storage = CipherDmaStorage::new();
    let mut engine =
        CipherEngine::new(&KEY, &BLOCK, false, limits(), ADDRESSES, [0x5a; 16]).unwrap();
    let result = device.drive(&mut engine, &mut storage);
    assert_eq!(result, Err(CryptoError::Backend(ERR_CLEAR_TIMEOUT)));
    // Channel, keyslot and buffers are kept; the block had been read.
    assert_eq!(device.owners & 0xf0, 0x10);
    assert_eq!(device.slot_owner[0], 1);
    assert_eq!(storage.input, BLOCK);
    assert_eq!(device.seen_input, BLOCK);
    let mut expected = [0u8; 16];
    RustCryptoProvider.encrypt_block(&KEY, &BLOCK, &mut expected).unwrap();
    assert_eq!(engine.output(), expected);
}

#[test]
fn keyslot_that_stays_locked_is_reported() {
    let mut device = Device::new();
    device.unlocks_ignored = true;
    assert_eq!(device.run(&KEY, &BLOCK, false), Err(CryptoError::Backend(ERR_KEYSLOT)));
    let mut device = Device::new();
    device.unlock_flush_failed = true;
    assert_eq!(device.run(&KEY, &BLOCK, false), Err(CryptoError::Backend(ERR_KEYSLOT)));
    // An earlier error is kept.
    let mut device = Device::new();
    device.unlocks_ignored = true;
    device.bus_error = 1;
    assert_eq!(device.run(&KEY, &BLOCK, false), Err(CryptoError::Backend(ERR_BUS)));
}

#[test]
fn unreachable_cipher_buffers_are_refused() {
    if usize::BITS == 64 {
        let far = (u32::MAX as usize).wrapping_add(1);
        for part in 0..4 {
            let mut addresses = ADDRESSES;
            match part {
                0 => addresses.input_nodes = far,
                1 => addresses.output_nodes = far,
                2 => addresses.input = far,
                _ => addresses.output = far,
            }
            assert!(!addresses.is_reachable());
            let mut device = Device::new();
            let mut storage = CipherDmaStorage::new();
            let mut engine =
                CipherEngine::new(&KEY, &BLOCK, false, limits(), addresses, [0; 16]).unwrap();
            assert_eq!(
                device.drive(&mut engine, &mut storage),
                Err(CryptoError::Backend(ERR_ADDRESS))
            );
            assert!(device.owners & 0xf0 == 0 && device.slot_owner == [0; 8]);
        }
    }
    assert!(ADDRESSES.is_reachable());
}

#[test]
fn cipher_diagnostic_runs_all_vectors() {
    let mut diagnostic = CipherDiagnostic::new();
    let mut trials = 0;
    let result = loop {
        trials += 1;
        match diagnostic.next() {
            Trial::Claim => diagnostic.claimed(claim_without_attempts(ERR_LOCK_TIMEOUT)),
            Trial::Encrypt { vector } => {
                let key = CipherDiagnostic::key(vector);
                diagnostic.encrypted(Device::new().run(key, &CIPHER_PLAINTEXT, false));
            }
            Trial::Decrypt { vector } => {
                let key = CipherDiagnostic::key(vector);
                let block = CipherDiagnostic::ciphertext(vector);
                diagnostic.decrypted(Device::new().run(key, &block, true));
            }
            Trial::Over { result } => break result,
            Trial::Hash => unreachable!(),
        }
    };
    assert_eq!(result, Ok(()));
    assert_eq!(trials, 8);
}

#[test]
fn cipher_diagnostic_tells_failures_apart() {
    let over = |diagnostic: &CipherDiagnostic| match diagnostic.next() {
        Trial::Over { result } => result,
        _ => Ok(()),
    };
    for claim in [Ok(()), Err(CryptoError::InvalidLength), Err(CryptoError::Backend(1))] {
        let mut diagnostic = CipherDiagnostic::new();
        diagnostic.claimed(claim);
        assert_eq!(over(&diagnostic), Err(CryptoError::Backend(ERR_CIPHER_CLAIM)));
    }
    let claimed = || {
        let mut diagnostic = CipherDiagnostic::new();
        diagnostic.claimed(claim_without_attempts(ERR_LOCK_TIMEOUT));
        assert_eq!(diagnostic.next(), Trial::Encrypt { vector: 0 });
        diagnostic
    };
    let mut diagnostic = claimed();
    diagnostic.encrypted(Ok([0; 16]));
    assert_eq!(over(&diagnostic), Err(CryptoError::Backend(ERR_CIPHER_ENCRYPT)));
    let mut diagnostic = claimed();
    diagnostic.encrypted(Err(CryptoError::Unsupported));
    assert_eq!(over(&diagnostic), Err(CryptoError::Unsupported));
    let mut diagnostic = claimed();
    diagnostic.encrypted(Ok(CipherDiagnostic::ciphertext(0)));
    assert_eq!(diagnostic.next(), Trial::Decrypt { vector: 0 });
    diagnostic.decrypted(Ok([0; 16]));
    assert_eq!(over(&diagnostic), Err(CryptoError::Backend(ERR_CIPHER_DECRYPT)));
    let mut diagnostic = claimed();
    diagnostic.encrypted(Ok(CipherDiagnostic::ciphertext(0)));
    diagnostic.decrypted(Err(CryptoError::Backend(7)));
    assert_eq!(over(&diagnostic), Err(CryptoError::Backend(7)));
}
