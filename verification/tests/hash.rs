use hisi_crypto::{RustCryptoProvider, TryHash, TryMac};
use hisi_crypto_ws63::bus::{Ask, Command, Region, Reply, Source, Step};
use hisi_crypto_ws63::padding::HASH_DMA_BYTES;
use hisi_crypto_ws63::spacc_hash::{
    HashAlgorithm, HashDmaStorage, HashEngine, HashNode, ERR_SPACC_ADDRESS, ERR_SPACC_BUS,
    ERR_SPACC_CLEAR_TIMEOUT, ERR_SPACC_CONTROL, ERR_SPACC_LOCK_TIMEOUT,
    ERR_SPACC_OPERATION_TIMEOUT,
};
use hisi_crypto_ws63::spacc_hmac::HmacEngine;
use hisi_crypto_ws63::{CryptoError, PollLimit, SpaccPollLimits};

const NODES: usize = 0x2000_0000;
const BYTES: usize = 0x2000_0040;

/// A hash channel that works on a copy of the storage.
struct Channel {
    owners: u32,
    enables: u16,
    critical: bool,
    cleared: bool,
    done: bool,
    select: u8,
    nodes_low: u32,
    state: [u32; 16],
    index: usize,
    position: u8,
    ram_nodes: [HashNode; 2],
    ram: [u8; HASH_DMA_BYTES],
    clean: [u8; HASH_DMA_BYTES],
    clean_node: HashNode,
    foreign_claims: u32,
    clear_reads: u32,
    busy_reads: u32,
    bus_error: u32,
    control_errors: Vec<u32>,
    control_status: u32,
    started: u32,
}

impl Channel {
    fn new() -> Self {
        Self {
            owners: 0x5500_0205,
            enables: 0xffff,
            critical: false,
            cleared: false,
            done: true,
            select: 0,
            nodes_low: 0,
            state: [0; 16],
            index: 0,
            position: 7,
            ram_nodes: [HashNode::empty(), HashNode::empty()],
            ram: [0xcc; HASH_DMA_BYTES],
            clean: [0xdd; HASH_DMA_BYTES],
            clean_node: HashNode::empty(),
            foreign_claims: 0,
            clear_reads: 0,
            busy_reads: 0,
            bus_error: 0,
            control_errors: vec![],
            control_status: 0,
            started: 0,
        }
    }

    fn digest(&mut self) {
        let node = self.clean_node;
        assert_eq!((node.flags, node.address_low, node.address_high), (3, BYTES as u32, 0));
        assert_eq!(self.nodes_low, NODES as u32);
        let padded = &self.clean[..node.length as usize];
        let bits = u64::from_be_bytes(padded[padded.len() - 8..].try_into().unwrap());
        let message = &padded[..(bits / 8) as usize];
        assert_eq!(padded[message.len()], 0x80);
        let mut digest = vec![];
        if self.select == 0x0a {
            assert_eq!(self.state[0], u32::from_le_bytes([0x67, 0x45, 0x23, 0x01]));
            let mut sha1 = [0u8; 20];
            RustCryptoProvider.hash(&[message], &mut sha1).unwrap();
            digest.extend_from_slice(&sha1);
        } else {
            assert_eq!(self.select, 0x0b);
            assert_eq!(self.state[7], u32::from_le_bytes([0x5b, 0xe0, 0xcd, 0x19]));
            let mut sha256 = [0u8; 32];
            RustCryptoProvider.hash(&[message], &mut sha256).unwrap();
            digest.extend_from_slice(&sha256);
        }
        for (index, chunk) in digest.chunks(4).enumerate() {
            self.state[index] = u32::from_le_bytes(chunk.try_into().unwrap());
        }
    }

    fn perform(&mut self, commands: &[Command], storage: &HashDmaStorage) {
        for command in commands {
            match *command {
                Command::Fence => {}
                Command::EnterCritical => {
                    assert!(!self.critical);
                    self.critical = true;
                }
                Command::ExitCritical => {
                    assert!(self.critical);
                    self.critical = false;
                }
                Command::HashOwners { word } => {
                    assert!(self.critical);
                    assert_eq!(word & !0xf0, self.owners & !0xf0);
                    if self.foreign_claims > 0 {
                        self.foreign_claims -= 1;
                    } else {
                        self.owners = word;
                    }
                }
                Command::HashInterruptEnable { bits } => {
                    assert!(self.critical);
                    self.enables = bits;
                }
                Command::HashClear { channels } => {
                    assert_eq!(channels, 2);
                    self.cleared = true;
                }
                Command::HashClearAcknowledge { bits } => {
                    assert_eq!(bits, 2);
                    self.cleared = false;
                }
                Command::HashControl { selector, enable } => {
                    assert_eq!((selector, enable), (0x0a, true));
                }
                Command::HashAlgorithm { select, mode, hmac } => {
                    self.select = select;
                    assert_eq!(mode, select - 0x0a);
                    assert!(!hmac);
                }
                Command::HashNodesHigh { high } => assert_eq!(high, 0),
                Command::HashNodesLow { word } => self.nodes_low = word,
                Command::HashNodesLength { count } => assert_eq!(count, 2),
                Command::HashStateIndex { index } => self.index = index,
                Command::HashState { word } => self.state[self.index] = word,
                Command::HashAcknowledge { bits } => {
                    assert_eq!(bits, 2);
                    self.done = false;
                }
                Command::HashPointer { position } => {
                    assert_eq!(position, (self.position + 1) % 2);
                    self.position = position;
                    self.started += 1;
                    self.digest();
                    self.done = true;
                }
                Command::HashStore => {
                    self.ram_nodes = storage.nodes;
                    self.ram = storage.bytes;
                }
                Command::CacheClean { region: Region::HashNodes } => {
                    self.clean_node = self.ram_nodes[0];
                }
                Command::CacheClean { region: Region::HashMessage { length } } => {
                    self.clean[..length].copy_from_slice(&self.ram[..length]);
                }
                other => panic!("unexpected {other:?}"),
            }
        }
    }

    fn answer(&mut self, ask: Ask) -> Reply {
        let word = match ask {
            Ask::Read { source: Source::HashOwners } => self.owners,
            Ask::Read { source: Source::HashInterruptEnable } => u32::from(self.enables),
            Ask::Read { source: Source::HashClearFinish } => {
                if self.clear_reads == 0 {
                    if self.cleared { 0x12 } else { 0x10 }
                } else {
                    self.clear_reads -= 1;
                    0xfffd
                }
            }
            Ask::Read { source: Source::HashInterrupt } => {
                if self.started > 0 && self.busy_reads > 0 {
                    self.busy_reads -= 1;
                    0
                } else if self.done {
                    2
                } else {
                    0
                }
            }
            Ask::Read { source: Source::HashControlError } => self.control_errors.pop().unwrap_or(0),
            Ask::Read { source: Source::HashControlStatus } => self.control_status,
            Ask::Read { source: Source::HashPointer } => u32::from(self.position),
            Ask::Read { source: Source::BusError } => self.bus_error,
            Ask::Read { source: Source::HashState } => self.state[self.index],
            other => panic!("unexpected {other:?}"),
        };
        Reply::Word { word }
    }

    fn hash(
        &mut self,
        engine: &mut HashEngine,
        storage: &mut HashDmaStorage,
    ) -> Result<(), CryptoError> {
        let mut step: Step = engine.begin();
        loop {
            self.perform(&step.commands, storage);
            if step.ask == Ask::Finished {
                return engine.result().unwrap();
            }
            assert_eq!(engine.result(), None);
            let reply = self.answer(step.ask);
            step = engine.resume(storage, reply);
        }
    }

    fn mac(
        &mut self,
        engine: &mut HmacEngine,
        storage: &mut HashDmaStorage,
    ) -> Result<(), CryptoError> {
        let mut step: Step = engine.begin();
        loop {
            self.perform(&step.commands, storage);
            if step.ask == Ask::Finished {
                return engine.result().unwrap();
            }
            assert_eq!(engine.result(), None);
            let reply = self.answer(step.ask);
            step = engine.resume(storage, reply);
        }
    }

    fn is_wiped(&self) -> bool {
        !self.critical
            && (self.owners & 0xf0) == 0
            && self.ram.iter().all(|byte| *byte == 0)
            && self.clean.iter().all(|byte| *byte == 0)
            && self.clean_node == HashNode::empty()
    }
}

fn limits() -> SpaccPollLimits {
    let limit = PollLimit::new(3).unwrap();
    SpaccPollLimits::new(limit, limit, limit)
}

fn engine<'m>(algorithm: HashAlgorithm, parts: &'m [&'m [u8]]) -> HashEngine<'m> {
    HashEngine::new(algorithm, limits(), NODES, BYTES, parts)
}

fn fail(channel: &mut Channel, parts: &[&[u8]]) -> Result<(), CryptoError> {
    let mut storage = HashDmaStorage::new();
    let mut engine = engine(HashAlgorithm::Sha256, parts);
    let result = channel.hash(&mut engine, &mut storage);
    assert!(storage.bytes.iter().all(|byte| *byte == 0));
    assert_eq!(storage.nodes, [HashNode::empty(), HashNode::empty()]);
    result
}

#[test]
fn sha1_of_abc() {
    let mut channel = Channel::new();
    let mut storage = HashDmaStorage::new();
    let parts: [&[u8]; 3] = [b"a", b"", b"bc"];
    let mut engine = engine(HashAlgorithm::Sha1, &parts);
    let result = channel.hash(&mut engine, &mut storage);
    assert_eq!(result, Ok(()));
    assert_eq!(
        engine.digest()[..20],
        [
            0xa9, 0x99, 0x3e, 0x36, 0x47, 0x06, 0x81, 0x6a, 0xba, 0x3e, 0x25, 0x71, 0x78, 0x50,
            0xc2, 0x6c, 0x9c, 0xd0, 0xd8, 0x9d,
        ]
    );
    assert_eq!(engine.digest()[20..], [0; 12]);
    assert!(channel.is_wiped());
    assert_eq!(channel.owners, 0x5500_0205);
    assert_eq!(channel.enables, 0xfffd);
}

#[test]
fn digests_equal_software_at_every_padding_edge() {
    for length in [0usize, 1, 55, 56, 63, 64, 65, 119, 120, 4095, 4096] {
        let message: Vec<u8> = (0..length).map(|i| i as u8).collect();
        let mut expected = [0u8; 32];
        RustCryptoProvider.hash(&[&message], &mut expected).unwrap();
        let mut channel = Channel::new();
        let mut storage = HashDmaStorage::new();
        let (front, back) = message.split_at(length / 3);
        let parts: [&[u8]; 2] = [front, back];
        let mut engine = engine(HashAlgorithm::Sha256, &parts);
        assert_eq!(channel.hash(&mut engine, &mut storage), Ok(()));
        assert_eq!(engine.digest(), expected);
        assert!(channel.is_wiped());
    }
}

#[test]
fn every_wait_may_take_its_limit() {
    let mut channel = Channel::new();
    channel.foreign_claims = 2;
    channel.clear_reads = 2;
    channel.busy_reads = 2;
    let mut storage = HashDmaStorage::new();
    let parts: [&[u8]; 1] = [b"slow"];
    let mut expected = [0u8; 32];
    RustCryptoProvider.hash(&parts, &mut expected).unwrap();
    let mut engine = engine(HashAlgorithm::Sha256, &parts);
    assert_eq!(channel.hash(&mut engine, &mut storage), Ok(()));
    assert_eq!(engine.digest(), expected);
    assert!(channel.is_wiped());
}

#[test]
fn mac_whose_last_hash_cannot_claim_the_channel_has_released_it() {
    let parts: [&[u8]; 1] = [b"message"];
    let mut channel = Channel::new();
    let mut storage = HashDmaStorage::new();
    let mut engine =
        HmacEngine::new(HashAlgorithm::Sha1, limits(), NODES, BYTES, b"key", &parts, 20).unwrap();
    let mut step: Step = engine.begin();
    while step.ask != Ask::Finished {
        channel.perform(&step.commands, &storage);
        if channel.started == 1 && channel.owners & 0xf0 == 0 {
            channel.owners |= 0x20;
        }
        let reply = channel.answer(step.ask);
        step = engine.resume(&mut storage, reply);
    }
    channel.perform(&step.commands, &storage);
    assert_eq!(engine.result(), Some(Err(CryptoError::Backend(ERR_SPACC_LOCK_TIMEOUT))));
    assert!(!channel.critical);
    assert_eq!(channel.owners & 0xf0, 0x20);
    assert!(channel.clean.iter().all(|byte| *byte == 0));
    assert!(storage.bytes.iter().all(|byte| *byte == 0));
}

#[test]
fn macs_equal_software_for_short_and_long_keys() {
    for key_length in [0usize, 1, 20, 63, 64, 65, 100, 4096] {
        for length in [0usize, 3, 64, 1000, 4096] {
            let key: Vec<u8> = (0..key_length).map(|i| (i * 7) as u8).collect();
            let message: Vec<u8> = (0..length).map(|i| (i * 5) as u8).collect();
            let (front, back) = message.split_at(length / 2);
            let parts: [&[u8]; 2] = [front, back];

            let mut expected = [0u8; 20];
            RustCryptoProvider.mac(&key, &parts, &mut expected).unwrap();
            let mut channel = Channel::new();
            let mut storage = HashDmaStorage::new();
            let mut engine =
                HmacEngine::new(HashAlgorithm::Sha1, limits(), NODES, BYTES, &key, &parts, 20).unwrap();
            assert_eq!(channel.mac(&mut engine, &mut storage), Ok(()));
            assert_eq!(engine.digest()[..20], expected);
            assert!(channel.is_wiped());

            let mut expected = [0u8; 32];
            RustCryptoProvider.mac(&key, &parts, &mut expected).unwrap();
            let mut engine =
                HmacEngine::new(HashAlgorithm::Sha256, limits(), NODES, BYTES, &key, &parts, 32)
                    .unwrap();
            assert_eq!(channel.mac(&mut engine, &mut storage), Ok(()));
            assert_eq!(engine.digest(), expected);
        }
    }
}

#[test]
fn mac_refuses_long_keys_and_messages() {
    let long = [0u8; 4097];
    let whole = [0u8; 4096];
    let refused = |key: &[u8], message: &[u8]| {
        let parts: [&[u8]; 2] = [&message[..1], &message[1..]];
        HmacEngine::new(HashAlgorithm::Sha1, limits(), NODES, BYTES, key, &parts, 20).err()
    };
    assert_eq!(refused(&long, &whole), Some(CryptoError::InvalidLength));
    assert_eq!(refused(&whole, &long), Some(CryptoError::InvalidLength));
    assert_eq!(refused(&whole, &whole), None);
}

#[test]
fn mac_stops_before_its_last_hash_for_an_output_of_another_length() {
    for (key_length, hashes) in [(3usize, 1u32), (65, 2)] {
        let key = vec![1u8; key_length];
        let parts: [&[u8]; 1] = [b"message"];
        let mut channel = Channel::new();
        let mut storage = HashDmaStorage::new();
        let mut engine =
            HmacEngine::new(HashAlgorithm::Sha256, limits(), NODES, BYTES, &key, &parts, 20)
                .unwrap();
        assert_eq!(engine.output_len(), 32);
        assert_eq!(channel.mac(&mut engine, &mut storage), Err(CryptoError::InvalidLength));
        assert_eq!(channel.started, hashes);
        assert!(channel.is_wiped());
    }
}

#[test]
fn mac_stops_at_the_first_failed_hash() {
    for bad in 0..3u32 {
        let key = [1u8; 65];
        let parts: [&[u8]; 1] = [b"message"];
        let mut channel = Channel::new();
        let mut storage = HashDmaStorage::new();
        let mut engine =
            HmacEngine::new(HashAlgorithm::Sha1, limits(), NODES, BYTES, &key, &parts, 20).unwrap();
        let mut step: Step = engine.begin();
        let result = loop {
            channel.perform(&step.commands, &storage);
            if step.ask == Ask::Finished {
                break engine.result().unwrap();
            }
            let mut reply = channel.answer(step.ask);
            if step.ask == (Ask::Read { source: Source::BusError }) && channel.started == bad + 1 {
                reply = Reply::Word { word: 9 };
            }
            step = engine.resume(&mut storage, reply);
        };
        assert_eq!(result, Err(CryptoError::Backend(ERR_SPACC_BUS)));
        assert_eq!(channel.started, bad + 1);
        assert!(channel.is_wiped());
    }
}

#[test]
fn foreign_owner_times_out_untouched() {
    let mut channel = Channel::new();
    channel.owners = 0x0000_0030;
    assert_eq!(
        fail(&mut channel, &[b"abc"]),
        Err(CryptoError::Backend(ERR_SPACC_LOCK_TIMEOUT))
    );
    assert_eq!(channel.owners, 0x0000_0030);
    assert!(!channel.critical);
    assert_eq!(channel.ram, [0xcc; HASH_DMA_BYTES]);
}

#[test]
fn lost_claims_are_retried() {
    let mut channel = Channel::new();
    channel.foreign_claims = 2;
    assert_eq!(fail(&mut channel, &[b"abc"]), Ok(()));
    let mut channel = Channel::new();
    channel.foreign_claims = 3;
    assert_eq!(
        fail(&mut channel, &[b"abc"]),
        Err(CryptoError::Backend(ERR_SPACC_LOCK_TIMEOUT))
    );
}

#[test]
fn slow_clear_times_out() {
    let mut channel = Channel::new();
    channel.clear_reads = 2;
    assert_eq!(fail(&mut channel, &[b"abc"]), Ok(()));
    let mut channel = Channel::new();
    channel.clear_reads = 3;
    assert_eq!(
        fail(&mut channel, &[b"abc"]),
        Err(CryptoError::Backend(ERR_SPACC_CLEAR_TIMEOUT))
    );
    assert!(channel.is_wiped());
    assert_eq!(channel.started, 0);
}

#[test]
fn slow_hash_times_out() {
    let mut channel = Channel::new();
    channel.busy_reads = 2;
    assert_eq!(fail(&mut channel, &[b"abc"]), Ok(()));
    let mut channel = Channel::new();
    channel.busy_reads = 3;
    assert_eq!(
        fail(&mut channel, &[b"abc"]),
        Err(CryptoError::Backend(ERR_SPACC_OPERATION_TIMEOUT))
    );
    assert!(channel.is_wiped());
}

#[test]
fn hash_engine_errors_are_told_apart() {
    let mut channel = Channel::new();
    channel.bus_error = 1;
    assert_eq!(fail(&mut channel, &[b"abc"]), Err(CryptoError::Backend(ERR_SPACC_BUS)));
    assert!(channel.is_wiped());

    let mut channel = Channel::new();
    channel.control_errors = vec![1];
    assert_eq!(fail(&mut channel, &[b"abc"]), Err(CryptoError::Backend(ERR_SPACC_CONTROL)));
    assert_eq!(channel.started, 0);

    let mut channel = Channel::new();
    channel.control_errors = vec![1, 0];
    assert_eq!(fail(&mut channel, &[b"abc"]), Err(CryptoError::Backend(ERR_SPACC_CONTROL)));
    assert_eq!(channel.started, 1);

    let mut channel = Channel::new();
    channel.control_status = 1;
    assert_eq!(fail(&mut channel, &[b"abc"]), Err(CryptoError::Backend(ERR_SPACC_CONTROL)));
    assert!(channel.is_wiped());
}

#[test]
fn oversized_hash_is_refused_after_the_clear() {
    let mut channel = Channel::new();
    let long = [1u8; 4097];
    assert_eq!(fail(&mut channel, &[&long]), Err(CryptoError::InvalidLength));
    assert_eq!(channel.started, 0);
    assert!(channel.is_wiped());
}

#[test]
fn unreachable_hash_buffers_are_refused() {
    if usize::BITS == 64 {
        let far = (u32::MAX as usize).wrapping_add(1);
        for (nodes, bytes) in [(far, BYTES), (NODES, far)] {
            let mut channel = Channel::new();
            let mut storage = HashDmaStorage::new();
            let parts: [&[u8]; 1] = [b"abc"];
            let mut engine = HashEngine::new(HashAlgorithm::Sha1, limits(), nodes, bytes, &parts);
            assert_eq!(
                channel.hash(&mut engine, &mut storage),
                Err(CryptoError::Backend(ERR_SPACC_ADDRESS))
            );
            assert!(channel.is_wiped());
        }
    }
}

#[test]
fn hash_parameters() {
    assert_eq!(HashAlgorithm::Sha1.output_len(), 20);
    assert_eq!(HashAlgorithm::Sha256.output_len(), 32);
    assert_eq!(HashAlgorithm::Sha1.algorithm_select(), 0x0a);
    assert_eq!(HashAlgorithm::Sha256.algorithm_select(), 0x0b);
    assert_eq!(HashAlgorithm::Sha1.algorithm_mode(), 0);
    assert_eq!(HashAlgorithm::Sha256.algorithm_mode(), 1);
    assert_eq!(HashAlgorithm::Sha1.initial_state()[19], 0xf0);
    assert_eq!(HashAlgorithm::Sha256.initial_state()[31], 0x19);
}
