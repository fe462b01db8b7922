use hisi_crypto::sae::{
    BignumArithmetic, BignumEncoding, Group19, RustCryptoBignum, RustCryptoGroup19, GROUP_19,
};
use hisi_crypto_ws63::big_endian::{add_one, be_less, is_zero, shift_right_one, subtract_one};
use hisi_crypto_ws63::bus::{Ask, Command, Reply, Source};
use hisi_crypto_ws63::pke::curve::{
    p256_curve, p256_initial_parameters, P256AffinePoint, P256FieldElement, P256PointResult,
    P256_GX, P256_GY, P256_N, P256_P, P256_RRP,
};
use hisi_crypto_ws63::pke::engine::{
    PkeEngine, ERR_FINISH_STATUS, ERR_INSTR_READY_TIMEOUT, ERR_LOCK_TIMEOUT, ERR_MASK_ENTROPY,
    ERR_OPERATION_TIMEOUT,
};
use hisi_crypto_ws63::pke::group::validate_point;
use hisi_crypto_ws63::pke::naf::scalar_to_naf;
use hisi_crypto_ws63::pke::p256::{PointAddition, ERR_BUSY};
use hisi_crypto_ws63::{CryptoError, Ws63P256};

const ROM: u32 = 0x00c0_0000;

fn group() -> RustCryptoGroup19 {
    RustCryptoGroup19::for_group(GROUP_19).unwrap()
}

fn multiply(a: &[u8; 32], b: &[u8; 32]) -> [u8; 32] {
    let bignum = RustCryptoBignum;
    let a = bignum.init_set(a).unwrap();
    let b = bignum.init_set(b).unwrap();
    let p = bignum.init_set(&P256_P).unwrap();
    let product = bignum.mul_mod(&a, &b, &p).unwrap();
    let mut bytes = [0u8; 32];
    bignum.write_be(&product, &mut bytes, 32).unwrap();
    bytes
}

fn software_mul(x: &[u8; 32], y: &[u8; 32], scalar: &[u8; 32]) -> ([u8; 32], [u8; 32]) {
    let group = group();
    let point = group.point_from_xy(x, y).unwrap();
    let scalar = group.init_set(scalar).unwrap();
    let product = group.point_mul(&point, &scalar).unwrap();
    group.point_to_xy(&product).unwrap()
}

/// A public key engine that follows the batches it is given.
struct Device {
    locked: bool,
    noise: bool,
    generator: bool,
    mask: u32,
    ram: Vec<[u8; 32]>,
    low: u32,
    length: u32,
    latch: u32,
    point: Option<([u8; 32], [u8; 32])>,
    sum: Option<Option<([u8; 32], [u8; 32])>>,
    exponent: [u8; 33],
    in_exponent: bool,
    curve_loaded: bool,
    seeds: Vec<Option<[u8; 4]>>,
    lock_reads: u32,
    curve_status: i32,
    never_ready: bool,
    busy_at: Option<u32>,
    bad_finish_at: Option<u32>,
    stuck_clean: bool,
    cleaning: bool,
    spoil_result: bool,
    batches: u32,
    clears: u32,
}

impl Device {
    fn new() -> Self {
        Self {
            locked: false,
            noise: false,
            generator: false,
            mask: 0,
            ram: vec![[0xab; 32]; 128],
            low: 0,
            length: 0,
            latch: 0,
            point: None,
            sum: None,
            exponent: [0; 33],
            in_exponent: false,
            curve_loaded: false,
            seeds: vec![],
            lock_reads: 0,
            curve_status: 0,
            never_ready: false,
            busy_at: None,
            bad_finish_at: None,
            stuck_clean: false,
            cleaning: false,
            spoil_result: false,
            batches: 0,
            clears: 0,
        }
    }

    fn add(
        a: Option<([u8; 32], [u8; 32])>,
        b: Option<([u8; 32], [u8; 32])>,
    ) -> Option<([u8; 32], [u8; 32])> {
        let group = group();
        let lift = |point: Option<([u8; 32], [u8; 32])>| match point {
            Some((x, y)) => group.point_from_xy(&x, &y).unwrap(),
            None => group.identity(),
        };
        let sum = group.point_add(&lift(a), &lift(b));
        group.point_to_xy(&sum).ok()
    }

    fn negated(point: ([u8; 32], [u8; 32])) -> ([u8; 32], [u8; 32]) {
        let group = group();
        let inverse = group.point_invert(&group.point_from_xy(&point.0, &point.1).unwrap());
        group.point_to_xy(&inverse).unwrap()
    }

    /// Points in the data RAM carry a mark, as a stand-in for the Montgomery form.
    fn marked(bytes: [u8; 32]) -> [u8; 32] {
        bytes.map(|byte| byte ^ 0x55)
    }

    fn digits(&mut self, count: u32) {
        // Two bits of the exponent: 148/2 is 00, 148/3 is 01, 151/3 is 10, 154/3 is 11.
        let pair = match ((self.low - ROM) / 4, count) {
            (148, 2) => 0u8,
            (148, 3) => 1,
            (151, 3) => 2,
            (154, 3) => 3,
            other => panic!("unexpected exponent batch {other:?}"),
        };
        let mut carry = pair;
        for byte in self.exponent.iter_mut().rev() {
            let next = *byte >> 6;
            *byte = (*byte << 2) | carry;
            carry = next;
        }
    }

    fn batch(&mut self) {
        assert!(self.locked && self.noise && self.generator && self.mask != 0);
        self.batches += 1;
        let offset = (self.low - ROM) / 4;
        let count = self.length / 4;
        match (offset, count) {
            (197, 1) => assert_eq!(self.ram[57], P256_P),
            (163, 2) => {
                assert!(self.curve_loaded);
                self.ram[21] = Self::marked(self.ram[21]);
                self.ram[24] = Self::marked(self.ram[24]);
            }
            (177, 3) => {
                let point = (Self::marked(self.ram[21]), Self::marked(self.ram[24]));
                self.point = Some(point);
            }
            (180, 2) => {
                self.sum = Some(self.point);
            }
            (0, 22) | (0, 40) | (40, 40) => {
                let current = self.sum.unwrap();
                let mut next = Self::add(current, current);
                if (offset, count) == (0, 40) {
                    next = Self::add(next, self.point);
                } else if (offset, count) == (40, 40) {
                    next = Self::add(next, Some(Self::negated(self.point.unwrap())));
                }
                self.sum = Some(next);
            }
            (125, 18) => {
                let a = (Self::marked(self.ram[21]), Self::marked(self.ram[24]));
                let b = (Self::marked(self.ram[27]), Self::marked(self.ram[30]));
                self.sum = Some(Self::add(Some(a), Some(b)));
                self.ram[18] = [0; 32];
                if self.sum.unwrap().is_some() {
                    self.ram[18][31] = 1;
                }
            }
            (182, 3) => {}
            (143, 5) => {
                self.in_exponent = true;
                self.exponent = [0; 33];
            }
            (157, 4) => {
                let mut expected = P256_P;
                subtract_one(&mut expected);
                subtract_one(&mut expected);
                assert_eq!(self.exponent[1..], expected);
                self.in_exponent = false;
            }
            (165, 6) => {
                let (x, y) = self.sum.unwrap().unwrap();
                self.ram[3] = x;
                self.ram[6] = y;
                if self.spoil_result {
                    self.ram[6][31] ^= 1;
                }
            }
            (326, 6) => {
                assert_eq!(self.ram[0], P256_P);
                assert_eq!(self.ram[32], P256_RRP);
                let mut one = [0u8; 32];
                one[31] = 1;
                assert_eq!(self.ram[48], one);
                self.ram[64] = if self.spoil_result {
                    P256_P
                } else {
                    multiply(&self.ram[96], &self.ram[112])
                };
            }
            _ if self.in_exponent => self.digits(count),
            other => panic!("unexpected batch {other:?}"),
        }
        self.latch = if self.bad_finish_at == Some(self.batches) { 7 } else { 5 };
    }

    fn perform(&mut self, commands: &[Command]) {
        for command in commands {
            match *command {
                Command::PkeLock { release } => {
                    if release {
                        assert!(self.locked && !self.noise && !self.generator && self.mask == 0);
                        self.locked = false;
                    }
                }
                Command::PkeNoise { enable } => self.noise = enable,
                Command::PkeMaskGenerator { enable } => self.generator = enable,
                Command::PkeMask { mask } => self.mask = mask,
                Command::PkeRam { section, operand } => {
                    assert!(self.locked && self.noise && self.generator && self.mask != 0);
                    self.ram[section as usize] = operand;
                }
                Command::PkeMontgomeryLow { word } => assert_eq!(word, 1),
                Command::PkeMontgomeryHigh { word } => assert_eq!(word, 0),
                Command::PkeWorkLength { length } => assert_eq!(length, 4),
                Command::PkeAddressLow { word } => self.low = word,
                Command::PkeAddressHigh { word } => assert_eq!(word, 0),
                Command::PkeLength { length } => self.length = length,
                Command::PkeFinish { latch } => {
                    assert!(latch == 1 || latch == 5);
                    self.latch = 0;
                }
                Command::PkeStart { code } => {
                    assert_eq!(code, 0x05aa);
                    self.batch();
                }
                Command::PkeRamClear => {
                    self.cleaning = true;
                    self.clears += 1;
                    self.ram = vec![[0; 32]; 128];
                }
                other => panic!("unexpected {other:?}"),
            }
        }
    }

    fn answer(&mut self, ask: Ask) -> Reply {
        let word = match ask {
            Ask::Entropy => {
                return match self.seeds.pop() {
                    Some(Some(seed)) => Reply::Entropy { seed },
                    Some(None) => Reply::EntropyFailed { error: CryptoError::EntropyRejected },
                    None => Reply::Entropy { seed: [1, 2, 3, 4] },
                };
            }
            Ask::LoadCurve => {
                self.curve_loaded = true;
                return Reply::Status { status: self.curve_status };
            }
            Ask::PkeRam { section } => {
                return Reply::Operand { operand: self.ram[section as usize] };
            }
            Ask::Read { source: Source::PkeLock } => {
                if self.lock_reads == 0 {
                    self.locked = true;
                    0xaa
                } else {
                    self.lock_reads -= 1;
                    0x55
                }
            }
            Ask::Read { source: Source::PkeReady } => u32::from(!self.never_ready),
            Ask::Read { source: Source::PkeBusy } => {
                if self.cleaning {
                    u32::from(self.stuck_clean)
                } else {
                    u32::from(self.busy_at == Some(self.batches))
                }
            }
            Ask::Read { source: Source::PkeFinish } => self.latch,
            other => panic!("unexpected {other:?}"),
        };
        Reply::Word { word }
    }

    fn drive(&mut self, engine: &mut PkeEngine) {
        let mut step = engine.begin();
        loop {
            self.perform(&step.commands);
            if step.ask == Ask::Finished {
                break;
            }
            assert_eq!(engine.result(), None);
            let reply = self.answer(step.ask);
            step = engine.resume(reply);
        }
        assert!(!self.noise && !self.generator && self.mask == 0 && !self.locked);
    }

    fn point_mul(
        &mut self,
        capability: &mut Ws63P256,
        point: &P256AffinePoint,
        scalar: &[u8; 32],
        output: &mut P256AffinePoint,
    ) -> Result<(), CryptoError> {
        let mut engine = capability.begin_point_mul(point, scalar)?;
        assert_eq!(
            capability.begin_point_mul(point, scalar).err(),
            Some(CryptoError::Backend(ERR_BUSY))
        );
        self.drive(&mut engine);
        capability.finish_point_mul(&engine, output)
    }

    fn point_add(
        &mut self,
        capability: &mut Ws63P256,
        a: &P256AffinePoint,
        b: &P256AffinePoint,
        output: &mut P256PointResult,
    ) -> Result<(), CryptoError> {
        let mut addition = capability.begin_point_add(a, b)?;
        match &mut addition {
            PointAddition::Infinity => {}
            PointAddition::Double(engine) => self.drive(engine),
            PointAddition::Sum(engine) => self.drive(engine),
        }
        capability.finish_point_add(&addition, output)
    }

    fn field_mul(
        &mut self,
        capability: &mut Ws63P256,
        a: &P256FieldElement,
        b: &P256FieldElement,
        output: &mut P256FieldElement,
    ) -> Result<(), CryptoError> {
        let mut engine = capability.begin_field_mul(a, b)?;
        self.drive(&mut engine);
        capability.finish_field_mul(&engine, output)
    }
}

fn capability() -> Ws63P256<'static> {
    Ws63P256::new(hisi_hal::peripherals::Peripherals::take().unwrap().PKE)
}

fn generator() -> P256AffinePoint {
    P256AffinePoint::new(P256_GX, P256_GY)
}

fn scalar(value: u64) -> [u8; 32] {
    let mut bytes = [0u8; 32];
    bytes[24..].copy_from_slice(&value.to_be_bytes());
    bytes
}

const MARK: P256AffinePoint = P256AffinePoint { x: [3; 32], y: [4; 32] };

#[test]
fn multiplications_equal_software() {
    let mut capability = capability();
    let mut large = P256_N;
    subtract_one(&mut large);
    let mut mixed = [0x5a; 32];
    mixed[0] = 0x7f;
    for scalar in [scalar(1), scalar(2), scalar(3), scalar(7), scalar(u64::MAX), large, mixed] {
        let mut device = Device::new();
        let mut output = MARK;
        let result = device.point_mul(&mut capability, &generator(), &scalar, &mut output);
        assert_eq!(result, Ok(()));
        assert_eq!((output.x, output.y), software_mul(&P256_GX, &P256_GY, &scalar));
        assert_eq!(device.clears, 1);
    }
    // Another point than the generator.
    let (x, y) = software_mul(&P256_GX, &P256_GY, &scalar(12345));
    let mut output = MARK;
    let result = Device::new().point_mul(
        &mut capability,
        &P256AffinePoint::new(x, y),
        &scalar(99),
        &mut output,
    );
    assert_eq!(result, Ok(()));
    assert_eq!((output.x, output.y), software_mul(&P256_GX, &P256_GY, &scalar(12345 * 99)));
}

#[test]
fn multiplication_refuses_bad_inputs() {
    let mut capability = capability();
    let mut output = MARK;
    let mut device = Device::new();
    let off_curve = P256AffinePoint::new(P256_GX, P256_GX);
    let mut refuse = |point: &P256AffinePoint, scalar: &[u8; 32]| {
        let result = device.point_mul(&mut capability, point, scalar, &mut output);
        assert_eq!(output, MARK);
        result
    };
    assert_eq!(refuse(&off_curve, &scalar(1)), Err(CryptoError::InvalidPoint));
    assert_eq!(refuse(&off_curve, &scalar(0)), Err(CryptoError::InvalidPoint));
    assert_eq!(refuse(&generator(), &scalar(0)), Err(CryptoError::InvalidValue));
    assert_eq!(refuse(&generator(), &P256_N), Err(CryptoError::InvalidValue));
    assert_eq!(refuse(&generator(), &[0xff; 32]), Err(CryptoError::InvalidValue));
    assert_eq!(device.batches, 0);
}

#[test]
fn additions_equal_software() {
    let mut capability = capability();
    let point = |value: u64| {
        let (x, y) = software_mul(&P256_GX, &P256_GY, &scalar(value));
        P256AffinePoint::new(x, y)
    };
    for (a, b) in [(1u64, 2u64), (5, 9), (123, 4)] {
        let mut output = P256PointResult::Infinity;
        let result =
            Device::new().point_add(&mut capability, &point(a), &point(b), &mut output);
        assert_eq!(result, Ok(()));
        assert_eq!(output, P256PointResult::Affine(point(a + b)));
    }
    // Equal points are doubled.
    let mut output = P256PointResult::Infinity;
    let result = Device::new().point_add(&mut capability, &point(6), &point(6), &mut output);
    assert_eq!((result, output), (Ok(()), P256PointResult::Affine(point(12))));
    // Inverse points need no engine.
    let (x, y) = Device::negated((point(6).x, point(6).y));
    let mut device = Device::new();
    let mut output = P256PointResult::Affine(MARK);
    let inverse = P256AffinePoint::new(x, y);
    let result = device.point_add(&mut capability, &point(6), &inverse, &mut output);
    assert_eq!((result, output), (Ok(()), P256PointResult::Infinity));
    assert_eq!(device.batches, 0);
    // Points off the curve are refused.
    let mut output = P256PointResult::Affine(MARK);
    for (a, b) in [(MARK, point(1)), (point(1), MARK), (MARK, MARK)] {
        let result = Device::new().point_add(&mut capability, &a, &b, &mut output);
        assert_eq!(result, Err(CryptoError::InvalidPoint));
        assert_eq!(output, P256PointResult::Affine(MARK));
    }
}

#[test]
fn inverse_points_have_opposite_second_coordinates() {
    let bignum = RustCryptoBignum;
    for value in [1u64, 6, 77] {
        let (x, y) = software_mul(&P256_GX, &P256_GY, &scalar(value));
        let (inverse_x, inverse_y) = Device::negated((x, y));
        assert_eq!(x, inverse_x);
        let y = bignum.init_set(&y).unwrap();
        let inverse_y = bignum.init_set(&inverse_y).unwrap();
        let sum = bignum.add(&y, &inverse_y).unwrap();
        let mut bytes = [0u8; 32];
        bignum.write_be(&sum, &mut bytes, 32).unwrap();
        assert_eq!(bytes, P256_P);
    }
}

#[test]
fn power_two_below_the_prime_inverts() {
    let mut exponent = P256_P;
    subtract_one(&mut exponent);
    subtract_one(&mut exponent);
    for x in [scalar(2), scalar(12345), P256_GX, P256_GY] {
        let mut power = scalar(1);
        for byte in exponent {
            for bit in (0..8).rev() {
                power = multiply(&power, &power);
                if byte >> bit & 1 == 1 {
                    power = multiply(&power, &x);
                }
            }
        }
        assert_ne!(power, x);
        assert_eq!(multiply(&x, &power), scalar(1));
    }
}

#[test]
fn addition_with_zero_third_coordinate_is_infinity() {
    let mut capability = capability();
    let (x, y) = software_mul(&P256_GX, &P256_GY, &scalar(2));
    let (a, b) = (generator(), P256AffinePoint::new(x, y));
    let mut addition = capability.begin_point_add(&a, &b).unwrap();
    let mut device = Device::new();
    if let PointAddition::Sum(engine) = &mut addition {
        let mut step = engine.begin();
        loop {
            device.perform(&step.commands);
            if step.ask == Ask::Finished {
                break;
            }
            let reply = if step.ask == (Ask::PkeRam { section: 18 }) {
                Reply::Operand { operand: [0; 32] }
            } else {
                device.answer(step.ask)
            };
            step = engine.resume(reply);
        }
    }
    let mut output = P256PointResult::Affine(MARK);
    assert_eq!(capability.finish_point_add(&addition, &mut output), Ok(()));
    assert_eq!(output, P256PointResult::Infinity);
    assert_eq!(device.clears, 1);
}

#[test]
fn products_equal_software() {
    let mut capability = capability();
    let mut top = P256_P;
    subtract_one(&mut top);
    for (a, b) in [(scalar(3), scalar(5)), (top, top), (P256_GX, P256_GY), (scalar(0), top)] {
        let a = P256FieldElement::try_from_be_bytes(a).unwrap();
        let b = P256FieldElement::try_from_be_bytes(b).unwrap();
        let mut output = P256FieldElement::zero();
        let mut device = Device::new();
        assert_eq!(device.field_mul(&mut capability, &a, &b, &mut output), Ok(()));
        assert_eq!(*output.as_be_bytes(), multiply(a.as_be_bytes(), b.as_be_bytes()));
        assert!(!device.curve_loaded);
    }
    assert_eq!(P256FieldElement::try_from_be_bytes(P256_P), Err(CryptoError::InvalidValue));
    assert_eq!(P256FieldElement::try_from_be_bytes([0xff; 32]), Err(CryptoError::InvalidValue));
}

#[test]
fn results_that_are_not_valid_are_cleared() {
    let mut capability = capability();
    let mut device = Device::new();
    device.spoil_result = true;
    let mut output = MARK;
    let result = device.point_mul(&mut capability, &generator(), &scalar(5), &mut output);
    assert_eq!(result, Err(CryptoError::InvalidPoint));
    assert_eq!(output, P256AffinePoint::new([0; 32], [0; 32]));

    let (x, y) = software_mul(&P256_GX, &P256_GY, &scalar(2));
    let mut device = Device::new();
    device.spoil_result = true;
    let mut output = P256PointResult::Affine(MARK);
    let other = P256AffinePoint::new(x, y);
    let result = device.point_add(&mut capability, &generator(), &other, &mut output);
    assert_eq!(result, Err(CryptoError::InvalidPoint));
    assert_eq!(output, P256PointResult::Infinity);

    // A doubling that fails leaves the output alone.
    let mut device = Device::new();
    device.spoil_result = true;
    let mut output = P256PointResult::Affine(MARK);
    let result = device.point_add(&mut capability, &generator(), &generator(), &mut output);
    assert_eq!(result, Err(CryptoError::InvalidPoint));
    assert_eq!(output, P256PointResult::Affine(MARK));

    let mut device = Device::new();
    device.spoil_result = true;
    let three = P256FieldElement::try_from_be_bytes(scalar(3)).unwrap();
    let mut output = three;
    let result = device.field_mul(&mut capability, &three, &three, &mut output);
    assert_eq!(result, Err(CryptoError::InvalidValue));
    assert_eq!(output, P256FieldElement::zero());
}

#[test]
fn entropy_decides_the_mask() {
    let mut capability = capability();
    let mut device = Device::new();
    device.seeds = vec![Some([0, 0, 0, 9]), Some([0; 4]), Some([0; 4])];
    let mut output = MARK;
    let result = device.point_mul(&mut capability, &generator(), &scalar(1), &mut output);
    assert_eq!(result, Ok(()));
    assert!(device.seeds.is_empty());

    let mut device = Device::new();
    device.seeds = vec![Some([0; 4]); 8];
    let mut output = MARK;
    let result = device.point_mul(&mut capability, &generator(), &scalar(1), &mut output);
    assert_eq!(result, Err(CryptoError::Backend(ERR_MASK_ENTROPY)));
    assert_eq!(output, MARK);
    assert_eq!((device.seeds.len(), device.clears), (0, 0));

    let mut device = Device::new();
    device.seeds = vec![None, Some([0; 4])];
    let mut output = MARK;
    let result = device.point_mul(&mut capability, &generator(), &scalar(1), &mut output);
    assert_eq!(result, Err(CryptoError::EntropyRejected));
    assert_eq!(output, MARK);
}

#[test]
fn engine_failures_clear_the_output() {
    let mut capability = capability();
    let mut fail = |device: &mut Device| {
        let mut output = MARK;
        let result = device.point_mul(&mut capability, &generator(), &scalar(5), &mut output);
        assert_eq!(output, P256AffinePoint::new([0; 32], [0; 32]));
        result
    };
    let mut device = Device::new();
    device.curve_status = -2;
    assert_eq!(fail(&mut device), Err(CryptoError::Backend(0xffff_fffe)));
    assert_eq!(device.clears, 1);
    let mut device = Device::new();
    device.bad_finish_at = Some(3);
    assert_eq!(fail(&mut device), Err(CryptoError::Backend(ERR_FINISH_STATUS)));
    assert_eq!((device.batches, device.clears), (3, 1));
}

#[test]
fn lock_timeout_is_reported() {
    let mut capability = capability();
    let mut device = Device::new();
    device.lock_reads = 10_000_000;
    let mut output = MARK;
    let result = device.point_mul(&mut capability, &generator(), &scalar(5), &mut output);
    assert_eq!(result, Err(CryptoError::Backend(ERR_LOCK_TIMEOUT)));
    assert_eq!(output, P256AffinePoint::new([0; 32], [0; 32]));
    assert_eq!((device.batches, device.clears), (0, 0));
}

#[test]
fn ready_timeout_is_reported() {
    let mut capability = capability();
    let mut device = Device::new();
    device.never_ready = true;
    let mut output = MARK;
    let result = device.point_mul(&mut capability, &generator(), &scalar(5), &mut output);
    assert_eq!(result, Err(CryptoError::Backend(ERR_INSTR_READY_TIMEOUT)));
    assert_eq!((device.batches, device.clears), (0, 1));
}

#[test]
fn busy_timeout_is_reported() {
    let mut capability = capability();
    let mut device = Device::new();
    device.busy_at = Some(2);
    let mut output = MARK;
    let result = device.point_mul(&mut capability, &generator(), &scalar(5), &mut output);
    assert_eq!(result, Err(CryptoError::Backend(ERR_OPERATION_TIMEOUT)));
    assert_eq!((device.batches, device.clears), (2, 1));
}

#[test]
fn cleanup_failure_keeps_the_result() {
    let mut capability = capability();
    let three = P256FieldElement::try_from_be_bytes(scalar(3)).unwrap();
    let mut device = Device::new();
    device.stuck_clean = true;
    let mut output = P256FieldElement::zero();
    let result = device.field_mul(&mut capability, &three, &three, &mut output);
    assert_eq!(result, Err(CryptoError::Backend(ERR_OPERATION_TIMEOUT)));
    assert_eq!(*output.as_be_bytes(), scalar(9));
}

#[test]
fn session_shares_the_capability() {
    let mut capability = capability();
    let entropy = 7u8;
    let three = P256FieldElement::try_from_be_bytes(scalar(3)).unwrap();
    let point = generator();
    {
        let mut session = capability.session(&entropy);
        assert_eq!(*session.entropy, 7);
        assert!(session.field_mul(&three, &three).is_ok());
        let busy = Some(CryptoError::Backend(ERR_BUSY));
        assert_eq!(session.field_mul(&three, &three).err(), busy);
        assert_eq!(session.point_mul(&point, &scalar(1)).err(), busy);
        assert_eq!(session.point_add(&point, &point).err(), busy);
    }
    assert_eq!(
        capability.begin_field_mul(&three, &three).err(),
        Some(CryptoError::Backend(ERR_BUSY))
    );
}

#[test]
fn point_validation_matches_the_curve() {
    assert_eq!(validate_point(&P256_GX, &P256_GY), Ok(()));
    assert_eq!(validate_point(&P256_GY, &P256_GX), Err(CryptoError::InvalidPoint));
    assert_eq!(validate_point(&[0; 32], &[0; 32]), Err(CryptoError::InvalidPoint));
    assert_eq!(validate_point(&[0xff; 32], &P256_GY), Err(CryptoError::InvalidPoint));
}

#[test]
fn curve_parameters_are_handed_out_in_order() {
    let curve = p256_curve();
    assert_eq!((curve.p, curve.gx, curve.gy, curve.n), (P256_P, P256_GX, P256_GY, P256_N));
    assert_eq!((curve.a[31], curve.b[31]), (0xfc, 0x4b));
    assert_eq!((curve.h, curve.ksize, curve.ecc_type), (1, 32, 6));
    let parameters = p256_initial_parameters();
    assert_eq!((parameters.rrp, parameters.rrn[31]), (P256_RRP, 0xa2));
    assert_eq!((parameters.mont_a[31], parameters.mont_b[31]), (0xfc, 0x5f));
    assert_eq!((parameters.mont_1_p[31], parameters.mont_1_n[31]), (1, 0xaf));
    assert_eq!((parameters.const_1[31], parameters.const_0), (1, [0; 32]));
    assert_eq!(parameters.mont_param_n, [0xccd1_c8aa, 0xee00_bc4f]);
    assert_eq!(parameters.mont_param_p, [0, 1]);
}

#[test]
fn recoding_has_no_adjacent_digits() {
    for scalar in [scalar(0), scalar(u64::MAX), [0xff; 32], [0xb6; 32], P256_N] {
        let mut digits = [9i8; 257];
        let count = scalar_to_naf(&scalar, &mut digits);
        assert!(digits[..count].windows(2).all(|pair| pair[0] == 0 || pair[1] == 0));
        assert!(digits[count..].iter().all(|digit| *digit == 9));
        assert_eq!(count == 0, scalar == [0; 32]);
        if count > 0 {
            assert_eq!(digits[count - 1], 1);
        }
    }
    let mut digits = [0i8; 257];
    assert_eq!(scalar_to_naf(&scalar(7), &mut digits), 4);
    assert_eq!(digits[..4], [-1, 0, 0, 1]);
    assert_eq!(scalar_to_naf(&[0xff; 32], &mut digits), 257);
}

#[test]
fn big_endian_arithmetic() {
    let mut value = [0x00, 0xff, 0xff];
    add_one(&mut value);
    assert_eq!(value, [0x01, 0x00, 0x00]);
    subtract_one(&mut value);
    assert_eq!(value, [0x00, 0xff, 0xff]);
    shift_right_one(&mut value);
    assert_eq!(value, [0x00, 0x7f, 0xff]);
    let mut value = [0xff, 0xff];
    add_one(&mut value);
    assert_eq!(value, [0, 0]);
    assert!(is_zero(&value));
    subtract_one(&mut value);
    assert_eq!(value, [0xff, 0xff]);
    assert!(be_less(&[0x01, 0xff], &[0x02, 0x00]));
    assert!(!be_less(&[0x02, 0x00], &[0x02, 0x00]));
}
