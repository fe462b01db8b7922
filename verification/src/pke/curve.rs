//! The curve P-256: its constants, and the types of its points and field elements.
use crate::big_endian::be_value;
use crate::error::CryptoError;
use crate::pke::group::{field_prime, is_canonical};
use vstd::arithmetic::div_mod::lemma_fundamental_div_mod_converse;
use vstd::prelude::*;

verus! {

/// Bytes of a coordinate, a field element or a scalar.
pub const P256_ELEMENT_BYTES: usize = 32;

/// The field prime.
pub const P256_P: [u8; 32] = [
    0xff, 0xff, 0xff, 0xff, 0x00, 0x00, 0x00, 0x01, 0x00, 0x00, 0x00, 0x00, 0x00, 0x00, 0x00, 0x00,
    0x00, 0x00, 0x00, 0x00, 0xff, 0xff, 0xff, 0xff, 0xff, 0xff, 0xff, 0xff, 0xff, 0xff, 0xff, 0xff,
];

/// Curve coefficient a, which is -3 modulo the prime.
pub const P256_A: [u8; 32] = [
    0xff, 0xff, 0xff, 0xff, 0x00, 0x00, 0x00, 0x01, 0x00, 0x00, 0x00, 0x00, 0x00, 0x00, 0x00, 0x00,
    0x00, 0x00, 0x00, 0x00, 0xff, 0xff, 0xff, 0xff, 0xff, 0xff, 0xff, 0xff, 0xff, 0xff, 0xff, 0xfc,
];

/// Curve coefficient b.
pub const P256_B: [u8; 32] = [
    0x5a, 0xc6, 0x35, 0xd8, 0xaa, 0x3a, 0x93, 0xe7, 0xb3, 0xeb, 0xbd, 0x55, 0x76, 0x98, 0x86, 0xbc,
    0x65, 0x1d, 0x06, 0xb0, 0xcc, 0x53, 0xb0, 0xf6, 0x3b, 0xce, 0x3c, 0x3e, 0x27, 0xd2, 0x60, 0x4b,
];

/// First coordinate of the generator.
pub const P256_GX: [u8; 32] = [
    0x6b, 0x17, 0xd1, 0xf2, 0xe1, 0x2c, 0x42, 0x47, 0xf8, 0xbc, 0xe6, 0xe5, 0x63, 0xa4, 0x40, 0xf2,
    0x77, 0x03, 0x7d, 0x81, 0x2d, 0xeb, 0x33, 0xa0, 0xf4, 0xa1, 0x39, 0x45, 0xd8, 0x98, 0xc2, 0x96,
];

/// Second coordinate of the generator.
pub const P256_GY: [u8; 32] = [
    0x4f, 0xe3, 0x42, 0xe2, 0xfe, 0x1a, 0x7f, 0x9b, 0x8e, 0xe7, 0xeb, 0x4a, 0x7c, 0x0f, 0x9e, 0x16,
    0x2b, 0xce, 0x33, 0x57, 0x6b, 0x31, 0x5e, 0xce, 0xcb, 0xb6, 0x40, 0x68, 0x37, 0xbf, 0x51, 0xf5,
];

/// Order of the generator.
pub const P256_N: [u8; 32] = [
    0xff, 0xff, 0xff, 0xff, 0x00, 0x00, 0x00, 0x00, 0xff, 0xff, 0xff, 0xff, 0xff, 0xff, 0xff, 0xff,
    0xbc, 0xe6, 0xfa, 0xad, 0xa7, 0x17, 0x9e, 0x84, 0xf3, 0xb9, 0xca, 0xc2, 0xfc, 0x63, 0x25, 0x51,
];

/// Coefficient a in Montgomery form.
pub const P256_MONT_A: [u8; 32] = [
    0xff, 0xff, 0xff, 0xfc, 0x00, 0x00, 0x00, 0x04, 0x00, 0x00, 0x00, 0x00, 0x00, 0x00, 0x00, 0x00,
    0x00, 0x00, 0x00, 0x03, 0xff, 0xff, 0xff, 0xff, 0xff, 0xff, 0xff, 0xff, 0xff, 0xff, 0xff, 0xfc,
];

/// The value that the ROM takes for coefficient b.
pub const P256_MONT_B: [u8; 32] = [
    0x76, 0x1b, 0x22, 0xc0, 0x80, 0xc3, 0xc6, 0xac, 0x26, 0xf1, 0x55, 0x0c, 0x23, 0xf4, 0xf7, 0x8f,
    0x3b, 0x1b, 0xfa, 0x97, 0xb2, 0x54, 0xbc, 0xb8, 0xdc, 0x43, 0xd9, 0x9b, 0x5e, 0xe4, 0x86, 0x5f,
];

/// One in Montgomery form modulo the prime.
pub const P256_MONT_1_P: [u8; 32] = [
    0x00, 0x00, 0x00, 0x00, 0xff, 0xff, 0xff, 0xfe, 0xff, 0xff, 0xff, 0xff, 0xff, 0xff, 0xff, 0xff,
    0xff, 0xff, 0xff, 0xff, 0x00, 0x00, 0x00, 0x00, 0x00, 0x00, 0x00, 0x00, 0x00, 0x00, 0x00, 0x01,
];

/// One in Montgomery form modulo the order.
pub const P256_MONT_1_N: [u8; 32] = [
    0x00, 0x00, 0x00, 0x00, 0xff, 0xff, 0xff, 0xff, 0x00, 0x00, 0x00, 0x00, 0x00, 0x00, 0x00, 0x00,
    0x43, 0x19, 0x05, 0x52, 0x58, 0xe8, 0x61, 0x7b, 0x0c, 0x46, 0x35, 0x3d, 0x03, 0x9c, 0xda, 0xaf,
];

/// Squared Montgomery radix modulo the prime.
pub const P256_RRP: [u8; 32] = [
    0x00, 0x00, 0x00, 0x04, 0xff, 0xff, 0xff, 0xfd, 0xff, 0xff, 0xff, 0xff, 0xff, 0xff, 0xff, 0xfe,
    0xff, 0xff, 0xff, 0xfb, 0xff, 0xff, 0xff, 0xff, 0x00, 0x00, 0x00, 0x00, 0x00, 0x00, 0x00, 0x03,
];

/// Squared Montgomery radix modulo the order.
pub const P256_RRN: [u8; 32] = [
    0x66, 0xe1, 0x2d, 0x94, 0xf3, 0xd9, 0x56, 0x20, 0x28, 0x45, 0xb2, 0x39, 0x2b, 0x6b, 0xec, 0x59,
    0x46, 0x99, 0x79, 0x9c, 0x49, 0xbd, 0x6f, 0xa6, 0x83, 0x24, 0x4c, 0x95, 0xbe, 0x79, 0xee, 0xa2,
];

/// Zero.
pub const CONST_ZERO: [u8; 32] = [
    0x00, 0x00, 0x00, 0x00, 0x00, 0x00, 0x00, 0x00, 0x00, 0x00, 0x00, 0x00, 0x00, 0x00, 0x00, 0x00,
    0x00, 0x00, 0x00, 0x00, 0x00, 0x00, 0x00, 0x00, 0x00, 0x00, 0x00, 0x00, 0x00, 0x00, 0x00, 0x00,
];

/// One.
pub const CONST_ONE: [u8; 32] = [
    0x00, 0x00, 0x00, 0x00, 0x00, 0x00, 0x00, 0x00, 0x00, 0x00, 0x00, 0x00, 0x00, 0x00, 0x00, 0x00,
    0x00, 0x00, 0x00, 0x00, 0x00, 0x00, 0x00, 0x00, 0x00, 0x00, 0x00, 0x00, 0x00, 0x00, 0x00, 0x01,
];

/// Montgomery parameter of the order, high word first.
pub const P256_MONT_PARAM_N: [u32; 2] = [0xccd1_c8aa, 0xee00_bc4f];

/// Montgomery parameter of the prime, high word first.
pub const P256_MONT_PARAM_P: [u32; 2] = [0, 1];

/// The field prime as a number.
pub open spec fn p256_prime() -> int {
    0xffffffff00000001000000000000000000000000ffffffffffffffffffffffffint
}

/// The order of the generator as a number.
pub open spec fn p256_order() -> int {
    0xffffffff00000000ffffffffffffffffbce6faada7179e84f3b9cac2fc632551int
}

/// Curve coefficient b as a number.
pub open spec fn p256_b() -> int {
    0x5ac635d8aa3a93e7b3ebbd55769886bc651d06b0cc53b0f63bce3c3e27d2604bint
}

/// Whether two numbers are the coordinates of a point: both below the prime, and the
/// curve equation holds.
pub open spec fn on_curve(x: int, y: int) -> bool {
    &&& 0 <= x < p256_prime()
    &&& 0 <= y < p256_prime()
    &&& (y * y) % p256_prime() == (x * x * x - 3 * x + p256_b()) % p256_prime()
}

/// The number that the 32 bytes of an operand denote.
pub open spec fn operand_value(bytes: [u8; 32]) -> int {
    be_value(bytes@) as int
}

/// Affine coordinates, big-endian.
#[derive(Clone, Copy, Debug, PartialEq, Eq)]
pub struct P256AffinePoint {
    pub x: [u8; 32],
    pub y: [u8; 32],
}

impl P256AffinePoint {
    /// The coordinates denote a point of the curve.
    pub open spec fn on_curve(self) -> bool {
        on_curve(operand_value(self.x), operand_value(self.y))
    }

    /// A pair of coordinates.
    pub fn new(x: [u8; 32], y: [u8; 32]) -> (point: Self)
        ensures
            point.x == x,
            point.y == y,
    {
        Self { x, y }
    }
}

/// The result of an addition.
#[derive(Clone, Copy, Debug, PartialEq, Eq)]
pub enum P256PointResult {
    /// The point at infinity.
    Infinity,
    /// A point with coordinates.
    Affine(P256AffinePoint),
}

/// A number below the field prime, big-endian.
#[derive(Clone, Copy, Debug, PartialEq, Eq)]
pub struct P256FieldElement {
    bytes: [u8; 32],
}

impl View for P256FieldElement {
    type V = [u8; 32];

    closed spec fn view(&self) -> [u8; 32] {
        self.bytes
    }
}

impl P256FieldElement {
    #[verifier::type_invariant]
    spec fn canonical(self) -> bool {
        operand_value(self.bytes) < p256_prime()
    }

    /// Zero.
    pub fn zero() -> (element: Self)
        ensures
            element@ == CONST_ZERO,
    {
        proof {
            law_curve_constants();
        }
        Self { bytes: CONST_ZERO }
    }

    /// The element that the bytes denote, or `InvalidValue` where they denote the prime
    /// or more.
    pub fn try_from_be_bytes(bytes: [u8; 32]) -> (result: Result<Self, CryptoError>)
        ensures
            result is Ok <==> operand_value(bytes) < p256_prime(),
            result is Ok ==> result->Ok_0@ == bytes,
            result is Err ==> result->Err_0 == CryptoError::InvalidValue,
    {
        if is_canonical(&bytes) {
            Ok(Self { bytes })
        } else {
            Err(CryptoError::InvalidValue)
        }
    }

    /// The bytes of the element.
    pub fn as_be_bytes(&self) -> (bytes: &[u8; 32])
        ensures
            *bytes == self@,
            operand_value(*bytes) < p256_prime(),
    {
        proof {
            use_type_invariant(self);
        }
        &self.bytes
    }
}

proof fn lemma_take(bytes: Seq<u8>, k: int)
    requires
        0 <= k < bytes.len(),
    ensures
        be_value(bytes.take(k + 1)) == 256 * be_value(bytes.take(k)) + bytes[k],
{
    assert(bytes.take(k + 1).drop_last() =~= bytes.take(k));
}

/// The number that 32 bytes denote, written out.
pub proof fn lemma_be_value_32(bytes: Seq<u8>)
    requires
        bytes.len() == 32,
    ensures
        be_value(bytes) ==
            0x100000000000000000000000000000000000000000000000000000000000000int * bytes[0] +
            0x1000000000000000000000000000000000000000000000000000000000000int * bytes[1] +
            0x10000000000000000000000000000000000000000000000000000000000int * bytes[2] +
            0x100000000000000000000000000000000000000000000000000000000int * bytes[3] +
            0x1000000000000000000000000000000000000000000000000000000int * bytes[4] +
            0x10000000000000000000000000000000000000000000000000000int * bytes[5] +
            0x100000000000000000000000000000000000000000000000000int * bytes[6] +
            0x1000000000000000000000000000000000000000000000000int * bytes[7] +
            0x10000000000000000000000000000000000000000000000int * bytes[8] +
            0x100000000000000000000000000000000000000000000int * bytes[9] +
            0x1000000000000000000000000000000000000000000int * bytes[10] +
            0x10000000000000000000000000000000000000000int * bytes[11] +
            0x100000000000000000000000000000000000000int * bytes[12] +
            0x1000000000000000000000000000000000000int * bytes[13] +
            0x10000000000000000000000000000000000int * bytes[14] +
            0x100000000000000000000000000000000int * bytes[15] +
            0x1000000000000000000000000000000int * bytes[16] +
            0x10000000000000000000000000000int * bytes[17] +
            0x100000000000000000000000000int * bytes[18] +
            0x1000000000000000000000000int * bytes[19] +
            0x10000000000000000000000int * bytes[20] +
            0x100000000000000000000int * bytes[21] +
            0x1000000000000000000int * bytes[22] +
            0x10000000000000000int * bytes[23] +
            0x100000000000000int * bytes[24] +
            0x1000000000000int * bytes[25] +
            0x10000000000int * bytes[26] +
            0x100000000int * bytes[27] +
            0x1000000int * bytes[28] +
            0x10000int * bytes[29] +
            0x100int * bytes[30] +
            0x1int * bytes[31],
{
    assert(bytes.take(0) =~= seq![]);
    assert(be_value(bytes.take(0)) == 0);
    lemma_take(bytes, 0);
    lemma_take(bytes, 1);
    lemma_take(bytes, 2);
    lemma_take(bytes, 3);
    lemma_take(bytes, 4);
    lemma_take(bytes, 5);
    lemma_take(bytes, 6);
    lemma_take(bytes, 7);
    lemma_take(bytes, 8);
    lemma_take(bytes, 9);
    lemma_take(bytes, 10);
    lemma_take(bytes, 11);
    lemma_take(bytes, 12);
    lemma_take(bytes, 13);
    lemma_take(bytes, 14);
    lemma_take(bytes, 15);
    lemma_take(bytes, 16);
    lemma_take(bytes, 17);
    lemma_take(bytes, 18);
    lemma_take(bytes, 19);
    lemma_take(bytes, 20);
    lemma_take(bytes, 21);
    lemma_take(bytes, 22);
    lemma_take(bytes, 23);
    lemma_take(bytes, 24);
    lemma_take(bytes, 25);
    lemma_take(bytes, 26);
    lemma_take(bytes, 27);
    lemma_take(bytes, 28);
    lemma_take(bytes, 29);
    lemma_take(bytes, 30);
    lemma_take(bytes, 31);
    assert(bytes.take(32) =~= bytes);
}

/// The constants are what their names say: each byte string denotes its number, a is -3,
/// and the generator lies on the curve.
pub proof fn law_curve_constants()
    ensures
        operand_value(P256_P) == p256_prime(),
        operand_value(P256_A) == p256_prime() - 3,
        operand_value(P256_B) == p256_b(),
        operand_value(P256_N) == p256_order(),
        operand_value(CONST_ZERO) == 0,
        operand_value(CONST_ONE) == 1,
        on_curve(operand_value(P256_GX), operand_value(P256_GY)),
{
    lemma_be_value_32(P256_P@);
    lemma_be_value_32(P256_A@);
    lemma_be_value_32(P256_B@);
    lemma_be_value_32(P256_N@);
    lemma_be_value_32(CONST_ZERO@);
    lemma_be_value_32(CONST_ONE@);
    lemma_be_value_32(P256_GX@);
    lemma_be_value_32(P256_GY@);
    let x = 0x6b17d1f2e12c4247f8bce6e563a440f277037d812deb33a0f4a13945d898c296int;
    let y = 0x4fe342e2fe1a7f9b8ee7eb4a7c0f9e162bce33576b315ececbb6406837bf51f5int;
    assert(operand_value(P256_GX) == x);
    assert(operand_value(P256_GY) == y);
    lemma_generator();
}

proof fn lemma_generator()
    ensures
        on_curve(0x6b17d1f2e12c4247f8bce6e563a440f277037d812deb33a0f4a13945d898c296int, 0x4fe342e2fe1a7f9b8ee7eb4a7c0f9e162bce33576b315ececbb6406837bf51f5int),
{
    let p = p256_prime();
    let x = 0x6b17d1f2e12c4247f8bce6e563a440f277037d812deb33a0f4a13945d898c296int;
    let y = 0x4fe342e2fe1a7f9b8ee7eb4a7c0f9e162bce33576b315ececbb6406837bf51f5int;
    let r = 0x55df5d5850f47bad82149139979369fe498a9022a412b5e0bedd2cfc21c3ed91int;
    let left = 0x18ee0d07e1cadf1365bd80dd843314dd534834655163ed44a7f051b975f0f918int;
    let right = 0x12bdd1ad23dfc833dccf5f6141d6bb4a1f365dc1430b0e600b52dd851938d2d6ac1f13af10c6cf49636cc473bf6b1231aa3140cad30ce8beb57a985cd88ffd70int;
    assert(0x4fe342e2fe1a7f9b8ee7eb4a7c0f9e162bce33576b315ececbb6406837bf51f5int * 0x4fe342e2fe1a7f9b8ee7eb4a7c0f9e162bce33576b315ececbb6406837bf51f5int == 0x18ee0d07c8dcd20b9ce0aed20040731334d2a0659b3cdac48b9f77ed85221580f323bdcf3862ca176dbafda0bb50a6da6c3354d552aec89c16ecdb42abd2f479int) by (nonlinear_arith);
    assert(0x18ee0d07e1cadf1365bd80dd843314dd534834655163ed44a7f051b975f0f918int * 0xffffffff00000001000000000000000000000000ffffffffffffffffffffffffint == 0x18ee0d07c8dcd20b9ce0aed20040731334d2a0659b3cdac48b9f77ed852215809d446076e76e4e69eba66c6723bd3cdc22a8c4b2ae9c12bb580fae468a0f06e8int) by (nonlinear_arith);
    assert(0x6b17d1f2e12c4247f8bce6e563a440f277037d812deb33a0f4a13945d898c296int * 0x6b17d1f2e12c4247f8bce6e563a440f277037d812deb33a0f4a13945d898c296int == 0x2cccebb86e0def74d4d2435551cd0b7cd92ade46207ebdf870387d127a032f22b8d5b1119b64b5c2c89de54fe3a13eca1ffd1a5bd36cd01530edd460c607afe4int) by (nonlinear_arith);
    assert(0x2cccebb86e0def74d4d2435551cd0b7cd92ade46207ebdf870387d127a032f22b8d5b1119b64b5c2c89de54fe3a13eca1ffd1a5bd36cd01530edd460c607afe4int * 0x6b17d1f2e12c4247f8bce6e563a440f277037d812deb33a0f4a13945d898c296int == 0x12bdd1ad1121f686cbad68da88e7241cba2f01d878693d960b5df51a2dc06312cd5207fa793723fe6500b7d836413f4248356822515abf749212e22d40563f702c9736c7bc391d8f27ffacdf41f72c4477d6be9a8e73b70eab780432ab2bd798int) by (nonlinear_arith);
    assert(0x12bdd1ad23dfc833dccf5f6141d6bb4a1f365dc1430b0e600b52dd851938d2d6ac1f13af10c6cf49636cc473bf6b1231aa3140cad30ce8beb57a985cd88ffd70int * 0xffffffff00000001000000000000000000000000ffffffffffffffffffffffffint == 0x12bdd1ad1121f686cbad68da88e7241cba2f01d878693d960b5df51a2dc06312cd5207fa793723fe6500b7d836413f4248356822515abf749212e22d40563f6ef036996f71fa6ef16fa0244af60f862b2e5ebca52cf317414a8567a327700290int) by (nonlinear_arith);
    lemma_fundamental_div_mod_converse(y * y, p, left, r);
    lemma_fundamental_div_mod_converse(x * x * x - 3 * x + p256_b(), p, right, r);
}

/// The Montgomery radix: two to the 256.
pub open spec fn montgomery_radix() -> int {
    0x10000000000000000000000000000000000000000000000000000000000000000int
}

/// The constants for the Montgomery forms: one and a in Montgomery form, the squared
/// radix modulo the prime and the order, and the negated inverses of both modulo two to
/// the 64.
pub proof fn law_montgomery_constants()
    ensures
        operand_value(P256_MONT_1_P) == montgomery_radix() % p256_prime(),
        operand_value(P256_MONT_1_N) == montgomery_radix() % p256_order(),
        operand_value(P256_RRP) == (montgomery_radix() * montgomery_radix()) % p256_prime(),
        operand_value(P256_RRN) == (montgomery_radix() * montgomery_radix()) % p256_order(),
        operand_value(P256_MONT_A) == ((p256_prime() - 3) * montgomery_radix()) % p256_prime(),
        ((P256_MONT_PARAM_P@[1] + 0x1_0000_0000 * P256_MONT_PARAM_P@[0]) * p256_prime() + 1)
            % 0x1_0000_0000_0000_0000 == 0,
        ((P256_MONT_PARAM_N@[1] + 0x1_0000_0000 * P256_MONT_PARAM_N@[0]) * p256_order() + 1)
            % 0x1_0000_0000_0000_0000 == 0,
{
    lemma_be_value_32(P256_MONT_1_P@);
    lemma_be_value_32(P256_MONT_1_N@);
    lemma_be_value_32(P256_RRP@);
    lemma_be_value_32(P256_RRN@);
    lemma_be_value_32(P256_MONT_A@);
    assert(0x10000000000000000000000000000000000000000000000000000000000000000int * 0x10000000000000000000000000000000000000000000000000000000000000000int == 0x100000000000000000000000000000000000000000000000000000000000000000000000000000000000000000000000000000000000000000000000000000000int) by (nonlinear_arith);
    assert(0xffffffff00000001000000000000000000000000fffffffffffffffffffffffcint * 0x10000000000000000000000000000000000000000000000000000000000000000int == 0xffffffff00000001000000000000000000000000fffffffffffffffffffffffc0000000000000000000000000000000000000000000000000000000000000000int) by (nonlinear_arith);
    assert(0x1int * 0xffffffff00000001000000000000000000000000ffffffffffffffffffffffffint == 0xffffffff00000001000000000000000000000000ffffffffffffffffffffffffint) by (nonlinear_arith);
    lemma_fundamental_div_mod_converse(0x10000000000000000000000000000000000000000000000000000000000000000int, 0xffffffff00000001000000000000000000000000ffffffffffffffffffffffffint, 0x1int, operand_value(P256_MONT_1_P));
    assert(0x1int * 0xffffffff00000000ffffffffffffffffbce6faada7179e84f3b9cac2fc632551int == 0xffffffff00000000ffffffffffffffffbce6faada7179e84f3b9cac2fc632551int) by (nonlinear_arith);
    lemma_fundamental_div_mod_converse(0x10000000000000000000000000000000000000000000000000000000000000000int, 0xffffffff00000000ffffffffffffffffbce6faada7179e84f3b9cac2fc632551int, 0x1int, operand_value(P256_MONT_1_N));
    assert(0x100000000fffffffffffffffefffffffefffffffeffffffff0000000000000003int * 0xffffffff00000001000000000000000000000000ffffffffffffffffffffffffint == 0xfffffffffffffffffffffffffffffffffffffffffffffffffffffffffffffffffffffffb0000000200000000000000010000000400000000fffffffffffffffdint) by (nonlinear_arith);
    lemma_fundamental_div_mod_converse(0x100000000000000000000000000000000000000000000000000000000000000000000000000000000000000000000000000000000000000000000000000000000int, 0xffffffff00000001000000000000000000000000ffffffffffffffffffffffffint, 0x100000000fffffffffffffffefffffffefffffffeffffffff0000000000000003int, operand_value(P256_RRP));
    assert(0x100000000fffffffffffffffeffffffff43190552df1a6c21012ffd85eedf9bfeint * 0xffffffff00000000ffffffffffffffffbce6faada7179e84f3b9cac2fc632551int == 0xffffffffffffffffffffffffffffffffffffffffffffffffffffffffffffffff991ed26b0c26a9dfd7ba4dc6d49413a6b9668663b64290597cdbb36a4186115eint) by (nonlinear_arith);
    lemma_fundamental_div_mod_converse(0x100000000000000000000000000000000000000000000000000000000000000000000000000000000000000000000000000000000000000000000000000000000int, 0xffffffff00000000ffffffffffffffffbce6faada7179e84f3b9cac2fc632551int, 0x100000000fffffffffffffffeffffffff43190552df1a6c21012ffd85eedf9bfeint, operand_value(P256_RRN));
    assert(0xfffffffffffffffffffffffffffffffffffffffffffffffffffffffffffffffcint * 0xffffffff00000001000000000000000000000000ffffffffffffffffffffffffint == 0xffffffff00000001000000000000000000000000fffffffffffffffffffffffb00000003fffffffbfffffffffffffffffffffffc000000000000000000000004int) by (nonlinear_arith);
    lemma_fundamental_div_mod_converse(0xffffffff00000001000000000000000000000000fffffffffffffffffffffffc0000000000000000000000000000000000000000000000000000000000000000int, 0xffffffff00000001000000000000000000000000ffffffffffffffffffffffffint, 0xfffffffffffffffffffffffffffffffffffffffffffffffffffffffffffffffcint, operand_value(P256_MONT_A));
    assert(0xccd1c8aaee00bc4fint * 0xffffffff00000000ffffffffffffffffbce6faada7179e84f3b9cac2fc632551int == 0xccd1c8aa212ef3a4ded10c5bee00bc4eca5113bcafc4ea28230102a06d6251dbffffffffffffffffint) by (nonlinear_arith);
}

/// The curve as the ROM takes it.
#[derive(Clone, Copy, Debug, PartialEq, Eq)]
pub struct PkeEccCurve {
    pub p: [u8; 32],
    pub a: [u8; 32],
    pub b: [u8; 32],
    pub gx: [u8; 32],
    pub gy: [u8; 32],
    pub n: [u8; 32],
    pub h: u32,
    pub ksize: u32,
    pub ecc_type: u32,
}

/// The precomputed values that the ROM takes with a curve.
#[derive(Clone, Copy, Debug, PartialEq, Eq)]
pub struct PkeEccInitParam {
    pub mont_a: [u8; 32],
    pub mont_b: [u8; 32],
    pub mont_1_p: [u8; 32],
    pub mont_1_n: [u8; 32],
    pub rrp: [u8; 32],
    pub rrn: [u8; 32],
    pub const_1: [u8; 32],
    pub const_0: [u8; 32],
    pub mont_param_n: [u32; 2],
    pub mont_param_p: [u32; 2],
}

/// P-256: cofactor one, keys of 32 bytes, curve type six.
pub fn p256_curve() -> (curve: PkeEccCurve)
    ensures
        curve == (PkeEccCurve {
            p: P256_P,
            a: P256_A,
            b: P256_B,
            gx: P256_GX,
            gy: P256_GY,
            n: P256_N,
            h: 1,
            ksize: 32,
            ecc_type: 6,
        }),
{
    PkeEccCurve {
        p: field_prime(),
        a: P256_A,
        b: P256_B,
        gx: P256_GX,
        gy: P256_GY,
        n: P256_N,
        h: 1,
        ksize: 32,
        ecc_type: 6,
    }
}

/// The precomputed values for P-256.
pub fn p256_initial_parameters() -> (parameters: PkeEccInitParam)
    ensures
        parameters == (PkeEccInitParam {
            mont_a: P256_MONT_A,
            mont_b: P256_MONT_B,
            mont_1_p: P256_MONT_1_P,
            mont_1_n: P256_MONT_1_N,
            rrp: P256_RRP,
            rrn: P256_RRN,
            const_1: CONST_ONE,
            const_0: CONST_ZERO,
            mont_param_n: P256_MONT_PARAM_N,
            mont_param_p: P256_MONT_PARAM_P,
        }),
{
    PkeEccInitParam {
        mont_a: P256_MONT_A,
        mont_b: P256_MONT_B,
        mont_1_p: P256_MONT_1_P,
        mont_1_n: P256_MONT_1_N,
        rrp: P256_RRP,
        rrn: P256_RRN,
        const_1: CONST_ONE,
        const_0: CONST_ZERO,
        mont_param_n: P256_MONT_PARAM_N,
        mont_param_p: P256_MONT_PARAM_P,
    }
}

} // verus!
