//! The P-256 capability: who may use the public key engine, and for what.
use crate::big_endian::{be_less, is_zero};
use crate::erase::erase_bytes;
use crate::error::CryptoError;
use crate::gate::{entry, take};
use crate::pke::curve::{
    law_curve_constants, operand_value, p256_order, p256_prime, P256AffinePoint,
    P256FieldElement, P256PointResult, CONST_ZERO, P256_N,
};
use crate::pke::engine::{pke_start, PkeEngine, PkeInput, PkeOutcome, PkeStage};
use crate::pke::group::validate_point;
use crate::pke::naf::{is_naf, naf_value};
use crate::pke::prime::law_equal_x_are_inverses;
use crate::pke::program::PkeKind;
use vstd::prelude::*;

verus! {

/// An operation of the public key engine is in progress.
pub const ERR_BUSY: u32 = 0xffff_1401;

/// Two.
pub const CONST_TWO: [u8; 32] = [
    0x00, 0x00, 0x00, 0x00, 0x00, 0x00, 0x00, 0x00, 0x00, 0x00, 0x00, 0x00, 0x00, 0x00, 0x00, 0x00,
    0x00, 0x00, 0x00, 0x00, 0x00, 0x00, 0x00, 0x00, 0x00, 0x00, 0x00, 0x00, 0x00, 0x00, 0x00, 0x02,
];

/// The ownership token of the public key engine, from the `hisi_hal` crate.
#[verifier::external_type_specification]
#[verifier::external_body]
pub struct ExPke<'d>(hisi_hal::peripherals::Pke<'d>);

/// Exclusive WS63 PKE capability.
///
/// Entropy remains a separate capability and is borrowed only while creating a
/// [`Ws63P256Session`].
pub struct Ws63P256<'d> {
    pke: hisi_hal::peripherals::Pke<'d>,
    busy: bool,
}

/// A capability together with the entropy source that masks its operations.
pub struct Ws63P256Session<'a, 'd, R> {
    pub engine: &'a mut Ws63P256<'d>,
    pub entropy: &'a R,
}

/// An addition that has been accepted.
pub enum PointAddition<'m> {
    /// The points are inverses of each other; nothing has to run.
    Infinity,
    /// The points are equal; the operation is a multiplication by two.
    Double(PkeEngine<'m>),
    /// The points have different first coordinates.
    Sum(PkeEngine<'m>),
}

/// Why a multiplication is refused, if it is.
pub open spec fn point_mul_refusal(
    busy: bool,
    point: P256AffinePoint,
    scalar: [u8; 32],
) -> Option<CryptoError> {
    if !point.on_curve() {
        Some(CryptoError::InvalidPoint)
    } else if operand_value(scalar) == 0 || operand_value(scalar) >= p256_order() {
        Some(CryptoError::InvalidValue)
    } else if busy {
        Some(CryptoError::Backend(ERR_BUSY))
    } else {
        None
    }
}

/// Why an addition is refused, if it is.
pub open spec fn point_add_refusal(
    busy: bool,
    a: P256AffinePoint,
    b: P256AffinePoint,
) -> Option<CryptoError> {
    if !a.on_curve() || !b.on_curve() {
        Some(CryptoError::InvalidPoint)
    } else if busy && !(a.x == b.x && a.y != b.y) {
        Some(CryptoError::Backend(ERR_BUSY))
    } else {
        None
    }
}

/// Whether an engine is about to multiply a point by a scalar.
pub open spec fn multiplies(engine: PkeEngine, point: P256AffinePoint, scalar: int) -> bool {
    &&& engine.valid()
    &&& engine.input() == (PkeInput {
        kind: PkeKind::PointMul,
        first_x: point.x,
        first_y: point.y,
        second_x: point.x,
        second_y: point.y,
    })
    &&& engine.state() == pke_start(engine.state().digits)
    &&& is_naf(engine.state().digits)
    &&& naf_value(engine.state().digits) == scalar
}

/// Whether an engine is about to add two points.
pub open spec fn adds(engine: PkeEngine, a: P256AffinePoint, b: P256AffinePoint) -> bool {
    &&& engine.valid()
    &&& engine.input() == (PkeInput {
        kind: PkeKind::PointAdd,
        first_x: a.x,
        first_y: a.y,
        second_x: b.x,
        second_y: b.y,
    })
    &&& engine.state() == pke_start(seq![])
}

/// Whether an engine is about to multiply two field elements.
pub open spec fn multiplies_elements(engine: PkeEngine, a: [u8; 32], b: [u8; 32]) -> bool {
    &&& engine.valid()
    &&& engine.input() == (PkeInput {
        kind: PkeKind::FieldMul,
        first_x: a,
        first_y: a,
        second_x: b,
        second_y: b,
    })
    &&& engine.state() == pke_start(seq![])
}

/// The output of a multiplication that left an outcome.
pub open spec fn point_mul_output(
    outcome: PkeOutcome,
    before: P256AffinePoint,
) -> P256AffinePoint {
    match outcome {
        PkeOutcome::Untouched => before,
        PkeOutcome::Point { point } => point,
        _ => P256AffinePoint { x: CONST_ZERO, y: CONST_ZERO },
    }
}

/// The output of an addition that left an outcome.
pub open spec fn point_add_output(
    outcome: PkeOutcome,
    before: P256PointResult,
) -> P256PointResult {
    match outcome {
        PkeOutcome::Untouched => before,
        PkeOutcome::Point { point } => P256PointResult::Affine(point),
        _ => P256PointResult::Infinity,
    }
}

/// The output of a product that left an outcome.
pub open spec fn field_mul_output(outcome: PkeOutcome, before: [u8; 32]) -> [u8; 32] {
    match outcome {
        PkeOutcome::Untouched => before,
        PkeOutcome::Element { bytes } => bytes,
        _ => CONST_ZERO,
    }
}

impl<'d> Ws63P256<'d> {
    /// Whether an operation is in progress.
    pub closed spec fn is_busy(self) -> bool {
        self.busy
    }

    /// The token of the engine.
    pub closed spec fn token(self) -> hisi_hal::peripherals::Pke<'d> {
        self.pke
    }

    /// An operation asked to be let in, with a result: the capability is busy afterwards
    /// either way.
    pub open spec fn enters(self, before: Self, result: Result<(), CryptoError>) -> bool {
        &&& self.token() == before.token()
        &&& self.is_busy()
        &&& result == entry(before.is_busy(), ERR_BUSY)
    }

    /// An operation was refused, or accepted where there was no reason to refuse it: the
    /// first leaves the capability as it was, the second makes it busy.
    pub open spec fn answers_request(self, before: Self, refusal: Option<CryptoError>) -> bool {
        &&& self.token() == before.token()
        &&& self.is_busy() == (before.is_busy() || refusal is None)
    }

    /// An operation ended: the capability is free.
    pub open spec fn leaves(self, before: Self) -> bool {
        &&& self.token() == before.token()
        &&& !self.is_busy()
    }

    /// Claims the engine.
    pub fn new(pke: hisi_hal::peripherals::Pke<'d>) -> (capability: Self)
        ensures
            !capability.is_busy(),
            capability.token() == pke,
    {
        Self { pke, busy: false }
    }

    /// Pairs the capability with an entropy source.
    pub fn session<'a, R>(&'a mut self, entropy: &'a R) -> (session: Ws63P256Session<'a, 'd, R>)
        ensures
            *session.engine == *old(self),
            *final(session.engine) == *final(self),
            session.entropy == entropy,
    {
        Ws63P256Session { engine: self, entropy }
    }

    /// Takes the engine, unless an operation is in progress.
    fn enter(&mut self) -> (result: Result<(), CryptoError>)
        ensures
            final(self).enters(*old(self), result),
    {
        take(&mut self.busy, ERR_BUSY)
    }

    /// Accepts a multiplication of a point of the curve by a scalar between zero and the
    /// order.
    pub fn begin_point_mul<'m>(
        &mut self,
        point: &'m P256AffinePoint,
        scalar: &[u8; 32],
    ) -> (result: Result<PkeEngine<'m>, CryptoError>)
        ensures
            final(self).answers_request(
                *old(self),
                point_mul_refusal(old(self).is_busy(), *point, *scalar),
            ),
            match point_mul_refusal(old(self).is_busy(), *point, *scalar) {
                Some(error) => result == Err::<PkeEngine<'m>, _>(error),
                None => result is Ok && multiplies(
                    result->Ok_0,
                    *point,
                    operand_value(*scalar),
                ),
            },
    {
        proof {
            law_curve_constants();
        }
        if let Err(error) = validate_point(&point.x, &point.y) {
            return Err(error);
        }
        if is_zero(scalar) || !be_less(scalar, &P256_N) {
            return Err(CryptoError::InvalidValue);
        }
        if let Err(error) = self.enter() {
            return Err(error);
        }
        Ok(PkeEngine::point_mul(point, scalar))
    }

    /// Ends a multiplication and delivers its output.
    pub fn finish_point_mul(
        &mut self,
        engine: &PkeEngine<'_>,
        output: &mut P256AffinePoint,
    ) -> (result: Result<(), CryptoError>)
        requires
            engine.valid(),
            engine.input().kind is PointMul,
            engine.state().stage is Finished,
        ensures
            final(self).leaves(*old(self)),
            engine.state().stage == (PkeStage::Finished { result }),
            *final(output) == point_mul_output(engine.state().outcome, *old(output)),
            result is Ok ==> final(output).on_curve(),
    {
        self.busy = false;
        match engine.outcome() {
            PkeOutcome::Untouched => {},
            PkeOutcome::Point { point } => {
                *output = point;
            },
            _ => {
                erase_point(output);
            },
        }
        match engine.result() {
            Some(result) => result,
            None => Ok(()),
        }
    }

    /// Accepts an addition of two points of the curve.
    ///
    /// Points with equal first and different second coordinates are inverses of each
    /// other, and equal points are doubled by a multiplication.
    pub fn begin_point_add<'m>(
        &mut self,
        a: &'m P256AffinePoint,
        b: &'m P256AffinePoint,
    ) -> (result: Result<PointAddition<'m>, CryptoError>)
        ensures
            final(self).token() == old(self).token(),
            match point_add_refusal(old(self).is_busy(), *a, *b) {
                Some(error) => result == Err::<PointAddition<'m>, _>(error)
                    && final(self).is_busy() == old(self).is_busy(),
                None => result is Ok && match result->Ok_0 {
                    PointAddition::Infinity => a.x == b.x && a.y != b.y && operand_value(a.y)
                        + operand_value(b.y) == p256_prime() && final(self).is_busy() == old(
                        self,
                    ).is_busy(),
                    PointAddition::Double(engine) => a.x == b.x && a.y == b.y
                        && final(self).is_busy() && multiplies(engine, *a, 2),
                    PointAddition::Sum(engine) => a.x != b.x && final(self).is_busy() && adds(
                        engine,
                        *a,
                        *b,
                    ),
                },
            },
    {
        if let Err(error) = validate_point(&a.x, &a.y) {
            return Err(error);
        }
        if let Err(error) = validate_point(&b.x, &b.y) {
            return Err(error);
        }
        if same_bytes(&a.x, &b.x) {
            if !same_bytes(&a.y, &b.y) {
                proof {
                    law_equal_x_are_inverses(*a, *b);
                }
                return Ok(PointAddition::Infinity);
            }
            proof {
                lemma_two();
            }
            return match self.begin_point_mul(a, &CONST_TWO) {
                Ok(engine) => Ok(PointAddition::Double(engine)),
                Err(error) => Err(error),
            };
        }
        if let Err(error) = self.enter() {
            return Err(error);
        }
        Ok(PointAddition::Sum(PkeEngine::point_add(a, b)))
    }

    /// Ends an addition and delivers its output.
    ///
    /// A doubling that failed leaves the output as it was.
    pub fn finish_point_add(
        &mut self,
        addition: &PointAddition<'_>,
        output: &mut P256PointResult,
    ) -> (result: Result<(), CryptoError>)
        requires
            match *addition {
                PointAddition::Infinity => true,
                PointAddition::Double(engine) => engine.valid() && engine.input().kind is PointMul
                    && engine.state().stage is Finished,
                PointAddition::Sum(engine) => engine.valid() && engine.input().kind is PointAdd
                    && engine.state().stage is Finished,
            },
        ensures
            final(self).token() == old(self).token(),
            match *addition {
                PointAddition::Infinity => result is Ok && *final(output)
                    == P256PointResult::Infinity && final(self).is_busy() == old(self).is_busy(),
                PointAddition::Double(engine) => engine.state().stage == (PkeStage::Finished {
                    result,
                }) && !final(self).is_busy() && *final(output) == if result is Ok {
                    P256PointResult::Affine(
                        point_mul_output(
                            engine.state().outcome,
                            P256AffinePoint { x: CONST_ZERO, y: CONST_ZERO },
                        ),
                    )
                } else {
                    *old(output)
                },
                PointAddition::Sum(engine) => engine.state().stage == (PkeStage::Finished {
                    result,
                }) && !final(self).is_busy() && *final(output) == point_add_output(
                    engine.state().outcome,
                    *old(output),
                ),
            },
            result is Ok ==> match *final(output) {
                P256PointResult::Infinity => true,
                P256PointResult::Affine(point) => point.on_curve(),
            },
    {
        match addition {
            PointAddition::Infinity => {
                *output = P256PointResult::Infinity;
                Ok(())
            },
            PointAddition::Double(engine) => {
                let mut doubled = P256AffinePoint::new(CONST_ZERO, CONST_ZERO);
                let result = self.finish_point_mul(engine, &mut doubled);
                if result.is_ok() {
                    *output = P256PointResult::Affine(doubled);
                } else {
                    erase_point(&mut doubled);
                }
                result
            },
            PointAddition::Sum(engine) => {
                self.busy = false;
                match engine.outcome() {
                    PkeOutcome::Untouched => {},
                    PkeOutcome::Point { point } => {
                        *output = P256PointResult::Affine(point);
                    },
                    _ => {
                        *output = P256PointResult::Infinity;
                    },
                }
                match engine.result() {
                    Some(result) => result,
                    None => Ok(()),
                }
            },
        }
    }

    /// Accepts a product of two field elements.
    pub fn begin_field_mul<'m>(
        &mut self,
        a: &'m P256FieldElement,
        b: &'m P256FieldElement,
    ) -> (result: Result<PkeEngine<'m>, CryptoError>)
        ensures
            final(self).token() == old(self).token(),
            final(self).is_busy(),
            result is Ok <==> !old(self).is_busy(),
            result is Err ==> result->Err_0 == CryptoError::Backend(ERR_BUSY),
            result is Ok ==> multiplies_elements(result->Ok_0, a@, b@),
    {
        if let Err(error) = self.enter() {
            return Err(error);
        }
        Ok(PkeEngine::field_mul(a, b))
    }

    /// Ends a product and delivers its output.
    pub fn finish_field_mul(
        &mut self,
        engine: &PkeEngine<'_>,
        output: &mut P256FieldElement,
    ) -> (result: Result<(), CryptoError>)
        requires
            engine.valid(),
            engine.state().stage is Finished,
        ensures
            final(self).leaves(*old(self)),
            engine.state().stage == (PkeStage::Finished { result }),
            final(output)@ == field_mul_output(engine.state().outcome, old(output)@),
    {
        self.busy = false;
        match engine.outcome() {
            PkeOutcome::Untouched => {},
            PkeOutcome::Element { bytes } => {
                if let Ok(element) = P256FieldElement::try_from_be_bytes(bytes) {
                    *output = element;
                }
            },
            _ => {
                *output = P256FieldElement::zero();
            },
        }
        match engine.result() {
            Some(result) => result,
            None => Ok(()),
        }
    }
}

impl<'a, 'd, R> Ws63P256Session<'a, 'd, R> {
    /// Accepts a multiplication; see [`Ws63P256::begin_point_mul`].
    pub fn point_mul<'m>(
        &mut self,
        point: &'m P256AffinePoint,
        scalar: &[u8; 32],
    ) -> (result: Result<PkeEngine<'m>, CryptoError>)
        ensures
            final(self).entropy == old(self).entropy,
            match point_mul_refusal(old(self).engine.is_busy(), *point, *scalar) {
                Some(error) => result == Err::<PkeEngine<'m>, _>(error)
                    && final(self).engine.is_busy() == old(self).engine.is_busy(),
                None => result is Ok && final(self).engine.is_busy() && multiplies(
                    result->Ok_0,
                    *point,
                    operand_value(*scalar),
                ),
            },
    {
        self.engine.begin_point_mul(point, scalar)
    }

    /// Accepts an addition; see [`Ws63P256::begin_point_add`].
    pub fn point_add<'m>(
        &mut self,
        a: &'m P256AffinePoint,
        b: &'m P256AffinePoint,
    ) -> (result: Result<PointAddition<'m>, CryptoError>)
        ensures
            final(self).entropy == old(self).entropy,
            match point_add_refusal(old(self).engine.is_busy(), *a, *b) {
                Some(error) => result == Err::<PointAddition<'m>, _>(error)
                    && final(self).engine.is_busy() == old(self).engine.is_busy(),
                None => result is Ok && match result->Ok_0 {
                    PointAddition::Infinity => a.x == b.x && a.y != b.y && operand_value(a.y)
                        + operand_value(b.y) == p256_prime() && final(self).engine.is_busy()
                        == old(self).engine.is_busy(),
                    PointAddition::Double(engine) => a.x == b.x && a.y == b.y
                        && final(self).engine.is_busy() && multiplies(engine, *a, 2),
                    PointAddition::Sum(engine) => a.x != b.x && final(self).engine.is_busy()
                        && adds(engine, *a, *b),
                },
            },
    {
        self.engine.begin_point_add(a, b)
    }

    /// Accepts a product; see [`Ws63P256::begin_field_mul`].
    pub fn field_mul<'m>(
        &mut self,
        a: &'m P256FieldElement,
        b: &'m P256FieldElement,
    ) -> (result: Result<PkeEngine<'m>, CryptoError>)
        ensures
            final(self).entropy == old(self).entropy,
            final(self).engine.is_busy(),
            result is Ok <==> !old(self).engine.is_busy(),
            result is Err ==> result->Err_0 == CryptoError::Backend(ERR_BUSY),
            result is Ok ==> multiplies_elements(result->Ok_0, a@, b@),
    {
        self.engine.begin_field_mul(a, b)
    }
}

proof fn lemma_two()
    ensures
        operand_value(CONST_TWO) == 2,
        2 < p256_order(),
{
    crate::pke::curve::lemma_be_value_32(CONST_TWO@);
}

/// Clears a point that is not delivered.
fn erase_point(point: &mut P256AffinePoint)
    ensures
        *final(point) == (P256AffinePoint { x: CONST_ZERO, y: CONST_ZERO }),
{
    erase_bytes(&mut point.x);
    erase_bytes(&mut point.y);
    proof {
        assert(point.x =~= CONST_ZERO);
        assert(point.y =~= CONST_ZERO);
    }
}

/// Whether two operands hold the same bytes.
fn same_bytes(a: &[u8; 32], b: &[u8; 32]) -> (same: bool)
    ensures
        same == (*a == *b),
{
    let mut i: usize = 0;
    while i < 32
        invariant
            i <= 32,
            forall|j: int| 0 <= j < i ==> a@[j] == b@[j],
        decreases 32 - i,
    {
        if a[i] != b[i] {
            return false;
        }
        i += 1;
    }
    proof {
        assert(a@ =~= b@);
        assert(*a =~= *b);
    }
    true
}

} // verus!
