//! The public key engine as a machine, and what its operations deliver when it answers.
//!
//! The machine has a data RAM of numbered sections. Each batch of the instruction ROM has
//! its effect on them: coordinates are taken in and out of Montgomery form, points are
//! added, doubled, moved and brought from Jacobian to affine form. The addition of points
//! itself is left open: what is said here holds for whatever addition the engine has.
use crate::bus::{Ask, Command, Reply, Source};
use crate::laws::pke::{law_pke_step_is_bounded, pke_run};
use crate::laws::trace::{
    after, lemma_after_both, lemma_after_few, lemma_after_next, lemma_after_push,
};
use crate::pke::curve::{
    law_curve_constants, law_montgomery_constants, montgomery_radix, on_curve, operand_value,
    p256_prime, CONST_ONE, P256_P, P256_RRP,
};
use crate::pke::engine::{
    batch_start, lemma_only_sums_stop, lemma_program_len, lemma_small_batches, operand_bytes,
    pke_ask, pke_conclude, pke_next, pke_proceed, pke_protect, pke_start, with_saved, PkeInput,
    PkeOutcome, PkeSaved, PkeStage, PkeState,
};
use crate::pke::naf::{is_naf, naf_value};
use crate::pke::prime::law_power_inverts;
use crate::pke::program::{
    base_four, digit_op, digit_ops, exponent_op, exponent_ops, law_digits_multiply_by_scalar,
    montgomery_affine, multiple_after, pke_head, pke_program, pke_tail, select_prime_field,
    PkeKind, PkeOp, PkeOperand, PkeSlot,
};
use vstd::arithmetic::div_mod::{
    lemma_mod_bound, lemma_mul_mod_noop_general, lemma_mul_mod_noop_left,
    lemma_mul_mod_noop_right, lemma_small_mod,
};
use vstd::arithmetic::power::{lemma_pow_adds, pow};
use vstd::prelude::*;

verus! {

/// A point of a group on residues.
pub enum Point {
    /// The neutral element.
    Infinity,
    /// A pair of coordinates.
    Affine { x: int, y: int },
}

/// The addition of the engine, and the third coordinate that it happens to leave a point
/// with.
pub struct PointArithmetic {
    pub sum: spec_fn(Point, Point) -> Point,
    pub negative: spec_fn(Point) -> Point,
    pub scale: spec_fn(Point) -> int,
}

/// Whether coordinates are residues.
pub open spec fn in_field(point: Point) -> bool {
    match point {
        Point::Infinity => true,
        Point::Affine { x, y } => 0 <= x < p256_prime() && 0 <= y < p256_prime(),
    }
}

/// Whether every sum and every negative has residues as coordinates.
pub open spec fn is_reduced(group: PointArithmetic) -> bool {
    &&& forall|a: Point, b: Point| #[trigger] in_field((group.sum)(a, b))
    &&& forall|a: Point| #[trigger] in_field((group.negative)(a))
}

/// The inverse of a residue.
pub open spec fn inverse(value: int) -> int {
    pow(value, (p256_prime() - 2) as nat) % p256_prime()
}

/// A residue in Montgomery form.
#[verifier::opaque]
pub open spec fn montgomery(value: int) -> int {
    (value * montgomery_radix()) % p256_prime()
}

/// A residue taken out of Montgomery form.
#[verifier::opaque]
pub open spec fn plain(value: int) -> int {
    (value * inverse(montgomery_radix() % p256_prime())) % p256_prime()
}

/// The third coordinate that a point is left with: some residue other than zero.
pub open spec fn scale_of(group: PointArithmetic, point: Point) -> int {
    1 + (group.scale)(point) % (p256_prime() - 1)
}

/// A residue times a square, and times a cube.
pub open spec fn times_square(value: int, factor: int) -> int {
    (value * (factor * factor)) % p256_prime()
}

pub open spec fn times_cube(value: int, factor: int) -> int {
    (value * (factor * factor * factor)) % p256_prime()
}

/// A point in Jacobian coordinates, in Montgomery form; the neutral element has a third
/// coordinate of zero.
pub open spec fn jacobian(group: PointArithmetic, point: Point) -> (int, int, int) {
    match point {
        Point::Infinity => (montgomery(1), montgomery(1), 0),
        Point::Affine { x, y } => {
            let z = scale_of(group, point);
            (montgomery(times_square(x, z)), montgomery(times_cube(y, z)), montgomery(z))
        },
    }
}

/// The point that Jacobian coordinates in Montgomery form stand for.
pub open spec fn point_of(coordinates: (int, int, int)) -> Point {
    if coordinates.2 == 0 {
        Point::Infinity
    } else {
        let divisor = inverse(plain(coordinates.2));
        Point::Affine {
            x: times_square(plain(coordinates.0), divisor),
            y: times_cube(plain(coordinates.1), divisor),
        }
    }
}

/// The residue of a product may be taken early.
proof fn lemma_early(a: int, b: int)
    ensures
        ((a % p256_prime()) * b) % p256_prime() == (a * b) % p256_prime(),
        (a * (b % p256_prime())) % p256_prime() == (a * b) % p256_prime(),
{
    lemma_mul_mod_noop_left(a, b, p256_prime());
    lemma_mul_mod_noop_right(a, b, p256_prime());
}

/// A factor and its inverse cancel.
proof fn lemma_cancels(value: int, factor: int, divisor: int)
    requires
        0 <= value < p256_prime(),
        (factor * divisor) % p256_prime() == 1,
    ensures
        ((value * factor) * divisor) % p256_prime() == value,
{
    lemma_early(value, factor * divisor);
    assert((value * factor) * divisor == value * (factor * divisor)) by (nonlinear_arith);
    lemma_small_mod(value as nat, p256_prime() as nat);
}

/// A residue other than zero times its inverse is one.
proof fn lemma_inverse(value: int)
    requires
        0 < value < p256_prime(),
    ensures
        (value * inverse(value)) % p256_prime() == 1,
        0 <= inverse(value) < p256_prime(),
{
    law_power_inverts(value);
    lemma_early(value, pow(value, (p256_prime() - 2) as nat));
    lemma_mod_bound(pow(value, (p256_prime() - 2) as nat), p256_prime());
}

/// Montgomery form can be undone.
proof fn lemma_plain(value: int)
    requires
        0 <= value < p256_prime(),
    ensures
        plain(montgomery(value)) == value,
        0 <= montgomery(value) < p256_prime(),
{
    reveal(plain);
    reveal(montgomery);
    let r = montgomery_radix() % p256_prime();
    assert(0 < r < p256_prime());
    lemma_inverse(r);
    lemma_early(value, montgomery_radix());
    lemma_early(value * r, inverse(r));
    lemma_cancels(value, r, inverse(r));
    lemma_mod_bound(value * montgomery_radix(), p256_prime());
}

/// Only zero is zero in Montgomery form.
proof fn lemma_not_zero(value: int)
    requires
        0 < value < p256_prime(),
    ensures
        montgomery(value) != 0,
{
    lemma_plain(value);
    reveal(plain);
    if montgomery(value) == 0 {
        assert(0 * inverse(montgomery_radix() % p256_prime()) == 0);
    }
}

/// Squares and cubes of a factor and its inverse cancel.
proof fn lemma_divided_out(value: int, factor: int)
    requires
        0 <= value < p256_prime(),
        0 < factor < p256_prime(),
    ensures
        times_square(times_square(value, factor), inverse(factor)) == value,
        times_cube(times_cube(value, factor), inverse(factor)) == value,
{
    let p = p256_prime();
    let d = inverse(factor);
    lemma_inverse(factor);
    let one = factor * d;
    lemma_early(one, one);
    lemma_early(one % p, one);
    assert((one * one) % p == 1);
    lemma_early(one * one, one);
    assert((one * one * one) % p == 1);
    assert((factor * factor) * (d * d) == one * one) by (nonlinear_arith)
        requires
            one == factor * d,
    ;
    assert((factor * factor * factor) * (d * d * d) == one * one * one) by (nonlinear_arith)
        requires
            one == factor * d,
    ;
    lemma_early(value * (factor * factor), d * d);
    lemma_cancels(value, factor * factor, d * d);
    lemma_early(value * (factor * factor * factor), d * d * d);
    lemma_cancels(value, factor * factor * factor, d * d * d);
}

/// Jacobian coordinates stand for the point that they were made of.
proof fn lemma_point_of(group: PointArithmetic, point: Point)
    requires
        in_field(point),
    ensures
        point_of(jacobian(group, point)) == point,
        point is Affine ==> jacobian(group, point).2 != 0,
{
    if let Point::Affine { x, y } = point {
        let z = scale_of(group, point);
        lemma_mod_bound((group.scale)(point), p256_prime() - 1);
        assert(0 < z < p256_prime());
        lemma_mod_bound(x * (z * z), p256_prime());
        lemma_mod_bound(y * (z * z * z), p256_prime());
        lemma_plain(z);
        lemma_not_zero(z);
        lemma_plain(times_square(x, z));
        lemma_plain(times_cube(y, z));
        lemma_divided_out(x, z);
        lemma_divided_out(y, z);
    }
}

/// What the batches work on.
pub struct PkeCore {
    /// The sections of the data RAM.
    pub ram: Map<int, int>,
    /// The modulus that has been selected.
    pub modulus: int,
    /// The Montgomery parameter: low and high word.
    pub parameter: (u32, u32),
    /// The point that the digit batches add or subtract.
    pub addend: Point,
    /// The number whose power is being computed.
    pub base: int,
    /// The power so far.
    pub power: int,
}

/// Whether the Montgomery parameter belongs to a modulus: it is the negative inverse of
/// the modulus in words of 64 bits.
pub open spec fn suits(parameter: (u32, u32), modulus: int) -> bool {
    ((parameter.0 + 0x1_0000_0000 * parameter.1) * modulus + 1) % 0x1_0000_0000_0000_0000 == 0
}

/// Whether the engine is ready for curve arithmetic: the field prime is selected, loaded
/// as the modulus of the conversions, and its Montgomery parameter is set.
pub open spec fn is_ready(core: PkeCore) -> bool {
    core.modulus == p256_prime() && core.ram[0] == p256_prime() && suits(
        core.parameter,
        p256_prime(),
    )
}

/// The contents of three sections.
pub open spec fn sections(core: PkeCore, first: int) -> (int, int, int) {
    (core.ram[first], core.ram[first + 3], core.ram[first + 6])
}

/// The core with three sections set.
pub open spec fn with_sections(core: PkeCore, first: int, values: (int, int, int)) -> PkeCore {
    PkeCore {
        ram: core.ram.insert(first, values.0).insert(first + 3, values.1).insert(
            first + 6,
            values.2,
        ),
        ..core
    }
}

/// The core with two sections set.
pub open spec fn with_pair(core: PkeCore, first: int, x: int, y: int) -> PkeCore {
    PkeCore { ram: core.ram.insert(first, x).insert(first + 3, y), ..core }
}

/// The point in two sections, in affine coordinates and Montgomery form.
pub open spec fn affine_in(core: PkeCore, first: int) -> Point {
    Point::Affine { x: plain(core.ram[first]), y: plain(core.ram[first + 3]) }
}

/// The power with a digit appended to the exponent in base four.
pub open spec fn next_power(core: PkeCore, digit: nat) -> PkeCore {
    let p = core.power;
    PkeCore { power: (p * p * p * p * pow(core.base, digit)) % p256_prime(), ..core }
}

/// The core with the point at hand doubled and another one added.
pub open spec fn doubled_and(
    group: PointArithmetic,
    core: PkeCore,
    other: Option<Point>,
) -> PkeCore {
    let point = point_of(sections(core, 3));
    let twice = (group.sum)(point, point);
    let result = match other {
        Some(other) => (group.sum)(twice, other),
        None => twice,
    };
    with_sections(core, 3, jacobian(group, result))
}

/// What the batches of curve arithmetic do on an engine that is ready for them. The point
/// at hand lies in sections 3, 6 and 9, a sum in 12, 15 and 18, and the points that are
/// handed in lie in 21 and 24 and in 27 and 30. Of any other batch nothing is known.
pub open spec fn curve_batch(
    group: PointArithmetic,
    core: PkeCore,
    offset: int,
    count: int,
) -> PkeCore {
    if offset == 163 && count == 2 {
        with_pair(core, 21, montgomery(core.ram[21]), montgomery(core.ram[24]))
    } else if offset == 177 && count == 3 {
        with_sections(core, 3, (core.ram[21], core.ram[24], montgomery(1)))
    } else if offset == 180 && count == 2 {
        PkeCore { addend: affine_in(core, 21), ..core }
    } else if offset == 0 && count == 22 {
        doubled_and(group, core, None)
    } else if offset == 0 && count == 40 {
        doubled_and(group, core, Some(core.addend))
    } else if offset == 40 && count == 40 {
        doubled_and(group, core, Some((group.negative)(core.addend)))
    } else if offset == 125 && count == 18 {
        with_sections(
            core,
            12,
            jacobian(group, (group.sum)(affine_in(core, 21), affine_in(core, 27))),
        )
    } else if offset == 182 && count == 3 {
        with_sections(core, 3, sections(core, 12))
    } else if offset == 143 && count == 5 {
        PkeCore { base: plain(core.ram[9]), power: 1, ..core }
    } else if offset == 148 && count == 2 {
        next_power(core, 0)
    } else if offset == 148 && count == 3 {
        next_power(core, 1)
    } else if offset == 151 && count == 3 {
        next_power(core, 2)
    } else if offset == 154 && count == 3 {
        next_power(core, 3)
    } else if offset == 157 && count == 4 {
        with_pair(
            core,
            3,
            montgomery(times_square(plain(core.ram[3]), core.power)),
            montgomery(times_cube(plain(core.ram[6]), core.power)),
        )
    } else if offset == 165 && count == 6 {
        with_pair(core, 3, plain(core.ram[3]), plain(core.ram[6]))
    } else {
        PkeCore { ram: Map::empty(), ..core }
    }
}

/// What a batch does. Batch 197 selects the modulus in section 57; batch 326 multiplies
/// sections 96 and 112 into section 64, where section 0 holds the modulus, section 32 the
/// squared Montgomery radix, section 48 one and the parameter suits.
pub open spec fn batch_effect(
    group: PointArithmetic,
    core: PkeCore,
    offset: int,
    count: int,
) -> PkeCore {
    if offset == 197 && count == 1 {
        PkeCore { modulus: core.ram[57], ..core }
    } else if offset == 326 && count == 6 && core.ram[0] > 0 && suits(
        core.parameter,
        core.ram[0],
    ) && core.ram[32] == (montgomery_radix() * montgomery_radix()) % core.ram[0] && core.ram[48]
        == 1 {
        PkeCore {
            ram: core.ram.insert(64, (core.ram[96] * core.ram[112]) % core.ram[0]),
            ..core
        }
    } else if is_ready(core) {
        curve_batch(group, core, offset, count)
    } else {
        PkeCore { ram: Map::empty(), ..core }
    }
}

/// The engine: what the batches work on, and the registers that start one.
pub struct PkeMachine {
    pub core: PkeCore,
    pub work_length: u32,
    pub address: (u32, u32),
    pub length: u32,
    /// Whether something has been started and not been seen to finish, and what it leaves.
    pub running: bool,
    pub pending: PkeCore,
    /// Whether the batches go wrong.
    pub faulty: bool,
}

/// A core of whose data RAM nothing is known.
pub open spec fn unknown(core: PkeCore) -> PkeCore {
    PkeCore { ram: Map::empty(), ..core }
}

/// Whether the data RAM holds nothing.
pub open spec fn is_clear(core: PkeCore) -> bool {
    forall|section: int| #[trigger] core.ram[section] == 0
}

/// The engine after a start. Nothing is known of the data RAM until the batch is seen to
/// finish: with the start code and the work length for 256 bits it runs
/// the batch at the address, counted in words from the instruction ROM at 0x00c0_0000.
pub open spec fn batch_run(group: PointArithmetic, machine: PkeMachine, code: u16) -> PkeMachine {
    let from = machine.address.0 - 0x00c0_0000;
    PkeMachine {
        running: true,
        core: unknown(machine.core),
        pending: if !machine.faulty && code == 0x05aa && machine.work_length == 4
            && machine.address.1 == 0 && from >= 0
            && from % 4 == 0 && machine.length % 4 == 0 {
            batch_effect(group, machine.core, from / 4, machine.length as int / 4)
        } else {
            unknown(machine.core)
        },
        ..machine
    }
}

/// What one command does to the engine.
pub open spec fn pke_machine_step(
    group: PointArithmetic,
    machine: PkeMachine,
    command: Command,
) -> PkeMachine {
    match command {
        Command::PkeWorkLength { length } => PkeMachine { work_length: length, ..machine },
        Command::PkeAddressLow { word } => PkeMachine {
            address: (word, machine.address.1),
            ..machine
        },
        Command::PkeAddressHigh { word } => PkeMachine {
            address: (machine.address.0, word),
            ..machine
        },
        Command::PkeLength { length } => PkeMachine { length, ..machine },
        Command::PkeStart { code } => batch_run(group, machine, code),
        Command::PkeMontgomeryLow { word } => PkeMachine {
            core: PkeCore { parameter: (word, machine.core.parameter.1), ..machine.core },
            ..machine
        },
        Command::PkeMontgomeryHigh { word } => PkeMachine {
            core: PkeCore { parameter: (machine.core.parameter.0, word), ..machine.core },
            ..machine
        },
        Command::PkeRam { section, operand } => PkeMachine {
            core: PkeCore {
                ram: machine.core.ram.insert(section as int, operand_value(operand)),
                ..machine.core
            },
            ..machine
        },
        Command::PkeRamClear => PkeMachine {
            running: true,
            core: unknown(machine.core),
            pending: PkeCore { ram: Map::new(|i: int| true, |i: int| 0int), ..machine.core },
            ..machine
        },
        _ => machine,
    }
}

/// The effect of single commands.
pub open spec fn pke_stepper(group: PointArithmetic) -> spec_fn(PkeMachine, Command) -> PkeMachine {
    |machine: PkeMachine, command: Command| pke_machine_step(group, machine, command)
}

/// Whether the engine gives an answer: a section of the data RAM reads as it is, and of
/// what the machine does not keep any answer may come.
pub open spec fn pke_machine_answers(machine: PkeMachine, ask: Ask, reply: Reply) -> bool {
    match ask {
        Ask::PkeRam { section } => reply is Operand && operand_value(reply->operand)
            == machine.core.ram[section as int],
        Ask::Read { source: Source::PkeFinish } => machine.faulty ==> reply->word != 5,
        _ => true,
    }
}

/// The engine after it has given an answer: when it is no longer busy, the data RAM is what
/// was started for.
pub open spec fn pke_machine_seen(machine: PkeMachine, ask: Ask, reply: Reply) -> PkeMachine {
    match ask {
        Ask::Read { source: Source::PkeBusy } => if reply->word == 0 && machine.running {
            PkeMachine { running: false, core: machine.pending, ..machine }
        } else {
            machine
        },
        _ => machine,
    }
}

/// The engine after it has given an answer and taken the commands that follow it.
pub open spec fn pke_machine_next(
    group: PointArithmetic,
    machine: PkeMachine,
    ask: Ask,
    reply: Reply,
    commands: Seq<Command>,
) -> PkeMachine {
    after(pke_stepper(group), pke_machine_seen(machine, ask, reply), commands)
}

/// The engine at the end of a run.
pub open spec fn pke_machine_end(
    group: PointArithmetic,
    input: PkeInput,
    state: PkeState,
    machine: PkeMachine,
    replies: Seq<Reply>,
) -> PkeMachine
    decreases replies.len(),
{
    if replies.len() == 0 || state.stage is Finished {
        machine
    } else {
        let next = pke_next(input, state, replies[0]);
        pke_machine_end(
            group,
            input,
            next.state,
            pke_machine_next(
                group,
                machine,
                pke_ask(input, state),
                replies[0],
                next.commands,
            ),
            replies.skip(1),
        )
    }
}

/// Whether every answer of a run is one that the engine gives.
pub open spec fn pke_meets_machine(
    group: PointArithmetic,
    input: PkeInput,
    state: PkeState,
    machine: PkeMachine,
    replies: Seq<Reply>,
) -> bool
    decreases replies.len(),
{
    replies.len() == 0 || state.stage is Finished || (pke_machine_answers(
        machine,
        pke_ask(input, state),
        replies[0],
    ) && ({
        let next = pke_next(input, state, replies[0]);
        pke_meets_machine(
            group,
            input,
            next.state,
            pke_machine_next(
                group,
                machine,
                pke_ask(input, state),
                replies[0],
                next.commands,
            ),
            replies.skip(1),
        )
    }))
}

/// What a program works on: the core and what has been read.
struct Rig {
    core: PkeCore,
    x: int,
    y: int,
    other_x: int,
    other_y: int,
    z: int,
}

/// The number that is loaded.
spec fn number(input: PkeInput, rig: Rig, operand: PkeOperand) -> int {
    match operand {
        PkeOperand::Prime => operand_value(P256_P),
        PkeOperand::SquaredRadix => operand_value(P256_RRP),
        PkeOperand::One => operand_value(CONST_ONE),
        PkeOperand::FirstX => operand_value(input.first_x),
        PkeOperand::FirstY => operand_value(input.first_y),
        PkeOperand::SecondX => operand_value(input.second_x),
        PkeOperand::SecondY => operand_value(input.second_y),
        PkeOperand::Saved { slot } => match slot {
            PkeSlot::X => rig.x,
            PkeSlot::Y => rig.y,
            PkeSlot::OtherX => rig.other_x,
            PkeSlot::OtherY => rig.other_y,
            PkeSlot::Z => rig.z,
        },
    }
}

/// What one operation of a program does.
spec fn rig_step(group: PointArithmetic, input: PkeInput, rig: Rig, op: PkeOp) -> Rig {
    match op {
        PkeOp::Load { section, operand } => Rig {
            core: PkeCore {
                ram: rig.core.ram.insert(section as int, number(input, rig, operand)),
                ..rig.core
            },
            ..rig
        },
        PkeOp::Batch { offset, count } => Rig {
            core: batch_effect(group, rig.core, offset as int, count as int),
            ..rig
        },
        PkeOp::Save { section, slot } => {
            let value = rig.core.ram[section as int];
            match slot {
                PkeSlot::X => Rig { x: value, ..rig },
                PkeSlot::Y => Rig { y: value, ..rig },
                PkeSlot::OtherX => Rig { other_x: value, ..rig },
                PkeSlot::OtherY => Rig { other_y: value, ..rig },
                PkeSlot::Z => Rig { z: value, ..rig },
            }
        },
        PkeOp::Montgomery { low, high } => Rig {
            core: PkeCore { parameter: (low, high), ..rig.core },
            ..rig
        },
        PkeOp::StopAtInfinity => rig,
    }
}

spec fn rig_stepper(group: PointArithmetic, input: PkeInput) -> spec_fn(Rig, PkeOp) -> Rig {
    |rig: Rig, op: PkeOp| rig_step(group, input, rig, op)
}

/// The prime field is selected.
proof fn lemma_field_selected(group: PointArithmetic, input: PkeInput, rig: Rig)
    ensures
        ({
            let end = after(rig_stepper(group, input), rig, select_prime_field());
            &&& end.core.modulus == p256_prime()
            &&& suits(end.core.parameter, p256_prime())
        }),
{
    law_curve_constants();
    law_montgomery_constants();
    lemma_after_few(rig_stepper(group, input), rig, select_prime_field());
}

/// A point is taken to Montgomery form and read.
proof fn lemma_to_montgomery(
    group: PointArithmetic,
    input: PkeInput,
    rig: Rig,
    x: PkeOperand,
    y: PkeOperand,
    slot_x: PkeSlot,
    slot_y: PkeSlot,
)
    requires
        rig.core.modulus == p256_prime(),
        suits(rig.core.parameter, p256_prime()),
        !(x is Saved),
        !(y is Saved),
        slot_x is X && slot_y is Y || slot_x is OtherX && slot_y is OtherY,
    ensures
        ({
            let end = after(
                rig_stepper(group, input),
                rig,
                montgomery_affine(x, y, slot_x, slot_y),
            );
            let mx = montgomery(number(input, rig, x));
            let my = montgomery(number(input, rig, y));
            &&& is_ready(end.core)
            &&& end == (if slot_x is X {
                Rig { core: end.core, x: mx, y: my, ..rig }
            } else {
                Rig { core: end.core, other_x: mx, other_y: my, ..rig }
            })
        }),
{
    let ops = montgomery_affine(x, y, slot_x, slot_y);
    let step = rig_stepper(group, input);
    law_curve_constants();
    let front = seq![ops[0], ops[1], ops[2], ops[3]];
    let back = seq![ops[4], ops[5]];
    assert(ops =~= front + back);
    lemma_after_both(step, rig, front, back);
    lemma_after_few(step, rig, front);
    let middle = after(step, rig, front);
    lemma_after_few(step, middle, back);
}

/// A power with a digit appended to its exponent in base four.
proof fn lemma_power_digit(base: int, exponent: nat, digit: nat)
    ensures
        ({
            let p = pow(base, exponent) % p256_prime();
            (p * p * p * p * pow(base, digit)) % p256_prime() == pow(base, 4 * exponent + digit)
                % p256_prime()
        }),
{
    let m = p256_prime();
    let whole = pow(base, exponent);
    let p = whole % m;
    let last = pow(base, digit);
    lemma_pow_adds(base, exponent, exponent);
    lemma_pow_adds(base, 2 * exponent, 2 * exponent);
    lemma_pow_adds(base, 4 * exponent, digit);
    let square = whole * whole;
    assert(pow(base, 2 * exponent) == square);
    assert(pow(base, 4 * exponent) == square * square);
    lemma_mul_mod_noop_general(whole, whole, m);
    lemma_mul_mod_noop_general(square, square, m);
    lemma_mul_mod_noop_general(p * p, p * p, m);
    assert((p * p) % m == square % m);
    assert(((p * p) * (p * p)) % m == (square * square) % m);
    assert(p * p * p * p == (p * p) * (p * p)) by (nonlinear_arith);
    lemma_early(p * p * p * p, last);
    lemma_early(square * square, last);
}

/// The exponent batches leave the power.
proof fn lemma_powers(group: PointArithmetic, input: PkeInput, rig: Rig, exponent: nat)
    requires
        is_ready(rig.core),
        rig.core.power == 1,
    ensures
        after(rig_stepper(group, input), rig, exponent_ops(exponent)) == (Rig {
            core: PkeCore { power: pow(rig.core.base, exponent) % p256_prime(), ..rig.core },
            ..rig
        }),
    decreases exponent,
{
    let ops = exponent_ops(exponent);
    let step = rig_stepper(group, input);
    if exponent == 0 {
        reveal(pow);
        assert(ops =~= Seq::<PkeOp>::empty());
        lemma_small_mod(1, p256_prime() as nat);
    } else {
        lemma_powers(group, input, rig, exponent / 4);
        let digit = (exponent % 4) as nat;
        assert(base_four(exponent) == base_four(exponent / 4).push(digit as u8));
        assert(ops.drop_last() =~= exponent_ops(exponent / 4));
        assert(ops.last() == exponent_op(digit as u8));
        lemma_power_digit(rig.core.base, exponent / 4, digit);
        let before = after(step, rig, ops.drop_last());
        assert(after(step, rig, ops) == step(before, ops.last()));
        assert(after(step, rig, ops) == (Rig { core: next_power(before.core, digit), ..before }));
    }
}

/// A power of zero.
proof fn lemma_zero_inverse()
    ensures
        inverse(0) == 0,
        plain(0) == 0,
{
    let n = (p256_prime() - 2) as nat;
    reveal(pow);
    assert(pow(0, n) == 0 * pow(0, (n - 1) as nat));
    assert(0 * pow(0, (n - 1) as nat) == 0) by (nonlinear_arith);
    reveal(plain);
    assert(0 * inverse(montgomery_radix() % p256_prime()) == 0) by (nonlinear_arith);
}

/// The coordinates that the last batches leave to be read.
spec fn read_out(point: Point) -> (int, int) {
    match point {
        Point::Infinity => (0, 0),
        Point::Affine { x, y } => (x, y),
    }
}

/// The end of a program on points reads out the point at hand in affine coordinates.
proof fn lemma_read_out(group: PointArithmetic, input: PkeInput, rig: Rig, kind: PkeKind)
    requires
        is_ready(rig.core),
        !(kind is FieldMul),
    ensures
        ({
            let end = after(rig_stepper(group, input), rig, pke_tail(kind));
            (end.x, end.y) == read_out(point_of(sections(rig.core, 3)))
        }),
{
    let step = rig_stepper(group, input);
    let tail = pke_tail(kind);
    let opening = seq![PkeOp::Batch { offset: 143, count: 5 }];
    let exponent = (p256_prime() - 2) as nat;
    let powers = exponent_ops(exponent);
    let closing = seq![
        PkeOp::Batch { offset: 157, count: 4 },
        tail[tail.len() - 3],
        tail[tail.len() - 2],
        tail[tail.len() - 1],
    ];
    assert(tail =~= opening + powers + closing);
    lemma_after_both(step, rig, opening + powers, closing);
    lemma_after_both(step, rig, opening, powers);
    lemma_after_few(step, rig, opening);
    let opened = after(step, rig, opening);
    assert(opened.core == (PkeCore { base: plain(rig.core.ram[9]), power: 1, ..rig.core }));
    lemma_powers(group, input, opened, exponent);
    let raised = after(step, opened, powers);
    lemma_after_few(step, raised, closing);
    let end = after(step, rig, tail);
    let divisor = raised.core.power;
    assert(divisor == inverse(plain(rig.core.ram[9])));
    let x = times_square(plain(rig.core.ram[3]), divisor);
    let y = times_cube(plain(rig.core.ram[6]), divisor);
    lemma_mod_bound(plain(rig.core.ram[3]) * (divisor * divisor), p256_prime());
    lemma_mod_bound(plain(rig.core.ram[6]) * (divisor * divisor * divisor), p256_prime());
    lemma_plain(x);
    lemma_plain(y);
    let divided = step(raised, closing[0]);
    assert(is_ready(raised.core));
    assert(is_ready(divided.core));
    assert(divided.core.ram[3] == montgomery(x) && divided.core.ram[6] == montgomery(y));
    let converted = step(divided, closing[1]);
    assert(converted.core.ram[3] == x && converted.core.ram[6] == y);
    assert(end.x == x && end.y == y);
    if rig.core.ram[9] == 0 {
        lemma_zero_inverse();
        lemma_times_zero(plain(rig.core.ram[3]));
        lemma_times_zero(plain(rig.core.ram[6]));
    }
}

proof fn lemma_times_zero(value: int)
    ensures
        times_square(value, 0) == 0,
        times_cube(value, 0) == 0,
{
    assert(value * (0int * 0int) == 0) by (nonlinear_arith);
    assert(value * (0int * 0int * 0int) == 0) by (nonlinear_arith);
}

/// The points of an operation.
pub open spec fn first_point(input: PkeInput) -> Point {
    Point::Affine { x: operand_value(input.first_x), y: operand_value(input.first_y) }
}

pub open spec fn second_point(input: PkeInput) -> Point {
    Point::Affine { x: operand_value(input.second_x), y: operand_value(input.second_y) }
}

/// The batches of an addition leave the sum, and its third coordinate is read.
proof fn lemma_sum_left(group: PointArithmetic, input: PkeInput, rig: Rig)
    requires
        in_field(first_point(input)),
        in_field(second_point(input)),
    ensures
        ({
            let total = jacobian(group, (group.sum)(first_point(input), second_point(input)));
            let middle = after(
                rig_stepper(group, input),
                rig,
                pke_head(PkeKind::PointAdd).take(21),
            );
            let end = after(rig_stepper(group, input), rig, pke_head(PkeKind::PointAdd));
            &&& middle.z == total.2
            &&& is_ready(end.core)
            &&& sections(end.core, 3) == total
        }),
{
    let step = rig_stepper(group, input);
    let head = pke_head(PkeKind::PointAdd);
    let select = select_prime_field();
    let one = montgomery_affine(PkeOperand::FirstX, PkeOperand::FirstY, PkeSlot::X, PkeSlot::Y);
    let two = montgomery_affine(
        PkeOperand::SecondX,
        PkeOperand::SecondY,
        PkeSlot::OtherX,
        PkeSlot::OtherY,
    );
    let loads = seq![head[15], head[16], head[17], head[18]];
    let add = seq![head[19], head[20]];
    let end_ops = seq![head[21], head[22]];
    let front = select + one + two + loads + add;
    assert(head.take(21) =~= front);
    assert(head =~= front + end_ops);
    lemma_after_both(step, rig, front, end_ops);
    lemma_after_both(step, rig, select + one + two + loads, add);
    lemma_after_both(step, rig, select + one + two, loads);
    lemma_after_both(step, rig, select + one, two);
    lemma_after_both(step, rig, select, one);
    lemma_field_selected(group, input, rig);
    let selected = after(step, rig, select);
    lemma_to_montgomery(
        group,
        input,
        selected,
        PkeOperand::FirstX,
        PkeOperand::FirstY,
        PkeSlot::X,
        PkeSlot::Y,
    );
    let converted = after(step, selected, one);
    lemma_to_montgomery(
        group,
        input,
        converted,
        PkeOperand::SecondX,
        PkeOperand::SecondY,
        PkeSlot::OtherX,
        PkeSlot::OtherY,
    );
    let both = after(step, converted, two);
    lemma_after_few(step, both, loads);
    let loaded = after(step, both, loads);
    lemma_after_few(step, loaded, add);
    let added = after(step, loaded, add);
    lemma_after_few(step, added, end_ops);
    lemma_plain(operand_value(input.first_x));
    lemma_plain(operand_value(input.first_y));
    lemma_plain(operand_value(input.second_x));
    lemma_plain(operand_value(input.second_y));
    assert(is_ready(loaded.core));
    assert(affine_in(loaded.core, 21) == first_point(input));
    assert(affine_in(loaded.core, 27) == second_point(input));
    let total = jacobian(group, (group.sum)(first_point(input), second_point(input)));
    assert(sections(added.core, 12) == total);
    assert(is_ready(added.core));
}

/// Whether a multiple of a point is followed by the multiples that one more addition gives.
pub open spec fn is_followed(
    group: PointArithmetic,
    point: Point,
    times: spec_fn(int) -> Point,
    k: int,
) -> bool {
    &&& (group.sum)(times(k), times(k)) == times(2 * k)
    &&& (group.sum)(times(k), point) == times(k + 1)
    &&& (group.sum)(times(k), (group.negative)(point)) == times(k - 1)
}

/// Whether a function gives the multiples of a point under an addition.
pub open spec fn gives_multiples(
    group: PointArithmetic,
    point: Point,
    times: spec_fn(int) -> Point,
) -> bool {
    &&& times(1) == point
    &&& forall|k: int| #[trigger] is_followed(group, point, times, k)
}

/// The point at hand is a multiple of the addend.
spec fn has_multiple(
    core: PkeCore,
    point: Point,
    times: spec_fn(int) -> Point,
    multiple: int,
) -> bool {
    &&& is_ready(core)
    &&& core.addend == point
    &&& point_of(sections(core, 3)) == times(multiple)
}

/// The batches before the digits leave the point itself.
proof fn lemma_mul_opened(group: PointArithmetic, input: PkeInput, rig: Rig)
    requires
        in_field(first_point(input)),
    ensures
        ({
            let end = after(rig_stepper(group, input), rig, pke_head(PkeKind::PointMul));
            &&& is_ready(end.core)
            &&& end.core.addend == first_point(input)
            &&& point_of(sections(end.core, 3)) == first_point(input)
        }),
{
    let step = rig_stepper(group, input);
    let head = pke_head(PkeKind::PointMul);
    let select = select_prime_field();
    let one = montgomery_affine(PkeOperand::FirstX, PkeOperand::FirstY, PkeSlot::X, PkeSlot::Y);
    let loads = seq![head[9], head[10], head[11]];
    let batches = seq![head[12], head[13]];
    assert(head =~= select + one + loads + batches);
    lemma_after_both(step, rig, select + one + loads, batches);
    lemma_after_both(step, rig, select + one, loads);
    lemma_after_both(step, rig, select, one);
    lemma_field_selected(group, input, rig);
    let selected = after(step, rig, select);
    lemma_to_montgomery(
        group,
        input,
        selected,
        PkeOperand::FirstX,
        PkeOperand::FirstY,
        PkeSlot::X,
        PkeSlot::Y,
    );
    let converted = after(step, selected, one);
    lemma_after_few(step, converted, loads);
    let loaded = after(step, converted, loads);
    lemma_after_few(step, loaded, batches);
    law_curve_constants();
    let (x, y) = (operand_value(input.first_x), operand_value(input.first_y));
    lemma_plain(x);
    lemma_plain(y);
    lemma_plain(1);
    lemma_not_zero(1);
    assert(is_ready(loaded.core));
    let moved = step(loaded, head[12]);
    assert(sections(moved.core, 3) == (montgomery(x), montgomery(y), montgomery(1)));
    assert(is_ready(moved.core));
    lemma_divided_out(x, 1);
    lemma_divided_out(y, 1);
    lemma_small_mod(x as nat, p256_prime() as nat);
    lemma_small_mod(y as nat, p256_prime() as nat);
    assert(x * (1int * 1int) == x && y * (1int * 1int * 1int) == y) by (nonlinear_arith);
    assert(times_square(x, 1) == x);
    assert(times_cube(y, 1) == y);
}

/// One digit batch doubles the multiple and adds the digit.
proof fn lemma_digit(
    group: PointArithmetic,
    input: PkeInput,
    rig: Rig,
    times: spec_fn(int) -> Point,
    multiple: int,
    digit: i8,
)
    requires
        is_reduced(group),
        gives_multiples(group, first_point(input), times),
        has_multiple(rig.core, first_point(input), times, multiple),
        -1 <= digit <= 1,
    ensures
        has_multiple(
            rig_step(group, input, rig, digit_op(digit)).core,
            first_point(input),
            times,
            2 * multiple + digit,
        ),
{
    let point = first_point(input);
    let twice = (group.sum)(times(multiple), times(multiple));
    assert(is_followed(group, point, times, multiple));
    assert(is_followed(group, point, times, 2 * multiple));
    assert(twice == times(2 * multiple));
    let result = if digit == 1 {
        (group.sum)(twice, point)
    } else if digit == -1 {
        (group.sum)(twice, (group.negative)(point))
    } else {
        twice
    };
    assert(result == times(2 * multiple + digit));
    assert(in_field(result));
    lemma_point_of(group, result);
    let end = rig_step(group, input, rig, digit_op(digit)).core;
    assert(end == with_sections(rig.core, 3, jacobian(group, result)));
    assert(sections(end, 3) == jacobian(group, result));
}

/// The first digit batches leave the multiple that their digits denote.
proof fn lemma_digits(
    group: PointArithmetic,
    input: PkeInput,
    rig: Rig,
    times: spec_fn(int) -> Point,
    digits: Seq<i8>,
    k: int,
)
    requires
        is_reduced(group),
        gives_multiples(group, first_point(input), times),
        has_multiple(rig.core, first_point(input), times, 1),
        is_naf(digits),
        0 <= k < digits.len(),
    ensures
        has_multiple(
            after(rig_stepper(group, input), rig, digit_ops(digits).take(k)).core,
            first_point(input),
            times,
            multiple_after(1, digit_ops(digits).take(k)),
        ),
    decreases k,
{
    let ops = digit_ops(digits);
    let step = rig_stepper(group, input);
    if k == 0 {
        assert(ops.take(0) =~= Seq::<PkeOp>::empty());
    } else {
        lemma_digits(group, input, rig, times, digits, k - 1);
        lemma_after_next(step, rig, ops, k - 1);
        let d = digits[digits.len() - 1 - k];
        assert(ops[k - 1] == digit_op(d));
        let before = multiple_after(1, ops.take(k - 1));
        assert(ops.take(k).drop_last() =~= ops.take(k - 1));
        assert(multiple_after(1, ops.take(k)) == 2 * before + d);
        lemma_digit(group, input, after(step, rig, ops.take(k - 1)), times, before, d);
    }
}

/// What a program has read at its end.
spec fn program_result(
    group: PointArithmetic,
    input: PkeInput,
    times: spec_fn(int) -> Point,
    digits: Seq<i8>,
) -> (int, int) {
    match input.kind {
        PkeKind::PointMul => read_out(times(naf_value(digits))),
        _ => read_out((group.sum)(first_point(input), second_point(input))),
    }
}

/// What an operation needs to be meant for.
pub open spec fn is_meant(
    group: PointArithmetic,
    input: PkeInput,
    times: spec_fn(int) -> Point,
    digits: Seq<i8>,
) -> bool {
    match input.kind {
        PkeKind::PointMul => is_reduced(group) && in_field(first_point(input)) && gives_multiples(
            group,
            first_point(input),
            times,
        ) && is_naf(digits) && digits.len() > 0,
        PkeKind::PointAdd => is_reduced(group) && in_field(first_point(input)) && in_field(
            second_point(input),
        ) && digits.len() == 0,
        PkeKind::FieldMul => digits.len() == 0,
    }
}

/// A program delivers what it is meant for.
proof fn lemma_program(
    group: PointArithmetic,
    input: PkeInput,
    rig: Rig,
    times: spec_fn(int) -> Point,
    digits: Seq<i8>,
)
    requires
        is_meant(group, input, times, digits),
    ensures
        ({
            let end = after(rig_stepper(group, input), rig, pke_program(input.kind, digits));
            if input.kind is FieldMul {
                end.x == (operand_value(input.first_x) * operand_value(input.second_x))
                    % p256_prime()
            } else {
                (end.x, end.y) == program_result(group, input, times, digits)
            }
        }),
{
    let step = rig_stepper(group, input);
    let head = pke_head(input.kind);
    let middle = digit_ops(digits);
    let tail = pke_tail(input.kind);
    lemma_after_both(step, rig, head + middle, tail);
    lemma_after_both(step, rig, head, middle);
    let opened = after(step, rig, head);
    let multiplied = after(step, opened, middle);
    match input.kind {
        PkeKind::FieldMul => {
            lemma_product(group, input, rig);
            assert(head + middle =~= head);
        },
        PkeKind::PointAdd => {
            assert(middle =~= Seq::<PkeOp>::empty());
            lemma_sum_left(group, input, rig);
            lemma_point_of(group, (group.sum)(first_point(input), second_point(input)));
            lemma_read_out(group, input, opened, input.kind);
        },
        PkeKind::PointMul => {
            lemma_mul_opened(group, input, rig);
            let n = digits.len() as int;
            assert(middle.take(n - 1) =~= middle);
            lemma_digits(group, input, opened, times, digits, n - 1);
            law_digits_multiply_by_scalar(digits);
            lemma_read_out(group, input, multiplied, input.kind);
        },
    }
}

/// The multiplication batch leaves the product.
proof fn lemma_product(group: PointArithmetic, input: PkeInput, rig: Rig)
    requires
        input.kind is FieldMul,
    ensures
        ({
            let ops = pke_head(input.kind) + pke_tail(input.kind);
            after(rig_stepper(group, input), rig, ops).x == (operand_value(input.first_x)
                * operand_value(input.second_x)) % p256_prime()
        }),
        pke_program(input.kind, seq![]) == pke_head(input.kind) + pke_tail(input.kind),
{
    let step = rig_stepper(group, input);
    let ops = pke_head(input.kind) + pke_tail(input.kind);
    let first = seq![ops[0], ops[1], ops[2], ops[3]];
    let second = seq![ops[4], ops[5], ops[6], ops[7]];
    assert(ops =~= first + second);
    lemma_after_both(step, rig, first, second);
    lemma_after_few(step, rig, first);
    let loaded = after(step, rig, first);
    lemma_after_few(step, loaded, second);
    law_curve_constants();
    law_montgomery_constants();
    assert(pke_program(input.kind, seq![]) =~= ops);
}

/// What has been read so far, as numbers, on a core.
spec fn rig_of(core: PkeCore, saved: PkeSaved) -> Rig {
    Rig {
        core,
        x: operand_value(saved.x),
        y: operand_value(saved.y),
        other_x: operand_value(saved.other_x),
        other_y: operand_value(saved.other_y),
        z: operand_value(saved.z),
    }
}

/// The engine is where the first operations of the program lead from `origin`.
spec fn leads_to(
    group: PointArithmetic,
    input: PkeInput,
    digits: Seq<i8>,
    origin: Rig,
    count: int,
    rig: Rig,
) -> bool {
    after(rig_stepper(group, input), origin, pke_program(input.kind, digits).take(count)) == rig
}

/// The engine is where the first operations of the program lead from somewhere.
spec fn is_at(
    group: PointArithmetic,
    input: PkeInput,
    digits: Seq<i8>,
    count: int,
    rig: Rig,
) -> bool {
    &&& 0 <= count <= pke_program(input.kind, digits).len()
    &&& exists|origin: Rig| #[trigger] leads_to(group, input, digits, origin, count, rig)
}

/// The result that an operation owes: the multiple, the sum or the product.
pub open spec fn is_right(
    group: PointArithmetic,
    input: PkeInput,
    times: spec_fn(int) -> Point,
    scalar: int,
    outcome: PkeOutcome,
) -> bool {
    match input.kind {
        PkeKind::FieldMul => outcome is Element && operand_value(outcome->bytes) == (operand_value(
            input.first_x,
        ) * operand_value(input.second_x)) % p256_prime(),
        PkeKind::PointMul => outcome is Point && times(scalar) == (Point::Affine {
            x: operand_value(outcome->point.x),
            y: operand_value(outcome->point.y),
        }),
        PkeKind::PointAdd => (group.sum)(first_point(input), second_point(input)) == match outcome {
            PkeOutcome::Point { point } => Point::Affine {
                x: operand_value(point.x),
                y: operand_value(point.y),
            },
            _ => Point::Infinity,
        } && (outcome is Point || outcome is Infinity),
    }
}

/// What holds between an operation and the engine.
spec fn in_step(
    group: PointArithmetic,
    input: PkeInput,
    times: spec_fn(int) -> Point,
    digits: Seq<i8>,
    state: PkeState,
    machine: PkeMachine,
) -> bool {
    let rig = rig_of(machine.core, state.saved);
    match state.stage {
        PkeStage::Entropy { .. } | PkeStage::Lock { .. } | PkeStage::Curve => state.digits
            == digits,
        PkeStage::Ready { index, .. } => state.digits == digits && is_at(
            group,
            input,
            digits,
            index as int,
            rig,
        ) && machine.work_length == 4,
        PkeStage::Busy { index, .. } => state.digits == digits && machine.running && (
        !machine.faulty ==> is_at(
            group,
            input,
            digits,
            index + 1,
            rig_of(machine.pending, state.saved),
        )),
        PkeStage::Finish { index } => state.digits == digits && (!machine.faulty ==> is_at(
            group,
            input,
            digits,
            index + 1,
            rig,
        )),
        PkeStage::Operand { index } => state.digits == digits && is_at(
            group,
            input,
            digits,
            index as int,
            rig,
        ),
        PkeStage::Clean { result, .. } => machine.running && is_clear(machine.pending) && (
        result is Ok ==> is_right(group, input, times, naf_value(digits), state.outcome)),
        PkeStage::Finished { result } => result is Ok ==> is_clear(machine.core) && is_right(
            group,
            input,
            times,
            naf_value(digits),
            state.outcome,
        ),
    }
}

/// One operation further.
proof fn lemma_further(
    group: PointArithmetic,
    input: PkeInput,
    digits: Seq<i8>,
    count: int,
    rig: Rig,
)
    requires
        is_at(group, input, digits, count, rig),
        count < pke_program(input.kind, digits).len(),
    ensures
        is_at(
            group,
            input,
            digits,
            count + 1,
            rig_step(group, input, rig, pke_program(input.kind, digits)[count]),
        ),
{
    let program = pke_program(input.kind, digits);
    let origin = choose|origin: Rig|
        #[trigger] leads_to(group, input, digits, origin, count, rig);
    lemma_after_next(rig_stepper(group, input), origin, program, count);
    assert(leads_to(
        group,
        input,
        digits,
        origin,
        count + 1,
        rig_step(group, input, rig, program[count]),
    ));
}

/// A program starts anywhere.
proof fn lemma_at_start(group: PointArithmetic, input: PkeInput, digits: Seq<i8>, rig: Rig)
    ensures
        is_at(group, input, digits, 0, rig),
{
    let program = pke_program(input.kind, digits);
    assert(program.take(0) =~= Seq::<PkeOp>::empty());
    assert(leads_to(group, input, digits, rig, 0, rig));
}

/// The origin of the coordinates is no point of the curve.
proof fn lemma_origin_is_off()
    ensures
        !on_curve(0, 0),
{
}

/// The end of a program concludes with the result.
proof fn lemma_concluded(
    group: PointArithmetic,
    input: PkeInput,
    times: spec_fn(int) -> Point,
    digits: Seq<i8>,
    state: PkeState,
    commands: Seq<Command>,
    core: PkeCore,
)
    requires
        is_meant(group, input, times, digits),
        state.digits == digits,
        is_at(
            group,
            input,
            digits,
            pke_program(input.kind, digits).len() as int,
            rig_of(core, state.saved),
        ),
    ensures
        ({
            let next = pke_conclude(input, state, commands).state;
            next.stage->Clean_result is Ok ==> is_right(
                group,
                input,
                times,
                naf_value(digits),
                next.outcome,
            )
        }),
        pke_conclude(input, state, commands).state.stage is Clean,
        pke_conclude(input, state, commands).commands == commands.push(Command::PkeRamClear),
{
    let program = pke_program(input.kind, digits);
    let count = program.len() as int;
    let rig = rig_of(core, state.saved);
    let origin = choose|origin: Rig|
        #[trigger] leads_to(group, input, digits, origin, count, rig);
    assert(program.take(count) =~= program);
    lemma_program(group, input, origin, times, digits);
    lemma_origin_is_off();
}

/// An addition stops early exactly where the sum is the neutral element.
proof fn lemma_stops(
    group: PointArithmetic,
    input: PkeInput,
    digits: Seq<i8>,
    count: int,
    rig: Rig,
)
    requires
        input.kind is PointAdd,
        is_reduced(group),
        in_field(first_point(input)),
        in_field(second_point(input)),
        is_at(group, input, digits, count, rig),
        count == 21,
        rig.z == 0,
    ensures
        (group.sum)(first_point(input), second_point(input)) is Infinity,
{
    let program = pke_program(input.kind, digits);
    let origin = choose|origin: Rig|
        #[trigger] leads_to(group, input, digits, origin, count, rig);
    assert(program.take(21) =~= pke_head(PkeKind::PointAdd).take(21));
    lemma_sum_left(group, input, origin);
    lemma_point_of(group, (group.sum)(first_point(input), second_point(input)));
}

proof fn lemma_proceeds(
    group: PointArithmetic,
    input: PkeInput,
    times: spec_fn(int) -> Point,
    digits: Seq<i8>,
    state: PkeState,
    index: nat,
    commands: Seq<Command>,
    machine: PkeMachine,
)
    requires
        is_meant(group, input, times, digits),
        digits.len() <= 257,
        state.digits == digits,
        is_at(
            group,
            input,
            digits,
            index as int,
            rig_of(after(pke_stepper(group), machine, commands).core, state.saved),
        ),
    ensures
        ({
            let next = pke_proceed(input, state, index, commands);
            in_step(
                group,
                input,
                times,
                digits,
                next.state,
                after(pke_stepper(group), machine, next.commands),
            )
        }),
    decreases pke_program(input.kind, digits).len() - index,
{
    let step = pke_stepper(group);
    let program = pke_program(input.kind, digits);
    let here = after(step, machine, commands);
    let rig = rig_of(here.core, state.saved);
    lemma_program_len(input.kind, digits);
    if index >= program.len() {
        lemma_after_push(step, machine, commands, Command::PkeRamClear);
        lemma_concluded(group, input, times, digits, state, commands, here.core);
    } else {
        lemma_further(group, input, digits, index as int, rig);
        match program[index as int] {
            PkeOp::Load { section, operand } => {
                let command = Command::PkeRam {
                    section,
                    operand: operand_bytes(input, state.saved, operand),
                };
                lemma_after_push(step, machine, commands, command);
                let there = after(step, machine, commands.push(command));
                assert(rig_of(there.core, state.saved) == rig_step(
                    group,
                    input,
                    rig,
                    program[index as int],
                ));
                lemma_proceeds(
                    group,
                    input,
                    times,
                    digits,
                    state,
                    index + 1,
                    commands.push(command),
                    machine,
                );
            },
            PkeOp::Montgomery { low, high } => {
                let first = Command::PkeMontgomeryLow { word: low };
                let second = Command::PkeMontgomeryHigh { word: high };
                lemma_after_push(step, machine, commands, first);
                lemma_after_push(step, machine, commands.push(first), second);
                let there = after(step, machine, commands.push(first).push(second));
                assert(rig_of(there.core, state.saved) == rig_step(
                    group,
                    input,
                    rig,
                    program[index as int],
                ));
                lemma_proceeds(
                    group,
                    input,
                    times,
                    digits,
                    state,
                    index + 1,
                    commands.push(first).push(second),
                    machine,
                );
            },
            PkeOp::Batch { .. } => {
                lemma_after_push(step, machine, commands, Command::PkeWorkLength { length: 4 });
            },
            PkeOp::Save { .. } => {},
            PkeOp::StopAtInfinity => {
                lemma_only_sums_stop(input.kind, digits, index as int);
                if operand_value(state.saved.z) == 0 {
                    lemma_after_push(step, machine, commands, Command::PkeRamClear);
                    lemma_stops(group, input, digits, index as int, rig);
                } else {
                    lemma_proceeds(
                        group,
                        input,
                        times,
                        digits,
                        state,
                        index + 1,
                        commands,
                        machine,
                    );
                }
            },
        }
    }
}

/// Starting a batch runs it.
proof fn lemma_batch_started(
    group: PointArithmetic,
    machine: PkeMachine,
    offset: u32,
    count: u32,
)
    requires
        machine.work_length == 4,
        offset <= 326,
        count <= 40,
    ensures
        ({
            let end = after(pke_stepper(group), machine, batch_start(offset, count));
            &&& end.running
            &&& end.faulty == machine.faulty
            &&& !machine.faulty ==> end.pending == batch_effect(
                group,
                machine.core,
                offset as int,
                count as int,
            )
        }),
{
    let step = pke_stepper(group);
    let c = batch_start(offset, count);
    let front = seq![c[0], c[1], c[2], c[3]];
    let back = seq![c[4]];
    assert(c =~= front + back);
    lemma_after_both(step, machine, front, back);
    lemma_after_few(step, machine, front);
    let set = after(step, machine, front);
    lemma_after_few(step, set, back);
    assert(set.address.0 == 0x00c0_0000 + 4 * offset);
    assert((4 * offset) % 4 == 0 && (4 * offset) / 4 == offset as int);
    assert((4 * count) % 4 == 0 && (4 * count) / 4 == count as int);
}

proof fn lemma_stays_in_step(
    group: PointArithmetic,
    input: PkeInput,
    times: spec_fn(int) -> Point,
    digits: Seq<i8>,
    state: PkeState,
    machine: PkeMachine,
    reply: Reply,
)
    requires
        is_meant(group, input, times, digits),
        digits.len() <= 257,
        state.valid(input),
        !(state.stage is Finished),
        in_step(group, input, times, digits, state, machine),
        pke_machine_answers(machine, pke_ask(input, state), reply),
    ensures
        ({
            let next = pke_next(input, state, reply);
            in_step(
                group,
                input,
                times,
                digits,
                next.state,
                pke_machine_next(group, machine, pke_ask(input, state), reply, next.commands),
            )
        }),
{
    let step = pke_stepper(group);
    let next = pke_next(input, state, reply);
    let program = pke_program(input.kind, digits);
    let word = reply->word;
    let machine = pke_machine_seen(machine, pke_ask(input, state), reply);
    if next.commands.len() <= 4 {
        lemma_after_few(step, machine, next.commands);
    }
    match state.stage {
        PkeStage::Lock { .. } => {
            let unmasked = PkeState { mask: 0, ..state };
            let protect = pke_protect(state.mask);
            let here = after(step, machine, protect);
            lemma_at_start(group, input, digits, rig_of(here.core, unmasked.saved));
            lemma_proceeds(group, input, times, digits, unmasked, 0, protect, machine);
        },
        PkeStage::Curve => {
            let none = Seq::<Command>::empty();
            lemma_at_start(
                group,
                input,
                digits,
                rig_of(after(step, machine, none).core, state.saved),
            );
            lemma_proceeds(group, input, times, digits, state, 0, none, machine);
        },
        PkeStage::Ready { index, .. } => {
            if next.state.stage is Busy {
                let op = program[index as int];
                lemma_small_batches(input.kind, digits, index as int);
                lemma_batch_started(group, machine, op->Batch_offset, op->Batch_count);
                lemma_further(
                    group,
                    input,
                    digits,
                    index as int,
                    rig_of(machine.core, state.saved),
                );
            }
        },
        PkeStage::Finish { index } => {
            let done = seq![Command::PkeFinish { latch: 5 }];
            lemma_after_few(step, machine, done);
            if word == 5 {
                lemma_proceeds(
                    group,
                    input,
                    times,
                    digits,
                    state,
                    index as nat + 1,
                    done,
                    machine,
                );
            }
        },
        PkeStage::Operand { index } => {
            let none = Seq::<Command>::empty();
            lemma_after_few(step, machine, none);
            let slot = program[index as int]->Save_slot;
            let saved = with_saved(state.saved, slot, reply->operand);
            let rig = rig_of(machine.core, state.saved);
            lemma_further(group, input, digits, index as int, rig);
            assert(rig_of(machine.core, saved) == rig_step(
                group,
                input,
                rig,
                program[index as int],
            ));
            lemma_proceeds(
                group,
                input,
                times,
                digits,
                PkeState { saved, ..state },
                index as nat + 1,
                none,
                machine,
            );
        },
        _ => {},
    }
}

proof fn lemma_run_in_step(
    group: PointArithmetic,
    input: PkeInput,
    times: spec_fn(int) -> Point,
    digits: Seq<i8>,
    state: PkeState,
    machine: PkeMachine,
    replies: Seq<Reply>,
)
    requires
        is_meant(group, input, times, digits),
        digits.len() <= 257,
        state.valid(input),
        in_step(group, input, times, digits, state, machine),
        pke_meets_machine(group, input, state, machine, replies),
    ensures
        ({
            let end = pke_run(input, state, replies).state;
            let last = pke_machine_end(group, input, state, machine, replies);
            in_step(group, input, times, digits, end, last)
        }),
    decreases replies.len(),
{
    if replies.len() > 0 && !(state.stage is Finished) {
        let next = pke_next(input, state, replies[0]);
        law_pke_step_is_bounded(input, state, replies[0]);
        lemma_stays_in_step(group, input, times, digits, state, machine, replies[0]);
        lemma_run_in_step(
            group,
            input,
            times,
            digits,
            next.state,
            pke_machine_next(
                group,
                machine,
                pke_ask(input, state),
                replies[0],
                next.commands,
            ),
            replies.skip(1),
        );
    }
}

/// Every operation delivers what it is meant for: whatever the data RAM held before, and
/// whatever addition of points the engine has, a run that the engine answers and that ends
/// well delivers the multiple of the point by the scalar, the sum of the points, or the
/// product of the field elements.
pub proof fn law_pke_result(
    group: PointArithmetic,
    input: PkeInput,
    times: spec_fn(int) -> Point,
    digits: Seq<i8>,
    machine: PkeMachine,
    replies: Seq<Reply>,
)
    requires
        is_meant(group, input, times, digits),
        digits.len() <= 257,
        pke_meets_machine(group, input, pke_start(digits), machine, replies),
        pke_run(input, pke_start(digits), replies).state.stage == (PkeStage::Finished {
            result: Ok(()),
        }),
    ensures
        is_right(
            group,
            input,
            times,
            naf_value(digits),
            pke_run(input, pke_start(digits), replies).state.outcome,
        ),
{
    lemma_run_in_step(group, input, times, digits, pke_start(digits), machine, replies);
}

/// Nothing stays behind: an operation that ends well has left zeros in the data RAM.
pub proof fn law_pke_leaves_nothing(
    group: PointArithmetic,
    input: PkeInput,
    times: spec_fn(int) -> Point,
    digits: Seq<i8>,
    machine: PkeMachine,
    replies: Seq<Reply>,
)
    requires
        is_meant(group, input, times, digits),
        digits.len() <= 257,
        pke_meets_machine(group, input, pke_start(digits), machine, replies),
        pke_run(input, pke_start(digits), replies).state.stage == (PkeStage::Finished {
            result: Ok(()),
        }),
    ensures
        is_clear(pke_machine_end(group, input, pke_start(digits), machine, replies).core),
{
    lemma_run_in_step(group, input, times, digits, pke_start(digits), machine, replies);
}

} // verus!
