//! What emitted operations compute, and what that says of the lowering.

use vstd::arithmetic::power2::lemma2_to64;
use vstd::arithmetic::power2::pow2;
use vstd::prelude::*;
use crate::access::aligned_for_word;
use crate::access::alloca_rewrite;
use crate::access::i32x2_results;
use crate::access::i32x2_rewrite;
use crate::access::i32x2_steps;
use crate::access::i32x4_results;
use crate::access::i32x4_rewrite;
use crate::access::i32x4_steps;
use crate::access::insert_step;
use crate::access::lanes_rewrite;
use crate::access::load_rewrite;
use crate::access::placed_lanes;
use crate::access::ptr_offset_rewrite;
use crate::access::ref_rewrite;
use crate::access::read_only_rewrite;
use crate::access::scalar_rewrite;
use crate::access::store_rewrite;
use crate::bits::digits;
use crate::bits::lemma_digits_len;
use crate::bits::lemma_last_digit;
use crate::bits::lemma_number_of_digits;
use crate::bits::number;
use crate::bits::zeros;
use crate::rewrite::Finish;
use crate::rewrite::LlvmOp;
use crate::rewrite::OpType;
use crate::rewrite::Operand;
use crate::rewrite::ReadOnlyInstruction;
use crate::rewrite::RewriteModel;
use crate::rewrite::Step;
use crate::types::i32x2_lanes;
use crate::types::i32x4_lanes;
use crate::types::is_scalar_path;
use crate::types::law_i32_lanes_are_the_scalars_in_order;
use crate::types::LlvmType;
use crate::types::ReadOnlyScalarKind;

verus! {

/// What a value of the lowered program is.
pub enum Datum {
    /// A number or a register, by its bits, least significant first.
    Bits(Seq<bool>),
    /// An address in global memory.
    Address(int),
    /// The address of the stack slot that a step made.
    Slot(int),
    /// An aggregate, by the bits at each index path that has been set.
    Aggregate(Map<Seq<u32>, Seq<bool>>),
    /// A value that is not described further.
    Unknown,
}

/// What the emitted operations run in.
pub struct Machine {
    /// Global memory, byte by byte.
    pub memory: spec_fn(int) -> u8,
    /// The operands of the replaced operation.
    pub sources: Seq<Datum>,
    /// The width in bits of each operand of the replaced operation.
    pub source_widths: Seq<nat>,
    /// The width in bits of the lowered type.
    pub width: nat,
    /// The distance in bytes between two elements of a type.
    pub stride: spec_fn(OpType) -> int,
}

/// What an operation does to memory.
pub enum Effect {
    /// `bits` bits are read from an address.
    Read { at: Datum, bits: nat, volatile: bool, align: Option<u32> },
    /// A value is written to an address.
    Write { at: Datum, value: Datum, volatile: bool, align: Option<u32> },
    /// A stack slot of `size` bits is reserved.
    Reserve { slot: Datum, size: int, align: Option<u32> },
}

/// The results of the steps so far, and what they stored at which address.
pub struct State {
    pub results: Seq<Datum>,
    pub stored: Map<Datum, Datum>,
}

/// The bits of `bytes` bytes from `address` on, least significant first.
pub open spec fn bits_at(memory: spec_fn(int) -> u8, address: int, bytes: nat) -> Seq<bool> {
    Seq::new(8 * bytes, |i: int| digits(memory(address + i / 8) as int, 8)[i % 8])
}

impl Datum {
    /// The bits of a number.
    pub open spec fn bits(self) -> Seq<bool> {
        match self {
            Datum::Bits(bits) => bits,
            _ => Seq::empty(),
        }
    }

    /// The elements of an aggregate.
    pub open spec fn elements(self) -> Map<Seq<u32>, Seq<bool>> {
        match self {
            Datum::Aggregate(elements) => elements,
            _ => Map::empty(),
        }
    }

    /// The number that two's-complement bits stand for.
    pub open spec fn signed(self) -> int {
        let bits = self.bits();
        if bits.len() > 0 && bits.last() {
            number(bits) - pow2(bits.len())
        } else {
            number(bits) as int
        }
    }
}

impl Machine {
    /// The width in bits of a type.
    pub open spec fn type_width(self, ty: OpType) -> nat {
        match ty {
            OpType::Lowered => self.width,
            OpType::Source(index) => self.source_widths[index as int],
            OpType::Integer(width) => width as nat,
            OpType::IntegerPair(width) => 2 * (width as nat),
        }
    }

    /// How many bits of memory an instruction reads.
    pub open spec fn read_width(self, instruction: ReadOnlyInstruction) -> nat {
        match instruction {
            ReadOnlyInstruction::U8 => 8,
            ReadOnlyInstruction::U16 => 16,
            ReadOnlyInstruction::B32 | ReadOnlyInstruction::F32 => 32,
            ReadOnlyInstruction::B64 | ReadOnlyInstruction::F64 => 64,
            ReadOnlyInstruction::V2U64 => 128,
        }
    }

    /// What an instruction reads. An instruction of a type narrower than its register
    /// fills the register with zeros.
    pub open spec fn read(self, instruction: ReadOnlyInstruction, address: int) -> Datum {
        match instruction {
            ReadOnlyInstruction::U8 => Datum::Bits(bits_at(self.memory, address, 1) + zeros(24)),
            ReadOnlyInstruction::U16 => Datum::Bits(bits_at(self.memory, address, 2) + zeros(16)),
            ReadOnlyInstruction::B32 => Datum::Bits(bits_at(self.memory, address, 4)),
            ReadOnlyInstruction::F32 => Datum::Bits(bits_at(self.memory, address, 4)),
            ReadOnlyInstruction::B64 => Datum::Bits(bits_at(self.memory, address, 8)),
            ReadOnlyInstruction::F64 => Datum::Bits(bits_at(self.memory, address, 8)),
            ReadOnlyInstruction::V2U64 => Datum::Aggregate(
                Map::empty().insert(seq![0u32], bits_at(self.memory, address, 8)).insert(
                    seq![1u32],
                    bits_at(self.memory, address + 8, 8),
                ),
            ),
        }
    }
}

impl State {
    /// What an operand is.
    pub open spec fn value(self, machine: Machine, operand: Operand) -> Datum {
        match operand {
            Operand::Source(index) => machine.sources[index as int],
            Operand::Step(index) => self.results[index as int],
        }
    }

    /// What an operation results in.
    pub open spec fn eval(self, machine: Machine, op: LlvmOp<Seq<u32>, Seq<bool>>) -> Datum {
        match op {
            LlvmOp::Load { ptr, ty } => match self.value(machine, ptr) {
                Datum::Address(address) => Datum::Bits(
                    bits_at(machine.memory, address, machine.type_width(ty) / 8),
                ),
                _ => Datum::Unknown,
            },
            LlvmOp::InlineAsm { instruction, ptr, ty } => match self.value(machine, ptr) {
                Datum::Address(address) => machine.read(instruction, address),
                _ => Datum::Unknown,
            },
            LlvmOp::Trunc { value, ty } => Datum::Bits(
                self.value(machine, value).bits().take(machine.type_width(ty) as int),
            ),
            LlvmOp::LShr { value, amount } => {
                let shift = number(self.value(machine, amount).bits());
                Datum::Bits(self.value(machine, value).bits().skip(shift as int) + zeros(shift))
            },
            LlvmOp::Constant { number } => Datum::Bits(number),
            LlvmOp::ExtractValue { aggregate, path } => Datum::Bits(
                self.value(machine, aggregate).elements()[path],
            ),
            LlvmOp::InsertValue { aggregate, value, path } => Datum::Aggregate(
                self.value(machine, aggregate).elements().insert(
                    path,
                    self.value(machine, value).bits(),
                ),
            ),
            LlvmOp::Undef { ty } => Datum::Aggregate(Map::empty()),
            LlvmOp::Alloca { ty, count } => Datum::Slot(self.results.len() as int),
            LlvmOp::GetElementPtr { ptr, index, elem, inbounds } => match self.value(machine, ptr) {
                Datum::Address(address) => Datum::Address(
                    address + self.value(machine, index).signed() * (machine.stride)(elem),
                ),
                _ => Datum::Unknown,
            },
            LlvmOp::Store { value, ptr } => Datum::Unknown,
        }
    }

    /// What an operation does to memory, if anything.
    pub open spec fn effects(self, machine: Machine, step: Step<Seq<u32>, Seq<bool>>) -> Seq<Effect> {
        let volatile = step.volatile;
        let align = step.align;
        match step.op {
            LlvmOp::Load { ptr, ty } => seq![
                Effect::Read {
                    at: self.value(machine, ptr),
                    bits: machine.type_width(ty),
                    volatile,
                    align,
                },
            ],
            LlvmOp::InlineAsm { instruction, ptr, ty } => seq![
                Effect::Read {
                    at: self.value(machine, ptr),
                    bits: machine.read_width(instruction),
                    volatile,
                    align,
                },
            ],
            LlvmOp::Store { value, ptr } => seq![
                Effect::Write {
                    at: self.value(machine, ptr),
                    value: self.value(machine, value),
                    volatile,
                    align,
                },
            ],
            LlvmOp::Alloca { ty, count } => seq![
                Effect::Reserve {
                    slot: Datum::Slot(self.results.len() as int),
                    size: self.value(machine, count).signed() * machine.type_width(ty),
                    align,
                },
            ],
            _ => seq![],
        }
    }

    /// The state after one more step.
    pub open spec fn after(self, machine: Machine, step: Step<Seq<u32>, Seq<bool>>) -> State {
        State {
            results: self.results.push(self.eval(machine, step.op)),
            stored: match step.op {
                LlvmOp::Store { value, ptr } => self.stored.insert(
                    self.value(machine, ptr),
                    self.value(machine, value),
                ),
                _ => self.stored,
            },
        }
    }
}

/// The state after all steps.
pub open spec fn run(machine: Machine, steps: Seq<Step<Seq<u32>, Seq<bool>>>) -> State
    decreases steps.len(),
{
    if steps.len() == 0 {
        State { results: Seq::empty(), stored: Map::empty() }
    } else {
        run(machine, steps.drop_last()).after(machine, steps.last())
    }
}

/// What all steps do to memory, in order.
pub open spec fn trace(machine: Machine, steps: Seq<Step<Seq<u32>, Seq<bool>>>) -> Seq<Effect>
    decreases steps.len(),
{
    if steps.len() == 0 {
        Seq::empty()
    } else {
        trace(machine, steps.drop_last()) + run(machine, steps.drop_last()).effects(
            machine,
            steps.last(),
        )
    }
}

/// The value that takes the place of the replaced operation's result.
pub open spec fn replacement(machine: Machine, rewrite: RewriteModel) -> Option<Datum> {
    let state = run(machine, rewrite.steps);
    match rewrite.finish {
        Finish::Erase => None,
        Finish::ReplaceWithStep(index) => Some(state.value(machine, Operand::Step(index))),
        Finish::ReplaceWithValue(operand) => Some(state.value(machine, operand)),
    }
}

/// The state and the trace after one more of the steps.
pub proof fn lemma_run_next(machine: Machine, steps: Seq<Step<Seq<u32>, Seq<bool>>>, k: int)
    requires
        0 <= k < steps.len(),
    ensures
        run(machine, steps.take(k + 1)) == run(machine, steps.take(k)).after(machine, steps[k]),
        run(machine, steps.take(0)) == (State { results: Seq::empty(), stored: Map::empty() }),
        trace(machine, steps.take(k + 1)) == trace(machine, steps.take(k)) + run(
            machine,
            steps.take(k),
        ).effects(machine, steps[k]),
        trace(machine, steps.take(0)) == Seq::<Effect>::empty(),
{
    assert(steps.take(k + 1).drop_last() =~= steps.take(k));
}

/// A read-only load of a scalar results in the bits that memory holds at its address,
/// one byte after the other.
pub proof fn law_read_only_scalar_keeps_bits(
    machine: Machine,
    kind: ReadOnlyScalarKind,
    address: int,
)
    requires
        kind.supported(),
        machine.width == kind.width(),
        machine.sources.len() == 1,
        machine.sources[0] == Datum::Address(address),
    ensures
        replacement(machine, scalar_rewrite(kind)) == Some(
            Datum::Bits(bits_at(machine.memory, address, kind.width() / 8)),
        ),
{
    let steps = scalar_rewrite(kind).steps;
    assert(steps.take(steps.len() as int) =~= steps);
    lemma_run_next(machine, steps, 0);
    if kind.width() < 32 {
        lemma_run_next(machine, steps, 1);
        let bytes = kind.width() / 8;
        let register = bits_at(machine.memory, address, bytes) + zeros((32 - kind.width()) as nat);
        assert(register.take(kind.width() as int) =~= bits_at(machine.memory, address, bytes));
    }
}

/// The register that a read-only scalar instruction fills is as wide as the type that the
/// instruction is given.
pub proof fn law_read_only_register_has_its_type(
    machine: Machine,
    kind: ReadOnlyScalarKind,
    address: int,
)
    requires
        kind.supported(),
        machine.width == kind.width(),
    ensures
        scalar_rewrite(kind).steps[0].op matches LlvmOp::InlineAsm { instruction, ptr, ty }
            && machine.read(instruction, address).bits().len() == machine.type_width(ty),
{
}

/// Whether an aggregate holds exactly these values at these paths.
pub open spec fn holds_lanes(
    elements: Map<Seq<u32>, Seq<bool>>,
    paths: Seq<Seq<u32>>,
    values: Seq<Seq<bool>>,
) -> bool {
    &&& elements.dom() == paths.to_set()
    &&& forall|lane: int|
        0 <= lane < paths.len() ==> elements[#[trigger] paths[lane]] == values[lane]
}

/// What memory holds at the places of `count` consecutive 32-bit lanes.
pub open spec fn lanes_at(memory: spec_fn(int) -> u8, address: int, count: nat) -> Seq<Seq<bool>> {
    Seq::new(count, |lane: int| bits_at(memory, address + 4 * lane, 4))
}

/// Whether no later lane is put at the path of a lane.
pub open spec fn stays(paths: Seq<Seq<u32>>, lane: int) -> bool {
    forall|later: int| lane < later < paths.len() ==> #[trigger] paths[later] != paths[lane]
}

/// Whether an aggregate is set at exactly these paths, and holds at each the value of the
/// last lane that was put there.
pub open spec fn holds_last_lanes(
    elements: Map<Seq<u32>, Seq<bool>>,
    paths: Seq<Seq<u32>>,
    values: Seq<Seq<bool>>,
) -> bool {
    &&& elements.dom() == paths.to_set()
    &&& forall|lane: int|
        0 <= lane < paths.len() && stays(paths, lane) ==> elements[#[trigger] paths[lane]]
            == values[lane]
}

/// What a lane rewrite results in and does to memory, given what the steps that compute the
/// lanes result in and do.
pub proof fn lemma_placed_lanes(
    machine: Machine,
    steps: Seq<Step<Seq<u32>, Seq<bool>>>,
    lanes: Seq<usize>,
    paths: Seq<Seq<u32>>,
    values: Seq<Seq<bool>>,
)
    requires
        steps.len() < 100,
        lanes.len() < 100,
        values.len() == lanes.len(),
        run(machine, steps).results.len() == steps.len(),
        forall|lane: int|
            0 <= lane < lanes.len() ==> #[trigger] lanes[lane] < steps.len() && run(
                machine,
                steps,
            ).results[lanes[lane] as int] == Datum::Bits(values[lane]),
    ensures
        replacement(machine, lanes_rewrite(steps, lanes, paths)) matches Some(
            Datum::Aggregate(elements),
        ) && {
            &&& holds_last_lanes(elements, paths.take(placed_lanes(lanes, paths) as int), values)
            &&& paths.len() == lanes.len() && paths.no_duplicates() ==> holds_lanes(
                elements,
                paths,
                values,
            )
        },
        trace(machine, lanes_rewrite(steps, lanes, paths).steps) == trace(machine, steps),
{
    let all = lanes_rewrite(steps, lanes, paths).steps;
    let placed = placed_lanes(lanes, paths);
    lemma_placed_so_far(machine, steps, lanes, paths, values, placed);
    assert(all.take(all.len() as int) =~= all);
    if paths.len() == lanes.len() && paths.no_duplicates() {
        assert(paths.take(placed as int) =~= paths);
        assert forall|lane: int| 0 <= lane < paths.len() implies stays(paths, lane) by {}
    }
}

proof fn lemma_placed_so_far(
    machine: Machine,
    steps: Seq<Step<Seq<u32>, Seq<bool>>>,
    lanes: Seq<usize>,
    paths: Seq<Seq<u32>>,
    values: Seq<Seq<bool>>,
    placed: nat,
)
    requires
        steps.len() < 100,
        lanes.len() < 100,
        values.len() == lanes.len(),
        placed <= placed_lanes(lanes, paths),
        run(machine, steps).results.len() == steps.len(),
        forall|lane: int|
            0 <= lane < lanes.len() ==> #[trigger] lanes[lane] < steps.len() && run(
                machine,
                steps,
            ).results[lanes[lane] as int] == Datum::Bits(values[lane]),
    ensures
        ({
            let all = lanes_rewrite(steps, lanes, paths).steps;
            let results = run(machine, all.take((steps.len() + 1 + placed) as int)).results;
            &&& results.len() == steps.len() + 1 + placed
            &&& results.take(steps.len() as int) == run(machine, steps).results
            &&& results.last() matches Datum::Aggregate(elements) && holds_last_lanes(
                elements,
                paths.take(placed as int),
                values,
            )
            &&& trace(machine, all.take((steps.len() + 1 + placed) as int)) == trace(
                machine,
                steps,
            )
        }),
    decreases placed,
{
    let all = lanes_rewrite(steps, lanes, paths).steps;
    let count = steps.len() as int;
    if placed == 0 {
        assert(all.take(count) =~= steps);
        lemma_run_next(machine, all, count);
        assert(Map::<Seq<u32>, Seq<bool>>::empty().dom() =~= paths.take(0).to_set());
        assert(trace(machine, steps) + Seq::<Effect>::empty() =~= trace(machine, steps));
    } else {
        let lane = placed - 1;
        lemma_placed_so_far(machine, steps, lanes, paths, values, lane as nat);
        lemma_run_next(machine, all, count + placed);
        assert(trace(machine, steps) + Seq::<Effect>::empty() =~= trace(machine, steps));
        let before = run(machine, all.take(count + placed)).results;
        let after = run(machine, all.take(count + 1 + placed)).results;
        assert(all[count + placed] == insert_step(steps.len(), lanes, paths, lane));
        assert(lanes[lane] < steps.len());
        assert(before.take(count)[lanes[lane] as int] == before[lanes[lane] as int]);
        assert(after.take(count) =~= before.take(count));
        let old_elements = before.last()->Aggregate_0;
        let elements = after.last()->Aggregate_0;
        assert(elements == old_elements.insert(paths[lane], values[lane]));
        let shorter = paths.take(lane);
        let longer = paths.take(placed as int);
        assert(longer =~= shorter.push(paths[lane]));
        assert forall|path: Seq<u32>| elements.dom().contains(path) <==> longer.to_set().contains(
            path,
        ) by {
            assert(old_elements.dom().contains(path) <==> shorter.to_set().contains(path));
            if longer.contains(path) {
                let k = choose|k: int| 0 <= k < longer.len() && longer[k] == path;
                if k < lane {
                    assert(shorter[k] == path);
                }
            }
            if shorter.contains(path) {
                let k = choose|k: int| 0 <= k < shorter.len() && shorter[k] == path;
                assert(longer[k] == path);
            }
            assert(longer[lane] == paths[lane]);
        }
        assert(elements.dom() =~= longer.to_set());
        assert forall|k: int| 0 <= k < longer.len() && stays(longer, k) implies elements[
            #[trigger] longer[k]
        ] == values[k] by {
            if k < lane {
                assert(shorter[k] == longer[k]);
                assert(longer[lane] != longer[k]);
                assert(stays(shorter, k)) by {
                    assert forall|later: int| k < later < shorter.len() implies #[trigger] shorter[
                        later
                    ] != shorter[k] by {
                        assert(longer[later] != longer[k]);
                    }
                }
            }
        }
    }
}

/// The lanes of the four-lane load, and its only effect.
pub proof fn lemma_i32x4_values(machine: Machine, address: int)
    requires
        machine.sources.len() == 1,
        machine.sources[0] == Datum::Address(address),
    ensures
        ({
            let results = run(machine, i32x4_steps()).results;
            &&& results.len() == 10
            &&& results[3] == Datum::Bits(bits_at(machine.memory, address, 4))
            &&& results[5] == Datum::Bits(bits_at(machine.memory, address + 4, 4))
            &&& results[7] == Datum::Bits(bits_at(machine.memory, address + 8, 4))
            &&& results[9] == Datum::Bits(bits_at(machine.memory, address + 12, 4))
        }),
        trace(machine, i32x4_steps()) == seq![
            Effect::Read { at: machine.sources[0], bits: 128, volatile: false, align: None },
        ],
{
    let steps = i32x4_steps();
    assert(steps.take(10) =~= steps);
    lemma_run_next(machine, steps, 0);
    lemma_run_next(machine, steps, 1);
    lemma_run_next(machine, steps, 2);
    lemma_run_next(machine, steps, 3);
    lemma_run_next(machine, steps, 4);
    lemma_run_next(machine, steps, 5);
    lemma_run_next(machine, steps, 6);
    lemma_run_next(machine, steps, 7);
    lemma_run_next(machine, steps, 8);
    lemma_run_next(machine, steps, 9);
    lemma_lane_shift_digits();
    lemma_word_halves(machine.memory, address);
    lemma_word_halves(machine.memory, address + 8);
    assert(seq![0u32][0] != seq![1u32][0]);
}

/// The lanes of the two-lane load, and its only effect.
pub proof fn lemma_i32x2_values(machine: Machine, address: int)
    requires
        machine.sources.len() == 1,
        machine.sources[0] == Datum::Address(address),
    ensures
        ({
            let results = run(machine, i32x2_steps()).results;
            &&& results.len() == 5
            &&& results[2] == Datum::Bits(bits_at(machine.memory, address, 4))
            &&& results[4] == Datum::Bits(bits_at(machine.memory, address + 4, 4))
        }),
        trace(machine, i32x2_steps()) == seq![
            Effect::Read { at: machine.sources[0], bits: 64, volatile: false, align: None },
        ],
{
    let steps = i32x2_steps();
    assert(steps.take(5) =~= steps);
    lemma_run_next(machine, steps, 0);
    lemma_run_next(machine, steps, 1);
    lemma_run_next(machine, steps, 2);
    lemma_run_next(machine, steps, 3);
    lemma_run_next(machine, steps, 4);
    lemma_lane_shift_digits();
    lemma_word_halves(machine.memory, address);
}

proof fn lemma_lane_shift_digits()
    ensures
        number(digits(32, 64)) == 32,
{
    lemma2_to64();
    lemma_number_of_digits(32, 64);
}

proof fn lemma_word_halves(memory: spec_fn(int) -> u8, address: int)
    ensures
        ({
            let word = bits_at(memory, address, 8);
            &&& word.take(32) == bits_at(memory, address, 4)
            &&& (word.skip(32) + zeros(32)).take(32) == bits_at(memory, address + 4, 4)
        }),
{
    let word = bits_at(memory, address, 8);
    assert(word.take(32) =~= bits_at(memory, address, 4));
    assert((word.skip(32) + zeros(32)).take(32) =~= bits_at(memory, address + 4, 4));
}

/// A read-only load of four lanes results in an aggregate of exactly those lanes: at each
/// path the 32 bits that memory holds at the lane's place in the 16 bytes.
pub proof fn law_read_only_i32x4_keeps_bits(machine: Machine, paths: Seq<Seq<u32>>, address: int)
    requires
        paths.len() == 4,
        paths.no_duplicates(),
        machine.sources.len() == 1,
        machine.sources[0] == Datum::Address(address),
    ensures
        replacement(machine, i32x4_rewrite(paths)) matches Some(Datum::Aggregate(elements))
            && holds_lanes(elements, paths, lanes_at(machine.memory, address, 4)),
{
    lemma_i32x4_values(machine, address);
    lemma_placed_lanes(
        machine,
        i32x4_steps(),
        i32x4_results(),
        paths,
        lanes_at(machine.memory, address, 4),
    );
}

/// A read-only load of two lanes results in an aggregate of exactly those lanes: at each
/// path the 32 bits that memory holds at the lane's place in the 8 bytes.
pub proof fn law_read_only_i32x2_keeps_bits(machine: Machine, paths: Seq<Seq<u32>>, address: int)
    requires
        paths.len() == 2,
        paths.no_duplicates(),
        machine.sources.len() == 1,
        machine.sources[0] == Datum::Address(address),
    ensures
        replacement(machine, i32x2_rewrite(paths)) matches Some(Datum::Aggregate(elements))
            && holds_lanes(elements, paths, lanes_at(machine.memory, address, 2)),
{
    lemma_i32x2_values(machine, address);
    lemma_placed_lanes(
        machine,
        i32x2_steps(),
        i32x2_results(),
        paths,
        lanes_at(machine.memory, address, 2),
    );
}

/// A read-only load of a type with the shape of `I32x4` results in a complete value of
/// that type: every scalar of the type is set, and nothing else, each to the 32 bits that
/// memory holds at its place.
pub proof fn law_read_only_i32x4_is_complete(
    machine: Machine,
    ty: LlvmType,
    abi_align: Option<u64>,
    address: int,
)
    requires
        i32x4_lanes(ty) is Some,
        machine.sources.len() == 1,
        machine.sources[0] == Datum::Address(address),
    ensures
        read_only_rewrite(ty, abi_align) matches Some(rewrite) && replacement(
            machine,
            rewrite,
        ) matches Some(Datum::Aggregate(elements)) && {
            &&& forall|path: Seq<u32>|
                #[trigger] elements.contains_key(path) <==> is_scalar_path(ty, path)
            &&& holds_lanes(elements, i32x4_lanes(ty)->0, lanes_at(machine.memory, address, 4))
        },
{
    let paths = i32x4_lanes(ty)->0;
    law_i32_lanes_are_the_scalars_in_order(ty, 4);
    law_read_only_i32x4_keeps_bits(machine, paths, address);
    let elements = replacement(machine, i32x4_rewrite(paths))->0->Aggregate_0;
    lemma_scalars_are_set(ty, elements, paths);
}

/// A read-only load of a type with the shape of `I32x2` and an alignment of 8 bytes results
/// in a complete value of that type: every scalar of the type is set, and nothing else, each
/// to the 32 bits that memory holds at its place.
pub proof fn law_read_only_i32x2_is_complete(
    machine: Machine,
    ty: LlvmType,
    abi_align: Option<u64>,
    address: int,
)
    requires
        i32x2_lanes(ty) is Some,
        aligned_for_word(abi_align),
        machine.sources.len() == 1,
        machine.sources[0] == Datum::Address(address),
    ensures
        read_only_rewrite(ty, abi_align) matches Some(rewrite) && replacement(
            machine,
            rewrite,
        ) matches Some(Datum::Aggregate(elements)) && {
            &&& forall|path: Seq<u32>|
                #[trigger] elements.contains_key(path) <==> is_scalar_path(ty, path)
            &&& holds_lanes(elements, i32x2_lanes(ty)->0, lanes_at(machine.memory, address, 2))
        },
{
    let paths = i32x2_lanes(ty)->0;
    law_i32_lanes_are_the_scalars_in_order(ty, 2);
    law_read_only_i32x2_keeps_bits(machine, paths, address);
    let elements = replacement(machine, i32x2_rewrite(paths))->0->Aggregate_0;
    lemma_scalars_are_set(ty, elements, paths);
}

proof fn lemma_scalars_are_set(
    ty: LlvmType,
    elements: Map<Seq<u32>, Seq<bool>>,
    paths: Seq<Seq<u32>>,
)
    requires
        elements.dom() == paths.to_set(),
        forall|path: Seq<u32>| #[trigger] is_scalar_path(ty, path) <==> paths.contains(path),
    ensures
        forall|path: Seq<u32>|
            #[trigger] elements.contains_key(path) <==> is_scalar_path(ty, path),
{
    assert forall|path: Seq<u32>|
        #[trigger] elements.contains_key(path) <==> is_scalar_path(ty, path) by {
        assert(elements.dom().contains(path) <==> paths.to_set().contains(path));
        assert(paths.to_set().contains(path) <==> paths.contains(path));
    }
}

/// A read-only load of a scalar does not depend on any byte beside its own.
pub proof fn law_read_only_scalar_reads_its_bytes_only(
    left: Machine,
    right: Machine,
    kind: ReadOnlyScalarKind,
    address: int,
)
    requires
        kind.supported(),
        left.width == kind.width(),
        right.width == kind.width(),
        left.sources.len() == 1,
        left.sources[0] == Datum::Address(address),
        right.sources.len() == 1,
        right.sources[0] == Datum::Address(address),
        forall|at: int|
            address <= at < address + kind.width() / 8 ==> #[trigger] (left.memory)(at) == (
            right.memory)(at),
    ensures
        replacement(left, scalar_rewrite(kind)) == replacement(right, scalar_rewrite(kind)),
{
    law_read_only_scalar_keeps_bits(left, kind, address);
    law_read_only_scalar_keeps_bits(right, kind, address);
    let bytes = kind.width() / 8;
    assert(bits_at(left.memory, address, bytes) =~= bits_at(right.memory, address, bytes)) by {
        assert forall|i: int| 0 <= i < 8 * bytes implies bits_at(left.memory, address, bytes)[i]
            == bits_at(right.memory, address, bytes)[i] by {
            assert(address <= address + i / 8 < address + bytes);
            assert((left.memory)(address + i / 8) == (right.memory)(address + i / 8));
        }
    }
}

/// A read-only load of a scalar results in what an ordinary load of it results in.
pub proof fn law_read_only_scalar_agrees_with_load(
    machine: Machine,
    kind: ReadOnlyScalarKind,
    address: int,
    volatile: bool,
    abi_align: Option<u64>,
    proved_align: Option<u64>,
)
    requires
        kind.supported(),
        machine.width == kind.width(),
        machine.sources.len() == 1,
        machine.sources[0] == Datum::Address(address),
    ensures
        replacement(machine, scalar_rewrite(kind)) == replacement(
            machine,
            load_rewrite(volatile, abi_align, proved_align),
        ),
{
    law_read_only_scalar_keeps_bits(machine, kind, address);
    let steps = load_rewrite(volatile, abi_align, proved_align).steps;
    assert(steps.take(1) =~= steps);
    lemma_run_next(machine, steps, 0);
}

/// A store writes its second operand to its first, writes nothing else, and has no
/// result.
pub proof fn law_store_writes_its_value(
    machine: Machine,
    volatile: bool,
    abi_align: Option<u64>,
    proved_align: Option<u64>,
)
    requires
        machine.sources.len() == 2,
    ensures
        ({
            let rewrite = store_rewrite(volatile, abi_align, proved_align);
            &&& replacement(machine, rewrite) is None
            &&& run(machine, rewrite.steps).stored == Map::<Datum, Datum>::empty().insert(
                machine.sources[0],
                machine.sources[1],
            )
        }),
{
    let steps = store_rewrite(volatile, abi_align, proved_align).steps;
    assert(steps.take(1) =~= steps);
    lemma_run_next(machine, steps, 0);
}

/// A reference is the address of a stack slot that holds the referent, and the slot is
/// aligned as the store into it claims.
pub proof fn law_reference_points_at_its_referent(machine: Machine, abi_align: Option<u64>)
    requires
        machine.sources.len() == 1,
    ensures
        ({
            let rewrite = ref_rewrite(abi_align);
            &&& replacement(machine, rewrite) matches Some(Datum::Slot(slot))
            &&& run(machine, rewrite.steps).stored == Map::<Datum, Datum>::empty().insert(
                Datum::Slot(slot),
                machine.sources[0],
            )
            &&& rewrite.steps[slot].op is Alloca
            &&& forall|i: int|
                0 <= i < rewrite.steps.len() && (#[trigger] rewrite.steps[i]).op is Store
                    ==> rewrite.steps[i].align == rewrite.steps[slot].align
        }),
{
    let steps = ref_rewrite(abi_align).steps;
    assert(steps.take(3) =~= steps);
    lemma_run_next(machine, steps, 0);
    lemma_run_next(machine, steps, 1);
    lemma_run_next(machine, steps, 2);
}

/// A stack slot is made empty: its address is the result and nothing is stored into it.
pub proof fn law_alloca_leaves_its_slot_empty(machine: Machine, abi_align: Option<u64>)
    ensures
        replacement(machine, alloca_rewrite(abi_align)) matches Some(Datum::Slot(slot))
            && alloca_rewrite(abi_align).steps[slot].op is Alloca,
        run(machine, alloca_rewrite(abi_align).steps).stored == Map::<Datum, Datum>::empty(),
{
    let steps = alloca_rewrite(abi_align).steps;
    assert(steps.take(2) =~= steps);
    lemma_run_next(machine, steps, 0);
    lemma_run_next(machine, steps, 1);
}

/// The slot of a local or of a reference holds exactly one value.
pub proof fn law_slots_hold_one_value(machine: Machine, abi_align: Option<u64>)
    ensures
        run(machine, alloca_rewrite(abi_align).steps).results[0].signed() == 1,
        run(machine, ref_rewrite(abi_align).steps).results[0].signed() == 1,
{
    let alloca = alloca_rewrite(abi_align).steps;
    let reference = ref_rewrite(abi_align).steps;
    assert(alloca.take(2) =~= alloca);
    lemma_run_next(machine, alloca, 0);
    lemma_run_next(machine, alloca, 1);
    assert(reference.take(3) =~= reference);
    lemma_run_next(machine, reference, 0);
    lemma_run_next(machine, reference, 1);
    lemma_run_next(machine, reference, 2);
    lemma2_to64();
    lemma_number_of_digits(1, 32);
    assert(digits(1, 32).len() == 32 && !digits(1, 32).last()) by {
        lemma_digits_len(1, 32);
        lemma_last_digit(1, 32);
    }
}

/// A pointer offset is scaled by the distance between two elements of the type that the
/// result points to, in either direction.
pub proof fn law_pointer_offset_is_scaled(machine: Machine, address: int, inbounds: bool)
    requires
        machine.sources.len() == 2,
        machine.sources[0] == Datum::Address(address),
    ensures
        replacement(machine, ptr_offset_rewrite(inbounds)) == Some(
            Datum::Address(address + machine.sources[1].signed() * (machine.stride)(OpType::Lowered)),
        ),
{
    let steps = ptr_offset_rewrite(inbounds).steps;
    assert(steps.take(1) =~= steps);
    lemma_run_next(machine, steps, 0);
}

} // verus!
