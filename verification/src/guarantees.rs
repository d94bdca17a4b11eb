//! What a program may rely on of the lowering, call by call.
//!
//! Each law speaks of a call of one lowering function: of what it is given, of what it
//! returns, and of what the returned operations do when they run.

use pliron::operation::Operation;
use vstd::arithmetic::power2::lemma2_to64;
use vstd::prelude::*;
use crate::access::access_align;
use crate::access::access_alignment;
use crate::access::attached_align;
use crate::access::convert_alloca;
use crate::access::convert_load;
use crate::access::convert_ptr_offset;
use crate::access::convert_read_only_i32x2;
use crate::access::convert_read_only_i32x4;
use crate::access::convert_read_only_scalar;
use crate::access::convert_ref;
use crate::access::convert_store;
use crate::access::i32x2_results;
use crate::access::i32x2_rewrite;
use crate::access::i32x2_steps;
use crate::access::i32x4_results;
use crate::access::i32x4_rewrite;
use crate::access::i32x4_steps;
use crate::access::lanes_rewrite;
use crate::access::lower_ptr_offset;
use crate::access::lower_store;
use crate::access::placed_lanes;
use crate::access::scalar_rewrite;
use crate::access::AccessError;
use crate::access::AllocaFacts;
use crate::access::LoadFacts;
use crate::access::PtrOffsetFacts;
use crate::access::StoreFacts;
use crate::bits::digits;
use crate::bits::lemma_digits_len;
use crate::bits::lemma_last_digit;
use crate::bits::lemma_number_of_digits;
use crate::meaning::bits_at;
use crate::meaning::holds_lanes;
use crate::meaning::holds_last_lanes;
use crate::meaning::lanes_at;
use crate::meaning::law_read_only_i32x2_is_complete;
use crate::meaning::law_read_only_i32x4_is_complete;
use crate::meaning::law_read_only_scalar_keeps_bits;
use crate::meaning::lemma_i32x2_values;
use crate::meaning::lemma_i32x4_values;
use crate::meaning::lemma_placed_lanes;
use crate::meaning::lemma_run_next;
use crate::meaning::replacement;
use crate::meaning::trace;
use crate::meaning::Datum;
use crate::meaning::Effect;
use crate::meaning::Machine;
use crate::operands::operation_operands;
use crate::rewrite::Finish;
use crate::rewrite::LlvmOp;
use crate::rewrite::OpType;
use crate::rewrite::Rewrite;
use crate::rewrite::RewriteModel;
use crate::rewrite::Step;
use crate::types::bit_offset;
use crate::types::element_type;
use crate::types::holds_words;
use crate::types::i32_lanes;
use crate::types::is_scalar_path;
use crate::types::law_i32_lanes_are_the_scalars_in_order;
use crate::types::law_lanes_lie_side_by_side;
use crate::types::paths_view;
use crate::types::scalar_kind;
use crate::types::type_bits;
use crate::types::LlvmType;
use crate::types::ReadOnlyScalarKind;

verus! {

/// Whether one of the answers is `claim`, and no answer is below it.
pub open spec fn weakest_answer(claim: u64, abi: Option<u64>, proved: Option<u64>) -> bool {
    &&& abi == Some(claim) || proved == Some(claim)
    &&& abi matches Some(abi) ==> claim <= abi
    &&& proved matches Some(proved) ==> claim <= proved
}

/// Whether an operation claims the alignment that the answers justify, in the 32 bits that
/// it can hold: the weakest answer where there is one, and none where there is not.
pub open spec fn justified(align: Option<u32>, abi: Option<u64>, proved: Option<u64>) -> bool {
    match align {
        Some(align) => exists|claim: u64| #[trigger]
            weakest_answer(claim, abi, proved) && align as int == claim as int % 0x1_0000_0000,
        None => abi is None && proved is None,
    }
}

proof fn lemma_justified(abi: Option<u64>, proved: Option<u64>)
    ensures
        justified(attached_align(access_align(abi, proved)), abi, proved),
        proved is None ==> justified(attached_align(abi), abi, proved),
{
    if let Some(claim) = access_align(abi, proved) {
        assert(weakest_answer(claim, abi, proved));
    }
}

/// An access is given the weakest answer, and none where there is no answer.
pub proof fn law_access_alignment_is_the_weakest_answer(
    abi: Option<u64>,
    proved: Option<u64>,
    align: Option<u64>,
)
    requires
        call_ensures(access_alignment, (abi, proved), align),
    ensures
        align matches Some(claim) ==> weakest_answer(claim, abi, proved),
        align is None <==> abi is None && proved is None,
{
}

/// Whether nothing is attached to a step of a rewrite.
pub open spec fn nothing_attached(rewrite: RewriteModel, at: int) -> bool {
    let step = rewrite.steps[at];
    !step.volatile && step.align is None && !step.location && !step.local_facts
}

/// Whether a rewrite performs the store of source 1 to source 0, and only that.
pub open spec fn performs_store(
    machine: Machine,
    rewrite: RewriteModel,
    volatile: bool,
    abi: Option<u64>,
    proved: Option<u64>,
) -> bool {
    let effects = trace(machine, rewrite.steps);
    &&& rewrite.steps.len() == 1
    &&& effects.len() == 1
    &&& effects[0] matches Effect::Write { at, value, volatile: kept, align }
    &&& at == machine.sources[0]
    &&& value == machine.sources[1]
    &&& kept == volatile
    &&& justified(align, abi, proved)
    &&& replacement(machine, rewrite) is None
    &&& rewrite.steps[0].location
    &&& !rewrite.steps[0].local_facts
}

/// A lowered store writes once: the value of its second operand to the address of its
/// first. The write is volatile where the store was, and claims no more alignment than is
/// known. A store is lowered exactly where it has two operands and its type may be written
/// whole.
pub proof fn law_store_is_one_write<E>(
    operands: usize,
    facts: StoreFacts<E>,
    result: Result<Rewrite, AccessError<E>>,
    machine: Machine,
)
    requires
        call_ensures(lower_store::<E>, (operands, facts), result),
    ensures
        result is Ok <==> operands == 2 && facts.whole_value is Ok,
        operands != 2 ==> result is Err && result->Err_0 is StoreOperands,
        operands == 2 ==> (facts.whole_value matches Err(error) ==> result is Err && result->Err_0
            == AccessError::Rejected(error)),
        result matches Ok(rewrite) ==> performs_store(
            machine,
            rewrite@,
            facts.volatile,
            facts.abi_align,
            facts.proved_align,
        ),
{
    if let Ok(rewrite) = result {
        let steps = rewrite@.steps;
        assert(steps.take(1) =~= steps);
        lemma_run_next(machine, steps, 0);
        lemma_justified(facts.abi_align, facts.proved_align);
    }
}

/// A store is lowered by the number of operands that its operation holds.
pub proof fn law_converted_store_is_one_write<E>(
    op: &Operation,
    facts: StoreFacts<E>,
    result: Result<Rewrite, AccessError<E>>,
    machine: Machine,
)
    requires
        call_ensures(convert_store::<E>, (op, facts), result),
    ensures
        result is Ok <==> operation_operands(*op).len() == 2 && facts.whole_value is Ok,
        operation_operands(*op).len() != 2 ==> result is Err && result->Err_0 is StoreOperands,
        operation_operands(*op).len() == 2 ==> (facts.whole_value matches Err(error)
            ==> result is Err && result->Err_0 == AccessError::Rejected(error)),
        result matches Ok(rewrite) ==> performs_store(
            machine,
            rewrite@,
            facts.volatile,
            facts.abi_align,
            facts.proved_align,
        ),
{
    if let Ok(rewrite) = result {
        let steps = rewrite@.steps;
        assert(steps.take(1) =~= steps);
        lemma_run_next(machine, steps, 0);
        lemma_justified(facts.abi_align, facts.proved_align);
    }
}

/// A load whose type may not be read whole, or cannot be lowered, is refused with the error
/// of the analysis that says so, the former first.
pub proof fn law_load_reports_the_first_rejection<E>(
    facts: LoadFacts<E>,
    result: Result<Rewrite, AccessError<E>>,
)
    requires
        call_ensures(convert_load::<E>, (facts,), result),
    ensures
        facts.whole_value matches Err(error) ==> result is Err && result->Err_0
            == AccessError::Rejected(error),
        facts.whole_value is Ok ==> (facts.lowered matches Err(error) ==> result is Err
            && result->Err_0 == AccessError::Rejected(error)),
        facts.whole_value is Ok && facts.lowered is Ok ==> (result matches Err(error)
            ==> facts.read_only && error is ReadOnlyType),
{
}

/// An ordinary load reads once: as many bits as the lowered type has, from the address that
/// it is given, and those bits are its result. The read is volatile where the load was, and
/// claims no more alignment than is known. A load of any type is lowered.
pub proof fn law_ordinary_load_is_one_read<E>(
    facts: LoadFacts<E>,
    result: Result<Rewrite, AccessError<E>>,
    machine: Machine,
    address: int,
)
    requires
        call_ensures(convert_load::<E>, (facts,), result),
        !facts.read_only,
    ensures
        result is Ok <==> facts.whole_value is Ok && facts.lowered is Ok,
        result matches Ok(rewrite) ==> {
            let effects = trace(machine, rewrite@.steps);
            &&& rewrite@.steps.len() == 1
            &&& effects.len() == 1
            &&& effects[0] matches Effect::Read { at, bits, volatile, align }
            &&& at == machine.sources[0]
            &&& bits == machine.width
            &&& volatile == facts.volatile
            &&& justified(align, facts.abi_align, facts.proved_align)
            &&& !rewrite@.steps[0].location
            &&& !rewrite@.steps[0].local_facts
            &&& rewrite.finish is ReplaceWithStep
            &&& machine.sources[0] == Datum::Address(address) ==> replacement(machine, rewrite@)
                == Some(Datum::Bits(bits_at(machine.memory, address, machine.width / 8)))
        },
{
    if let Ok(rewrite) = result {
        let steps = rewrite@.steps;
        assert(steps.take(1) =~= steps);
        lemma_run_next(machine, steps, 0);
        lemma_justified(facts.abi_align, facts.proved_align);
    }
}

/// Whether the first of `count` steps takes over the source location, and nothing else is
/// attached to any of them.
pub open spec fn only_located(rewrite: RewriteModel, count: nat) -> bool {
    &&& rewrite.steps.len() == count
    &&& count > 0
    &&& rewrite.steps[0].location
    &&& forall|i: int|
        0 <= i < count ==> {
            let step = #[trigger] rewrite.steps[i];
            &&& !step.volatile
            &&& step.align is None
            &&& !step.local_facts
            &&& step.location ==> i == 0
        }
}

/// Whether a rewrite reads `bits` bits from the address that it is given, and does nothing
/// else to memory.
pub open spec fn reads_once(machine: Machine, rewrite: RewriteModel, bits: nat) -> bool {
    trace(machine, rewrite.steps) == seq![
        Effect::Read { at: machine.sources[0], bits, volatile: false, align: None },
    ]
}

proof fn lemma_scalar_reads_once(machine: Machine, kind: ReadOnlyScalarKind)
    requires
        kind.supported(),
    ensures
        reads_once(machine, scalar_rewrite(kind), kind.width()),
        only_located(
            scalar_rewrite(kind),
            if kind.width() < 32 {
                2
            } else {
                1
            },
        ),
{
    let steps = scalar_rewrite(kind).steps;
    assert(steps.take(steps.len() as int) =~= steps);
    lemma_run_next(machine, steps, 0);
    if kind.width() < 32 {
        lemma_run_next(machine, steps, 1);
    }
}

/// A read-only load of a scalar reads once, exactly the bits of the scalar, and those bits
/// are its result. One operation does that, and a second one only where the scalar is
/// narrower than a register.
pub proof fn law_read_only_scalar_is_one_read(
    kind: ReadOnlyScalarKind,
    rewrite: Rewrite,
    machine: Machine,
    address: int,
)
    requires
        call_ensures(convert_read_only_scalar, (kind,), rewrite),
        kind.supported(),
        machine.width == kind.width(),
        machine.sources.len() == 1,
        machine.sources[0] == Datum::Address(address),
    ensures
        reads_once(machine, rewrite@, kind.width()),
        replacement(machine, rewrite@) == Some(
            Datum::Bits(bits_at(machine.memory, address, kind.width() / 8)),
        ),
        only_located(
            rewrite@,
            if kind.width() < 32 {
                2
            } else {
                1
            },
        ),
{
    lemma_scalar_reads_once(machine, kind);
    law_read_only_scalar_keeps_bits(machine, kind, address);
}

/// The type of the operation whose results take the place of a read-only scalar is the
/// lowered type itself, not another one of the same width.
pub proof fn law_read_only_scalar_keeps_its_type(kind: ReadOnlyScalarKind, rewrite: Rewrite)
    requires
        call_ensures(convert_read_only_scalar, (kind,), rewrite),
        kind.supported(),
    ensures
        rewrite.finish matches Finish::ReplaceWithStep(last) && {
            &&& last == rewrite@.steps.len() - 1
            &&& match rewrite@.steps[last as int].op {
                LlvmOp::InlineAsm { instruction, ptr, ty } => ty == OpType::Lowered,
                LlvmOp::Trunc { value, ty } => ty == OpType::Lowered,
                _ => false,
            }
        },
{
}

proof fn lemma_lanes_located(
    steps: Seq<Step<Seq<u32>, Seq<bool>>>,
    lanes: Seq<usize>,
    paths: Seq<Seq<u32>>,
)
    requires
        only_located(
            RewriteModel { steps, finish: Finish::Erase },
            steps.len(),
        ),
    ensures
        only_located(
            lanes_rewrite(steps, lanes, paths),
            steps.len() + 1 + placed_lanes(lanes, paths),
        ),
{
    let before = RewriteModel { steps, finish: Finish::Erase };
    let rewrite = lanes_rewrite(steps, lanes, paths);
    assert forall|i: int| 0 <= i < rewrite.steps.len() implies {
        let step = #[trigger] rewrite.steps[i];
        &&& !step.volatile
        &&& step.align is None
        &&& !step.local_facts
        &&& step.location ==> i == 0
    } by {
        if i < steps.len() {
            assert(rewrite.steps[i] == before.steps[i]);
        }
    }
    assert(rewrite.steps[0] == before.steps[0]);
}

/// Whatever paths it is given, a read-only load of four lanes reads once, the 16 bytes of
/// the lanes, and puts each lane that has a path there, the later of two at one path.
pub proof fn law_read_only_i32x4_is_one_read(
    lane_paths: &[Vec<u32>],
    rewrite: Rewrite,
    machine: Machine,
    address: int,
)
    requires
        call_ensures(convert_read_only_i32x4, (lane_paths,), rewrite),
        machine.sources.len() == 1,
        machine.sources[0] == Datum::Address(address),
    ensures
        reads_once(machine, rewrite@, 128),
        ({
            let placed = if lane_paths@.len() < 4 {
                lane_paths@.len()
            } else {
                4
            };
            &&& only_located(rewrite@, 11 + placed)
            &&& replacement(machine, rewrite@) matches Some(Datum::Aggregate(elements))
            &&& holds_last_lanes(
                elements,
                Seq::new(placed, |lane: int| lane_paths@[lane]@),
                lanes_at(machine.memory, address, 4),
            )
        }),
{
    let paths = paths_view(lane_paths@);
    let placed = placed_lanes(i32x4_results(), paths);
    lemma_i32x4_values(machine, address);
    lemma_placed_lanes(
        machine,
        i32x4_steps(),
        i32x4_results(),
        paths,
        lanes_at(machine.memory, address, 4),
    );
    lemma_lanes_located(i32x4_steps(), i32x4_results(), paths);
    assert(paths.take(placed as int) =~= Seq::new(placed, |lane: int| lane_paths@[lane]@));
}

/// Whatever paths it is given, a read-only load of two lanes reads once, the 8 bytes of
/// the lanes, and puts each lane that has a path there, the later of two at one path.
pub proof fn law_read_only_i32x2_is_one_read(
    lane_paths: &[Vec<u32>],
    rewrite: Rewrite,
    machine: Machine,
    address: int,
)
    requires
        call_ensures(convert_read_only_i32x2, (lane_paths,), rewrite),
        machine.sources.len() == 1,
        machine.sources[0] == Datum::Address(address),
    ensures
        reads_once(machine, rewrite@, 64),
        ({
            let placed = if lane_paths@.len() < 2 {
                lane_paths@.len()
            } else {
                2
            };
            &&& only_located(rewrite@, 6 + placed)
            &&& replacement(machine, rewrite@) matches Some(Datum::Aggregate(elements))
            &&& holds_last_lanes(
                elements,
                Seq::new(placed, |lane: int| lane_paths@[lane]@),
                lanes_at(machine.memory, address, 2),
            )
        }),
{
    let paths = paths_view(lane_paths@);
    let placed = placed_lanes(i32x2_results(), paths);
    lemma_i32x2_values(machine, address);
    lemma_placed_lanes(
        machine,
        i32x2_steps(),
        i32x2_results(),
        paths,
        lanes_at(machine.memory, address, 2),
    );
    lemma_lanes_located(i32x2_steps(), i32x2_results(), paths);
    assert(paths.take(placed as int) =~= Seq::new(placed, |lane: int| lane_paths@[lane]@));
}

/// Whether a value is what memory holds of a type at an address: the bits of a scalar, or
/// an aggregate of exactly the type's scalars, each with the bits at its place.
pub open spec fn holds_value(
    value: Datum,
    ty: LlvmType,
    memory: spec_fn(int) -> u8,
    address: int,
) -> bool {
    match ty {
        LlvmType::Array { .. } | LlvmType::Struct { .. } => {
            &&& value matches Datum::Aggregate(elements)
            &&& forall|path: Seq<u32>|
                #[trigger] elements.contains_key(path) <==> is_scalar_path(ty, path)
            &&& forall|path: Seq<u32>| #[trigger]
                elements.contains_key(path) ==> elements[path] == bits_at(
                    memory,
                    address + bit_offset(ty, path) / 8,
                    type_bits(element_type(ty, path)->0) / 8,
                )
        },
        _ => value == Datum::Bits(bits_at(memory, address, type_bits(ty) / 8)),
    }
}

/// A read-only load is lowered exactly where its type is a scalar that an instruction moves,
/// four words, or two words that lie at an 8-byte alignment. It then reads once, exactly the
/// bits of its type, and results in what memory holds of the type, whatever else is known of
/// the load.
pub proof fn law_read_only_load_is_one_read_of_its_value<E>(
    facts: LoadFacts<E>,
    ty: LlvmType,
    result: Result<Rewrite, AccessError<E>>,
    machine: Machine,
    address: int,
)
    requires
        call_ensures(convert_load::<E>, (facts,), result),
        facts.read_only,
        facts.whole_value is Ok,
        facts.lowered is Ok,
        facts.lowered->Ok_0 == ty,
        machine.width == type_bits(ty),
        machine.sources.len() == 1,
        machine.sources[0] == Datum::Address(address),
    ensures
        result is Ok <==> {
            ||| ty matches LlvmType::Integer(width) && (width == 8 || width == 16 || width == 32
                || width == 64)
            ||| ty matches LlvmType::Float(bits) && (bits == 32 || bits == 64)
            ||| holds_words(ty, 4)
            ||| holds_words(ty, 2) && (facts.abi_align matches Some(align) && align >= 8)
        },
        result is Err ==> result->Err_0 is ReadOnlyType,
        result matches Ok(rewrite) ==> {
            &&& reads_once(machine, rewrite@, type_bits(ty))
            &&& only_located(
                rewrite@,
                if ty is Integer || ty is Float {
                    if type_bits(ty) < 32 {
                        2
                    } else {
                        1
                    }
                } else if type_bits(ty) == 128 {
                    15
                } else {
                    8
                },
            )
            &&& rewrite.finish is ReplaceWithStep <==> ty is Integer || ty is Float
            &&& replacement(machine, rewrite@) matches Some(value)
            &&& holds_value(value, ty, machine.memory, address)
        },
{
    law_lanes_lie_side_by_side(ty, 4);
    law_lanes_lie_side_by_side(ty, 2);
    if let Ok(rewrite) = result {
        if let Some(kind) = scalar_kind(ty) {
            lemma_scalar_reads_once(machine, kind);
            law_read_only_scalar_keeps_bits(machine, kind, address);
        } else if let Some(paths) = i32_lanes(ty, 4) {
            lemma_i32x4_values(machine, address);
            law_i32_lanes_are_the_scalars_in_order(ty, 4);
            lemma_placed_lanes(
                machine,
                i32x4_steps(),
                i32x4_results(),
                paths,
                lanes_at(machine.memory, address, 4),
            );
            lemma_lanes_located(i32x4_steps(), i32x4_results(), paths);
            law_read_only_i32x4_is_complete(machine, ty, facts.abi_align, address);
            lemma_lanes_hold_value(machine, ty, 4, i32x4_rewrite(paths), address);
        } else if let Some(paths) = i32_lanes(ty, 2) {
            lemma_i32x2_values(machine, address);
            law_i32_lanes_are_the_scalars_in_order(ty, 2);
            lemma_placed_lanes(
                machine,
                i32x2_steps(),
                i32x2_results(),
                paths,
                lanes_at(machine.memory, address, 2),
            );
            lemma_lanes_located(i32x2_steps(), i32x2_results(), paths);
            law_read_only_i32x2_is_complete(machine, ty, facts.abi_align, address);
            lemma_lanes_hold_value(machine, ty, 2, i32x2_rewrite(paths), address);
        }
    }
}

proof fn lemma_lanes_hold_value(
    machine: Machine,
    ty: LlvmType,
    count: nat,
    rewrite: RewriteModel,
    address: int,
)
    requires
        0 < count < 100,
        i32_lanes(ty, count) is Some,
        replacement(machine, rewrite) matches Some(Datum::Aggregate(elements)) && {
            &&& forall|path: Seq<u32>|
                #[trigger] elements.contains_key(path) <==> is_scalar_path(ty, path)
            &&& holds_lanes(
                elements,
                i32_lanes(ty, count)->0,
                lanes_at(machine.memory, address, count),
            )
        },
    ensures
        replacement(machine, rewrite) matches Some(value) && holds_value(
            value,
            ty,
            machine.memory,
            address,
        ),
{
    let paths = i32_lanes(ty, count)->0;
    let elements = replacement(machine, rewrite)->0->Aggregate_0;
    law_lanes_lie_side_by_side(ty, count);
    law_i32_lanes_are_the_scalars_in_order(ty, count);
    assert forall|path: Seq<u32>| #[trigger]
        elements.contains_key(path) implies elements[path] == bits_at(
        machine.memory,
        address + bit_offset(ty, path) / 8,
        type_bits(element_type(ty, path)->0) / 8,
    ) by {
        assert(is_scalar_path(ty, path));
        let lane = choose|lane: int| 0 <= lane < paths.len() && paths[lane] == path;
        assert(paths[lane] == path);
        assert(type_bits(LlvmType::Integer(32)) == 32);
    }
}

/// Whether an effect reserves a slot for one value of a type of `width` bits, whose address is
/// the result, at the alignment that the type records.
pub open spec fn reserves(effect: Effect, slot: Datum, width: nat, abi_align: Option<u64>) -> bool {
    effect matches Effect::Reserve { slot: reserved, size, align } && {
        &&& reserved == slot
        &&& size == width
        &&& justified(align, abi_align, None)
    }
}

proof fn lemma_one()
    ensures
        digits(1, 32).len() == 32,
        Datum::Bits(digits(1, 32)).signed() == 1,
{
    lemma2_to64();
    lemma_number_of_digits(1, 32);
    lemma_digits_len(1, 32);
    lemma_last_digit(1, 32);
}

/// A lowered stack slot is as large as one value of the type that its address points to, no
/// larger and no smaller, whether or not the type records an alignment. Its address is the
/// result, it takes over what is known of the local, and memory is not touched.
pub proof fn law_alloca_reserves_one_value<E>(
    facts: AllocaFacts<E>,
    result: Result<Rewrite, AccessError<E>>,
    machine: Machine,
)
    requires
        call_ensures(convert_alloca::<E>, (facts,), result),
    ensures
        result is Ok <==> facts.pointee is Some && facts.pointee->0 is Ok,
        facts.pointee is None ==> result is Err && result->Err_0 is AllocaResult,
        facts.pointee matches Some(Err(error)) ==> result is Err && result->Err_0
            == AccessError::Rejected(error),
        result matches Ok(rewrite) ==> {
            let effects = trace(machine, rewrite@.steps);
            &&& effects.len() == 1
            &&& replacement(machine, rewrite@) matches Some(slot)
            &&& reserves(effects[0], slot, machine.width, facts.abi_align)
            &&& rewrite@.steps.len() == 2
            &&& rewrite@.steps[0].op matches LlvmOp::Constant { number }
            &&& number.len() == 32
            &&& rewrite.finish is ReplaceWithStep
            &&& nothing_attached(rewrite@, 0)
            &&& rewrite@.steps[1].local_facts
            &&& !rewrite@.steps[1].volatile
            &&& !rewrite@.steps[1].location
        },
{
    if let Ok(rewrite) = result {
        let steps = rewrite@.steps;
        assert(steps.take(2) =~= steps);
        lemma_run_next(machine, steps, 0);
        lemma_run_next(machine, steps, 1);
        lemma_one();
        lemma_justified(facts.abi_align, None);
        assert(1 * machine.width == machine.width);
    }
}

/// A lowered reference reserves a slot as large as its referent, writes the referent there
/// once, and is the address of the slot. Slot and write claim the alignment that the
/// referent's type records.
pub proof fn law_reference_stores_its_referent_once(
    abi_align: Option<u64>,
    rewrite: Rewrite,
    machine: Machine,
)
    requires
        call_ensures(convert_ref, (abi_align,), rewrite),
    ensures
        ({
            let effects = trace(machine, rewrite@.steps);
            &&& effects.len() == 2
            &&& replacement(machine, rewrite@) matches Some(slot)
            &&& slot is Slot
            &&& reserves(effects[0], slot, machine.source_widths[0], abi_align)
            &&& effects[1] matches Effect::Write { at, value, volatile, align }
            &&& at == slot
            &&& value == machine.sources[0]
            &&& !volatile
            &&& justified(align, abi_align, None)
            &&& rewrite@.steps.len() == 3
            &&& rewrite@.steps[0].op matches LlvmOp::Constant { number }
            &&& number.len() == 32
            &&& nothing_attached(rewrite@, 0)
            &&& forall|i: int|
                0 <= i < 3 ==> {
                    let step = #[trigger] rewrite@.steps[i];
                    !step.volatile && !step.location && !step.local_facts
                }
        }),
{
    let steps = rewrite@.steps;
    assert(steps.take(3) =~= steps);
    lemma_run_next(machine, steps, 0);
    lemma_run_next(machine, steps, 1);
    lemma_run_next(machine, steps, 2);
    lemma_one();
    lemma_justified(abi_align, None);
    assert(1 * machine.source_widths[0] == machine.source_widths[0]);
}

/// Whether a rewrite computes the address an index behind an address, counted in elements
/// of the lowered type, and does nothing else.
pub open spec fn computes_offset(
    machine: Machine,
    rewrite: RewriteModel,
    address: int,
    inbounds: bool,
) -> bool {
    &&& rewrite.steps.len() == 1
    &&& rewrite.finish is ReplaceWithStep
    &&& trace(machine, rewrite.steps) == Seq::<Effect>::empty()
    &&& nothing_attached(rewrite, 0)
    &&& rewrite.steps[0].op matches LlvmOp::GetElementPtr { ptr, index, elem, inbounds: kept }
    &&& kept == inbounds
    &&& machine.sources[0] == Datum::Address(address) ==> replacement(machine, rewrite) == Some(
        Datum::Address(
            address + machine.sources[1].signed() * (machine.stride)(OpType::Lowered),
        ),
    )
}

/// A lowered pointer offset moves the address by as many elements of the type that the
/// result points to as its index says, touches no memory, and stays within its object where
/// the offset did. It is lowered exactly where it has two operands and its result is a
/// pointer to a type that can be lowered.
pub proof fn law_pointer_offset_moves_by_elements<E>(
    operands: usize,
    facts: PtrOffsetFacts<E>,
    result: Result<Rewrite, AccessError<E>>,
    machine: Machine,
    address: int,
)
    requires
        call_ensures(lower_ptr_offset::<E>, (operands, facts), result),
    ensures
        result is Ok <==> operands == 2 && facts.pointee is Some && facts.pointee->0 is Ok,
        operands != 2 ==> result is Err && result->Err_0 is PtrOffsetOperands,
        operands == 2 && facts.pointee is None ==> result is Err && result->Err_0
            is PtrOffsetResult,
        operands == 2 ==> (facts.pointee matches Some(Err(error)) ==> result is Err
            && result->Err_0 == AccessError::Rejected(error)),
        result matches Ok(rewrite) ==> computes_offset(machine, rewrite@, address, facts.inbounds),
{
    if let Ok(rewrite) = result {
        let steps = rewrite@.steps;
        assert(steps.take(1) =~= steps);
        lemma_run_next(machine, steps, 0);
    }
}

/// A pointer offset is lowered by the number of operands that its operation holds.
pub proof fn law_converted_pointer_offset_moves_by_elements<E>(
    op: &Operation,
    facts: PtrOffsetFacts<E>,
    result: Result<Rewrite, AccessError<E>>,
    machine: Machine,
    address: int,
)
    requires
        call_ensures(convert_ptr_offset::<E>, (op, facts), result),
    ensures
        result is Ok <==> operation_operands(*op).len() == 2 && facts.pointee is Some
            && facts.pointee->0 is Ok,
        operation_operands(*op).len() != 2 ==> result is Err && result->Err_0 is PtrOffsetOperands,
        operation_operands(*op).len() == 2 && facts.pointee is None ==> result is Err
            && result->Err_0 is PtrOffsetResult,
        operation_operands(*op).len() == 2 ==> (facts.pointee matches Some(Err(error))
            ==> result is Err && result->Err_0 == AccessError::Rejected(error)),
        result matches Ok(rewrite) ==> computes_offset(machine, rewrite@, address, facts.inbounds),
{
    if let Ok(rewrite) = result {
        let steps = rewrite@.steps;
        assert(steps.take(1) =~= steps);
        lemma_run_next(machine, steps, 0);
    }
}

} // verus!
