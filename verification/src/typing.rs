//! The types of the emitted operations, and the law that lowering keeps them.

use vstd::prelude::*;
use crate::access::convert_alloca;
use crate::access::convert_load;
use crate::access::convert_read_only_i32x2;
use crate::access::convert_read_only_i32x4;
use crate::access::convert_read_only_scalar;
use crate::access::convert_ref;
use crate::access::i32x2_results;
use crate::access::i32x2_steps;
use crate::access::i32x4_results;
use crate::access::i32x4_steps;
use crate::access::insert_step;
use crate::access::lanes_rewrite;
use crate::access::lower_ptr_offset;
use crate::access::lower_store;
use crate::access::placed_lanes;
use crate::access::scalar_rewrite;
use crate::access::AccessError;
use crate::access::AllocaFacts;
use crate::access::LoadFacts;
use crate::access::PtrOffsetFacts;
use crate::access::StoreFacts;
use crate::bits::lemma_digits_len;
use crate::rewrite::Finish;
use crate::rewrite::LlvmOp;
use crate::rewrite::OpType;
use crate::rewrite::Operand;
use crate::rewrite::ReadOnlyInstruction;
use crate::rewrite::Rewrite;
use crate::rewrite::RewriteModel;
use crate::rewrite::Step;
use crate::types::element_type;
use crate::types::i32_lanes;
use crate::types::law_i32_lanes_are_the_scalars_in_order;
use crate::types::paths_view;
use crate::types::scalar_kind;
use crate::types::LlvmType;
use crate::types::ReadOnlyScalarKind;

verus! {

/// The type of a value of the lowered program.
pub enum ValueType {
    /// An address.
    Pointer,
    /// A value of a lowered type.
    Of(LlvmType),
    /// An unpacked pair of integers of one width in bits.
    Pair(u32),
    /// No value.
    Nothing,
}

/// What surrounds the emitted operations: the types of the replaced operation's operands,
/// and the lowered type that it moves.
pub struct Setting {
    pub sources: Seq<ValueType>,
    pub lowered: LlvmType,
}

impl Setting {
    /// The type that an operation names.
    pub open spec fn named(self, ty: OpType) -> ValueType {
        match ty {
            OpType::Lowered => ValueType::Of(self.lowered),
            OpType::Source(index) => if index < self.sources.len() {
                self.sources[index as int]
            } else {
                ValueType::Nothing
            },
            OpType::Integer(width) => ValueType::Of(LlvmType::Integer(width)),
            OpType::IntegerPair(width) => ValueType::Pair(width),
        }
    }

    /// The type of an operand, given the types of the results so far.
    pub open spec fn operand(self, results: Seq<ValueType>, operand: Operand) -> ValueType {
        match operand {
            Operand::Source(index) => self.named(OpType::Source(index)),
            Operand::Step(index) => if index < results.len() {
                results[index as int]
            } else {
                ValueType::Nothing
            },
        }
    }

    /// The type of an operation's result, for an operation whose operands have the types
    /// that it asks for.
    pub open spec fn result(
        self,
        results: Seq<ValueType>,
        op: LlvmOp<Seq<u32>, Seq<bool>>,
    ) -> Option<ValueType> {
        match op {
            LlvmOp::Store { value, ptr } => if self.operand(results, ptr) is Pointer && !(
            self.operand(results, value) is Nothing) {
                Some(ValueType::Nothing)
            } else {
                None
            },
            LlvmOp::Load { ptr, ty } => if self.operand(results, ptr) is Pointer {
                Some(self.named(ty))
            } else {
                None
            },
            LlvmOp::InlineAsm { instruction, ptr, ty } => if self.operand(results, ptr) is Pointer
                && self.named(ty) == register_type(instruction) {
                Some(self.named(ty))
            } else {
                None
            },
            LlvmOp::Trunc { value, ty } => match (self.operand(results, value), self.named(ty)) {
                (
                    ValueType::Of(LlvmType::Integer(from)),
                    ValueType::Of(LlvmType::Integer(to)),
                ) => if to < from {
                    Some(self.named(ty))
                } else {
                    None
                },
                _ => None,
            },
            LlvmOp::LShr { value, amount } => match (
                self.operand(results, value),
                self.operand(results, amount),
            ) {
                (
                    ValueType::Of(LlvmType::Integer(left)),
                    ValueType::Of(LlvmType::Integer(right)),
                ) => if left == right {
                    Some(self.operand(results, value))
                } else {
                    None
                },
                _ => None,
            },
            LlvmOp::Constant { number } => Some(
                ValueType::Of(LlvmType::Integer(number.len() as u32)),
            ),
            LlvmOp::ExtractValue { aggregate, path } => match self.operand(results, aggregate) {
                ValueType::Pair(width) => if path.len() == 1 && path[0] < 2 {
                    Some(ValueType::Of(LlvmType::Integer(width)))
                } else {
                    None
                },
                _ => None,
            },
            LlvmOp::InsertValue { aggregate, value, path } => match (
                self.operand(results, aggregate),
                self.operand(results, value),
            ) {
                (ValueType::Of(whole), ValueType::Of(part)) => if element_type(whole, path) == Some(
                    part,
                ) {
                    Some(ValueType::Of(whole))
                } else {
                    None
                },
                _ => None,
            },
            LlvmOp::Undef { ty } => Some(self.named(ty)),
            LlvmOp::Alloca { ty, count } => match self.operand(results, count) {
                ValueType::Of(LlvmType::Integer(_)) => Some(ValueType::Pointer),
                _ => None,
            },
            LlvmOp::GetElementPtr { ptr, index, elem, inbounds } => match (
                self.operand(results, ptr),
                self.operand(results, index),
            ) {
                (ValueType::Pointer, ValueType::Of(LlvmType::Integer(_))) => Some(
                    ValueType::Pointer,
                ),
                _ => None,
            },
        }
    }

    /// The types of the results of all steps, where every operation has operands of the
    /// types that it asks for.
    pub open spec fn results(self, steps: Seq<Step<Seq<u32>, Seq<bool>>>) -> Option<Seq<ValueType>>
        decreases steps.len(),
    {
        if steps.len() == 0 {
            Some(Seq::empty())
        } else {
            match self.results(steps.drop_last()) {
                None => None,
                Some(before) => match self.result(before, steps.last().op) {
                    None => None,
                    Some(ty) => Some(before.push(ty)),
                },
            }
        }
    }

    /// The type of what takes the place of the replaced operation's result, where the
    /// operations fit together.
    pub open spec fn replacement(self, rewrite: RewriteModel) -> Option<ValueType> {
        match self.results(rewrite.steps) {
            None => None,
            Some(results) => Some(
                match rewrite.finish {
                    Finish::Erase => ValueType::Nothing,
                    Finish::ReplaceWithStep(index) => self.operand(results, Operand::Step(index)),
                    Finish::ReplaceWithValue(operand) => self.operand(results, operand),
                },
            ),
        }
    }
}

/// The type of the registers that an instruction fills.
pub open spec fn register_type(instruction: ReadOnlyInstruction) -> ValueType {
    match instruction {
        ReadOnlyInstruction::U8 => ValueType::Of(LlvmType::Integer(32)),
        ReadOnlyInstruction::U16 => ValueType::Of(LlvmType::Integer(32)),
        ReadOnlyInstruction::B32 => ValueType::Of(LlvmType::Integer(32)),
        ReadOnlyInstruction::B64 => ValueType::Of(LlvmType::Integer(64)),
        ReadOnlyInstruction::F32 => ValueType::Of(LlvmType::Float(32)),
        ReadOnlyInstruction::F64 => ValueType::Of(LlvmType::Float(64)),
        ReadOnlyInstruction::V2U64 => ValueType::Pair(64),
    }
}

/// The lowered type of a scalar.
pub open spec fn type_of_kind(kind: ReadOnlyScalarKind) -> LlvmType {
    match kind {
        ReadOnlyScalarKind::Integer(width) => LlvmType::Integer(width),
        ReadOnlyScalarKind::Float(width) => LlvmType::Float(width as usize),
    }
}

proof fn lemma_results_next(setting: Setting, steps: Seq<Step<Seq<u32>, Seq<bool>>>, k: int)
    requires
        0 <= k < steps.len(),
    ensures
        setting.results(steps.take(0)) == Some(Seq::<ValueType>::empty()),
        setting.results(steps.take(k)) matches Some(before) ==> setting.results(steps.take(k + 1))
            == match setting.result(before, steps[k].op) {
            None => None,
            Some(ty) => Some(before.push(ty)),
        },
{
    assert(steps.take(k + 1).drop_last() =~= steps.take(k));
}

proof fn lemma_scalar_typed(setting: Setting, kind: ReadOnlyScalarKind)
    requires
        kind.supported(),
        setting.lowered == type_of_kind(kind),
        setting.sources.len() == 1,
        setting.sources[0] is Pointer,
    ensures
        setting.replacement(scalar_rewrite(kind)) == Some(ValueType::Of(setting.lowered)),
{
    let steps = scalar_rewrite(kind).steps;
    assert(steps.take(steps.len() as int) =~= steps);
    lemma_results_next(setting, steps, 0);
    if kind.width() < 32 {
        lemma_results_next(setting, steps, 1);
    }
}

proof fn lemma_lanes_typed(
    setting: Setting,
    steps: Seq<Step<Seq<u32>, Seq<bool>>>,
    lanes: Seq<usize>,
    paths: Seq<Seq<u32>>,
    placed: nat,
)
    requires
        steps.len() < 100,
        lanes.len() < 100,
        placed <= placed_lanes(lanes, paths),
        setting.results(steps) matches Some(results) && {
            &&& results.len() == steps.len()
            &&& forall|lane: int|
                0 <= lane < lanes.len() ==> #[trigger] lanes[lane] < steps.len()
                    && results[lanes[lane] as int] == ValueType::Of(LlvmType::Integer(32))
        },
        forall|lane: int|
            0 <= lane < placed_lanes(lanes, paths) ==> element_type(
                setting.lowered,
                #[trigger] paths[lane],
            ) == Some(LlvmType::Integer(32)),
    ensures
        ({
            let all = lanes_rewrite(steps, lanes, paths).steps;
            setting.results(all.take((steps.len() + 1 + placed) as int)) matches Some(results) && {
                &&& results.len() == steps.len() + 1 + placed
                &&& results.take(steps.len() as int) == setting.results(steps)->0
                &&& results.last() == ValueType::Of(setting.lowered)
            }
        }),
    decreases placed,
{
    let all = lanes_rewrite(steps, lanes, paths).steps;
    let count = steps.len() as int;
    if placed == 0 {
        assert(all.take(count) =~= steps);
        lemma_results_next(setting, all, count);
        let results = setting.results(all.take(count + 1))->0;
        assert(results.take(count) =~= setting.results(steps)->0);
    } else {
        let lane = placed - 1;
        lemma_lanes_typed(setting, steps, lanes, paths, lane as nat);
        lemma_results_next(setting, all, count + placed);
        let before = setting.results(all.take(count + placed))->0;
        assert(all[count + placed] == insert_step(steps.len(), lanes, paths, lane));
        assert(lanes[lane] < steps.len());
        assert(before.take(count)[lanes[lane] as int] == before[lanes[lane] as int]);
        assert(element_type(setting.lowered, paths[lane]) == Some(LlvmType::Integer(32)));
        let after = setting.results(all.take(count + 1 + placed))->0;
        assert(after.take(count) =~= before.take(count));
    }
}

proof fn lemma_i32x4_typed(setting: Setting, paths: Seq<Seq<u32>>)
    requires
        setting.sources.len() == 1,
        setting.sources[0] is Pointer,
        forall|lane: int|
            0 <= lane < 4 && lane < paths.len() ==> element_type(
                setting.lowered,
                #[trigger] paths[lane],
            ) == Some(LlvmType::Integer(32)),
    ensures
        setting.replacement(lanes_rewrite(i32x4_steps(), i32x4_results(), paths)) == Some(
            ValueType::Of(setting.lowered),
        ),
{
    let steps = i32x4_steps();
    let all = lanes_rewrite(steps, i32x4_results(), paths).steps;
    assert(steps.take(10) =~= steps);
    lemma_digits_len(32, 64);
    lemma_results_next(setting, steps, 0);
    lemma_results_next(setting, steps, 1);
    lemma_results_next(setting, steps, 2);
    lemma_results_next(setting, steps, 3);
    lemma_results_next(setting, steps, 4);
    lemma_results_next(setting, steps, 5);
    lemma_results_next(setting, steps, 6);
    lemma_results_next(setting, steps, 7);
    lemma_results_next(setting, steps, 8);
    lemma_results_next(setting, steps, 9);
    lemma_lanes_typed(
        setting,
        steps,
        i32x4_results(),
        paths,
        placed_lanes(i32x4_results(), paths),
    );
    assert(all.take(all.len() as int) =~= all);
}

proof fn lemma_i32x2_typed(setting: Setting, paths: Seq<Seq<u32>>)
    requires
        setting.sources.len() == 1,
        setting.sources[0] is Pointer,
        forall|lane: int|
            0 <= lane < 2 && lane < paths.len() ==> element_type(
                setting.lowered,
                #[trigger] paths[lane],
            ) == Some(LlvmType::Integer(32)),
    ensures
        setting.replacement(lanes_rewrite(i32x2_steps(), i32x2_results(), paths)) == Some(
            ValueType::Of(setting.lowered),
        ),
{
    let steps = i32x2_steps();
    let all = lanes_rewrite(steps, i32x2_results(), paths).steps;
    assert(steps.take(5) =~= steps);
    lemma_digits_len(32, 64);
    lemma_results_next(setting, steps, 0);
    lemma_results_next(setting, steps, 1);
    lemma_results_next(setting, steps, 2);
    lemma_results_next(setting, steps, 3);
    lemma_results_next(setting, steps, 4);
    lemma_lanes_typed(
        setting,
        steps,
        i32x2_results(),
        paths,
        placed_lanes(i32x2_results(), paths),
    );
    assert(all.take(all.len() as int) =~= all);
}

/// A lowered load, ordinary or read-only, is made of operations that fit together, and what
/// takes its place has the lowered type that was loaded.
pub proof fn law_load_has_the_loaded_type<E>(
    facts: LoadFacts<E>,
    rewrite: Rewrite,
    setting: Setting,
)
    requires
        call_ensures(
            convert_load::<E>,
            (facts,),
            Ok::<Rewrite, AccessError<E>>(rewrite),
        ),
        facts.lowered is Ok,
        setting.lowered == facts.lowered->Ok_0,
        setting.sources.len() == 1,
        setting.sources[0] is Pointer,
    ensures
        setting.replacement(rewrite@) == Some(ValueType::Of(setting.lowered)),
{
    let ty = setting.lowered;
    if !facts.read_only {
        let steps = rewrite@.steps;
        assert(steps.take(1) =~= steps);
        lemma_results_next(setting, steps, 0);
    } else if let Some(kind) = scalar_kind(ty) {
        lemma_scalar_typed(setting, kind);
    } else if let Some(paths) = i32_lanes(ty, 4) {
        law_i32_lanes_are_the_scalars_in_order(ty, 4);
        lemma_i32x4_typed(setting, paths);
    } else if let Some(paths) = i32_lanes(ty, 2) {
        law_i32_lanes_are_the_scalars_in_order(ty, 2);
        lemma_i32x2_typed(setting, paths);
    }
}

/// What takes the place of a read-only scalar has the type of the scalar: an integer stays
/// an integer and a floating-point number stays one, each of its width.
pub proof fn law_read_only_scalar_has_the_type_of_its_kind(
    kind: ReadOnlyScalarKind,
    rewrite: Rewrite,
    setting: Setting,
)
    requires
        call_ensures(convert_read_only_scalar, (kind,), rewrite),
        kind.supported(),
        setting.lowered == type_of_kind(kind),
        setting.sources.len() == 1,
        setting.sources[0] is Pointer,
    ensures
        setting.replacement(rewrite@) == Some(ValueType::Of(type_of_kind(kind))),
{
    lemma_scalar_typed(setting, kind);
}

/// Four lanes are put together to a value of any lowered type that holds a 32-bit integer
/// at each path that a lane is put at.
pub proof fn law_read_only_i32x4_has_the_loaded_type(
    lane_paths: &[Vec<u32>],
    rewrite: Rewrite,
    setting: Setting,
)
    requires
        call_ensures(convert_read_only_i32x4, (lane_paths,), rewrite),
        setting.sources.len() == 1,
        setting.sources[0] is Pointer,
        forall|lane: int|
            0 <= lane < 4 && lane < lane_paths@.len() ==> element_type(
                setting.lowered,
                #[trigger] lane_paths@[lane]@,
            ) == Some(LlvmType::Integer(32)),
    ensures
        setting.replacement(rewrite@) == Some(ValueType::Of(setting.lowered)),
{
    let paths = paths_view(lane_paths@);
    assert forall|lane: int| 0 <= lane < 4 && lane < paths.len() implies element_type(
        setting.lowered,
        #[trigger] paths[lane],
    ) == Some(LlvmType::Integer(32)) by {
        assert(paths[lane] == lane_paths@[lane]@);
    }
    lemma_i32x4_typed(setting, paths);
}

/// Two lanes are put together to a value of any lowered type that holds a 32-bit integer at
/// each path that a lane is put at.
pub proof fn law_read_only_i32x2_has_the_loaded_type(
    lane_paths: &[Vec<u32>],
    rewrite: Rewrite,
    setting: Setting,
)
    requires
        call_ensures(convert_read_only_i32x2, (lane_paths,), rewrite),
        setting.sources.len() == 1,
        setting.sources[0] is Pointer,
        forall|lane: int|
            0 <= lane < 2 && lane < lane_paths@.len() ==> element_type(
                setting.lowered,
                #[trigger] lane_paths@[lane]@,
            ) == Some(LlvmType::Integer(32)),
    ensures
        setting.replacement(rewrite@) == Some(ValueType::Of(setting.lowered)),
{
    let paths = paths_view(lane_paths@);
    assert forall|lane: int| 0 <= lane < 2 && lane < paths.len() implies element_type(
        setting.lowered,
        #[trigger] paths[lane],
    ) == Some(LlvmType::Integer(32)) by {
        assert(paths[lane] == lane_paths@[lane]@);
    }
    lemma_i32x2_typed(setting, paths);
}

/// A lowered store fits its operands, an address and a value, and results in nothing.
pub proof fn law_store_takes_an_address_and_a_value<E>(
    facts: StoreFacts<E>,
    rewrite: Rewrite,
    setting: Setting,
)
    requires
        call_ensures(
            lower_store::<E>,
            (2usize, facts),
            Ok::<Rewrite, AccessError<E>>(rewrite),
        ),
        setting.sources.len() == 2,
        setting.sources[0] is Pointer,
        setting.sources[1] is Of,
    ensures
        setting.replacement(rewrite@) == Some(ValueType::Nothing),
{
    let steps = rewrite@.steps;
    assert(steps.take(1) =~= steps);
    lemma_results_next(setting, steps, 0);
}

/// What takes the place of a stack slot is an address, and the slot's elements have the
/// lowered type, whatever alignment that type records.
pub proof fn law_alloca_has_elements_of_the_lowered_type<E>(
    facts: AllocaFacts<E>,
    rewrite: Rewrite,
    setting: Setting,
)
    requires
        call_ensures(
            convert_alloca::<E>,
            (facts,),
            Ok::<Rewrite, AccessError<E>>(rewrite),
        ),
    ensures
        setting.replacement(rewrite@) == Some(ValueType::Pointer),
        rewrite.finish matches Finish::ReplaceWithStep(slot) && {
            &&& rewrite@.steps[slot as int].op matches LlvmOp::Alloca { ty, count }
            &&& setting.named(ty) == ValueType::Of(setting.lowered)
        },
{
    let steps = rewrite@.steps;
    assert(steps.take(2) =~= steps);
    lemma_results_next(setting, steps, 0);
    lemma_results_next(setting, steps, 1);
}

/// What takes the place of a reference is an address, and the slot's elements have the type
/// of the referent, whatever alignment that type records.
pub proof fn law_reference_has_elements_of_the_referents_type(
    abi_align: Option<u64>,
    rewrite: Rewrite,
    setting: Setting,
)
    requires
        call_ensures(convert_ref, (abi_align,), rewrite),
        setting.sources.len() == 1,
        !(setting.sources[0] is Nothing),
    ensures
        setting.replacement(rewrite@) == Some(ValueType::Pointer),
        rewrite.finish matches Finish::ReplaceWithValue(Operand::Step(slot)) && {
            &&& rewrite@.steps[slot as int].op matches LlvmOp::Alloca { ty, count }
            &&& setting.named(ty) == setting.sources[0]
        },
{
    let steps = rewrite@.steps;
    assert(steps.take(3) =~= steps);
    lemma_results_next(setting, steps, 0);
    lemma_results_next(setting, steps, 1);
    lemma_results_next(setting, steps, 2);
}

/// What takes the place of a pointer offset is an address, and it counts elements of the
/// lowered type.
pub proof fn law_pointer_offset_counts_elements_of_the_lowered_type<E>(
    facts: PtrOffsetFacts<E>,
    rewrite: Rewrite,
    setting: Setting,
    width: u32,
)
    requires
        call_ensures(
            lower_ptr_offset::<E>,
            (2usize, facts),
            Ok::<Rewrite, AccessError<E>>(rewrite),
        ),
        setting.sources.len() == 2,
        setting.sources[0] is Pointer,
        setting.sources[1] == ValueType::Of(LlvmType::Integer(width)),
    ensures
        setting.replacement(rewrite@) == Some(ValueType::Pointer),
        rewrite@.steps[0].op matches LlvmOp::GetElementPtr { ptr, index, elem, inbounds }
            && setting.named(elem) == ValueType::Of(setting.lowered),
{
    let steps = rewrite@.steps;
    assert(steps.take(1) =~= steps);
    lemma_results_next(setting, steps, 0);
}

} // verus!
