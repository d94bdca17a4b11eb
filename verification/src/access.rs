//! Lowering of memory access: stores, loads, stack slots, references and pointer offsets.

use pliron::operation::Operation;
use pliron::utils::apint::APInt;
use vstd::prelude::*;
use crate::bits::digits;
use crate::constants::lane_shift;
use crate::constants::one_i32;
use crate::operands::operation_operands;
use crate::rewrite::Finish;
use crate::rewrite::LlvmOp;
use crate::rewrite::OpType;
use crate::rewrite::Operand;
use crate::rewrite::ReadOnlyInstruction;
use crate::rewrite::Rewrite;
use crate::rewrite::RewriteModel;
use crate::rewrite::Step;
use crate::types::i32x2_lanes;
use crate::types::i32x4_lanes;
use crate::types::paths_view;
use crate::types::read_only_i32x2_paths;
use crate::types::read_only_i32x4_paths;
use crate::types::read_only_scalar_kind;
use crate::types::scalar_kind;
use crate::types::LlvmType;
use crate::types::ReadOnlyScalarKind;

verus! {

/// Why an operation is not lowered. `E` is the error of the analyses whose answers the
/// lowering is handed.
#[derive(PartialEq, Eq, Debug)]
pub enum AccessError<E> {
    /// A store without exactly an address and a value.
    StoreOperands,
    /// A read-only load of a type that no instruction moves.
    ReadOnlyType,
    /// A stack slot whose result is no pointer.
    AllocaResult,
    /// A pointer offset without exactly a pointer and an index.
    PtrOffsetOperands,
    /// A pointer offset whose result is no pointer.
    PtrOffsetResult,
    /// An analysis rejected the operation.
    Rejected(E),
}

impl<E> AccessError<E> {
    /// The message of an error, for those that the lowering itself finds.
    pub open spec fn message_text(self) -> Option<Seq<char>> {
        match self {
            AccessError::StoreOperands => Some("Store operation requires exactly 2 operands"@),
            AccessError::ReadOnlyType => Some(
                "cuda_device::read_only::load requires a primitive 8-, 16-, 32-, or 64-bit scalar, the I32x4 aggregate shape, or the I32x2 aggregate shape with 8-byte alignment"@,
            ),
            AccessError::AllocaResult => Some(
                "MirAllocaOp result must be MirPtrType (enforced by verifier)"@,
            ),
            AccessError::PtrOffsetOperands => Some("PtrOffset requires exactly 2 operands"@),
            AccessError::PtrOffsetResult => Some(
                "mir.ptr_offset result must be a MIR pointer type; element sizing has no fact to derive from"@,
            ),
            AccessError::Rejected(_) => None,
        }
    }

    /// The message, for an error that the lowering itself found.
    pub fn message(&self) -> (text: Option<&'static str>)
        ensures
            match text {
                Some(text) => Some(text@),
                None => None,
            } == self.message_text(),
    {
        match self {
            AccessError::StoreOperands => Some("Store operation requires exactly 2 operands"),
            AccessError::ReadOnlyType => Some(
                "cuda_device::read_only::load requires a primitive 8-, 16-, 32-, or 64-bit scalar, the I32x4 aggregate shape, or the I32x2 aggregate shape with 8-byte alignment",
            ),
            AccessError::AllocaResult => Some(
                "MirAllocaOp result must be MirPtrType (enforced by verifier)",
            ),
            AccessError::PtrOffsetOperands => Some("PtrOffset requires exactly 2 operands"),
            AccessError::PtrOffsetResult => Some(
                "mir.ptr_offset result must be a MIR pointer type; element sizing has no fact to derive from",
            ),
            AccessError::Rejected(_) => None,
        }
    }

    /// Whether the error is reported at the operation's source location.
    pub fn located(&self) -> (yes: bool)
        ensures
            yes <==> self is PtrOffsetOperands || self is PtrOffsetResult,
    {
        match self {
            AccessError::PtrOffsetOperands | AccessError::PtrOffsetResult => true,
            _ => false,
        }
    }
}

/// The outcome of a lowering over mathematical rewrites.
pub open spec fn outcome<E>(result: Result<Rewrite, AccessError<E>>) -> Result<
    RewriteModel,
    AccessError<E>,
> {
    match result {
        Ok(rewrite) => Ok(rewrite@),
        Err(error) => Err(error),
    }
}

/// A step with nothing attached to its operation.
pub open spec fn bare(op: LlvmOp<Seq<u32>, Seq<bool>>) -> Step<Seq<u32>, Seq<bool>> {
    Step { op, volatile: false, align: None, location: false, local_facts: false }
}

fn plain(op: LlvmOp<Vec<u32>, APInt>) -> (step: Step<Vec<u32>, APInt>)
    ensures
        step@ == bare(op@),
{
    Step { op, volatile: false, align: None, location: false, local_facts: false }
}

/// The alignment that an access may rely on: what the type and the address both answer
/// for is the weaker of the two, and what only one answers for is its answer.
pub open spec fn access_align(abi: Option<u64>, proved: Option<u64>) -> Option<u64> {
    match (abi, proved) {
        (Some(abi), Some(proved)) => Some(
            if proved < abi {
                proved
            } else {
                abi
            },
        ),
        (Some(abi), None) => Some(abi),
        (None, proved) => proved,
    }
}

/// The alignment as it is attached to an operation, whose attribute holds 32 bits.
pub open spec fn attached_align(align: Option<u64>) -> Option<u32> {
    match align {
        Some(align) => Some((align % 0x1_0000_0000) as u32),
        None => None,
    }
}

fn attach_align(align: Option<u64>) -> (attached: Option<u32>)
    ensures
        attached == attached_align(align),
{
    match align {
        Some(align) => {
            assert(align as u32 == (align % 0x1_0000_0000) as u32) by (bit_vector);
            Some(
                #[verifier::truncate]
                (align as u32),
            )
        },
        None => None,
    }
}

/// Combine the alignment of a value's own type with the alignment that its address was
/// proved to have.
///
/// The type answers first. A scalar records none, so the address's own answer is the
/// fallback: for a field projection that is the aggregate's alignment narrowed to the
/// field's offset. When both answer, the weaker wins: a field of a packed aggregate can
/// place an aligned type at a byte-aligned address, and the address's proved alignment is
/// the ceiling of what the access may claim.
pub fn access_alignment(abi: Option<u64>, proved: Option<u64>) -> (align: Option<u64>)
    ensures
        align == access_align(abi, proved),
{
    match (abi, proved) {
        (Some(abi), Some(proved)) => if proved < abi {
            Some(proved)
        } else {
            Some(abi)
        },
        (Some(abi), None) => Some(abi),
        (None, proved) => proved,
    }
}

/// What is known of a store.
pub struct StoreFacts<E> {
    /// Whether the stored type may be written whole.
    pub whole_value: Result<(), E>,
    /// The store is volatile.
    pub volatile: bool,
    /// The alignment that the stored value's type records.
    pub abi_align: Option<u64>,
    /// The alignment that the address was proved to have.
    pub proved_align: Option<u64>,
}

/// What a store becomes.
pub open spec fn store_rewrite(
    volatile: bool,
    abi_align: Option<u64>,
    proved_align: Option<u64>,
) -> RewriteModel {
    RewriteModel {
        steps: seq![
            Step {
                op: LlvmOp::Store { value: Operand::Source(1), ptr: Operand::Source(0) },
                volatile,
                align: attached_align(access_align(abi_align, proved_align)),
                location: true,
                local_facts: false,
            },
        ],
        finish: Finish::Erase,
    }
}

/// The outcome of lowering a store with a number of operands.
pub open spec fn store_outcome<E>(operands: nat, facts: StoreFacts<E>) -> Result<
    RewriteModel,
    AccessError<E>,
> {
    if operands != 2 {
        Err(AccessError::StoreOperands)
    } else {
        match facts.whole_value {
            Err(error) => Err(AccessError::Rejected(error)),
            Ok(_) => Ok(store_rewrite(facts.volatile, facts.abi_align, facts.proved_align)),
        }
    }
}

/// Lower a store.
///
/// Operand order: the address, then the value. No result is produced, so the replaced
/// operation is erased.
pub fn convert_store<E>(op: &Operation, facts: StoreFacts<E>) -> (result: Result<
    Rewrite,
    AccessError<E>,
>)
    ensures
        outcome(result) == store_outcome(operation_operands(*op).len(), facts),
{
    lower_store(op.get_num_operands(), facts)
}

/// Lower a store with a number of operands.
pub fn lower_store<E>(operands: usize, facts: StoreFacts<E>) -> (result: Result<
    Rewrite,
    AccessError<E>,
>)
    ensures
        outcome(result) == store_outcome(operands as nat, facts),
{
    if operands != 2 {
        return Err(AccessError::StoreOperands);
    }
    if let Err(error) = facts.whole_value {
        return Err(AccessError::Rejected(error));
    }
    let align: Option<u64> = access_alignment(facts.abi_align, facts.proved_align);
    let step: Step<Vec<u32>, APInt> = Step {
        op: LlvmOp::Store { value: Operand::Source(1), ptr: Operand::Source(0) },
        volatile: facts.volatile,
        align: attach_align(align),
        location: true,
        local_facts: false,
    };
    let rewrite: Rewrite = Rewrite { steps: vec![step], finish: Finish::Erase };
    assert(rewrite@.steps == store_rewrite(
        facts.volatile,
        facts.abi_align,
        facts.proved_align,
    ).steps);
    Ok(rewrite)
}

/// What is known of a load.
pub struct LoadFacts<E> {
    /// Whether the loaded type may be read whole.
    pub whole_value: Result<(), E>,
    /// The lowered form of the loaded type.
    pub lowered: Result<LlvmType, E>,
    /// The load goes through the read-only cache.
    pub read_only: bool,
    /// The load is volatile.
    pub volatile: bool,
    /// The alignment that the loaded type records.
    pub abi_align: Option<u64>,
    /// The alignment that the address was proved to have.
    pub proved_align: Option<u64>,
}

/// What an ordinary load becomes.
pub open spec fn load_rewrite(
    volatile: bool,
    abi_align: Option<u64>,
    proved_align: Option<u64>,
) -> RewriteModel {
    RewriteModel {
        steps: seq![
            Step {
                op: LlvmOp::Load { ptr: Operand::Source(0), ty: OpType::Lowered },
                volatile,
                align: attached_align(access_align(abi_align, proved_align)),
                location: false,
                local_facts: false,
            },
        ],
        finish: Finish::ReplaceWithStep(0),
    }
}

/// The instruction that loads a scalar.
pub open spec fn scalar_instruction(kind: ReadOnlyScalarKind) -> ReadOnlyInstruction {
    match kind {
        ReadOnlyScalarKind::Integer(width) => if width == 8 {
            ReadOnlyInstruction::U8
        } else if width == 16 {
            ReadOnlyInstruction::U16
        } else if width == 32 {
            ReadOnlyInstruction::B32
        } else {
            ReadOnlyInstruction::B64
        },
        ReadOnlyScalarKind::Float(width) => if width == 32 {
            ReadOnlyInstruction::F32
        } else {
            ReadOnlyInstruction::F64
        },
    }
}

/// The operation that reads read-only memory, at the source location of the load.
pub open spec fn read_only_access(instruction: ReadOnlyInstruction, ty: OpType) -> Step<
    Seq<u32>,
    Seq<bool>,
> {
    Step {
        location: true,
        ..bare(LlvmOp::InlineAsm { instruction, ptr: Operand::Source(0), ty })
    }
}

/// What a read-only load of a scalar becomes. An integer narrower than a register is
/// loaded into a 32-bit register and truncated.
pub open spec fn scalar_rewrite(kind: ReadOnlyScalarKind) -> RewriteModel {
    if kind.width() < 32 {
        RewriteModel {
            steps: seq![
                read_only_access(scalar_instruction(kind), OpType::Integer(32)),
                bare(LlvmOp::Trunc { value: Operand::Step(0), ty: OpType::Lowered }),
            ],
            finish: Finish::ReplaceWithStep(1),
        }
    } else {
        RewriteModel {
            steps: seq![read_only_access(scalar_instruction(kind), OpType::Lowered)],
            finish: Finish::ReplaceWithStep(0),
        }
    }
}

/// Lower a shared borrow of a scalar to one cache-qualified transaction.
///
/// This selects the instruction: device code only expresses a shared read and never
/// handles a raw address or inline assembly itself.
pub fn convert_read_only_scalar(kind: ReadOnlyScalarKind) -> (rewrite: Rewrite)
    requires
        kind.supported(),
    ensures
        rewrite@ == scalar_rewrite(kind),
{
    let (ty, instruction, truncate): (OpType, ReadOnlyInstruction, bool) = match kind {
        ReadOnlyScalarKind::Integer(8) => (OpType::Integer(32), ReadOnlyInstruction::U8, true),
        ReadOnlyScalarKind::Integer(16) => (OpType::Integer(32), ReadOnlyInstruction::U16, true),
        ReadOnlyScalarKind::Integer(32) => (OpType::Lowered, ReadOnlyInstruction::B32, false),
        ReadOnlyScalarKind::Integer(_) => (OpType::Lowered, ReadOnlyInstruction::B64, false),
        ReadOnlyScalarKind::Float(32) => (OpType::Lowered, ReadOnlyInstruction::F32, false),
        ReadOnlyScalarKind::Float(_) => (OpType::Lowered, ReadOnlyInstruction::F64, false),
    };
    let mut steps: Vec<Step<Vec<u32>, APInt>> = Vec::new();
    steps.push(read_only_step(instruction, ty));
    let finish: Finish = if truncate {
        steps.push(plain(LlvmOp::Trunc { value: Operand::Step(0), ty: OpType::Lowered }));
        Finish::ReplaceWithStep(1)
    } else {
        Finish::ReplaceWithStep(0)
    };
    let rewrite: Rewrite = Rewrite { steps, finish };
    assert(rewrite@.steps == scalar_rewrite(kind).steps);
    rewrite
}

/// How many lanes have a path.
pub open spec fn placed_lanes(lanes: Seq<usize>, paths: Seq<Seq<u32>>) -> nat {
    if paths.len() < lanes.len() {
        paths.len()
    } else {
        lanes.len()
    }
}

/// The operation that puts lane `lane`, the result of a step, at its path. `count` steps
/// come before the aggregate that the lanes are put into.
pub open spec fn insert_step(
    count: nat,
    lanes: Seq<usize>,
    paths: Seq<Seq<u32>>,
    lane: int,
) -> Step<Seq<u32>, Seq<bool>> {
    bare(
        LlvmOp::InsertValue {
            aggregate: Operand::Step((count + lane) as usize),
            value: Operand::Step(lanes[lane]),
            path: paths[lane],
        },
    )
}

/// The steps that compute lanes, followed by those that put each lane at its path of a
/// value of the lowered type.
pub open spec fn lanes_rewrite(
    steps: Seq<Step<Seq<u32>, Seq<bool>>>,
    lanes: Seq<usize>,
    paths: Seq<Seq<u32>>,
) -> RewriteModel {
    RewriteModel {
        steps: steps.push(bare(LlvmOp::Undef { ty: OpType::Lowered })) + Seq::new(
            placed_lanes(lanes, paths),
            |lane: int| insert_step(steps.len(), lanes, paths, lane),
        ),
        finish: Finish::ReplaceWithValue(
            Operand::Step((steps.len() + placed_lanes(lanes, paths)) as usize),
        ),
    }
}

/// The operations that load the two words of four lanes and take each word apart: the
/// low lane by truncation, the high lane by a shift and truncation.
pub open spec fn i32x4_steps() -> Seq<Step<Seq<u32>, Seq<bool>>> {
    seq![
        read_only_access(ReadOnlyInstruction::V2U64, OpType::IntegerPair(64)),
        bare(LlvmOp::Constant { number: digits(32, 64) }),
        bare(LlvmOp::ExtractValue { aggregate: Operand::Step(0), path: seq![0u32] }),
        bare(LlvmOp::Trunc { value: Operand::Step(2), ty: OpType::Integer(32) }),
        bare(LlvmOp::LShr { value: Operand::Step(2), amount: Operand::Step(1) }),
        bare(LlvmOp::Trunc { value: Operand::Step(4), ty: OpType::Integer(32) }),
        bare(LlvmOp::ExtractValue { aggregate: Operand::Step(0), path: seq![1u32] }),
        bare(LlvmOp::Trunc { value: Operand::Step(6), ty: OpType::Integer(32) }),
        bare(LlvmOp::LShr { value: Operand::Step(6), amount: Operand::Step(1) }),
        bare(LlvmOp::Trunc { value: Operand::Step(8), ty: OpType::Integer(32) }),
    ]
}

/// The steps whose results are the four lanes.
pub open spec fn i32x4_results() -> Seq<usize> {
    seq![3usize, 5usize, 7usize, 9usize]
}

/// What a read-only load of four 32-bit lanes becomes, with each lane put at its path.
pub open spec fn i32x4_rewrite(paths: Seq<Seq<u32>>) -> RewriteModel {
    lanes_rewrite(i32x4_steps(), i32x4_results(), paths)
}

/// The operations that load the word of two lanes and take it apart.
pub open spec fn i32x2_steps() -> Seq<Step<Seq<u32>, Seq<bool>>> {
    seq![
        read_only_access(ReadOnlyInstruction::B64, OpType::Integer(64)),
        bare(LlvmOp::Constant { number: digits(32, 64) }),
        bare(LlvmOp::Trunc { value: Operand::Step(0), ty: OpType::Integer(32) }),
        bare(LlvmOp::LShr { value: Operand::Step(0), amount: Operand::Step(1) }),
        bare(LlvmOp::Trunc { value: Operand::Step(3), ty: OpType::Integer(32) }),
    ]
}

/// The steps whose results are the two lanes.
pub open spec fn i32x2_results() -> Seq<usize> {
    seq![2usize, 4usize]
}

/// What a read-only load of two 32-bit lanes becomes, with each lane put at its path.
pub open spec fn i32x2_rewrite(paths: Seq<Seq<u32>>) -> RewriteModel {
    lanes_rewrite(i32x2_steps(), i32x2_results(), paths)
}

/// The steps behind a sequence of emitted operations.
pub open spec fn steps_view(steps: Seq<Step<Vec<u32>, APInt>>) -> Seq<Step<Seq<u32>, Seq<bool>>> {
    Seq::new(steps.len(), |i: int| steps[i]@)
}

/// The operation that reads read-only memory, at the source location of the load.
fn read_only_step(instruction: ReadOnlyInstruction, ty: OpType) -> (step: Step<Vec<u32>, APInt>)
    ensures
        step@ == read_only_access(instruction, ty),
{
    Step {
        op: LlvmOp::InlineAsm { instruction, ptr: Operand::Source(0), ty },
        volatile: false,
        align: None,
        location: true,
        local_facts: false,
    }
}

/// Take a 64-bit word apart into its low and its high lane, and note the steps whose
/// results they are.
fn split_word(
    steps: &mut Vec<Step<Vec<u32>, APInt>>,
    lanes: &mut Vec<usize>,
    word: usize,
    shift: usize,
)
    requires
        old(steps)@.len() < 100,
    ensures
        steps_view(final(steps)@) == steps_view(old(steps)@) + seq![
            bare(LlvmOp::Trunc { value: Operand::Step(word), ty: OpType::Integer(32) }),
            bare(LlvmOp::LShr { value: Operand::Step(word), amount: Operand::Step(shift) }),
            bare(
                LlvmOp::Trunc {
                    value: Operand::Step((old(steps)@.len() + 1) as usize),
                    ty: OpType::Integer(32),
                },
            ),
        ],
        final(lanes)@ == old(lanes)@ + seq![
            old(steps)@.len() as usize,
            (old(steps)@.len() + 2) as usize,
        ],
{
    lanes.push(steps.len());
    steps.push(plain(LlvmOp::Trunc { value: Operand::Step(word), ty: OpType::Integer(32) }));
    let high: usize = steps.len();
    steps.push(plain(LlvmOp::LShr { value: Operand::Step(word), amount: Operand::Step(shift) }));
    lanes.push(steps.len());
    steps.push(plain(LlvmOp::Trunc { value: Operand::Step(high), ty: OpType::Integer(32) }));
}

/// Put each lane at its path of a value of the lowered type.
fn place_lanes(
    steps: Vec<Step<Vec<u32>, APInt>>,
    lanes: &[usize],
    lane_paths: &[Vec<u32>],
) -> (rewrite: Rewrite)
    requires
        steps@.len() < 100,
        lanes@.len() < 100,
    ensures
        rewrite@ == lanes_rewrite(steps_view(steps@), lanes@, paths_view(lane_paths@)),
{
    let ghost before = steps_view(steps@);
    let ghost paths = paths_view(lane_paths@);
    let mut steps: Vec<Step<Vec<u32>, APInt>> = steps;
    let mut value: usize = steps.len();
    steps.push(plain(LlvmOp::Undef { ty: OpType::Lowered }));
    let ghost undef = steps_view(steps@);
    assert(undef == before.push(bare(LlvmOp::Undef { ty: OpType::Lowered })));
    let mut lane: usize = 0;
    while lane < lanes.len() && lane < lane_paths.len()
        invariant
            paths == paths_view(lane_paths@),
            before.len() < 100,
            lanes@.len() < 100,
            undef.len() == before.len() + 1,
            lane <= placed_lanes(lanes@, paths),
            value == before.len() + lane,
            steps_view(steps@) == undef + Seq::new(
                lane as nat,
                |k: int| insert_step(before.len(), lanes@, paths, k),
            ),
        decreases lanes@.len() - lane,
    {
        let path: Vec<u32> = lane_paths[lane].clone();
        assert(path@ == paths[lane as int]);
        let ghost so_far = steps_view(steps@);
        assert(so_far.len() == steps@.len());
        let next: usize = steps.len();
        steps.push(
            plain(
                LlvmOp::InsertValue {
                    aggregate: Operand::Step(value),
                    value: Operand::Step(lanes[lane]),
                    path,
                },
            ),
        );
        assert(steps_view(steps@) == so_far.push(
            insert_step(before.len(), lanes@, paths, lane as int),
        ));
        value = next;
        lane = lane + 1;
    }
    let rewrite: Rewrite = Rewrite {
        steps,
        finish: Finish::ReplaceWithValue(Operand::Step(value)),
    };
    assert(rewrite@.steps == steps_view(rewrite.steps@));
    rewrite
}

/// Preserve one 16-byte read-only transaction even when later code consumes single
/// lanes.
///
/// An aggregate load would be split into scalars before instruction selection. The two
/// 64-bit words are loaded by one instruction instead, and the lanes are cut out of them.
pub fn convert_read_only_i32x4(lane_paths: &[Vec<u32>]) -> (rewrite: Rewrite)
    ensures
        rewrite@ == i32x4_rewrite(paths_view(lane_paths@)),
{
    let mut steps: Vec<Step<Vec<u32>, APInt>> = Vec::new();
    steps.push(read_only_step(ReadOnlyInstruction::V2U64, OpType::IntegerPair(64)));
    steps.push(plain(LlvmOp::Constant { number: lane_shift() }));
    let mut lanes: Vec<usize> = Vec::new();
    let mut word_index: u32 = 0;
    assert(steps_view(steps@) == i32x4_steps().take(2));
    while word_index < 2
        invariant
            word_index <= 2,
            steps@.len() == 2 + 4 * word_index,
            steps_view(steps@) == i32x4_steps().take(2 + 4 * word_index),
            lanes@ == i32x4_results().take(2 * word_index),
        decreases 2 - word_index,
    {
        let path: Vec<u32> = vec![word_index];
        assert(path@ == seq![word_index]);
        let ghost so_far = steps_view(steps@);
        let word: usize = steps.len();
        steps.push(plain(LlvmOp::ExtractValue { aggregate: Operand::Step(0), path }));
        assert(steps_view(steps@) == so_far.push(
            bare(LlvmOp::ExtractValue { aggregate: Operand::Step(0), path: seq![word_index] }),
        ));
        split_word(&mut steps, &mut lanes, word, 1);
        word_index = word_index + 1;
        assert(steps@.len() == steps_view(steps@).len());
        assert(word_index == 1 || word_index == 2);
        assert(steps_view(steps@) == i32x4_steps().take(2 + 4 * word_index));
        assert(lanes@ == i32x4_results().take(2 * word_index));
    }
    assert(steps_view(steps@) == i32x4_steps());
    assert(lanes@ == i32x4_results());
    place_lanes(steps, lanes.as_slice(), lane_paths)
}

/// Preserve one 8-byte read-only transaction even when later code consumes single lanes.
///
/// The 64-bit word is loaded by one instruction, and the two lanes are cut out of it.
pub fn convert_read_only_i32x2(lane_paths: &[Vec<u32>]) -> (rewrite: Rewrite)
    ensures
        rewrite@ == i32x2_rewrite(paths_view(lane_paths@)),
{
    let mut steps: Vec<Step<Vec<u32>, APInt>> = Vec::new();
    steps.push(read_only_step(ReadOnlyInstruction::B64, OpType::Integer(64)));
    steps.push(plain(LlvmOp::Constant { number: lane_shift() }));
    let mut lanes: Vec<usize> = Vec::new();
    assert(steps_view(steps@) == i32x2_steps().take(2));
    split_word(&mut steps, &mut lanes, 0, 1);
    assert(steps@.len() == steps_view(steps@).len());
    assert(steps_view(steps@) == i32x2_steps());
    assert(lanes@ == i32x2_results());
    place_lanes(steps, lanes.as_slice(), lane_paths)
}

/// Whether a type records an alignment that one 8-byte access needs.
pub open spec fn aligned_for_word(abi_align: Option<u64>) -> bool {
    abi_align matches Some(align) && align >= 8
}

/// What a read-only load of a lowered type becomes. Two lanes are loaded as one word, for
/// which their type has to record an alignment of 8 bytes.
pub open spec fn read_only_rewrite(ty: LlvmType, abi_align: Option<u64>) -> Option<RewriteModel> {
    match (scalar_kind(ty), i32x4_lanes(ty), i32x2_lanes(ty)) {
        (Some(kind), _, _) => Some(scalar_rewrite(kind)),
        (None, Some(paths), _) => Some(i32x4_rewrite(paths)),
        (None, None, Some(paths)) => if aligned_for_word(abi_align) {
            Some(i32x2_rewrite(paths))
        } else {
            None
        },
        (None, None, None) => None,
    }
}

/// The outcome of lowering a load.
pub open spec fn load_outcome<E>(facts: LoadFacts<E>) -> Result<RewriteModel, AccessError<E>> {
    match (facts.whole_value, facts.lowered) {
        (Err(error), _) => Err(AccessError::Rejected(error)),
        (_, Err(error)) => Err(AccessError::Rejected(error)),
        (Ok(_), Ok(ty)) => if facts.read_only {
            match read_only_rewrite(ty, facts.abi_align) {
                Some(rewrite) => Ok(rewrite),
                None => Err(AccessError::ReadOnlyType),
            }
        } else {
            Ok(load_rewrite(facts.volatile, facts.abi_align, facts.proved_align))
        },
    }
}

/// Lower a load.
///
/// Takes the address and produces the loaded value. The loaded type is the operation's
/// own result type.
pub fn convert_load<E>(facts: LoadFacts<E>) -> (result: Result<Rewrite, AccessError<E>>)
    ensures
        outcome(result) == load_outcome(facts),
{
    if let Err(error) = facts.whole_value {
        return Err(AccessError::Rejected(error));
    }
    let ty: LlvmType = match facts.lowered {
        Ok(ty) => ty,
        Err(error) => return Err(AccessError::Rejected(error)),
    };
    if facts.read_only {
        if let Some(kind) = read_only_scalar_kind(&ty) {
            return Ok(convert_read_only_scalar(kind));
        }
        if let Some(paths) = read_only_i32x4_paths(&ty) {
            return Ok(convert_read_only_i32x4(paths.as_slice()));
        }
        let aligned: bool = match facts.abi_align {
            Some(align) => align >= 8,
            None => false,
        };
        return match read_only_i32x2_paths(&ty) {
            Some(paths) if aligned => Ok(convert_read_only_i32x2(paths.as_slice())),
            _ => Err(AccessError::ReadOnlyType),
        };
    }
    let align: Option<u64> = access_alignment(facts.abi_align, facts.proved_align);
    let step: Step<Vec<u32>, APInt> = Step {
        op: LlvmOp::Load { ptr: Operand::Source(0), ty: OpType::Lowered },
        volatile: facts.volatile,
        align: attach_align(align),
        location: false,
        local_facts: false,
    };
    let rewrite: Rewrite = Rewrite { steps: vec![step], finish: Finish::ReplaceWithStep(0) };
    assert(rewrite@.steps == load_rewrite(
        facts.volatile,
        facts.abi_align,
        facts.proved_align,
    ).steps);
    Ok(rewrite)
}

/// What is known of a stack slot.
pub struct AllocaFacts<E> {
    /// Whether the slot's type can be lowered, where the result is a pointer to it.
    pub pointee: Option<Result<(), E>>,
    /// The alignment that the slot's type records.
    pub abi_align: Option<u64>,
}

/// What a stack slot becomes: a slot for one value of the lowered type.
pub open spec fn alloca_rewrite(abi_align: Option<u64>) -> RewriteModel {
    RewriteModel {
        steps: seq![
            bare(LlvmOp::Constant { number: digits(1, 32) }),
            Step {
                align: attached_align(abi_align),
                local_facts: true,
                ..bare(LlvmOp::Alloca { ty: OpType::Lowered, count: Operand::Step(0) })
            },
        ],
        finish: Finish::ReplaceWithStep(1),
    }
}

/// The outcome of lowering a stack slot.
pub open spec fn alloca_outcome<E>(facts: AllocaFacts<E>) -> Result<RewriteModel, AccessError<E>> {
    match facts.pointee {
        None => Err(AccessError::AllocaResult),
        Some(Err(error)) => Err(AccessError::Rejected(error)),
        Some(Ok(_)) => Ok(alloca_rewrite(facts.abi_align)),
    }
}

/// Lower a stack slot.
///
/// The slot's type is what the result points to, and the slot holds one value of it.
/// Nothing is stored into the slot; that is the task of the stores that follow.
pub fn convert_alloca<E>(facts: AllocaFacts<E>) -> (result: Result<Rewrite, AccessError<E>>)
    ensures
        outcome(result) == alloca_outcome(facts),
{
    match facts.pointee {
        None => return Err(AccessError::AllocaResult),
        Some(Err(error)) => return Err(AccessError::Rejected(error)),
        Some(Ok(_)) => {},
    }
    let one: Step<Vec<u32>, APInt> = plain(LlvmOp::Constant { number: one_i32() });
    let slot: Step<Vec<u32>, APInt> = Step {
        op: LlvmOp::Alloca { ty: OpType::Lowered, count: Operand::Step(0) },
        volatile: false,
        align: attach_align(facts.abi_align),
        location: false,
        local_facts: true,
    };
    let rewrite: Rewrite = Rewrite { steps: vec![one, slot], finish: Finish::ReplaceWithStep(1) };
    assert(rewrite@.steps == alloca_rewrite(facts.abi_align).steps);
    Ok(rewrite)
}

/// What a reference becomes: a stack slot that holds the referent, at the alignment of
/// the referent's type.
pub open spec fn ref_rewrite(abi_align: Option<u64>) -> RewriteModel {
    RewriteModel {
        steps: seq![
            bare(LlvmOp::Constant { number: digits(1, 32) }),
            Step {
                align: attached_align(abi_align),
                ..bare(LlvmOp::Alloca { ty: OpType::Source(0), count: Operand::Step(0) })
            },
            Step {
                align: attached_align(abi_align),
                ..bare(LlvmOp::Store { value: Operand::Source(0), ptr: Operand::Step(1) })
            },
        ],
        finish: Finish::ReplaceWithValue(Operand::Step(1)),
    }
}

/// Lower a reference by placing its operand in stack memory.
///
/// Values have no address, so the referent is stored into a slot of its own and the
/// slot's address is the reference. This applies to scalars, aggregates and pointers
/// alike. Without the recorded alignment the slot would be under-aligned relative to
/// accesses that claim the type's true alignment.
pub fn convert_ref(abi_align: Option<u64>) -> (rewrite: Rewrite)
    ensures
        rewrite@ == ref_rewrite(abi_align),
{
    let one: Step<Vec<u32>, APInt> = plain(LlvmOp::Constant { number: one_i32() });
    let slot: Step<Vec<u32>, APInt> = Step {
        op: LlvmOp::Alloca { ty: OpType::Source(0), count: Operand::Step(0) },
        volatile: false,
        align: attach_align(abi_align),
        location: false,
        local_facts: false,
    };
    let store: Step<Vec<u32>, APInt> = Step {
        op: LlvmOp::Store { value: Operand::Source(0), ptr: Operand::Step(1) },
        volatile: false,
        align: attach_align(abi_align),
        location: false,
        local_facts: false,
    };
    let rewrite: Rewrite = Rewrite {
        steps: vec![one, slot, store],
        finish: Finish::ReplaceWithValue(Operand::Step(1)),
    };
    assert(rewrite@.steps == ref_rewrite(abi_align).steps);
    rewrite
}

/// What is known of a pointer offset.
pub struct PtrOffsetFacts<E> {
    /// Whether the element type can be lowered, where the result is a pointer to it.
    pub pointee: Option<Result<(), E>>,
    /// The result stays within the object that the pointer points into.
    pub inbounds: bool,
}

/// What a pointer offset becomes.
pub open spec fn ptr_offset_rewrite(inbounds: bool) -> RewriteModel {
    RewriteModel {
        steps: seq![
            bare(
                LlvmOp::GetElementPtr {
                    ptr: Operand::Source(0),
                    index: Operand::Source(1),
                    elem: OpType::Lowered,
                    inbounds,
                },
            ),
        ],
        finish: Finish::ReplaceWithStep(0),
    }
}

/// The outcome of lowering a pointer offset with a number of operands.
pub open spec fn ptr_offset_outcome<E>(operands: nat, facts: PtrOffsetFacts<E>) -> Result<
    RewriteModel,
    AccessError<E>,
> {
    if operands != 2 {
        Err(AccessError::PtrOffsetOperands)
    } else {
        match facts.pointee {
            None => Err(AccessError::PtrOffsetResult),
            Some(Err(error)) => Err(AccessError::Rejected(error)),
            Some(Ok(_)) => Ok(ptr_offset_rewrite(facts.inbounds)),
        }
    }
}

/// Lower a pointer offset.
///
/// Operand order: the pointer, then the index in elements. The element size comes from
/// the operation's own result type: the operand's recorded history does not follow a
/// value that was forwarded, and a miss there would silently misscale the offset.
pub fn convert_ptr_offset<E>(op: &Operation, facts: PtrOffsetFacts<E>) -> (result: Result<
    Rewrite,
    AccessError<E>,
>)
    ensures
        outcome(result) == ptr_offset_outcome(operation_operands(*op).len(), facts),
{
    lower_ptr_offset(op.get_num_operands(), facts)
}

/// Lower a pointer offset with a number of operands.
pub fn lower_ptr_offset<E>(operands: usize, facts: PtrOffsetFacts<E>) -> (result: Result<
    Rewrite,
    AccessError<E>,
>)
    ensures
        outcome(result) == ptr_offset_outcome(operands as nat, facts),
{
    if operands != 2 {
        return Err(AccessError::PtrOffsetOperands);
    }
    match facts.pointee {
        None => return Err(AccessError::PtrOffsetResult),
        Some(Err(error)) => return Err(AccessError::Rejected(error)),
        Some(Ok(_)) => {},
    }
    let step: Step<Vec<u32>, APInt> = plain(
        LlvmOp::GetElementPtr {
            ptr: Operand::Source(0),
            index: Operand::Source(1),
            elem: OpType::Lowered,
            inbounds: facts.inbounds,
        },
    );
    let rewrite: Rewrite = Rewrite { steps: vec![step], finish: Finish::ReplaceWithStep(0) };
    assert(rewrite@.steps == ptr_offset_rewrite(facts.inbounds).steps);
    Ok(rewrite)
}

/// Two facts settle what an access may claim, and it never claims more than either of
/// them: the claim is the weaker answer, and there is none only where neither answers.
pub proof fn law_alignment_is_the_weaker_answer(abi: Option<u64>, proved: Option<u64>)
    ensures
        access_align(abi, proved) is None <==> abi is None && proved is None,
        access_align(abi, proved) matches Some(align) ==> {
            &&& abi == Some(align) || proved == Some(align)
            &&& abi matches Some(abi) ==> align <= abi
            &&& proved matches Some(proved) ==> align <= proved
            &&& attached_align(Some(align)) matches Some(attached) && attached <= align
        },
{
}

/// A load and a store of one value at one address claim the same alignment.
pub proof fn law_load_and_store_claim_one_alignment(
    volatile_load: bool,
    volatile_store: bool,
    abi: Option<u64>,
    proved: Option<u64>,
)
    ensures
        load_rewrite(volatile_load, abi, proved).steps[0].align == store_rewrite(
            volatile_store,
            abi,
            proved,
        ).steps[0].align,
{
}

/// A volatile load or store stays volatile, and no other becomes so.
pub proof fn law_volatile_is_kept(volatile: bool, abi: Option<u64>, proved: Option<u64>)
    ensures
        forall|i: int|
            0 <= i < load_rewrite(volatile, abi, proved).steps.len()
                ==> (#[trigger] load_rewrite(volatile, abi, proved).steps[i]).volatile == volatile,
        forall|i: int|
            0 <= i < store_rewrite(volatile, abi, proved).steps.len()
                ==> (#[trigger] store_rewrite(volatile, abi, proved).steps[i]).volatile == volatile,
{
}

/// A type that may not be accessed whole is neither loaded nor stored, whatever else is
/// known: the analysis' own error is the answer.
pub proof fn law_whole_value_access_fails_closed<E>(
    load: LoadFacts<E>,
    operands: nat,
    store: StoreFacts<E>,
    error: E,
)
    ensures
        load.whole_value == Err::<(), E>(error) ==> load_outcome(load) == Err::<RewriteModel, _>(
            AccessError::Rejected(error),
        ),
        store.whole_value == Err::<(), E>(error) ==> store_outcome(operands, store) is Err,
        store.whole_value == Err::<(), E>(error) && operands == 2 ==> store_outcome(operands, store)
            == Err::<RewriteModel, _>(AccessError::Rejected(error)),
{
}

/// A read-only load never becomes an ordinary load: a type that no instruction moves is
/// refused.
pub proof fn law_read_only_load_is_never_ordinary<E>(load: LoadFacts<E>)
    requires
        load.read_only,
        load.whole_value is Ok,
        load.lowered is Ok,
    ensures
        load_outcome(load) matches Ok(rewrite) ==> forall|i: int|
            0 <= i < rewrite.steps.len() ==> !((#[trigger] rewrite.steps[i]).op is Load),
        ({
            let ty = load.lowered->Ok_0;
            load_outcome(load) is Ok <==> {
                ||| scalar_kind(ty) is Some
                ||| i32x4_lanes(ty) is Some
                ||| i32x2_lanes(ty) is Some && aligned_for_word(load.abi_align)
            }
        }),
        load_outcome(load) matches Err(error) ==> error is ReadOnlyType,
{
    let ty = load.lowered->Ok_0;
    law_read_only_load_is_one_transaction(ty, load.abi_align);
}

/// A read-only load is one transaction: its first operation is a cache-qualified read, no
/// other operation reads memory, and none writes memory. It takes over the source location.
pub proof fn law_read_only_load_is_one_transaction(ty: LlvmType, abi_align: Option<u64>)
    ensures
        read_only_rewrite(ty, abi_align) matches Some(rewrite) ==> {
            &&& rewrite.steps.len() > 0
            &&& rewrite.steps[0].op is InlineAsm
            &&& rewrite.steps[0].location
            &&& forall|i: int|
                0 <= i < rewrite.steps.len() ==> {
                    &&& (#[trigger] rewrite.steps[i]).op.reads_memory() <==> i == 0
                    &&& !rewrite.steps[i].op.writes_memory()
                }
        },
{
    if let Some(paths) = i32x4_lanes(ty) {
        lemma_lanes_rewrite_steps(i32x4_steps(), i32x4_results(), paths);
    }
    if let Some(paths) = i32x2_lanes(ty) {
        lemma_lanes_rewrite_steps(i32x2_steps(), i32x2_results(), paths);
    }
}

/// What each step of a lane rewrite is.
proof fn lemma_lanes_rewrite_steps(
    steps: Seq<Step<Seq<u32>, Seq<bool>>>,
    lanes: Seq<usize>,
    paths: Seq<Seq<u32>>,
)
    ensures
        ({
            let rewrite = lanes_rewrite(steps, lanes, paths);
            forall|i: int|
                0 <= i < rewrite.steps.len() ==> #[trigger] rewrite.steps[i] == if i
                    < steps.len() {
                    steps[i]
                } else if i == steps.len() {
                    bare(LlvmOp::Undef { ty: OpType::Lowered })
                } else {
                    insert_step(steps.len(), lanes, paths, i - steps.len() - 1)
                }
        }),
{
}

/// A lowered store, load, stack slot, reference or pointer offset uses no value before it
/// is defined.
pub proof fn law_values_are_defined_before_use<E>(
    operands: nat,
    store: StoreFacts<E>,
    load: LoadFacts<E>,
    alloca: AllocaFacts<E>,
    reference: Option<u64>,
    offset: PtrOffsetFacts<E>,
)
    ensures
        store_outcome(operands, store) matches Ok(rewrite) ==> rewrite.well_formed(operands),
        load_outcome(load) matches Ok(rewrite) ==> rewrite.well_formed(1),
        alloca_outcome(alloca) matches Ok(rewrite) ==> rewrite.well_formed(0),
        ref_rewrite(reference).well_formed(1),
        ptr_offset_outcome(operands, offset) matches Ok(rewrite) ==> rewrite.well_formed(operands),
{
    if let Ok(ty) = load.lowered {
        if let Some(paths) = i32x4_lanes(ty) {
            lemma_lanes_rewrite_well_formed(i32x4_steps(), i32x4_results(), paths);
        }
        if let Some(paths) = i32x2_lanes(ty) {
            lemma_lanes_rewrite_well_formed(i32x2_steps(), i32x2_results(), paths);
        }
    }
}

proof fn lemma_lanes_rewrite_well_formed(
    steps: Seq<Step<Seq<u32>, Seq<bool>>>,
    lanes: Seq<usize>,
    paths: Seq<Seq<u32>>,
)
    requires
        steps.len() < 100,
        lanes.len() < 100,
        (RewriteModel { steps, finish: Finish::Erase }).well_formed(1),
        forall|k: int|
            0 <= k < lanes.len() ==> #[trigger] lanes[k] < steps.len()
                && steps[lanes[k] as int].op.has_result(),
    ensures
        lanes_rewrite(steps, lanes, paths).well_formed(1),
{
    let rewrite = lanes_rewrite(steps, lanes, paths);
    let inner = RewriteModel { steps, finish: Finish::Erase };
    lemma_lanes_rewrite_steps(steps, lanes, paths);
    assert forall|at: int, k: int|
        #![trigger rewrite.steps[at].op.operands()[k]]
        0 <= at < rewrite.steps.len() && 0 <= k
            < rewrite.steps[at].op.operands().len() implies rewrite.defined_before(
        rewrite.steps[at].op.operands()[k],
        1,
        at,
    ) by {
        if at < steps.len() {
            let operand = rewrite.steps[at].op.operands()[k];
            assert(inner.steps[at].op.operands()[k] == operand);
            assert(inner.defined_before(operand, 1, at));
            if let Operand::Step(index) = operand {
                assert(rewrite.steps[index as int] == steps[index as int]);
            }
        } else if at > steps.len() {
            let lane = at - steps.len() - 1;
            assert(lanes[lane] < steps.len());
            assert(rewrite.steps[lanes[lane] as int] == steps[lanes[lane] as int]);
            assert(rewrite.steps[at - 1].op.has_result());
        }
    }
    assert(rewrite.steps[rewrite.steps.len() - 1].op.has_result());
}

} // verus!
