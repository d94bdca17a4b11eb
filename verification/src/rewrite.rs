//! The operations that take the place of a lowered memory operation.

use pliron::utils::apint::APInt;
use vstd::prelude::*;
use crate::constants::apint_digits;

verus! {

/// A value that an emitted operation uses.
#[derive(Clone, Copy, PartialEq, Eq, Structural, Debug)]
pub enum Operand {
    /// An operand of the operation that is being replaced.
    Source(usize),
    /// The result of an emitted operation.
    Step(usize),
}

/// A type that an emitted operation names.
#[derive(Clone, Copy, PartialEq, Eq, Structural, Debug)]
pub enum OpType {
    /// The lowered form of the type that the replaced operation moves.
    Lowered,
    /// The type of an operand of the replaced operation.
    Source(usize),
    /// A signless integer of a width in bits.
    Integer(u32),
    /// An unpacked pair of signless integers of one width in bits.
    IntegerPair(u32),
}

/// The cache-qualified loads of read-only global memory.
#[derive(Clone, Copy, PartialEq, Eq, Structural, Debug)]
pub enum ReadOnlyInstruction {
    U8,
    U16,
    B32,
    B64,
    F32,
    F64,
    V2U64,
}

impl ReadOnlyInstruction {
    /// The assembly text of an instruction.
    pub open spec fn template_text(self) -> Seq<char> {
        match self {
            ReadOnlyInstruction::U8 => "ld.global.nc.u8 $0, [$1];"@,
            ReadOnlyInstruction::U16 => "ld.global.nc.u16 $0, [$1];"@,
            ReadOnlyInstruction::B32 => "ld.global.nc.b32 $0, [$1];"@,
            ReadOnlyInstruction::B64 => "ld.global.nc.b64 $0, [$1];"@,
            ReadOnlyInstruction::F32 => "ld.global.nc.f32 $0, [$1];"@,
            ReadOnlyInstruction::F64 => "ld.global.nc.f64 $0, [$1];"@,
            ReadOnlyInstruction::V2U64 => "ld.global.nc.v2.u64 {$0, $1}, [$2];"@,
        }
    }

    /// The register constraints of an instruction: its results, then the address.
    pub open spec fn constraints_text(self) -> Seq<char> {
        match self {
            ReadOnlyInstruction::U8 => "=r,l"@,
            ReadOnlyInstruction::U16 => "=r,l"@,
            ReadOnlyInstruction::B32 => "=r,l"@,
            ReadOnlyInstruction::B64 => "=l,l"@,
            ReadOnlyInstruction::F32 => "=f,l"@,
            ReadOnlyInstruction::F64 => "=d,l"@,
            ReadOnlyInstruction::V2U64 => "=l,=l,l"@,
        }
    }

    /// The assembly text.
    pub fn template(self) -> (text: &'static str)
        ensures
            text@ == self.template_text(),
    {
        match self {
            ReadOnlyInstruction::U8 => "ld.global.nc.u8 $0, [$1];",
            ReadOnlyInstruction::U16 => "ld.global.nc.u16 $0, [$1];",
            ReadOnlyInstruction::B32 => "ld.global.nc.b32 $0, [$1];",
            ReadOnlyInstruction::B64 => "ld.global.nc.b64 $0, [$1];",
            ReadOnlyInstruction::F32 => "ld.global.nc.f32 $0, [$1];",
            ReadOnlyInstruction::F64 => "ld.global.nc.f64 $0, [$1];",
            ReadOnlyInstruction::V2U64 => "ld.global.nc.v2.u64 {$0, $1}, [$2];",
        }
    }

    /// The register constraints.
    pub fn constraints(self) -> (text: &'static str)
        ensures
            text@ == self.constraints_text(),
    {
        match self {
            ReadOnlyInstruction::U8 => "=r,l",
            ReadOnlyInstruction::U16 => "=r,l",
            ReadOnlyInstruction::B32 => "=r,l",
            ReadOnlyInstruction::B64 => "=l,l",
            ReadOnlyInstruction::F32 => "=f,l",
            ReadOnlyInstruction::F64 => "=d,l",
            ReadOnlyInstruction::V2U64 => "=l,=l,l",
        }
    }
}

/// An emitted operation, over the type of its index paths and of its constants.
#[derive(PartialEq, Eq, Debug)]
pub enum LlvmOp<P, C> {
    /// Write `value` to the address `ptr`.
    Store { value: Operand, ptr: Operand },
    /// Read a value of type `ty` from the address `ptr`.
    Load { ptr: Operand, ty: OpType },
    /// Read through inline assembly, which is kept for its side effect.
    InlineAsm { instruction: ReadOnlyInstruction, ptr: Operand, ty: OpType },
    /// Keep the low bits of `value`.
    Trunc { value: Operand, ty: OpType },
    /// Shift `value` right by `amount` bits and fill with zeros.
    LShr { value: Operand, amount: Operand },
    /// An integer constant.
    Constant { number: C },
    /// Read one element of an aggregate value.
    ExtractValue { aggregate: Operand, path: P },
    /// Replace one element of an aggregate value.
    InsertValue { aggregate: Operand, value: Operand, path: P },
    /// A value with no defined contents.
    Undef { ty: OpType },
    /// A stack slot of `count` values of type `ty`.
    Alloca { ty: OpType, count: Operand },
    /// The address `index` elements of type `elem` behind `ptr`.
    GetElementPtr { ptr: Operand, index: Operand, elem: OpType, inbounds: bool },
}

/// An emitted operation with what is attached to it.
#[derive(PartialEq, Eq, Debug)]
pub struct Step<P, C> {
    pub op: LlvmOp<P, C>,
    /// The access is volatile.
    pub volatile: bool,
    /// The alignment that the operation claims, in bytes.
    pub align: Option<u32>,
    /// The operation takes over the source location.
    pub location: bool,
    /// The operation takes over the debug variable and the memory provenance of a local.
    pub local_facts: bool,
}

/// What becomes of the replaced operation.
#[derive(Clone, Copy, PartialEq, Eq, Structural, Debug)]
pub enum Finish {
    /// It is erased.
    Erase,
    /// The results of an emitted operation take the place of its results.
    ReplaceWithStep(usize),
    /// A value takes the place of its only result.
    ReplaceWithValue(Operand),
}

/// The operations to emit in order, and what then becomes of the replaced operation.
#[derive(PartialEq, Eq, Debug)]
pub struct Rewrite {
    pub steps: Vec<Step<Vec<u32>, APInt>>,
    pub finish: Finish,
}

/// A rewrite over mathematical paths and constants.
pub struct RewriteModel {
    pub steps: Seq<Step<Seq<u32>, Seq<bool>>>,
    pub finish: Finish,
}

impl<P, C> LlvmOp<P, C> {
    /// The values that an operation uses.
    pub open spec fn operands(self) -> Seq<Operand> {
        match self {
            LlvmOp::Store { value, ptr } => seq![value, ptr],
            LlvmOp::Load { ptr, ty } => seq![ptr],
            LlvmOp::InlineAsm { instruction, ptr, ty } => seq![ptr],
            LlvmOp::Trunc { value, ty } => seq![value],
            LlvmOp::LShr { value, amount } => seq![value, amount],
            LlvmOp::Constant { number } => seq![],
            LlvmOp::ExtractValue { aggregate, path } => seq![aggregate],
            LlvmOp::InsertValue { aggregate, value, path } => seq![aggregate, value],
            LlvmOp::Undef { ty } => seq![],
            LlvmOp::Alloca { ty, count } => seq![count],
            LlvmOp::GetElementPtr { ptr, index, elem, inbounds } => seq![ptr, index],
        }
    }

    /// Whether an operation has a result.
    pub open spec fn has_result(self) -> bool {
        !(self is Store)
    }

    /// Whether an operation reads memory.
    pub open spec fn reads_memory(self) -> bool {
        self is Load || self is InlineAsm
    }

    /// Whether an operation writes memory.
    pub open spec fn writes_memory(self) -> bool {
        self is Store
    }
}

impl RewriteModel {
    /// Whether a value exists before step `at`: one of the `sources` operands of the
    /// replaced operation, or the result of an earlier step.
    pub open spec fn defined_before(self, operand: Operand, sources: nat, at: int) -> bool {
        match operand {
            Operand::Source(index) => index < sources,
            Operand::Step(index) => index < at && self.steps[index as int].op.has_result(),
        }
    }

    /// Whether every value is defined before it is used, the one that takes the place of
    /// the replaced operation's result among them.
    pub open spec fn well_formed(self, sources: nat) -> bool {
        &&& forall|at: int, k: int|
            #![trigger self.steps[at].op.operands()[k]]
            0 <= at < self.steps.len() && 0 <= k < self.steps[at].op.operands().len()
                ==> self.defined_before(self.steps[at].op.operands()[k], sources, at)
        &&& match self.finish {
            Finish::Erase => true,
            Finish::ReplaceWithStep(index) => self.defined_before(
                Operand::Step(index),
                sources,
                self.steps.len() as int,
            ),
            Finish::ReplaceWithValue(operand) => self.defined_before(
                operand,
                sources,
                self.steps.len() as int,
            ),
        }
    }
}

impl View for LlvmOp<Vec<u32>, APInt> {
    type V = LlvmOp<Seq<u32>, Seq<bool>>;

    open spec fn view(&self) -> LlvmOp<Seq<u32>, Seq<bool>> {
        match *self {
            LlvmOp::Store { value, ptr } => LlvmOp::Store { value, ptr },
            LlvmOp::Load { ptr, ty } => LlvmOp::Load { ptr, ty },
            LlvmOp::InlineAsm { instruction, ptr, ty } => LlvmOp::InlineAsm {
                instruction,
                ptr,
                ty,
            },
            LlvmOp::Trunc { value, ty } => LlvmOp::Trunc { value, ty },
            LlvmOp::LShr { value, amount } => LlvmOp::LShr { value, amount },
            LlvmOp::Constant { number } => LlvmOp::Constant { number: apint_digits(number) },
            LlvmOp::ExtractValue { aggregate, path } => LlvmOp::ExtractValue {
                aggregate,
                path: path@,
            },
            LlvmOp::InsertValue { aggregate, value, path } => LlvmOp::InsertValue {
                aggregate,
                value,
                path: path@,
            },
            LlvmOp::Undef { ty } => LlvmOp::Undef { ty },
            LlvmOp::Alloca { ty, count } => LlvmOp::Alloca { ty, count },
            LlvmOp::GetElementPtr { ptr, index, elem, inbounds } => LlvmOp::GetElementPtr {
                ptr,
                index,
                elem,
                inbounds,
            },
        }
    }
}

impl View for Step<Vec<u32>, APInt> {
    type V = Step<Seq<u32>, Seq<bool>>;

    open spec fn view(&self) -> Step<Seq<u32>, Seq<bool>> {
        Step {
            op: self.op@,
            volatile: self.volatile,
            align: self.align,
            location: self.location,
            local_facts: self.local_facts,
        }
    }
}

impl View for Rewrite {
    type V = RewriteModel;

    open spec fn view(&self) -> RewriteModel {
        RewriteModel {
            steps: Seq::new(self.steps@.len(), |i: int| self.steps@[i]@),
            finish: self.finish,
        }
    }
}

} // verus!
