//! The values that a replaced operation and its rewrite use.

use pliron::operation::Operation;
use pliron::value::Value;
use vstd::prelude::*;
use crate::rewrite::Operand;
use crate::rewrite::RewriteModel;

verus! {

/// pliron's operation, taken as an opaque value.
#[verifier::external_type_specification]
#[verifier::external_body]
pub struct ExOperation(pliron::operation::Operation);

/// pliron's value, taken as an opaque value.
#[verifier::external_type_specification]
#[verifier::external_body]
pub struct ExValue(pliron::value::Value);

/// The operands that an operation holds, in order.
pub uninterp spec fn operation_operands(op: Operation) -> Seq<Value>;

/// `Operation::get_num_operands` is the number of operands that the operation holds.
pub assume_specification[ Operation::get_num_operands ](op: &Operation) -> (count: usize)
    ensures
        count == operation_operands(*op).len(),
;

/// `Operation::get_operand` is the operand at an index, and panics on an index that is
/// out of range.
pub assume_specification[ Operation::get_operand ](op: &Operation, opd_idx: usize) -> (value: Value)
    requires
        opd_idx < operation_operands(*op).len(),
    ensures
        value == operation_operands(*op)[opd_idx as int],
;

/// The two operands of an operation that has exactly two, in order.
pub fn operand_pair(op: &Operation) -> (pair: Option<(Value, Value)>)
    ensures
        pair == if operation_operands(*op).len() == 2 {
            Some((operation_operands(*op)[0], operation_operands(*op)[1]))
        } else {
            None
        },
{
    if op.get_num_operands() != 2 {
        return None;
    }
    Some((op.get_operand(0), op.get_operand(1)))
}

/// The value that an operand of a step stands for, given the operands of the replaced
/// operation and the results of the steps so far.
pub open spec fn resolved(
    sources: Seq<Value>,
    results: Seq<Option<Value>>,
    operand: Operand,
) -> Option<Value> {
    match operand {
        Operand::Source(index) => if index < sources.len() {
            Some(sources[index as int])
        } else {
            None
        },
        Operand::Step(index) => if index < results.len() {
            results[index as int]
        } else {
            None
        },
    }
}

/// Find the value that an operand of a step stands for.
///
/// `results` holds the result of each step that was emitted so far, and nothing for a
/// step without a result.
pub fn resolve(op: &Operation, results: &[Option<Value>], operand: Operand) -> (value: Option<
    Value,
>)
    ensures
        value == resolved(operation_operands(*op), results@, operand),
{
    match operand {
        Operand::Source(index) => {
            if index < op.get_num_operands() {
                Some(op.get_operand(index))
            } else {
                None
            }
        },
        Operand::Step(index) => {
            if index < results.len() {
                results[index]
            } else {
                None
            }
        },
    }
}

/// Every operand of every step of a well-formed rewrite stands for a value by the time
/// the step is emitted.
pub proof fn law_operands_of_a_rewrite_resolve(
    rewrite: RewriteModel,
    sources: Seq<Value>,
    results: Seq<Option<Value>>,
    at: int,
    k: int,
)
    requires
        rewrite.well_formed(sources.len()),
        0 <= at < rewrite.steps.len(),
        0 <= k < rewrite.steps[at].op.operands().len(),
        results.len() == at,
        forall|i: int|
            0 <= i < at ==> (#[trigger] results[i] is Some <==> rewrite.steps[i].op.has_result()),
    ensures
        resolved(sources, results, rewrite.steps[at].op.operands()[k]) is Some,
{
    assert(rewrite.defined_before(rewrite.steps[at].op.operands()[k], sources.len(), at));
}

/// An operand of a step is the operand of the replaced operation or the result of the step
/// that it names, and nothing where there is none.
pub proof fn law_resolved_operand_is_the_one_named(
    op: &Operation,
    results: &[Option<Value>],
    index: usize,
    source: Option<Value>,
    step: Option<Value>,
)
    requires
        call_ensures(resolve, (op, results, Operand::Source(index)), source),
        call_ensures(resolve, (op, results, Operand::Step(index)), step),
    ensures
        source is Some <==> index < operation_operands(*op).len(),
        source matches Some(value) ==> value == operation_operands(*op)[index as int],
        index < results@.len() ==> step == results@[index as int],
        index >= results@.len() ==> step is None,
{
}

} // verus!
