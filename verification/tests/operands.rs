use cuda_memory::access::{
    convert_ptr_offset, convert_ref, convert_store, AccessError, PtrOffsetFacts, StoreFacts,
};
use cuda_memory::operands::{operand_pair, resolve};
use cuda_memory::rewrite::{Finish, LlvmOp, Operand};
use pliron::builtin::ops::ForwardRefOp;
use pliron::builtin::types::{IntegerType, Signedness};
use pliron::context::{Context, Ptr};
use pliron::op::Op;
use pliron::operation::Operation;
use pliron::value::Value;

/// An operation with these operands and one 32-bit result.
fn operation(ctx: &mut Context, operands: Vec<Value>) -> Ptr<Operation> {
    let ty = IntegerType::get(ctx, 32, Signedness::Signless);
    Operation::new(
        ctx,
        ForwardRefOp::get_concrete_op_info(),
        vec![ty.into()],
        operands,
        vec![],
        0,
    )
}

/// Three values, each the result of an operation of its own.
fn values(ctx: &mut Context) -> Vec<Value> {
    (0..3)
        .map(|_| {
            let op = operation(ctx, vec![]);
            let value = op.deref(ctx).get_result(0);
            value
        })
        .collect()
}

fn store_facts() -> StoreFacts<&'static str> {
    StoreFacts { whole_value: Ok(()), volatile: false, abi_align: None, proved_align: None }
}

#[test]
fn a_pair_is_the_operands_in_order() {
    let mut ctx = Context::new();
    let values = values(&mut ctx);
    let pair = operation(&mut ctx, vec![values[2], values[0]]);
    assert_eq!(operand_pair(&pair.deref(&ctx)), Some((values[2], values[0])));
    let one = operation(&mut ctx, vec![values[0]]);
    assert_eq!(operand_pair(&one.deref(&ctx)), None);
    let three = operation(&mut ctx, values.clone());
    assert_eq!(operand_pair(&three.deref(&ctx)), None);
}

#[test]
fn operands_of_a_step_resolve() {
    let mut ctx = Context::new();
    let values = values(&mut ctx);
    let op = operation(&mut ctx, vec![values[1], values[0]]);
    let op = op.deref(&ctx);
    let results = [Some(values[2]), None];
    assert_eq!(resolve(&op, &results, Operand::Source(0)), Some(values[1]));
    assert_eq!(resolve(&op, &results, Operand::Source(1)), Some(values[0]));
    assert_eq!(resolve(&op, &results, Operand::Source(2)), None);
    assert_eq!(resolve(&op, &results, Operand::Step(0)), Some(values[2]));
    assert_eq!(resolve(&op, &results, Operand::Step(1)), None);
    assert_eq!(resolve(&op, &results, Operand::Step(2)), None);
}

#[test]
fn operands_of_a_reference_resolve_step_by_step() {
    let mut ctx = Context::new();
    let values = values(&mut ctx);
    let op = operation(&mut ctx, vec![values[0]]);
    let op = op.deref(&ctx);
    let rewrite = convert_ref(None);
    let mut results: Vec<Option<Value>> = Vec::new();
    for step in &rewrite.steps {
        let used: Vec<Operand> = match &step.op {
            LlvmOp::Alloca { count, .. } => vec![*count],
            LlvmOp::Store { value, ptr } => vec![*value, *ptr],
            _ => vec![],
        };
        for operand in used {
            assert!(resolve(&op, &results, operand).is_some());
        }
        let stores = matches!(step.op, LlvmOp::Store { .. });
        results.push(if stores { None } else { Some(values[1]) });
    }
}

#[test]
fn a_store_operation_with_two_operands_is_lowered() {
    let mut ctx = Context::new();
    let values = values(&mut ctx);
    let op = operation(&mut ctx, vec![values[0], values[1]]);
    let rewrite = convert_store(&op.deref(&ctx), store_facts()).expect("two operands");
    assert_eq!(rewrite.finish, Finish::Erase);
    let op = operation(&mut ctx, vec![values[0]]);
    assert_eq!(
        convert_store(&op.deref(&ctx), store_facts()),
        Err(AccessError::StoreOperands)
    );
}

#[test]
fn a_pointer_offset_operation_with_two_operands_is_lowered() {
    let facts = || PtrOffsetFacts::<u8> { pointee: Some(Ok(())), inbounds: true };
    let mut ctx = Context::new();
    let values = values(&mut ctx);
    let op = operation(&mut ctx, vec![values[0], values[1]]);
    let rewrite = convert_ptr_offset(&op.deref(&ctx), facts()).expect("two operands");
    assert_eq!(rewrite.finish, Finish::ReplaceWithStep(0));
    let op = operation(&mut ctx, values.clone());
    assert_eq!(
        convert_ptr_offset(&op.deref(&ctx), facts()),
        Err(AccessError::PtrOffsetOperands)
    );
}
