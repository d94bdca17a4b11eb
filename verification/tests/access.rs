use cuda_memory::access::{
    access_alignment, convert_alloca, convert_load, convert_read_only_i32x2, convert_read_only_i32x4,
    convert_read_only_scalar, convert_ref, lower_ptr_offset, lower_store, AccessError, AllocaFacts,
    LoadFacts, PtrOffsetFacts, StoreFacts,
};
use cuda_memory::constants::{constant_attribute, lane_shift, one_i32};
use cuda_memory::rewrite::{
    Finish, LlvmOp, OpType, Operand, ReadOnlyInstruction, Rewrite, Step,
};
use cuda_memory::types::{LlvmType, ReadOnlyScalarKind, StructLayout};
use pliron::context::Context;
use pliron::utils::apint::APInt;
use std::num::NonZeroUsize;

type TestStep = Step<Vec<u32>, APInt>;

fn bare(op: LlvmOp<Vec<u32>, APInt>) -> TestStep {
    Step { op, volatile: false, align: None, location: false, local_facts: false }
}

fn apint(value: u64, width: usize) -> APInt {
    APInt::from_u64(value, NonZeroUsize::new(width).expect("positive width"))
}

fn store_facts() -> StoreFacts<&'static str> {
    StoreFacts {
        whole_value: Ok(()),
        volatile: false,
        abi_align: None,
        proved_align: None,
    }
}

fn load_facts(lowered: LlvmType, read_only: bool) -> LoadFacts<&'static str> {
    LoadFacts {
        whole_value: Ok(()),
        lowered: Ok(lowered),
        read_only,
        volatile: false,
        abi_align: None,
        proved_align: None,
    }
}

fn quad() -> LlvmType {
    LlvmType::Array { size: 4, elem: Box::new(LlvmType::Integer(32)) }
}

fn i32x4() -> LlvmType {
    LlvmType::Struct { layout: StructLayout::Unpacked, fields: vec![quad()] }
}

fn pair() -> LlvmType {
    LlvmType::Array { size: 2, elem: Box::new(LlvmType::Integer(32)) }
}

fn i32x2_shapes() -> Vec<(LlvmType, [Vec<u32>; 2])> {
    let fields = vec![LlvmType::Integer(32), LlvmType::Integer(32)];
    vec![
        (pair(), [vec![0], vec![1]]),
        (
            LlvmType::Struct { layout: StructLayout::Unpacked, fields },
            [vec![0], vec![1]],
        ),
        (
            LlvmType::Struct { layout: StructLayout::Unpacked, fields: vec![pair()] },
            [vec![0, 0], vec![0, 1]],
        ),
    ]
}

/// A value while a rewrite of a read-only load runs.
#[derive(Clone, Debug, PartialEq)]
enum Run {
    Number(u64),
    Pair(u64, u64),
    Lanes(Vec<(Vec<u32>, u32)>),
}

fn number(value: &Run) -> u64 {
    match value {
        Run::Number(number) => *number,
        _ => panic!("a number is used"),
    }
}

fn little_endian(memory: &[u8], at: usize, bytes: usize) -> u64 {
    (0..bytes).map(|i| (memory[at + i] as u64) << (8 * i)).sum()
}

fn result(results: &[Run], operand: Operand) -> Run {
    match operand {
        Operand::Step(index) => results[index].clone(),
        Operand::Source(_) => panic!("only the load itself uses the address"),
    }
}

/// Run the rewrite of a read-only load of a type `width` bits wide at the start of memory.
fn run(rewrite: &Rewrite, memory: &[u8], width: u32) -> Run {
    let mut results: Vec<Run> = Vec::new();
    for step in &rewrite.steps {
        let next = match &step.op {
            LlvmOp::InlineAsm { instruction, ptr, .. } => {
                assert_eq!(*ptr, Operand::Source(0));
                match instruction {
                    ReadOnlyInstruction::U8 => Run::Number(little_endian(memory, 0, 1)),
                    ReadOnlyInstruction::U16 => Run::Number(little_endian(memory, 0, 2)),
                    ReadOnlyInstruction::B32 | ReadOnlyInstruction::F32 => {
                        Run::Number(little_endian(memory, 0, 4))
                    }
                    ReadOnlyInstruction::B64 | ReadOnlyInstruction::F64 => {
                        Run::Number(little_endian(memory, 0, 8))
                    }
                    ReadOnlyInstruction::V2U64 => {
                        Run::Pair(little_endian(memory, 0, 8), little_endian(memory, 8, 8))
                    }
                }
            }
            LlvmOp::Trunc { value, ty } => {
                let bits = match ty {
                    OpType::Integer(bits) => *bits,
                    _ => width,
                };
                Run::Number(number(&result(&results, *value)) & ((1u64 << bits) - 1))
            }
            LlvmOp::LShr { value, amount } => Run::Number(
                number(&result(&results, *value)) >> number(&result(&results, *amount)),
            ),
            LlvmOp::Constant { number } => Run::Number(number.to_u64()),
            LlvmOp::ExtractValue { aggregate, path } => match result(&results, *aggregate) {
                Run::Pair(low, high) => Run::Number(if path == &vec![0] { low } else { high }),
                _ => panic!("a pair is taken apart"),
            },
            LlvmOp::Undef { .. } => Run::Lanes(Vec::new()),
            LlvmOp::InsertValue { aggregate, value, path } => match result(&results, *aggregate) {
                Run::Lanes(mut lanes) => {
                    lanes.push((path.clone(), number(&result(&results, *value)) as u32));
                    Run::Lanes(lanes)
                }
                _ => panic!("lanes are put together"),
            },
            _ => panic!("a read-only load only reads"),
        };
        results.push(next);
    }
    match rewrite.finish {
        Finish::ReplaceWithStep(index) => results[index].clone(),
        Finish::ReplaceWithValue(operand) => result(&results, operand),
        Finish::Erase => panic!("a load has a result"),
    }
}

#[test]
fn a_store_takes_the_address_first_and_is_erased() {
    let rewrite = lower_store(2, store_facts()).expect("two operands");
    assert_eq!(
        rewrite,
        Rewrite {
            steps: vec![Step {
                op: LlvmOp::Store { value: Operand::Source(1), ptr: Operand::Source(0) },
                volatile: false,
                align: None,
                location: true,
                local_facts: false,
            }],
            finish: Finish::Erase,
        }
    );
}

#[test]
fn a_store_keeps_volatility_and_the_weaker_alignment() {
    let rewrite = lower_store(2, StoreFacts {
        volatile: true,
        abi_align: Some(16),
        proved_align: Some(1),
        ..store_facts()
    })
    .expect("two operands");
    assert!(rewrite.steps[0].volatile);
    assert_eq!(rewrite.steps[0].align, Some(1));
}

#[test]
fn a_store_needs_two_operands() {
    for operands in [0usize, 1, 3] {
        let facts = StoreFacts { whole_value: Err("packed"), ..store_facts() };
        assert_eq!(lower_store(operands, facts), Err(AccessError::StoreOperands));
    }
}

#[test]
fn a_rejected_store_fails_closed() {
    let facts = StoreFacts { whole_value: Err("packed"), ..store_facts() };
    assert_eq!(lower_store(2, facts), Err(AccessError::Rejected("packed")));
}

#[test]
fn an_ordinary_load_replaces_the_operation() {
    let rewrite = convert_load(load_facts(LlvmType::Other, false)).expect("any type loads");
    assert_eq!(
        rewrite,
        Rewrite {
            steps: vec![bare(LlvmOp::Load { ptr: Operand::Source(0), ty: OpType::Lowered })],
            finish: Finish::ReplaceWithStep(0),
        }
    );
}

#[test]
fn an_ordinary_load_keeps_volatility_and_the_proved_alignment() {
    let rewrite = convert_load(LoadFacts {
        volatile: true,
        proved_align: Some(8),
        ..load_facts(LlvmType::Integer(32), false)
    })
    .expect("any type loads");
    assert!(rewrite.steps[0].volatile);
    assert_eq!(rewrite.steps[0].align, Some(8));
}

#[test]
fn a_rejected_load_fails_closed_with_the_first_error() {
    let facts = LoadFacts {
        whole_value: Err("packed"),
        lowered: Err("type"),
        ..load_facts(LlvmType::Other, true)
    };
    assert_eq!(convert_load(facts), Err(AccessError::Rejected("packed")));
    let facts = LoadFacts { lowered: Err("type"), ..load_facts(LlvmType::Other, true) };
    assert_eq!(convert_load(facts), Err(AccessError::Rejected("type")));
}

#[test]
fn a_read_only_load_of_another_type_is_refused() {
    for ty in [
        LlvmType::Other,
        LlvmType::Integer(1),
        LlvmType::Float(16),
        LlvmType::Array { size: 2, elem: Box::new(LlvmType::Integer(32)) },
    ] {
        assert_eq!(convert_load(load_facts(ty, true)), Err(AccessError::ReadOnlyType));
    }
}

#[test]
fn the_alignment_is_the_weaker_answer() {
    assert_eq!(access_alignment(None, None), None);
    assert_eq!(access_alignment(Some(8), None), Some(8));
    assert_eq!(access_alignment(None, Some(4)), Some(4));
    assert_eq!(access_alignment(Some(8), Some(4)), Some(4));
    assert_eq!(access_alignment(Some(4), Some(8)), Some(4));
    assert_eq!(access_alignment(Some(4), Some(4)), Some(4));
}

#[test]
fn the_attached_alignment_has_32_bits() {
    let facts = StoreFacts { abi_align: Some(0x1_0000_0010), ..store_facts() };
    let rewrite = lower_store(2, facts).expect("two operands");
    assert_eq!(rewrite.steps[0].align, Some(16));
}

#[test]
fn load_and_store_claim_one_alignment() {
    for (abi, proved) in [(None, None), (Some(16), Some(4)), (Some(2), None), (None, Some(32))] {
        let store =
            lower_store(2, StoreFacts { abi_align: abi, proved_align: proved, ..store_facts() })
                .expect("two operands");
        let load = convert_load(LoadFacts {
            abi_align: abi,
            proved_align: proved,
            ..load_facts(LlvmType::Integer(32), false)
        })
        .expect("any type loads");
        assert_eq!(store.steps[0].align, load.steps[0].align);
    }
}

#[test]
fn a_narrow_integer_is_loaded_into_a_register_and_truncated() {
    let rewrite = convert_load(load_facts(LlvmType::Integer(8), true)).expect("supported");
    assert_eq!(
        rewrite,
        Rewrite {
            steps: vec![
                Step {
                    location: true,
                    ..bare(LlvmOp::InlineAsm {
                        instruction: ReadOnlyInstruction::U8,
                        ptr: Operand::Source(0),
                        ty: OpType::Integer(32),
                    })
                },
                bare(LlvmOp::Trunc { value: Operand::Step(0), ty: OpType::Lowered }),
            ],
            finish: Finish::ReplaceWithStep(1),
        }
    );
}

#[test]
fn each_scalar_has_its_instruction() {
    let expected = [
        (LlvmType::Integer(8), ReadOnlyInstruction::U8),
        (LlvmType::Integer(16), ReadOnlyInstruction::U16),
        (LlvmType::Integer(32), ReadOnlyInstruction::B32),
        (LlvmType::Integer(64), ReadOnlyInstruction::B64),
        (LlvmType::Float(32), ReadOnlyInstruction::F32),
        (LlvmType::Float(64), ReadOnlyInstruction::F64),
    ];
    for (ty, wanted) in expected {
        let rewrite = convert_load(load_facts(ty, true)).expect("supported");
        match &rewrite.steps[0].op {
            LlvmOp::InlineAsm { instruction, .. } => assert_eq!(*instruction, wanted),
            _ => panic!("the first step reads"),
        }
    }
}

#[test]
fn a_read_only_scalar_keeps_its_bits_and_reads_no_other_byte() {
    let memory = [0x80u8, 0x91, 0xa2, 0xb3, 0xc4, 0xd5, 0xe6, 0xf7, 0xff];
    let kinds = [
        (ReadOnlyScalarKind::Integer(8), 8u32),
        (ReadOnlyScalarKind::Integer(16), 16),
        (ReadOnlyScalarKind::Integer(32), 32),
        (ReadOnlyScalarKind::Integer(64), 64),
        (ReadOnlyScalarKind::Float(32), 32),
        (ReadOnlyScalarKind::Float(64), 64),
    ];
    for (kind, width) in kinds {
        let bytes = (width / 8) as usize;
        let rewrite = convert_read_only_scalar(kind);
        let whole = run(&rewrite, &memory, width);
        assert_eq!(whole, Run::Number(little_endian(&memory, 0, bytes)));
        assert_eq!(run(&rewrite, &memory[..bytes], width), whole);
    }
}

#[test]
fn four_lanes_are_one_transaction_in_memory_order() {
    let memory: Vec<u8> = (0..16).map(|i| 0xf0 - 13 * i).collect();
    let rewrite = convert_load(load_facts(i32x4(), true)).expect("the shape of four lanes");
    let lanes: Vec<(Vec<u32>, u32)> = (0..4)
        .map(|lane| (vec![0, lane as u32], little_endian(&memory, 4 * lane, 4) as u32))
        .collect();
    assert_eq!(run(&rewrite, &memory, 128), Run::Lanes(lanes));
    let reads = rewrite
        .steps
        .iter()
        .filter(|step| matches!(step.op, LlvmOp::InlineAsm { .. } | LlvmOp::Load { .. }))
        .count();
    assert_eq!(reads, 1);
    assert!(rewrite.steps[0].location);
}

#[test]
fn flat_lanes_are_put_at_their_own_index() {
    let memory: Vec<u8> = (0..16).collect();
    let rewrite = convert_load(load_facts(quad(), true)).expect("the shape of four lanes");
    assert_eq!(
        run(&rewrite, &memory, 128),
        Run::Lanes(vec![
            (vec![0], 0x0302_0100),
            (vec![1], 0x0706_0504),
            (vec![2], 0x0b0a_0908),
            (vec![3], 0x0f0e_0d0c),
        ])
    );
}

#[test]
fn four_lanes_emit_these_operations() {
    let step = |index: usize| Operand::Step(index);
    let word = OpType::Integer(32);
    let rewrite = convert_read_only_i32x4(&[vec![0], vec![1], vec![2], vec![3]]);
    assert_eq!(
        rewrite.steps,
        vec![
            Step {
                location: true,
                ..bare(LlvmOp::InlineAsm {
                    instruction: ReadOnlyInstruction::V2U64,
                    ptr: Operand::Source(0),
                    ty: OpType::IntegerPair(64),
                })
            },
            bare(LlvmOp::Constant { number: apint(32, 64) }),
            bare(LlvmOp::ExtractValue { aggregate: step(0), path: vec![0] }),
            bare(LlvmOp::Trunc { value: step(2), ty: word }),
            bare(LlvmOp::LShr { value: step(2), amount: step(1) }),
            bare(LlvmOp::Trunc { value: step(4), ty: word }),
            bare(LlvmOp::ExtractValue { aggregate: step(0), path: vec![1] }),
            bare(LlvmOp::Trunc { value: step(6), ty: word }),
            bare(LlvmOp::LShr { value: step(6), amount: step(1) }),
            bare(LlvmOp::Trunc { value: step(8), ty: word }),
            bare(LlvmOp::Undef { ty: OpType::Lowered }),
            bare(LlvmOp::InsertValue { aggregate: step(10), value: step(3), path: vec![0] }),
            bare(LlvmOp::InsertValue { aggregate: step(11), value: step(5), path: vec![1] }),
            bare(LlvmOp::InsertValue { aggregate: step(12), value: step(7), path: vec![2] }),
            bare(LlvmOp::InsertValue { aggregate: step(13), value: step(9), path: vec![3] }),
        ]
    );
    assert_eq!(rewrite.finish, Finish::ReplaceWithValue(step(14)));
}

#[test]
fn lanes_without_a_path_are_not_placed() {
    let none = convert_read_only_i32x4(&[]);
    assert_eq!(none.steps.len(), 11);
    assert_eq!(none.finish, Finish::ReplaceWithValue(Operand::Step(10)));
    let two = convert_read_only_i32x4(&[vec![7], vec![8]]);
    assert_eq!(two.steps.len(), 13);
    let six: Vec<Vec<u32>> = (0..6).map(|i| vec![i]).collect();
    assert_eq!(convert_read_only_i32x4(&six).steps.len(), 15);
}

#[test]
fn two_aligned_lanes_are_one_transaction_in_memory_order() {
    let memory = [0x80u8, 0x91, 0xa2, 0xb3, 0xc4, 0xd5, 0xe6, 0xf7, 0xff];
    for align in [8u64, 16, 0x1_0000_0000] {
        for (ty, paths) in i32x2_shapes() {
            let facts = LoadFacts { abi_align: Some(align), ..load_facts(ty, true) };
            let rewrite = convert_load(facts).expect("an aligned shape of two lanes");
            let lanes = vec![(paths[0].clone(), 0xb3a2_9180), (paths[1].clone(), 0xf7e6_d5c4)];
            assert_eq!(run(&rewrite, &memory, 64), Run::Lanes(lanes.clone()));
            assert_eq!(run(&rewrite, &memory[..8], 64), Run::Lanes(lanes));
            let reads = rewrite
                .steps
                .iter()
                .filter(|step| matches!(step.op, LlvmOp::InlineAsm { .. } | LlvmOp::Load { .. }))
                .count();
            assert_eq!(reads, 1);
            assert!(rewrite.steps[0].location);
        }
    }
}

#[test]
fn two_lanes_without_the_alignment_are_refused() {
    for abi_align in [None, Some(0), Some(4), Some(7)] {
        for (ty, _) in i32x2_shapes() {
            let facts = LoadFacts { abi_align, proved_align: Some(8), ..load_facts(ty, true) };
            assert_eq!(convert_load(facts), Err(AccessError::ReadOnlyType));
        }
    }
}

#[test]
fn two_lanes_load_as_any_type_where_the_load_is_not_read_only() {
    for (ty, _) in i32x2_shapes() {
        let facts = LoadFacts { abi_align: Some(8), ..load_facts(ty, false) };
        let rewrite = convert_load(facts).expect("any type loads");
        assert_eq!(rewrite.steps.len(), 1);
        assert_eq!(rewrite.steps[0].align, Some(8));
        assert!(matches!(rewrite.steps[0].op, LlvmOp::Load { .. }));
    }
}

#[test]
fn the_alignment_does_not_change_how_four_lanes_and_scalars_load() {
    let types = || [quad(), i32x4(), LlvmType::Integer(32), LlvmType::Float(64)];
    for align in [4u64, 8, 16] {
        for (ty, same) in types().into_iter().zip(types()) {
            let facts = LoadFacts { abi_align: Some(align), ..load_facts(ty, true) };
            assert_eq!(convert_load(facts), convert_load(load_facts(same, true)));
        }
    }
}

#[test]
fn two_lanes_emit_these_operations() {
    let step = |index: usize| Operand::Step(index);
    let word = OpType::Integer(32);
    let rewrite = convert_read_only_i32x2(&[vec![0, 0], vec![0, 1]]);
    assert_eq!(
        rewrite.steps,
        vec![
            Step {
                location: true,
                ..bare(LlvmOp::InlineAsm {
                    instruction: ReadOnlyInstruction::B64,
                    ptr: Operand::Source(0),
                    ty: OpType::Integer(64),
                })
            },
            bare(LlvmOp::Constant { number: apint(32, 64) }),
            bare(LlvmOp::Trunc { value: step(0), ty: word }),
            bare(LlvmOp::LShr { value: step(0), amount: step(1) }),
            bare(LlvmOp::Trunc { value: step(3), ty: word }),
            bare(LlvmOp::Undef { ty: OpType::Lowered }),
            bare(LlvmOp::InsertValue { aggregate: step(5), value: step(2), path: vec![0, 0] }),
            bare(LlvmOp::InsertValue { aggregate: step(6), value: step(4), path: vec![0, 1] }),
        ]
    );
    assert_eq!(rewrite.finish, Finish::ReplaceWithValue(step(7)));
}

#[test]
fn of_two_lanes_those_without_a_path_are_not_placed() {
    let none = convert_read_only_i32x2(&[]);
    assert_eq!(none.steps.len(), 6);
    assert_eq!(none.finish, Finish::ReplaceWithValue(Operand::Step(5)));
    assert_eq!(convert_read_only_i32x2(&[vec![7]]).steps.len(), 7);
    assert_eq!(convert_read_only_i32x2(&[vec![7], vec![8], vec![9]]).steps.len(), 8);
}

#[test]
fn a_stack_slot_holds_one_value_and_nothing_is_stored() {
    let facts: AllocaFacts<&str> = AllocaFacts { pointee: Some(Ok(())), abi_align: Some(16) };
    let rewrite = convert_alloca(facts).expect("a pointer result");
    assert_eq!(
        rewrite,
        Rewrite {
            steps: vec![
                bare(LlvmOp::Constant { number: apint(1, 32) }),
                Step {
                    align: Some(16),
                    local_facts: true,
                    ..bare(LlvmOp::Alloca { ty: OpType::Lowered, count: Operand::Step(0) })
                },
            ],
            finish: Finish::ReplaceWithStep(1),
        }
    );
}

#[test]
fn a_stack_slot_needs_a_pointer_to_a_lowered_type() {
    let facts: AllocaFacts<&str> = AllocaFacts { pointee: None, abi_align: None };
    assert_eq!(convert_alloca(facts), Err(AccessError::AllocaResult));
    let facts = AllocaFacts { pointee: Some(Err("type")), abi_align: None };
    assert_eq!(convert_alloca(facts), Err(AccessError::Rejected("type")));
}

#[test]
fn a_reference_is_an_aligned_slot_that_holds_the_referent() {
    let rewrite = convert_ref(Some(64));
    assert_eq!(
        rewrite,
        Rewrite {
            steps: vec![
                bare(LlvmOp::Constant { number: apint(1, 32) }),
                Step {
                    align: Some(64),
                    ..bare(LlvmOp::Alloca { ty: OpType::Source(0), count: Operand::Step(0) })
                },
                Step {
                    align: Some(64),
                    ..bare(LlvmOp::Store { value: Operand::Source(0), ptr: Operand::Step(1) })
                },
            ],
            finish: Finish::ReplaceWithValue(Operand::Step(1)),
        }
    );
    assert_eq!(convert_ref(None).steps[1].align, None);
    assert_eq!(convert_ref(None).steps[2].align, None);
}

#[test]
fn a_pointer_offset_indexes_elements_of_the_result_type() {
    for inbounds in [false, true] {
        let facts: PtrOffsetFacts<&str> =
            PtrOffsetFacts { pointee: Some(Ok(())), inbounds };
        let rewrite = lower_ptr_offset(2, facts).expect("two operands");
        assert_eq!(
            rewrite,
            Rewrite {
                steps: vec![bare(LlvmOp::GetElementPtr {
                    ptr: Operand::Source(0),
                    index: Operand::Source(1),
                    elem: OpType::Lowered,
                    inbounds,
                })],
                finish: Finish::ReplaceWithStep(0),
            }
        );
    }
}

#[test]
fn a_pointer_offset_reports_what_it_lacks() {
    let facts: PtrOffsetFacts<&str> =
        PtrOffsetFacts { pointee: None, inbounds: false };
    assert_eq!(lower_ptr_offset(1, facts), Err(AccessError::PtrOffsetOperands));
    let facts: PtrOffsetFacts<&str> =
        PtrOffsetFacts { pointee: None, inbounds: false };
    assert_eq!(lower_ptr_offset(2, facts), Err(AccessError::PtrOffsetResult));
    let facts = PtrOffsetFacts { pointee: Some(Err("type")), inbounds: false };
    assert_eq!(lower_ptr_offset(2, facts), Err(AccessError::Rejected("type")));
}

#[test]
fn errors_have_messages_and_locations() {
    let errors: [(AccessError<u8>, Option<&str>, bool); 6] = [
        (
            AccessError::StoreOperands,
            Some("Store operation requires exactly 2 operands"),
            false,
        ),
        (
            AccessError::ReadOnlyType,
            Some(
                "cuda_device::read_only::load requires a primitive 8-, 16-, 32-, or 64-bit \
                 scalar, the I32x4 aggregate shape, or the I32x2 aggregate shape with 8-byte \
                 alignment",
            ),
            false,
        ),
        (
            AccessError::AllocaResult,
            Some("MirAllocaOp result must be MirPtrType (enforced by verifier)"),
            false,
        ),
        (
            AccessError::PtrOffsetOperands,
            Some("PtrOffset requires exactly 2 operands"),
            true,
        ),
        (
            AccessError::PtrOffsetResult,
            Some(
                "mir.ptr_offset result must be a MIR pointer type; \
                 element sizing has no fact to derive from",
            ),
            true,
        ),
        (AccessError::Rejected(7), None, false),
    ];
    for (error, message, located) in errors {
        assert_eq!(error.message(), message);
        assert_eq!(error.located(), located);
    }
}

#[test]
fn instructions_have_their_assembly() {
    let expected = [
        (ReadOnlyInstruction::U8, "ld.global.nc.u8 $0, [$1];", "=r,l"),
        (ReadOnlyInstruction::U16, "ld.global.nc.u16 $0, [$1];", "=r,l"),
        (ReadOnlyInstruction::B32, "ld.global.nc.b32 $0, [$1];", "=r,l"),
        (ReadOnlyInstruction::B64, "ld.global.nc.b64 $0, [$1];", "=l,l"),
        (ReadOnlyInstruction::F32, "ld.global.nc.f32 $0, [$1];", "=f,l"),
        (ReadOnlyInstruction::F64, "ld.global.nc.f64 $0, [$1];", "=d,l"),
        (ReadOnlyInstruction::V2U64, "ld.global.nc.v2.u64 {$0, $1}, [$2];", "=l,=l,l"),
    ];
    for (instruction, template, constraints) in expected {
        assert_eq!(instruction.template(), template);
        assert_eq!(instruction.constraints(), constraints);
    }
}

#[test]
fn constants_have_their_value_and_width() {
    assert_eq!(one_i32().bw(), 32);
    assert_eq!(one_i32().to_u64(), 1);
    assert_eq!(lane_shift().bw(), 64);
    assert_eq!(lane_shift().to_u64(), 32);
}

#[test]
fn a_constant_attribute_is_a_signless_integer_of_its_value() {
    let mut ctx = Context::new();
    let attr = constant_attribute(&mut ctx, lane_shift()).expect("64 bits fit an integer type");
    assert_eq!(attr.value(), lane_shift());
    let ty = attr.get_type();
    assert_eq!(ty.deref(&ctx).width(), 64);
    assert!(ty.deref(&ctx).is_signless());
    let one = constant_attribute(&mut ctx, one_i32()).expect("32 bits fit an integer type");
    assert_eq!(one.get_type().deref(&ctx).width(), 32);
    assert_eq!(one.value().to_i64(), 1);
}
