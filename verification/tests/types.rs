use cuda_memory::types::{
    read_only_i32x2_paths, read_only_i32x4_paths, read_only_scalar_kind, scalar_type, LlvmType,
    ReadOnlyScalarKind, StructLayout,
};
use pliron::builtin::type_interfaces::FloatTypeInterface;
use pliron::builtin::types::{BF16Type, FP16Type, FP32Type, FP64Type, IntegerType, Signedness};
use pliron::context::Context;

fn quad() -> LlvmType {
    LlvmType::Array { size: 4, elem: Box::new(LlvmType::Integer(32)) }
}

fn structure(layout: StructLayout, fields: Vec<LlvmType>) -> LlvmType {
    LlvmType::Struct { layout, fields }
}

#[test]
fn an_integer_type_is_described_by_its_width() {
    let ctx = Context::new();
    for width in [1u32, 8, 32, 64, 128] {
        let ty = IntegerType::get(&ctx, width, Signedness::Signless);
        assert_eq!(scalar_type(Some(&*ty.deref(&ctx)), None), LlvmType::Integer(width));
    }
}

#[test]
fn an_integer_type_answers_before_a_float_format() {
    let ctx = Context::new();
    let ty = IntegerType::get(&ctx, 16, Signedness::Signed);
    let format = FP64Type.get_semantics();
    assert_eq!(scalar_type(Some(&*ty.deref(&ctx)), Some(&format)), LlvmType::Integer(16));
}

#[test]
fn a_float_format_is_described_by_its_bits() {
    assert_eq!(scalar_type(None, Some(&FP32Type.get_semantics())), LlvmType::Float(32));
    assert_eq!(scalar_type(None, Some(&FP64Type.get_semantics())), LlvmType::Float(64));
    assert_eq!(scalar_type(None, Some(&FP16Type.get_semantics())), LlvmType::Float(16));
    assert_eq!(scalar_type(None, Some(&BF16Type.get_semantics())), LlvmType::Float(16));
}

#[test]
fn a_type_that_is_neither_is_other() {
    assert_eq!(scalar_type(None, None), LlvmType::Other);
}

#[test]
fn supported_scalars_have_a_kind() {
    for width in [8u32, 16, 32, 64] {
        assert_eq!(
            read_only_scalar_kind(&LlvmType::Integer(width)),
            Some(ReadOnlyScalarKind::Integer(width))
        );
    }
    assert_eq!(
        read_only_scalar_kind(&LlvmType::Float(32)),
        Some(ReadOnlyScalarKind::Float(32))
    );
    assert_eq!(
        read_only_scalar_kind(&LlvmType::Float(64)),
        Some(ReadOnlyScalarKind::Float(64))
    );
}

#[test]
fn other_scalars_have_no_kind() {
    for width in [0u32, 1, 7, 24, 33, 128] {
        assert_eq!(read_only_scalar_kind(&LlvmType::Integer(width)), None);
    }
    for bits in [0usize, 16, 80, 128, 0x1_0000_0020] {
        assert_eq!(read_only_scalar_kind(&LlvmType::Float(bits)), None);
    }
    assert_eq!(read_only_scalar_kind(&LlvmType::Other), None);
    assert_eq!(read_only_scalar_kind(&quad()), None);
}

#[test]
fn an_array_of_four_has_flat_lanes() {
    assert_eq!(
        read_only_i32x4_paths(&quad()),
        Some(vec![vec![0], vec![1], vec![2], vec![3]])
    );
}

#[test]
fn four_fields_have_flat_lanes() {
    let fields: Vec<LlvmType> = (0..4).map(|_| LlvmType::Integer(32)).collect();
    assert_eq!(
        read_only_i32x4_paths(&structure(StructLayout::Unpacked, fields)),
        Some(vec![vec![0], vec![1], vec![2], vec![3]])
    );
}

#[test]
fn an_array_in_a_field_has_nested_lanes() {
    assert_eq!(
        read_only_i32x4_paths(&structure(StructLayout::Unpacked, vec![quad()])),
        Some(vec![vec![0, 0], vec![0, 1], vec![0, 2], vec![0, 3]])
    );
}

#[test]
fn other_aggregates_have_no_lanes() {
    let int = || LlvmType::Integer(32);
    assert_eq!(read_only_i32x4_paths(&LlvmType::Integer(32)), None);
    assert_eq!(read_only_i32x4_paths(&LlvmType::Other), None);
    assert_eq!(
        read_only_i32x4_paths(&LlvmType::Array { size: 3, elem: Box::new(int()) }),
        None
    );
    assert_eq!(
        read_only_i32x4_paths(&LlvmType::Array {
            size: 4,
            elem: Box::new(LlvmType::Integer(64))
        }),
        None
    );
    assert_eq!(read_only_i32x4_paths(&structure(StructLayout::Packed, vec![quad()])), None);
    assert_eq!(
        read_only_i32x4_paths(&structure(
            StructLayout::Packed,
            vec![int(), int(), int(), int()]
        )),
        None
    );
    assert_eq!(
        read_only_i32x4_paths(&structure(
            StructLayout::Unpacked,
            vec![int(), int(), LlvmType::Float(32), int()]
        )),
        None
    );
    assert_eq!(
        read_only_i32x4_paths(&structure(StructLayout::Unpacked, vec![int(), int(), int()])),
        None
    );
    assert_eq!(read_only_i32x4_paths(&structure(StructLayout::Unpacked, vec![int()])), None);
    assert_eq!(
        read_only_i32x4_paths(&structure(StructLayout::Unpacked, vec![quad(), int()])),
        None
    );
    assert_eq!(read_only_i32x4_paths(&structure(StructLayout::Unpacked, vec![])), None);
}

fn pair() -> LlvmType {
    LlvmType::Array { size: 2, elem: Box::new(LlvmType::Integer(32)) }
}

#[test]
fn two_lanes_have_the_paths_of_their_shape() {
    let fields = vec![LlvmType::Integer(32), LlvmType::Integer(32)];
    assert_eq!(read_only_i32x2_paths(&pair()), Some(vec![vec![0], vec![1]]));
    assert_eq!(
        read_only_i32x2_paths(&structure(StructLayout::Unpacked, fields)),
        Some(vec![vec![0], vec![1]])
    );
    assert_eq!(
        read_only_i32x2_paths(&structure(StructLayout::Unpacked, vec![pair()])),
        Some(vec![vec![0, 0], vec![0, 1]])
    );
}

#[test]
fn other_types_have_no_two_lanes() {
    let int = || LlvmType::Integer(32);
    let others = [
        int(),
        LlvmType::Integer(64),
        LlvmType::Other,
        quad(),
        LlvmType::Array { size: 1, elem: Box::new(int()) },
        LlvmType::Array { size: 2, elem: Box::new(LlvmType::Float(32)) },
        LlvmType::Array { size: 2, elem: Box::new(LlvmType::Integer(64)) },
        LlvmType::Array { size: 2, elem: Box::new(pair()) },
        structure(StructLayout::Unpacked, vec![]),
        structure(StructLayout::Unpacked, vec![int()]),
        structure(StructLayout::Unpacked, vec![quad()]),
        structure(StructLayout::Unpacked, vec![int(), LlvmType::Float(32)]),
        structure(StructLayout::Unpacked, vec![pair(), int()]),
        structure(StructLayout::Unpacked, vec![int(), int(), int()]),
        structure(StructLayout::Packed, vec![int(), int()]),
        structure(StructLayout::Packed, vec![pair()]),
    ];
    for ty in others {
        assert_eq!(read_only_i32x2_paths(&ty), None);
    }
    assert_eq!(read_only_i32x4_paths(&pair()), None);
}
