//! The lowered types that a read-only load can move.

use pliron::builtin::types::IntegerType;
use pliron::utils::apfloat::Semantics;
use vstd::prelude::*;

verus! {

/// pliron's integer type, taken as an opaque value.
#[verifier::external_type_specification]
#[verifier::external_body]
pub struct ExIntegerType(pliron::builtin::types::IntegerType);

/// pliron's description of a floating-point format, taken as an opaque value.
#[verifier::external_type_specification]
#[verifier::external_body]
pub struct ExSemantics(pliron::utils::apfloat::Semantics);

/// The width of a pliron integer type, as [`IntegerType::width`] reports it.
pub uninterp spec fn integer_type_width(ty: IntegerType) -> u32;

/// The number of bits in a value of a floating-point format, as the `bits` field of
/// pliron's [`Semantics`] records it.
pub uninterp spec fn semantics_bits(semantics: Semantics) -> usize;

/// `IntegerType::width` reads the width that the type was made with. The type has no
/// operation that changes it, so every call on one type gives one answer.
pub assume_specification[ IntegerType::width ](ty: &IntegerType) -> (width: u32)
    ensures
        width == integer_type_width(*ty),
;

/// Reads the public field `Semantics::bits`.
#[verifier::external_body]
fn float_bits(semantics: &Semantics) -> (bits: usize)
    ensures
        bits == semantics_bits(*semantics),
{
    semantics.bits
}

/// How the fields of an aggregate are placed.
#[derive(Clone, Copy, PartialEq, Eq, Structural, Debug)]
pub enum StructLayout {
    /// Each field at its natural alignment.
    Unpacked,
    /// Each field directly behind the one before it.
    Packed,
}

/// The shape of a lowered type, as far as selecting an access needs it.
#[derive(PartialEq, Eq, Debug)]
pub enum LlvmType {
    /// An integer of a width in bits.
    Integer(u32),
    /// A floating-point number of a width in bits.
    Float(usize),
    /// `size` values of one element type.
    Array { size: u64, elem: Box<LlvmType> },
    /// Fields in declaration order.
    Struct { layout: StructLayout, fields: Vec<LlvmType> },
    /// Any other type.
    Other,
}

/// The primitive scalars that CUDA's read-only cache instruction moves, with their
/// width in bits.
#[derive(Clone, Copy, PartialEq, Eq, Structural, Debug)]
pub enum ReadOnlyScalarKind {
    Integer(u32),
    Float(u32),
}

impl ReadOnlyScalarKind {
    /// Whether an instruction exists for this scalar.
    pub open spec fn supported(self) -> bool {
        match self {
            ReadOnlyScalarKind::Integer(width) => width == 8 || width == 16 || width == 32 || width
                == 64,
            ReadOnlyScalarKind::Float(width) => width == 32 || width == 64,
        }
    }

    /// The width in bits.
    pub open spec fn width(self) -> nat {
        match self {
            ReadOnlyScalarKind::Integer(width) => width as nat,
            ReadOnlyScalarKind::Float(width) => width as nat,
        }
    }
}

/// The shape of a type from what pliron knows of it: an integer type, failing that a
/// floating-point format, failing both nothing that a scalar access can move.
pub open spec fn scalar_shape(integer: Option<IntegerType>, float: Option<Semantics>) -> LlvmType {
    match (integer, float) {
        (Some(integer), _) => LlvmType::Integer(integer_type_width(integer)),
        (None, Some(semantics)) => LlvmType::Float(semantics_bits(semantics)),
        (None, None) => LlvmType::Other,
    }
}

/// The scalar kind of a type: the supported integers and floating-point numbers have
/// one, every other type has none.
pub open spec fn scalar_kind(ty: LlvmType) -> Option<ReadOnlyScalarKind> {
    match ty {
        LlvmType::Integer(width) => if ReadOnlyScalarKind::Integer(width).supported() {
            Some(ReadOnlyScalarKind::Integer(width))
        } else {
            None
        },
        LlvmType::Float(bits) => if bits == 32 || bits == 64 {
            Some(ReadOnlyScalarKind::Float(bits as u32))
        } else {
            None
        },
        _ => None,
    }
}

/// Whether a type is the 32-bit integer.
pub open spec fn is_i32_type(ty: LlvmType) -> bool {
    ty == LlvmType::Integer(32)
}

/// Whether a type is an array of `count` 32-bit integers.
pub open spec fn is_i32_array(ty: LlvmType, count: nat) -> bool {
    match ty {
        LlvmType::Array { size, elem } => size == count && is_i32_type(*elem),
        _ => false,
    }
}

/// Lane `k` at index `k` of the aggregate.
pub open spec fn flat_lanes(count: nat) -> Seq<Seq<u32>> {
    Seq::new(count, |lane: int| seq![lane as u32])
}

/// Lane `k` at index `k` of the aggregate's only field.
pub open spec fn nested_lanes(count: nat) -> Seq<Seq<u32>> {
    Seq::new(count, |lane: int| seq![0u32, lane as u32])
}

/// Where the lanes of a type that holds `count` 32-bit integers lie: an array of them, an
/// unpacked structure of them, or an unpacked structure of one such array.
pub open spec fn i32_lanes(ty: LlvmType, count: nat) -> Option<Seq<Seq<u32>>> {
    match ty {
        LlvmType::Array { .. } => if is_i32_array(ty, count) {
            Some(flat_lanes(count))
        } else {
            None
        },
        LlvmType::Struct { layout: StructLayout::Unpacked, fields } => {
            if fields@.len() == count && (forall|i: int|
                0 <= i < count ==> #[trigger] is_i32_type(fields@[i])) {
                Some(flat_lanes(count))
            } else if fields@.len() == 1 && is_i32_array(fields@[0], count) {
                Some(nested_lanes(count))
            } else {
                None
            }
        },
        _ => None,
    }
}

/// Where the four lanes of a type with the shape of `I32x4` lie.
pub open spec fn i32x4_lanes(ty: LlvmType) -> Option<Seq<Seq<u32>>> {
    i32_lanes(ty, 4)
}

/// Where the two lanes of a type with the shape of `I32x2` lie.
pub open spec fn i32x2_lanes(ty: LlvmType) -> Option<Seq<Seq<u32>>> {
    i32_lanes(ty, 2)
}

/// The paths in a vector of vectors.
pub open spec fn paths_view(paths: Seq<Vec<u32>>) -> Seq<Seq<u32>> {
    Seq::new(paths.len(), |i: int| paths[i]@)
}

/// Describe a type by what pliron knows of it.
pub fn scalar_type(integer: Option<&IntegerType>, float: Option<&Semantics>) -> (ty: LlvmType)
    ensures
        ty == scalar_shape(
            match integer {
                Some(integer) => Some(*integer),
                None => None,
            },
            match float {
                Some(float) => Some(*float),
                None => None,
            },
        ),
{
    if let Some(integer) = integer {
        return LlvmType::Integer(integer.width());
    }
    match float {
        Some(semantics) => LlvmType::Float(float_bits(semantics)),
        None => LlvmType::Other,
    }
}

/// Classify the primitive scalars that CUDA's read-only cache instruction supports.
///
/// Smaller integers are loaded into a 32-bit register and truncated back to their value
/// type; this preserves their bit pattern without giving the compiler permission to read
/// adjacent bytes.
pub fn read_only_scalar_kind(ty: &LlvmType) -> (kind: Option<ReadOnlyScalarKind>)
    ensures
        kind == scalar_kind(*ty),
{
    match ty {
        LlvmType::Integer(width) => {
            if *width == 8 || *width == 16 || *width == 32 || *width == 64 {
                Some(ReadOnlyScalarKind::Integer(*width))
            } else {
                None
            }
        },
        LlvmType::Float(bits) => {
            if *bits > u32::MAX as usize {
                return None;
            }
            let width: u32 = *bits as u32;
            if width == 32 || width == 64 {
                Some(ReadOnlyScalarKind::Float(width))
            } else {
                None
            }
        },
        _ => None,
    }
}

fn is_i32(ty: &LlvmType) -> (yes: bool)
    ensures
        yes == is_i32_type(*ty),
{
    match ty {
        LlvmType::Integer(width) => *width == 32,
        _ => false,
    }
}

fn is_array(ty: &LlvmType, count: u32) -> (yes: bool)
    ensures
        yes == is_i32_array(*ty, count as nat),
{
    match ty {
        LlvmType::Array { size, elem } => *size == count as u64 && is_i32(elem),
        _ => false,
    }
}

/// Whether every field is a 32-bit integer.
fn all_i32(fields: &Vec<LlvmType>) -> (yes: bool)
    ensures
        yes == (forall|i: int| 0 <= i < fields@.len() ==> #[trigger] is_i32_type(fields@[i])),
{
    let mut i: usize = 0;
    while i < fields.len()
        invariant
            i <= fields@.len(),
            forall|j: int| 0 <= j < i ==> #[trigger] is_i32_type(fields@[j]),
        decreases fields@.len() - i,
    {
        if !is_i32(&fields[i]) {
            assert(!is_i32_type(fields@[i as int]));
            return false;
        }
        i = i + 1;
    }
    true
}

/// `count` lane paths, each behind `prefix`.
fn lanes_behind(prefix: Option<u32>, count: u32) -> (paths: Vec<Vec<u32>>)
    ensures
        paths_view(paths@) == match prefix {
            None => flat_lanes(count as nat),
            Some(field) => Seq::new(count as nat, |lane: int| seq![field, lane as u32]),
        },
{
    let mut paths: Vec<Vec<u32>> = Vec::new();
    let mut lane: u32 = 0;
    while lane < count
        invariant
            lane <= count,
            paths@.len() == lane,
            forall|i: int|
                0 <= i < lane ==> #[trigger] paths@[i]@ == match prefix {
                    None => seq![i as u32],
                    Some(field) => seq![field, i as u32],
                },
        decreases count - lane,
    {
        let mut path: Vec<u32> = Vec::new();
        if let Some(field) = prefix {
            path.push(field);
        }
        path.push(lane);
        assert(path@ == match prefix {
            None => seq![lane],
            Some(field) => seq![field, lane],
        });
        paths.push(path);
        lane = lane + 1;
    }
    paths
}

/// The lane paths of a type that holds `count` 32-bit integers.
fn lane_paths(ty: &LlvmType, count: u32) -> (paths: Option<Vec<Vec<u32>>>)
    ensures
        match paths {
            Some(paths) => Some(paths_view(paths@)),
            None => None,
        } == i32_lanes(*ty, count as nat),
{
    match ty {
        LlvmType::Array { .. } => {
            if is_array(ty, count) {
                Some(lanes_behind(None, count))
            } else {
                None
            }
        },
        LlvmType::Struct { layout, fields } => {
            if *layout != StructLayout::Unpacked {
                return None;
            }
            if fields.len() == count as usize && all_i32(fields) {
                return Some(lanes_behind(None, count));
            }
            if fields.len() == 1 && is_array(&fields[0], count) {
                return Some(lanes_behind(Some(0), count));
            }
            None
        },
        _ => None,
    }
}

/// Recognize the lowered shape of the over-aligned `I32x4`.
///
/// The type holds one array of four 32-bit integers. Accepting the equivalent flat
/// four-field shape couples the access to the value's lanes instead of to one incidental
/// nesting of aggregates.
pub fn read_only_i32x4_paths(ty: &LlvmType) -> (paths: Option<Vec<Vec<u32>>>)
    ensures
        match paths {
            Some(paths) => Some(paths_view(paths@)),
            None => None,
        } == i32x4_lanes(*ty),
{
    lane_paths(ty, 4)
}

/// Recognize the lowered shape of the over-aligned `I32x2`, nested or flat.
pub fn read_only_i32x2_paths(ty: &LlvmType) -> (paths: Option<Vec<Vec<u32>>>)
    ensures
        match paths {
            Some(paths) => Some(paths_view(paths@)),
            None => None,
        } == i32x2_lanes(*ty),
{
    lane_paths(ty, 2)
}

/// The type that an index path leads to.
pub open spec fn element_type(ty: LlvmType, path: Seq<u32>) -> Option<LlvmType>
    decreases path.len(),
{
    if path.len() == 0 {
        Some(ty)
    } else {
        match ty {
            LlvmType::Array { size, elem } => if path[0] < size {
                element_type(*elem, path.drop_first())
            } else {
                None
            },
            LlvmType::Struct { layout, fields } => if path[0] < fields@.len() {
                element_type(fields@[path[0] as int], path.drop_first())
            } else {
                None
            },
            _ => None,
        }
    }
}

/// Whether an index path leads to a value that is no aggregate.
pub open spec fn is_scalar_path(ty: LlvmType, path: Seq<u32>) -> bool {
    match element_type(ty, path) {
        Some(element) => !(element is Array) && !(element is Struct),
        None => false,
    }
}

/// Whether one index path comes before another: the elements of an aggregate lie in
/// memory in the order of their indices.
pub open spec fn path_before(left: Seq<u32>, right: Seq<u32>) -> bool
    decreases left.len(),
{
    if left.len() == 0 || right.len() == 0 {
        left.len() < right.len()
    } else if left[0] == right[0] {
        path_before(left.drop_first(), right.drop_first())
    } else {
        left[0] < right[0]
    }
}

/// The lanes of a type that holds a positive number of 32-bit integers are its scalars, all
/// of them and nothing else, each a 32-bit integer, in the order in which they lie in
/// memory.
pub proof fn law_i32_lanes_are_the_scalars_in_order(ty: LlvmType, count: nat)
    requires
        0 < count <= u32::MAX,
        i32_lanes(ty, count) is Some,
    ensures
        ({
            let paths = i32_lanes(ty, count)->0;
            &&& paths.len() == count
            &&& paths.no_duplicates()
            &&& forall|i: int, j: int|
                0 <= i < j < count ==> path_before(#[trigger] paths[i], #[trigger] paths[j])
            &&& forall|i: int|
                0 <= i < count ==> element_type(ty, #[trigger] paths[i]) == Some(LlvmType::Integer(32))
            &&& forall|path: Seq<u32>|
                #[trigger] is_scalar_path(ty, path) <==> paths.contains(path)
        }),
{
    reveal_with_fuel(element_type, 4);
    reveal_with_fuel(path_before, 4);
    let paths = i32_lanes(ty, count)->0;
    let depth: nat = paths[0].len();
    assert forall|i: int| 0 <= i < count implies element_type(ty, #[trigger] paths[i]) == Some(
        LlvmType::Integer(32),
    ) by {
        let path = paths[i];
        if depth == 2 {
            assert(path.drop_first() =~= seq![i as u32]);
            assert(path.drop_first().drop_first() =~= Seq::empty());
        } else {
            assert(path.drop_first() =~= Seq::empty());
            if ty is Struct {
                assert(is_i32_type(ty->fields@[i]));
            }
        }
    }
    assert forall|i: int, j: int| 0 <= i < j < count implies path_before(
        #[trigger] paths[i],
        #[trigger] paths[j],
    ) by {
        if depth == 2 {
            assert(paths[i].drop_first() =~= seq![i as u32]);
            assert(paths[j].drop_first() =~= seq![j as u32]);
        }
    }
    assert(paths.no_duplicates()) by {
        assert forall|i: int, j: int| 0 <= i < count && 0 <= j < count && i != j implies paths[i]
            != paths[j] by {
            assert(paths[i].last() == i as u32);
            assert(paths[j].last() == j as u32);
        }
    }
    assert forall|path: Seq<u32>|
        #[trigger] is_scalar_path(ty, path) <==> paths.contains(path) by {
        if is_scalar_path(ty, path) {
            assert(path.len() > 0);
            if depth == 2 {
                let rest = path.drop_first();
                assert(path[0] == 0);
                assert(is_i32_array(ty->fields@[0], count));
                assert(element_type(ty->fields@[0], rest) is Some);
                assert(rest.len() > 0);
                assert(rest.drop_first().len() == 0);
                assert(path =~= paths[path[1] as int]);
            } else {
                if ty is Struct {
                    assert(is_i32_type(ty->fields@[path[0] as int]));
                }
                assert(path.drop_first().len() == 0);
                assert(path =~= paths[path[0] as int]);
            }
        } else if paths.contains(path) {
            let i = choose|i: int| 0 <= i < paths.len() && paths[i] == path;
            assert(element_type(ty, paths[i]) == Some(LlvmType::Integer(32)));
        }
    }
}

/// How many bits a value of a type has, where its parts lie directly behind each other.
pub open spec fn type_bits(ty: LlvmType) -> nat
    decreases ty,
{
    match ty {
        LlvmType::Integer(width) => width as nat,
        LlvmType::Float(bits) => bits as nat,
        LlvmType::Array { size, elem } => size as nat * type_bits(*elem),
        LlvmType::Struct { layout, fields } => fields_bits(fields@),
        LlvmType::Other => 0,
    }
}

/// How many bits a sequence of fields has.
pub open spec fn fields_bits(fields: Seq<LlvmType>) -> nat
    decreases fields,
{
    if fields.len() == 0 {
        0
    } else {
        type_bits(fields[0]) + fields_bits(fields.drop_first())
    }
}

/// How many bits of a value come before the part that an index path leads to.
pub open spec fn bit_offset(ty: LlvmType, path: Seq<u32>) -> nat
    decreases path.len(),
{
    if path.len() == 0 {
        0
    } else {
        match ty {
            LlvmType::Array { size, elem } => path[0] as nat * type_bits(*elem) + bit_offset(
                *elem,
                path.drop_first(),
            ),
            LlvmType::Struct { layout, fields } => fields_bits(fields@.take(path[0] as int))
                + bit_offset(fields@[path[0] as int], path.drop_first()),
            _ => 0,
        }
    }
}

/// Whether a type is an array of `count` 32-bit integers, an unpacked structure of `count`
/// such fields, or an unpacked structure whose one field is such an array.
pub open spec fn holds_words(ty: LlvmType, count: nat) -> bool {
    match ty {
        LlvmType::Array { size, elem } => size == count && *elem == LlvmType::Integer(32),
        LlvmType::Struct { layout, fields } => {
            &&& layout == StructLayout::Unpacked
            &&& {
                ||| fields@ == Seq::new(count, |i: int| LlvmType::Integer(32))
                ||| fields@.len() == 1 && (fields@[0] matches LlvmType::Array { size, elem }
                    && size == count && *elem == LlvmType::Integer(32))
            }
        },
        _ => false,
    }
}

proof fn lemma_words_bits(fields: Seq<LlvmType>)
    requires
        forall|i: int| 0 <= i < fields.len() ==> #[trigger] fields[i] == LlvmType::Integer(32),
    ensures
        fields_bits(fields) == 32 * fields.len(),
    decreases fields.len(),
{
    if fields.len() > 0 {
        let rest = fields.drop_first();
        assert(fields[0] == LlvmType::Integer(32));
        assert forall|i: int| 0 <= i < rest.len() implies #[trigger] rest[i] == LlvmType::Integer(
            32,
        ) by {
            assert(rest[i] == fields[i + 1]);
        }
        lemma_words_bits(rest);
        assert(type_bits(fields[0]) == 32);
    }
}

/// A type has lanes exactly where it holds that many words. It then has their bits, and each
/// lane lies behind the lanes before it.
pub proof fn law_lanes_lie_side_by_side(ty: LlvmType, count: nat)
    requires
        0 < count <= u32::MAX,
    ensures
        i32_lanes(ty, count) is Some <==> holds_words(ty, count),
        i32_lanes(ty, count) matches Some(paths) ==> {
            &&& type_bits(ty) == 32 * count
            &&& forall|lane: int|
                0 <= lane < count ==> bit_offset(ty, #[trigger] paths[lane]) == 32 * lane
        },
{
    if let LlvmType::Array { size, elem } = ty {
        if holds_words(ty, count) {
            lemma_array_of_words(ty, count);
        }
    }
    if let LlvmType::Struct { layout, fields } = ty {
        let words = Seq::new(count, |i: int| LlvmType::Integer(32));
        if fields@.len() == count && (forall|i: int|
            0 <= i < count ==> #[trigger] is_i32_type(fields@[i])) {
            assert forall|i: int| 0 <= i < count implies fields@[i] == LlvmType::Integer(32) by {
                assert(is_i32_type(fields@[i]));
            }
            assert(fields@ =~= words);
            lemma_words_bits(fields@);
            assert(type_bits(ty) == fields_bits(fields@));
            assert forall|lane: int| 0 <= lane < count implies bit_offset(
                ty,
                #[trigger] flat_lanes(count)[lane],
            ) == 32 * lane by {
                let path = seq![lane as u32];
                assert(path.drop_first() =~= Seq::empty());
                lemma_words_bits(fields@.take(lane));
                assert(bit_offset(fields@[lane], path.drop_first()) == 0);
            }
        } else {
            if fields@ == words {
                assert forall|i: int| 0 <= i < count implies #[trigger] is_i32_type(fields@[i]) by {
                    assert(words[i] == LlvmType::Integer(32));
                }
            }
            if fields@.len() == 1 && is_i32_array(fields@[0], count) {
                lemma_array_of_words(fields@[0], count);
                assert(fields_bits(fields@.drop_first()) == 0);
                assert(fields_bits(fields@) == type_bits(fields@[0]));
                assert(type_bits(ty) == fields_bits(fields@));
                assert(fields_bits(fields@.take(0)) == 0);
                assert forall|lane: int| 0 <= lane < count implies bit_offset(
                    ty,
                    #[trigger] nested_lanes(count)[lane],
                ) == 32 * lane by {
                    let path = seq![0u32, lane as u32];
                    assert(path.drop_first() =~= flat_lanes(count)[lane]);
                    assert(fields@.take(path[0] as int) =~= fields@.take(0));
                }
            }
        }
    }
}

proof fn lemma_array_of_words(ty: LlvmType, count: nat)
    requires
        is_i32_array(ty, count),
        count <= u32::MAX,
    ensures
        type_bits(ty) == 32 * count,
        forall|lane: int|
            0 <= lane < count ==> bit_offset(ty, #[trigger] flat_lanes(count)[lane]) == 32 * lane,
{
    let elem = *ty->elem;
    assert(type_bits(elem) == 32);
    assert(type_bits(ty) == count * type_bits(elem));
    assert forall|lane: int| 0 <= lane < count implies bit_offset(
        ty,
        #[trigger] flat_lanes(count)[lane],
    ) == 32 * lane by {
        let path = seq![lane as u32];
        assert(path.drop_first() =~= Seq::empty());
        assert(bit_offset(elem, path.drop_first()) == 0);
    }
}

/// The scalars that an instruction moves are the integers of 8, 16, 32 and 64 bits and the
/// floating-point numbers of 32 and 64 bits, and each keeps its width and what it is.
pub proof fn law_scalar_kind_is_that_of_its_type(ty: &LlvmType, kind: Option<ReadOnlyScalarKind>)
    requires
        call_ensures(read_only_scalar_kind, (ty,), kind),
    ensures
        kind is Some <==> {
            ||| ty matches LlvmType::Integer(width) && (width == 8 || width == 16 || width == 32
                || width == 64)
            ||| ty matches LlvmType::Float(bits) && (bits == 32 || bits == 64)
        },
        kind matches Some(ReadOnlyScalarKind::Integer(width)) ==> *ty == LlvmType::Integer(width),
        kind matches Some(ReadOnlyScalarKind::Float(width)) ==> (ty matches LlvmType::Float(bits)
            && bits == width),
        kind matches Some(kind) ==> kind.width() == type_bits(*ty),
{
}

/// Whether paths lead to the words of a type, all of them in the order in which they lie.
pub open spec fn lead_to_words(ty: LlvmType, paths: Seq<Vec<u32>>) -> bool {
    &&& 32 * paths.len() == type_bits(ty)
    &&& forall|lane: int|
        0 <= lane < paths.len() ==> {
            &&& element_type(ty, #[trigger] paths[lane]@) == Some(LlvmType::Integer(32))
            &&& bit_offset(ty, paths[lane]@) == 32 * lane
        }
}

/// Exactly the types that hold four words have paths, and the paths lead to those words in
/// the order in which they lie.
pub proof fn law_i32x4_paths_lead_to_four_words(ty: &LlvmType, paths: Option<Vec<Vec<u32>>>)
    requires
        call_ensures(read_only_i32x4_paths, (ty,), paths),
    ensures
        paths is Some <==> holds_words(*ty, 4),
        paths matches Some(paths) ==> paths@.len() == 4 && lead_to_words(*ty, paths@),
{
    law_lanes_lie_side_by_side(*ty, 4);
    if let Some(paths) = paths {
        law_i32_lanes_are_the_scalars_in_order(*ty, 4);
        let lanes = i32x4_lanes(*ty)->0;
        assert(lanes == paths_view(paths@));
        assert forall|lane: int| 0 <= lane < 4 implies #[trigger] paths@[lane]@ == lanes[lane] by {}
    }
}

/// Exactly the types that hold two words have paths, and the paths lead to those words in
/// the order in which they lie.
pub proof fn law_i32x2_paths_lead_to_two_words(ty: &LlvmType, paths: Option<Vec<Vec<u32>>>)
    requires
        call_ensures(read_only_i32x2_paths, (ty,), paths),
    ensures
        paths is Some <==> holds_words(*ty, 2),
        paths matches Some(paths) ==> paths@.len() == 2 && lead_to_words(*ty, paths@),
{
    law_lanes_lie_side_by_side(*ty, 2);
    if let Some(paths) = paths {
        law_i32_lanes_are_the_scalars_in_order(*ty, 2);
        let lanes = i32x2_lanes(*ty)->0;
        assert(lanes == paths_view(paths@));
        assert forall|lane: int| 0 <= lane < 2 implies #[trigger] paths@[lane]@ == lanes[lane] by {}
    }
}

/// A type is described by the width of its integer type, failing that by the bits of its
/// floating-point format, and is otherwise no scalar.
pub proof fn law_scalar_type_has_the_width_of_its_source(
    integer: Option<&IntegerType>,
    float: Option<&Semantics>,
    ty: LlvmType,
)
    requires
        call_ensures(scalar_type, (integer, float), ty),
    ensures
        integer matches Some(integer) ==> ty == LlvmType::Integer(integer_type_width(*integer)),
        integer is None ==> (float matches Some(float) ==> ty == LlvmType::Float(
            semantics_bits(*float),
        )),
        integer is None && float is None ==> ty == LlvmType::Other,
{
}

} // verus!
