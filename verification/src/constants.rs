//! Integer constants of the lowered program.

use pliron::builtin::attributes::IntegerAttr;
use pliron::builtin::types::IntegerType;
use pliron::builtin::types::Signedness;
use pliron::context::Context;
use pliron::utils::apint::APInt;
use std::num::NonZeroUsize;
use vstd::prelude::*;
use crate::bits::digits;

verus! {

/// pliron's integer of arbitrary precision, taken as an opaque value.
#[verifier::external_type_specification]
#[verifier::external_body]
pub struct ExAPInt(pliron::utils::apint::APInt);

/// pliron's integer attribute, taken as an opaque value.
#[verifier::external_type_specification]
#[verifier::external_body]
pub struct ExIntegerAttr(pliron::builtin::attributes::IntegerAttr);

/// pliron's store of types and operations, taken as an opaque value.
#[verifier::external_type_specification]
#[verifier::external_body]
pub struct ExContext(pliron::context::Context);

/// The binary digits that an [`APInt`] holds, least significant first.
pub uninterp spec fn apint_digits(value: APInt) -> Seq<bool>;

/// The binary digits of an integer attribute's value, least significant first.
pub uninterp spec fn integer_attr_digits(attr: IntegerAttr) -> Seq<bool>;

/// The type of an integer attribute that was made in `ctx`: its width, and whether it is
/// signless.
pub uninterp spec fn integer_attr_type(ctx: Context, attr: IntegerAttr) -> (u32, bool);

/// `APInt::bw` is the number of binary digits that the integer holds.
pub assume_specification[ APInt::bw ](value: &APInt) -> (width: usize)
    ensures
        width == apint_digits(*value).len(),
;

/// `APInt::from_u64` keeps the lowest `width` binary digits of an unsigned value.
///
/// A width of zero does not exist, and none above the value's own width is asked for.
#[verifier::external_body]
fn apint_from_u64(value: u64, width: usize) -> (number: APInt)
    requires
        0 < width <= 64,
    ensures
        apint_digits(number) == digits(value as int, width as nat),
{
    APInt::from_u64(value, NonZeroUsize::new(width).expect("a width is positive"))
}

/// `APInt::from_i64` keeps the lowest `width` two's-complement digits of a signed value.
///
/// A width of zero does not exist, and none above the value's own width is asked for.
#[verifier::external_body]
fn apint_from_i64(value: i64, width: usize) -> (number: APInt)
    requires
        0 < width <= 64,
    ensures
        apint_digits(number) == digits(value as int, width as nat),
{
    APInt::from_i64(value, NonZeroUsize::new(width).expect("a width is positive"))
}

/// `IntegerAttr::new` on the signless type that `IntegerType::get` finds or makes in
/// `ctx`: the attribute has that type and the digits it was given.
///
/// Finding the type borrows the types that `ctx` already holds. The context is taken
/// mutably, so no borrow of one of them is alive meanwhile. The context gains at most that
/// type; what it held before is opaque here, so the contract does not say that it stays.
#[verifier::external_body]
fn integer_attr(ctx: &mut Context, width: u32, value: APInt) -> (attr: IntegerAttr)
    ensures
        integer_attr_digits(attr) == apint_digits(value),
        integer_attr_type(*final(ctx), attr) == (width, true),
{
    IntegerAttr::new(IntegerType::get(ctx, width, Signedness::Signless), value)
}

/// The 32-bit number one, the element count of a single stack slot.
pub fn one_i32() -> (number: APInt)
    ensures
        apint_digits(number) == digits(1, 32),
{
    apint_from_i64(1, 32)
}

/// The 64-bit number 32, the distance between the two lanes of a 64-bit word.
pub fn lane_shift() -> (number: APInt)
    ensures
        apint_digits(number) == digits(32, 64),
{
    apint_from_u64(32, 64)
}

/// The attribute of an integer constant: a signless integer as wide as the value.
///
/// There is none for a value that is too wide for an integer type, and the context is then
/// left alone.
pub fn constant_attribute(ctx: &mut Context, value: APInt) -> (attr: Option<IntegerAttr>)
    ensures
        attr is Some <==> apint_digits(value).len() <= u32::MAX,
        attr is None ==> *final(ctx) == *old(ctx),
        attr matches Some(attr) ==> {
            &&& integer_attr_digits(attr) == apint_digits(value)
            &&& integer_attr_type(*final(ctx), attr) == (apint_digits(value).len() as u32, true)
        },
{
    let width: usize = value.bw();
    if width > u32::MAX as usize {
        return None;
    }
    Some(integer_attr(ctx, width as u32, value))
}

} // verus!
