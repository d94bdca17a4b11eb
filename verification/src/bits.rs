//! Binary digits of integers, least significant first.

use vstd::arithmetic::power2::lemma2_to64;
use vstd::arithmetic::power2::lemma_pow2_unfold;
use vstd::arithmetic::power2::pow2;
use vstd::prelude::*;

verus! {

/// The lowest `width` binary digits of `value`, least significant first.
///
/// Division rounds down, so a negative value has its two's-complement digits.
pub open spec fn digits(value: int, width: nat) -> Seq<bool>
    decreases width,
{
    if width == 0 {
        Seq::empty()
    } else {
        seq![value % 2 == 1] + digits(value / 2, (width - 1) as nat)
    }
}

/// The number that binary digits stand for.
pub open spec fn number(digits: Seq<bool>) -> nat
    decreases digits.len(),
{
    if digits.len() == 0 {
        0
    } else {
        (if digits[0] {
            1nat
        } else {
            0nat
        }) + 2 * number(digits.drop_first())
    }
}

/// `width` zero digits.
pub open spec fn zeros(width: nat) -> Seq<bool> {
    Seq::new(width, |i: int| false)
}

pub proof fn lemma_digits_len(value: int, width: nat)
    ensures
        digits(value, width).len() == width,
    decreases width,
{
    if width > 0 {
        lemma_digits_len(value / 2, (width - 1) as nat);
    }
}

/// Digits that are enough for a number stand for that number.
pub proof fn lemma_number_of_digits(value: int, width: nat)
    requires
        0 <= value < pow2(width),
    ensures
        number(digits(value, width)) == value,
    decreases width,
{
    if width == 0 {
        lemma2_to64();
    } else {
        let rest = digits(value / 2, (width - 1) as nat);
        lemma_pow2_unfold(width);
        lemma_number_of_digits(value / 2, (width - 1) as nat);
        assert(digits(value, width).drop_first() =~= rest);
    }
}

/// The highest digit of a number below half of what the digits can hold is zero.
pub proof fn lemma_last_digit(value: int, width: nat)
    requires
        width > 0,
        0 <= value < pow2((width - 1) as nat),
    ensures
        !digits(value, width).last(),
    decreases width,
{
    lemma_digits_len(value, width);
    if width == 1 {
        lemma2_to64();
    } else {
        lemma_pow2_unfold((width - 1) as nat);
        lemma_last_digit(value / 2, (width - 1) as nat);
        lemma_digits_len(value / 2, (width - 1) as nat);
    }
}

} // verus!
