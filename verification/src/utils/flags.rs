//! Flags kept as single bits of a state byte.
use vstd::prelude::*;

verus! {

/// The bits that the channels use as flags.
pub open spec fn is_flag(mask: u8) -> bool {
    mask == 1u8 || mask == 2u8 || mask == 4u8 || mask == 64u8 || mask == 128u8
}

/// Whether any bit of `mask` is set in `bits`.
pub open spec fn flag(bits: u8, mask: u8) -> bool {
    bits & mask != 0
}

/// `bits` with the bits of `mask` set or cleared.
pub open spec fn with_flag(bits: u8, mask: u8, value: bool) -> u8 {
    if value {
        bits | mask
    } else {
        bits & !mask
    }
}

/// Setting or clearing one flag sets it as asked and leaves every other flag as it was.
pub proof fn lemma_with_flag(bits: u8, mask: u8, value: bool)
    requires
        is_flag(mask),
    ensures
        flag(with_flag(bits, mask, value), mask) == value,
        forall|other: u8|
            is_flag(other) && other != mask ==> #[trigger] flag(with_flag(bits, mask, value), other)
                == flag(bits, other),
{
    assert(value ==> (bits | mask) & mask != 0) by (bit_vector)
        requires
            mask == 1u8 || mask == 2u8 || mask == 4u8 || mask == 64u8 || mask == 128u8,
    ;
    assert(!value ==> (bits & !mask) & mask == 0) by (bit_vector);
    assert forall|other: u8| is_flag(other) && other != mask implies #[trigger] flag(
        with_flag(bits, mask, value),
        other,
    ) == flag(bits, other) by {
        assert(((bits | mask) & other != 0) == (bits & other != 0)) by (bit_vector)
            requires
                mask == 1u8 || mask == 2u8 || mask == 4u8 || mask == 64u8 || mask == 128u8,
                other == 1u8 || other == 2u8 || other == 4u8 || other == 64u8 || other == 128u8,
                other != mask,
        ;
        assert(((bits & !mask) & other != 0) == (bits & other != 0)) by (bit_vector)
            requires
                mask == 1u8 || mask == 2u8 || mask == 4u8 || mask == 64u8 || mask == 128u8,
                other == 1u8 || other == 2u8 || other == 4u8 || other == 64u8 || other == 128u8,
                other != mask,
        ;
    }
}

/// A byte that uses only the three low flags is zero exactly when none of them is set.
pub proof fn lemma_low_flags_zero(bits: u8)
    requires
        bits & 0xf8u8 == 0,
    ensures
        (bits == 0) == (!flag(bits, 1) && !flag(bits, 2) && !flag(bits, 4)),
{
    assert((bits & 0xf8u8 == 0) ==> ((bits == 0) == (bits & 1 == 0 && bits & 2 == 0 && bits & 4
        == 0))) by (bit_vector);
}

/// Setting or clearing one of the three low flags keeps a byte within the three low flags.
pub proof fn lemma_low_flags_stay_low(bits: u8, mask: u8, value: bool)
    requires
        bits & 0xf8u8 == 0,
        mask == 1u8 || mask == 2u8 || mask == 4u8,
    ensures
        with_flag(bits, mask, value) & 0xf8u8 == 0,
{
    assert((bits & 0xf8u8 == 0) ==> ((bits | mask) & 0xf8u8 == 0 && (bits & !mask) & 0xf8u8
        == 0)) by (bit_vector)
        requires
            mask == 1u8 || mask == 2u8 || mask == 4u8,
    ;
}

} // verus!
