//! Total order on IEEE 754 double-precision bit patterns.
//!
//! The store compares sample values the way `f64::total_cmp` does: the
//! bit pattern is mapped to a key whose unsigned order is the IEEE 754
//! `totalOrder` relation. Negative values (sign bit set) have all bits
//! flipped; non-negative values have only the sign bit flipped. Under
//! this key, every negative NaN sorts below every number, `-0.0` sorts
//! below `+0.0`, and every positive NaN sorts above every number.

use vstd::prelude::*;

verus! {

/// The sort key of a double's bit pattern under the IEEE 754 total
/// order: unsigned comparison of keys agrees with `f64::total_cmp` on
/// the values the bits encode.
pub open spec fn spec_total_order_key(bits: u64) -> u64 {
    if bits >= 0x8000_0000_0000_0000 {
        !bits
    } else {
        bits ^ 0x8000_0000_0000_0000
    }
}

/// Computes the total-order sort key of a double's bit pattern.
#[verifier::when_used_as_spec(spec_total_order_key)]
pub fn total_order_key(bits: u64) -> (key: u64)
    ensures
        key == spec_total_order_key(bits),
{
    if bits >= 0x8000_0000_0000_0000 {
        !bits
    } else {
        bits ^ 0x8000_0000_0000_0000
    }
}

} // verus!
