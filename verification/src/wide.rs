//! Trusted contracts for the two 256-bit integer helpers of `awint` that the
//! 128-bit fracint's multiply and divide renormalization relies on.

use vstd::prelude::*;

verus! {

/// Relies on `awint_internals::widening_mul_add_u128`: the returned pair,
/// low half first, is the exact 256-bit value of `lhs * rhs + add`.
pub assume_specification[ awint::awint_internals::widening_mul_add_u128 ](
    lhs: u128,
    rhs: u128,
    add: u128,
) -> (r: (u128, u128))
    ensures
        r.0 + r.1 * 0x1_0000_0000_0000_0000_0000_0000_0000_0000 == lhs * rhs + add,
;

/// Relies on `awint_internals::u256_div_rem`: unsigned 256-bit division of
/// `duo` by a nonzero `div`, quotient first, each value a (low, high) pair.
/// The divisor must be nonzero: the function does not return on zero.
pub assume_specification[ awint::awint_internals::u256_div_rem ](
    duo: (u128, u128),
    div: (u128, u128),
) -> (r: ((u128, u128), (u128, u128)))
    requires
        !(div.0 == 0 && div.1 == 0),
    ensures
        ({
            let n = duo.0 + duo.1 * 0x1_0000_0000_0000_0000_0000_0000_0000_0000;
            let d = div.0 + div.1 * 0x1_0000_0000_0000_0000_0000_0000_0000_0000;
            r.0.0 + r.0.1 * 0x1_0000_0000_0000_0000_0000_0000_0000_0000 == n / d && r.1.0 + r.1.1
                * 0x1_0000_0000_0000_0000_0000_0000_0000_0000 == n % d
        }),
;

} // verus!
