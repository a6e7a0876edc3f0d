//! Conversion from shaft angle to motor cycles.

use vstd::prelude::*;

verus! {

/// The number of whole motor cycles that turn the shaft by `degrees`:
/// 512 cycles make 360 degrees, and a partial cycle is dropped.
pub open spec fn cycles_for(degrees: nat) -> nat {
    degrees * 512 / 360
}

/// Dividing by 45 after multiplying by 64 gives the same quotient as
/// dividing by 360 after multiplying by 512.
pub proof fn lemma_reduced_ratio(degrees: nat)
    ensures
        degrees * 64 / 45 == cycles_for(degrees),
{
    let q: int = (degrees * 64) as int / 45;
    let r: int = (degrees * 64) as int % 45;
    assert(degrees * 64 == 45 * q + r && 0 <= r < 45);
    assert(degrees * 512 == 360 * q + 8 * r);
    assert((360 * q + 8 * r) / 360 == q) by {
        vstd::arithmetic::div_mod::lemma_fundamental_div_mod_converse(
            360 * q + 8 * r,
            360,
            q,
            8 * r,
        );
    }
}

/// Converts an angle in degrees to motor cycles, rounding toward zero.
pub fn degrees_to_cycles(degrees: u16) -> (cycles: u32)
    ensures
        cycles == cycles_for(degrees as nat),
{
    proof {
        lemma_reduced_ratio(degrees as nat);
    }
    (degrees as u32 * 64) / 45
}

} // verus!
