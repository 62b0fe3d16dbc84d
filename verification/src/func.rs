//! Fixed-point linear interpolation used by the palette fade effects and
//! the menu volume gauges.

use vstd::prelude::*;

use vstd::arithmetic::div_mod::lemma_div_nonincreasing;

verus! {

/// Linear interpolation from `val1` toward `val2`, `step` of `nbstep` of
/// the way, with the quotient truncated toward zero as 32-bit signed
/// arithmetic truncates it.
pub open spec fn spec_cross_mult_32(val1: int, val2: int, nbstep: int, step: int) -> int {
    if val2 >= val1 {
        val1 + (val2 - val1) * step / nbstep
    } else {
        val1 - (val1 - val2) * step / nbstep
    }
}

/// Interpolates `step` of `nbstep` of the way from `val1` toward `val2`.
/// The bounds keep every intermediate product inside 32-bit signed range
/// and the result non-negative; inputs outside them are excluded.
pub fn cross_mult_32(val1: u32, val2: u32, nbstep: u32, step: u32) -> (r: u32)
    requires
        nbstep >= 1,
        val1 <= 0x7fff_ffff,
        val2 <= 0x7fff_ffff,
        (if val2 >= val1 {
            (val2 - val1) * step
        } else {
            (val1 - val2) * step
        }) <= 0x7fff_ffff,
        spec_cross_mult_32(val1 as int, val2 as int, nbstep as int, step as int) >= 0,
    ensures
        r == spec_cross_mult_32(val1 as int, val2 as int, nbstep as int, step as int),
{
    if val2 >= val1 {
        let diff = val2 - val1;
        proof {
            lemma_div_nonincreasing((diff * step) as int, nbstep as int);
        }
        val1 + diff * step / nbstep
    } else {
        let diff = val1 - val2;
        proof {
            lemma_div_nonincreasing((diff * step) as int, nbstep as int);
        }
        val1 - diff * step / nbstep
    }
}

} // verus!
