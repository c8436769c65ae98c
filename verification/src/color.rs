//! Grayscale mapping of iteration counts.

use vstd::prelude::*;
use vstd::arithmetic::div_mod::{lemma_div_is_ordered, lemma_div_multiples_vanish};

verus! {

/// Maps an iteration count to an 8-bit gray intensity: points that never
/// escaped (count equal to the budget) map to black, and the rest scale
/// linearly, `floor(255 * iteration / max_iter)`.
pub fn gray_level(iteration: u32, max_iter: u32) -> (r: u8)
    requires
        max_iter > 0,
        iteration <= max_iter,
    ensures
        iteration == max_iter ==> r == 0,
        iteration < max_iter ==> r as int == (255 * iteration) / (max_iter as int),
{
    if iteration == max_iter {
        0
    } else {
        let v: u64 = (255u64 * (iteration as u64)) / (max_iter as u64);
        proof {
            let n = iteration as int;
            let m = max_iter as int;
            lemma_div_is_ordered(255 * n, 255 * m, m);
            lemma_div_multiples_vanish(255, m);
            assert((255 * n) / m <= 255);
        }
        v as u8
    }
}

} // verus!
