//! Snapping of raw input coordinates onto the grid.

use vstd::prelude::*;
use vstd::arithmetic::div_mod::{lemma_fundamental_div_mod, lemma_mod_multiples_basic};

verus! {

/// Snap a raw coordinate up to the next grid line. The step is always
/// positive: a coordinate already on a grid line moves a full cell further.
pub fn round(n: i32) -> (r: i32)
    requires
        0 <= n,
        n + 10 <= i32::MAX as int,
    ensures
        r == n + (10 - n as int % 10),
        r % 10 == 0,
        n < r <= n + 10,
{
    let r: i32 = n + (10 - n % 10);
    proof {
        lemma_fundamental_div_mod(n as int, 10);
        assert(r == (n as int / 10 + 1) * 10) by {
            assert(n as int == 10 * (n as int / 10) + n as int % 10);
        }
        lemma_mod_multiples_basic(n as int / 10 + 1, 10);
    }
    r
}

} // verus!
