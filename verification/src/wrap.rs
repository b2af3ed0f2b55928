//! Stepping round a ring of `n` positions.

use vstd::prelude::*;
use vstd::arithmetic::div_mod::lemma_fundamental_div_mod_converse;

verus! {

/// The position after `i` on a ring of `n` positions is `i + 1`, or `0`
/// after the last one.
pub proof fn lemma_wrap_next(i: int, n: int)
    requires
        0 <= i < n,
    ensures
        (i + 1) % n == if i + 1 < n { i + 1 } else { 0 },
        0 <= (i + 1) % n < n,
{
    if i + 1 < n {
        lemma_fundamental_div_mod_converse(i + 1, n, 0, i + 1);
    } else {
        lemma_fundamental_div_mod_converse(i + 1, n, 1, 0);
    }
}

} // verus!
