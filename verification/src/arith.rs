//! Small arithmetic facts about products tested through division, used by
//! the overflow guards of the frame and timestamp computations.

use vstd::prelude::*;

verus! {

/// A value no larger than `m / k` stays within `m` after multiplying by
/// `k`.
pub proof fn lemma_mul_within(x: int, k: int, m: int)
    requires
        0 < k,
        0 <= m,
        0 <= x <= m / k,
    ensures
        x * k <= m,
{
    vstd::arithmetic::div_mod::lemma_fundamental_div_mod(m, k);
    vstd::arithmetic::div_mod::lemma_mod_bound(m, k);
    assert(x * k <= m) by (nonlinear_arith)
        requires
            m == k * (m / k) + m % k,
            0 <= m % k,
            0 <= x <= m / k,
            k > 0,
    ;
}

/// A value beyond `m / k` exceeds `m` after multiplying by `k`.
pub proof fn lemma_mul_exceeds(x: int, k: int, m: int)
    requires
        0 < k,
        0 <= m,
        x > m / k,
    ensures
        x * k > m,
{
    vstd::arithmetic::div_mod::lemma_fundamental_div_mod(m, k);
    vstd::arithmetic::div_mod::lemma_mod_bound(m, k);
    assert(x * k > m) by (nonlinear_arith)
        requires
            m == k * (m / k) + m % k,
            m % k < k,
            x > m / k,
            k > 0,
    ;
}

} // verus!
