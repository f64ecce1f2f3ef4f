//! Facts about row-major indices: how a pair below `(m, d)` and an index below
//! `m * d` turn into each other.

use vstd::arithmetic::div_mod::lemma_fundamental_div_mod;
use vstd::arithmetic::div_mod::lemma_fundamental_div_mod_converse;
use vstd::prelude::*;

verus! {

/// The index `q * d + r` of a pair with `r` below `d` gives the pair back.
pub proof fn lemma_pair_of_index(q: int, r: int, d: int)
    requires
        0 < d,
        0 <= r < d,
    ensures
        (q * d + r) / d == q,
        (q * d + r) % d == r,
{
    lemma_fundamental_div_mod_converse(q * d + r, d, q, r);
}

/// The index of a pair below `(m, d)` is below `m * d`.
pub proof fn lemma_index_in_range(q: int, r: int, m: int, d: int)
    requires
        0 <= q < m,
        0 <= r < d,
    ensures
        0 <= q * d + r < m * d,
{
    assert(q * d + r < m * d) by (nonlinear_arith)
        requires
            0 <= q < m,
            0 <= r < d,
    {
        assert((q + 1) * d <= m * d);
    }
    assert(0 <= q * d) by (nonlinear_arith)
        requires
            0 <= q,
            0 < d,
    ;
}

/// An index below `m * d` is the index of a pair below `(m, d)`.
pub proof fn lemma_index_of_pair(i: int, m: int, d: int)
    requires
        0 < d,
        0 <= i < m * d,
    ensures
        0 <= i / d < m,
        0 <= i % d < d,
        (i / d) * d + i % d == i,
{
    lemma_fundamental_div_mod(i, d);
    assert(d * (i / d) == (i / d) * d) by (nonlinear_arith);
    assert(0 <= i % d < d) by (nonlinear_arith)
        requires
            0 < d,
    ;
    assert(0 <= i / d < m) by (nonlinear_arith)
        requires
            0 < d,
            0 <= i < m * d,
            (i / d) * d + i % d == i,
            0 <= i % d < d,
    ;
}

/// Two numbers less than `m` apart that leave the same remainder by `m` are
/// the same number.
pub proof fn lemma_same_remainder(x: int, y: int, m: int)
    requires
        0 < m,
        -m < x - y < m,
        x % m == y % m,
    ensures
        x == y,
{
    lemma_fundamental_div_mod(x, m);
    lemma_fundamental_div_mod(y, m);
    let k = x / m - y / m;
    assert(x - y == m * k) by (nonlinear_arith)
        requires
            x == m * (x / m) + x % m,
            y == m * (y / m) + y % m,
            x % m == y % m,
            k == x / m - y / m,
    ;
    assert(k == 0) by (nonlinear_arith)
        requires
            0 < m,
            -m < m * k < m,
    ;
}

} // verus!
