//! Facts about whole numbers that dates stand on.

use vstd::prelude::*;

verus! {

/// A year that ends four centuries ends one, and a year that ends one is a multiple
/// of four.
pub proof fn lemma_centuries(year: int)
    ensures
        year % 400 == 0 ==> year % 100 == 0,
        year % 100 == 0 ==> year % 4 == 0,
{
    vstd::arithmetic::div_mod::lemma_fundamental_div_mod(year, 400);
    vstd::arithmetic::div_mod::lemma_fundamental_div_mod(year, 100);
    if year % 400 == 0 {
        vstd::arithmetic::div_mod::lemma_fundamental_div_mod_converse(
            year,
            100,
            4 * (year / 400),
            0,
        );
    }
    if year % 100 == 0 {
        vstd::arithmetic::div_mod::lemma_fundamental_div_mod_converse(
            year,
            4,
            25 * (year / 100),
            0,
        );
    }
}

/// Up to a number there is one multiple more than before it where it is one.
pub proof fn lemma_multiples_up_to(n: int, k: int)
    requires
        k > 0,
    ensures
        n / k == (n - 1) / k + if n % k == 0 {
            1int
        } else {
            0
        },
{
    let q = n / k;
    let r = n % k;
    vstd::arithmetic::div_mod::lemma_fundamental_div_mod(n, k);
    assert(0 <= r < k) by (nonlinear_arith)
        requires
            r == n % k,
            k > 0,
    ;
    if r > 0 {
        assert(n - 1 == q * k + (r - 1)) by (nonlinear_arith)
            requires
                n == k * q + r,
        ;
        vstd::arithmetic::div_mod::lemma_fundamental_div_mod_converse(n - 1, k, q, r - 1);
    } else {
        assert(n - 1 == (q - 1) * k + (k - 1)) by (nonlinear_arith)
            requires
                n == k * q,
        ;
        vstd::arithmetic::div_mod::lemma_fundamental_div_mod_converse(n - 1, k, q - 1, k - 1);
    }
}

/// A multiple of the divisor adds to the quotient and leaves the remainder alone.
pub proof fn lemma_shift(q: int, n: int, k: int)
    requires
        k > 0,
    ensures
        (k * q + n) / k == q + n / k,
        (k * q + n) % k == n % k,
{
    let r = n % k;
    vstd::arithmetic::div_mod::lemma_fundamental_div_mod(n, k);
    assert(0 <= r < k) by (nonlinear_arith)
        requires
            r == n % k,
            k > 0,
    ;
    let p = n / k;
    assert(k * q + n == (q + p) * k + r) by (nonlinear_arith)
        requires
            n == k * p + r,
    ;
    vstd::arithmetic::div_mod::lemma_fundamental_div_mod_converse(k * q + n, k, q + p, r);
}

} // verus!
