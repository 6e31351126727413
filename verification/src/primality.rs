//! The mathematical side of the sieve: what it means for a number to be
//! prime, and the facts about factors that justify stopping the elimination
//! passes at the square root of the limit.

use vstd::arithmetic::div_mod::{
    lemma_fundamental_div_mod, lemma_mod_division_less_than_divisor, lemma_mod_multiples_basic,
};
use vstd::prelude::*;

verus! {

/// A number is prime when it is at least 2 and no number strictly between
/// 1 and itself divides it.
pub open spec fn is_prime(n: int) -> bool {
    n >= 2 && forall|d: int| 2 <= d < n ==> #[trigger] (n % d) != 0
}

/// `n` is a proper multiple (at least twice) of some factor `j` with
/// `2 <= j < bound`. As the sieve's elimination passes advance, exactly the
/// numbers with this property for the current bound have been struck out.
pub open spec fn has_proper_factor_below(n: int, bound: int) -> bool {
    exists|j: int| 2 <= j < bound && 2 * j <= n && #[trigger] (n % j) == 0
}

/// A multiple of a multiple of `j` is itself a multiple of `j`.
pub proof fn lemma_divides_transitive(j: int, i: int, k: int)
    requires
        1 <= j,
        1 <= i,
        i % j == 0,
        k % i == 0,
    ensures
        k % j == 0,
{
    lemma_fundamental_div_mod(i, j);
    lemma_fundamental_div_mod(k, i);
    let a = i / j;
    let b = k / i;
    assert(k == (a * b) * j) by (nonlinear_arith)
        requires
            i == j * a,
            k == i * b,
    ;
    lemma_mod_multiples_basic(a * b, j);
}

/// Two multiples of `i` that lie within a window shorter than `i` coincide.
pub proof fn lemma_equal_multiples_in_window(i: int, c: int, k: int)
    requires
        1 <= i,
        c % i == 0,
        k % i == 0,
        c <= k < c + i,
    ensures
        k == c,
{
    lemma_fundamental_div_mod(c, i);
    lemma_fundamental_div_mod(k, i);
    let a = c / i;
    let b = k / i;
    assert(a == b) by (nonlinear_arith)
        requires
            c == i * a,
            k == i * b,
            c <= k < c + i,
            1 <= i,
    ;
}

/// Raising the factor bound by one admits exactly the proper multiples of
/// the old bound itself.
pub proof fn lemma_factor_bound_extend(n: int, i: int)
    requires
        2 <= i,
    ensures
        has_proper_factor_below(n, i + 1) <==> (has_proper_factor_below(n, i) || (n % i == 0
            && 2 * i <= n)),
{
    if has_proper_factor_below(n, i) {
        let j = choose|j: int| 2 <= j < i && 2 * j <= n && #[trigger] (n % j) == 0;
        assert(2 <= j < i + 1 && 2 * j <= n && n % j == 0);
    }
    if n % i == 0 && 2 * i <= n {
        assert(2 <= i < i + 1 && 2 * i <= n && n % i == 0);
    }
    if has_proper_factor_below(n, i + 1) {
        let j = choose|j: int| 2 <= j < i + 1 && 2 * j <= n && #[trigger] (n % j) == 0;
        if j < i {
            assert(2 <= j < i && 2 * j <= n && n % j == 0);
        }
    }
}

/// A proper multiple of a number that itself has a proper factor below `i`
/// also has a proper factor below `i`. This is why the sieve may skip
/// elimination passes for already struck-out numbers.
pub proof fn lemma_multiple_of_composite(n: int, i: int)
    requires
        2 <= i,
        has_proper_factor_below(i, i),
        n % i == 0,
        2 * i <= n,
    ensures
        has_proper_factor_below(n, i),
{
    let j = choose|j: int| 2 <= j < i && 2 * j <= i && #[trigger] (i % j) == 0;
    lemma_divides_transitive(j, i, n);
    assert(2 <= j < i && 2 * j <= n && n % j == 0);
}

/// Every number that is at least 2 and not prime has a divisor no greater
/// than its own square root.
pub proof fn lemma_composite_has_small_factor(n: int)
    requires
        n >= 2,
        !is_prime(n),
    ensures
        exists|j: int| 2 <= j && j * j <= n && #[trigger] (n % j) == 0,
{
    let d = choose|d: int| 2 <= d < n && #[trigger] (n % d) == 0;
    lemma_fundamental_div_mod(n, d);
    let m = n / d;
    assert(m >= 2) by (nonlinear_arith)
        requires
            n == d * m,
            2 <= d < n,
    ;
    if d * d <= n {
        assert(2 <= d && d * d <= n && n % d == 0);
    } else {
        lemma_mod_multiples_basic(d, m);
        assert(n == d * m);
        assert(n % m == 0);
        assert(m * m <= n) by (nonlinear_arith)
            requires
                n == d * m,
                d * d > n,
                m >= 2,
                d >= 2,
        ;
        assert(2 <= m && m * m <= n && n % m == 0);
    }
}

/// Comparing a number with the quotient of `m` by that number decides
/// whether its square exceeds `m`; this lets executable code test
/// `i * i <= m` without forming the square.
pub proof fn lemma_square_vs_quotient(i: int, m: int)
    requires
        1 <= i,
        0 <= m,
    ensures
        (i <= m / i) <==> (i * i <= m),
{
    lemma_fundamental_div_mod(m, i);
    lemma_mod_division_less_than_divisor(m, i);
    let q = m / i;
    let r = m % i;
    assert((i <= q) <==> (i * i <= m)) by (nonlinear_arith)
        requires
            m == i * q + r,
            0 <= r < i,
            1 <= i,
    ;
}

/// Once the factor bound has passed the square root of `n`, freedom from
/// proper factors below the bound is exactly primality.
pub proof fn lemma_no_factor_below_sqrt_is_prime(n: int, i: int)
    requires
        2 <= i,
        n < i * i,
    ensures
        (n >= 2 && !has_proper_factor_below(n, i)) <==> is_prime(n),
{
    if n >= 2 {
        if has_proper_factor_below(n, i) {
            let j = choose|j: int| 2 <= j < i && 2 * j <= n && #[trigger] (n % j) == 0;
            assert(2 <= j < n && n % j == 0);
            assert(!is_prime(n));
        }
        if !is_prime(n) {
            lemma_composite_has_small_factor(n);
            let j = choose|j: int| 2 <= j && j * j <= n && #[trigger] (n % j) == 0;
            assert(j < i) by (nonlinear_arith)
                requires
                    2 <= j,
                    2 <= i,
                    j * j <= n,
                    n < i * i,
            ;
            assert(2 * j <= n) by (nonlinear_arith)
                requires
                    2 <= j,
                    j * j <= n,
            ;
            assert(2 <= j < i && 2 * j <= n && n % j == 0);
            assert(has_proper_factor_below(n, i));
        }
    }
}

} // verus!
