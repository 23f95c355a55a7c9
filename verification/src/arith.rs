//! Euclid's greatest common divisor and the few divisibility facts the
//! periodicity argument needs.

use vstd::prelude::*;

use vstd::arithmetic::div_mod::lemma_add_mod_noop;
use vstd::arithmetic::div_mod::lemma_fundamental_div_mod;
use vstd::arithmetic::div_mod::lemma_mod_division_less_than_divisor;
use vstd::arithmetic::div_mod::lemma_mod_multiples_basic;
use vstd::arithmetic::div_mod::lemma_mod_self_0;
use vstd::arithmetic::div_mod::lemma_small_mod;

verus! {

/// Euclid's greatest common divisor (`a` when `b` is 0).
pub open spec fn gcd(a: int, b: int) -> int
    decreases b,
{
    if b <= 0 {
        a
    } else {
        gcd(b, a % b)
    }
}

/// A positive divisor of a positive number is no larger than it.
pub proof fn lemma_divisor_le(d: int, x: int)
    requires
        1 <= d,
        1 <= x,
        x % d == 0,
    ensures
        d <= x,
{
    lemma_fundamental_div_mod(x, d);
    let c = x / d;
    if c <= 0 {
        assert(d * c <= 0) by (nonlinear_arith)
            requires
                d >= 1,
                c <= 0,
        ;
    } else {
        assert(d * c >= d) by (nonlinear_arith)
            requires
                d >= 1,
                c >= 1,
        ;
    }
}

/// Divisibility is transitive.
pub proof fn lemma_divides_trans(d: int, m: int, x: int)
    requires
        1 <= d,
        1 <= m,
        m % d == 0,
        x % m == 0,
    ensures
        x % d == 0,
{
    lemma_fundamental_div_mod(x, m);
    lemma_fundamental_div_mod(m, d);
    let a = x / m;
    let b = m / d;
    assert(x == (b * a) * d) by (nonlinear_arith)
        requires
            x == m * a,
            m == d * b,
    ;
    lemma_mod_multiples_basic(b * a, d);
}

/// The gcd of two nonnegative numbers, the first positive, is positive and
/// divides both.
pub proof fn lemma_gcd_divides(a: int, b: int)
    requires
        1 <= a,
        0 <= b,
    ensures
        1 <= gcd(a, b),
        a % gcd(a, b) == 0,
        b % gcd(a, b) == 0,
    decreases b,
{
    if b == 0 {
        lemma_mod_self_0(a);
        lemma_small_mod(0nat, a as nat);
    } else {
        lemma_mod_division_less_than_divisor(a, b);
        lemma_gcd_divides(b, a % b);
        let g = gcd(b, a % b);
        lemma_fundamental_div_mod(a, b);
        let c = a / b;
        lemma_fundamental_div_mod(b, g);
        let e = b / g;
        assert(b * c == (e * c) * g) by (nonlinear_arith)
            requires
                b == g * e,
        ;
        lemma_mod_multiples_basic(e * c, g);
        lemma_add_mod_noop(b * c, a % b, g);
        lemma_small_mod(0nat, g as nat);
        assert(a % g == 0);
    }
}

} // verus!
