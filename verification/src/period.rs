//! Periods of a character sequence, and their connection to borders.
//!
//! A sequence is cyclic when some full period strictly shorter than the
//! sequence repeats to make up the whole of it.  The lemmas here prove the
//! two directions of the period-detection identity: with `k` the longest
//! border of a sequence of length `n`, the sequence is cyclic exactly when
//! `k > 0` and `n - k` divides `n`.  The heart of the argument is a weak
//! form of the Fine and Wilf periodicity theorem, obtained by closing the
//! set of rotations that fix the leading block under Euclid's algorithm.

use vstd::prelude::*;

use vstd::arithmetic::div_mod::lemma_add_mod_noop_right;
use vstd::arithmetic::div_mod::lemma_div_pos_is_pos;
use vstd::arithmetic::div_mod::lemma_fundamental_div_mod;
use vstd::arithmetic::div_mod::lemma_mod_add_multiples_vanish;
use vstd::arithmetic::div_mod::lemma_mod_division_less_than_divisor;
use vstd::arithmetic::div_mod::lemma_mod_sub_multiples_vanish;
use vstd::arithmetic::div_mod::lemma_small_mod;

use crate::arith::gcd;
use crate::arith::lemma_divides_trans;
use crate::arith::lemma_divisor_le;
use crate::arith::lemma_gcd_divides;
use crate::border::is_border;
use crate::border::lemma_longest_border;
use crate::border::longest_border;

verus! {

/// The characters of `s` repeat at distance `q`.
pub open spec fn has_shift(s: Seq<char>, q: int) -> bool {
    forall|i: int| 0 <= i && i + q < s.len() ==> #[trigger] s[i] == s[i + q]
}

/// `p` is a full period of `s`: it is strictly shorter than `s`, divides the
/// length of `s` evenly, and `s` is its leading block of length `p` repeated.
pub open spec fn has_period(s: Seq<char>, p: int) -> bool {
    &&& 1 <= p < s.len()
    &&& s.len() as int % p == 0
    &&& forall|i: int| 0 <= i < s.len() ==> #[trigger] s[i] == s[i % p]
}

/// `s` is cyclic: two or more repetitions of a strictly shorter block make
/// up the whole of `s`.
pub open spec fn is_cyclic_seq(s: Seq<char>) -> bool {
    exists|p: int| has_period(s, p)
}

/// A border of length `k` is the same thing as a repetition at distance
/// `n - k`.
pub proof fn lemma_border_shift(s: Seq<char>, k: int)
    requires
        0 <= k < s.len(),
    ensures
        is_border(s, k) <==> has_shift(s, s.len() - k),
{
    let n = s.len() as int;
    let q = n - k;
    if is_border(s, k) {
        assert forall|i: int| 0 <= i && i + q < n implies #[trigger] s[i] == s[i + q] by {
            assert(s[i] == s[n - k + i]);
        }
    }
    if has_shift(s, q) {
        assert forall|j: int| 0 <= j < k implies #[trigger] s[j] == s[n - k + j] by {
            assert(s[j] == s[j + q]);
        }
    }
}

/// Repetition at distance `q` pins every character to one of the first `q`.
proof fn lemma_shift_mod(s: Seq<char>, q: int, i: int)
    requires
        1 <= q,
        has_shift(s, q),
        0 <= i < s.len(),
    ensures
        s[i] == s[i % q],
    decreases i,
{
    if i < q {
        lemma_small_mod(i as nat, q as nat);
    } else {
        assert(s[i - q] == s[i]);
        lemma_shift_mod(s, q, i - q);
        lemma_mod_sub_multiples_vanish(i, q);
    }
}

/// The forward direction of the period-detection identity: when the longest
/// border `k` of `s` is positive and `n - k` divides `n`, the prefix of
/// length `n - k` is a full period of `s`.
pub proof fn lemma_border_gives_period(s: Seq<char>)
    requires
        s.len() > 1,
        longest_border(s) > 0,
        s.len() as int % (s.len() - longest_border(s)) == 0,
    ensures
        has_period(s, s.len() - longest_border(s)),
{
    let n = s.len() as int;
    lemma_longest_border(s);
    let k = longest_border(s);
    let q = n - k;
    lemma_border_shift(s, k);
    assert forall|i: int| 0 <= i < n implies #[trigger] s[i] == s[i % q] by {
        lemma_shift_mod(s, q, i);
    }
}

/// Rotating the first `p` characters of `s` by `r` positions leaves them
/// unchanged.
spec fn rot_inv(s: Seq<char>, p: int, r: int) -> bool {
    forall|i: int| 0 <= i < p ==> s[i] == #[trigger] s[(i + r) % p]
}

proof fn lemma_rot_zero(s: Seq<char>, p: int)
    requires
        1 <= p,
    ensures
        rot_inv(s, p, 0),
{
    assert forall|i: int| 0 <= i < p implies s[i] == #[trigger] s[(i + 0) % p] by {
        lemma_small_mod(i as nat, p as nat);
    }
}

proof fn lemma_rot_add(s: Seq<char>, p: int, x: int, y: int)
    requires
        1 <= p,
        0 <= x,
        0 <= y,
        rot_inv(s, p, x),
        rot_inv(s, p, y),
    ensures
        rot_inv(s, p, x + y),
{
    assert forall|i: int| 0 <= i < p implies s[i] == #[trigger] s[(i + (x + y)) % p] by {
        let m = (i + x) % p;
        lemma_mod_division_less_than_divisor(i + x, p);
        assert(s[i] == s[(i + x) % p]);
        assert(s[m] == s[(m + y) % p]);
        lemma_add_mod_noop_right(y, i + x, p);
        assert((m + y) % p == (i + (x + y)) % p);
    }
}

proof fn lemma_rot_mul(s: Seq<char>, p: int, x: int, c: int)
    requires
        1 <= p,
        0 <= x,
        0 <= c,
        rot_inv(s, p, x),
    ensures
        rot_inv(s, p, c * x),
    decreases c,
{
    if c == 0 {
        lemma_rot_zero(s, p);
    } else {
        lemma_rot_mul(s, p, x, c - 1);
        assert(0 <= (c - 1) * x) by (nonlinear_arith)
            requires
                0 <= c - 1,
                0 <= x,
        ;
        lemma_rot_add(s, p, (c - 1) * x, x);
        assert((c - 1) * x + x == c * x) by (nonlinear_arith);
    }
}

proof fn lemma_rot_cancel(s: Seq<char>, p: int, u: int, v: int)
    requires
        1 <= p,
        0 <= u,
        0 <= v,
        rot_inv(s, p, u + v),
        rot_inv(s, p, v),
    ensures
        rot_inv(s, p, u),
{
    assert forall|i: int| 0 <= i < p implies s[i] == #[trigger] s[(i + u) % p] by {
        let m = (i + u) % p;
        lemma_mod_division_less_than_divisor(i + u, p);
        assert(s[m] == s[(m + v) % p]);
        lemma_add_mod_noop_right(v, i + u, p);
        assert((m + v) % p == (i + (u + v)) % p);
        assert(s[i] == s[(i + (u + v)) % p]);
    }
}

/// The set of rotation distances that fix the leading block is closed under
/// Euclid's algorithm.
proof fn lemma_rot_gcd(s: Seq<char>, p: int, a: int, b: int)
    requires
        1 <= p,
        0 <= a,
        0 <= b,
        rot_inv(s, p, a),
        rot_inv(s, p, b),
    ensures
        rot_inv(s, p, gcd(a, b)),
    decreases b,
{
    if b > 0 {
        lemma_mod_division_less_than_divisor(a, b);
        lemma_fundamental_div_mod(a, b);
        let c = a / b;
        lemma_div_pos_is_pos(a, b);
        assert(0 <= c * b) by (nonlinear_arith)
            requires
                0 <= c,
                0 <= b,
        ;
        lemma_rot_mul(s, p, b, c);
        assert(b * c == c * b) by (nonlinear_arith);
        lemma_rot_cancel(s, p, a % b, c * b);
        lemma_rot_gcd(s, p, b, a % b);
    }
}

/// A full period is a repetition distance.
proof fn lemma_period_shift(s: Seq<char>, p: int)
    requires
        has_period(s, p),
    ensures
        has_shift(s, p),
{
    let n = s.len() as int;
    assert forall|i: int| 0 <= i && i + p < n implies #[trigger] s[i] == s[i + p] by {
        assert(s[i + p] == s[(i + p) % p]);
        lemma_mod_add_multiples_vanish(i, p);
        assert(s[i] == s[i % p]);
    }
}

/// A repetition distance `q` that fits beside the leading block of a fully
/// periodic sequence fixes that block under rotation by `q`.
proof fn lemma_period_rot(s: Seq<char>, p: int, q: int)
    requires
        has_period(s, p),
        has_shift(s, q),
        0 <= q,
        p + q <= s.len(),
    ensures
        rot_inv(s, p, q),
{
    assert forall|i: int| 0 <= i < p implies s[i] == #[trigger] s[(i + q) % p] by {
        assert(s[i] == s[i + q]);
        assert(s[i + q] == s[(i + q) % p]);
    }
}

/// Rotating the leading block by the whole block length fixes it.
proof fn lemma_rot_whole(s: Seq<char>, p: int)
    requires
        1 <= p,
    ensures
        rot_inv(s, p, p),
{
    assert forall|i: int| 0 <= i < p implies s[i] == #[trigger] s[(i + p) % p] by {
        lemma_mod_add_multiples_vanish(i, p);
        lemma_small_mod(i as nat, p as nat);
    }
}

/// A rotation distance that fixes the leading block of a fully periodic
/// sequence is a repetition distance for the whole sequence.
proof fn lemma_rot_shift(s: Seq<char>, p: int, g: int)
    requires
        has_period(s, p),
        rot_inv(s, p, g),
        0 <= g,
    ensures
        has_shift(s, g),
{
    let n = s.len() as int;
    assert forall|i: int| 0 <= i && i + g < n implies #[trigger] s[i] == s[i + g] by {
        lemma_mod_division_less_than_divisor(i, p);
        assert(s[i % p] == s[((i % p) + g) % p]);
        lemma_add_mod_noop_right(g, i, p);
        assert(((i % p) + g) % p == (i + g) % p);
        assert(s[i] == s[i % p]);
        assert(s[i + g] == s[(i + g) % p]);
    }
}

/// A full period `p` of a sequence of length `n` satisfies `n >= 2 * p`.
proof fn lemma_period_at_most_half(s: Seq<char>, p: int)
    requires
        has_period(s, p),
    ensures
        s.len() >= 2 * p,
{
    let n = s.len() as int;
    lemma_fundamental_div_mod(n, p);
    let d = n / p;
    lemma_div_pos_is_pos(n, p);
    assert(d >= 2) by (nonlinear_arith)
        requires
            n == p * d,
            n > p,
            p >= 1,
            d >= 0,
    ;
    assert(n >= 2 * p) by (nonlinear_arith)
        requires
            n == p * d,
            d >= 2,
            p >= 1,
    ;
}

/// The converse direction of the period-detection identity: a cyclic string
/// has a positive longest border `k`, and `n - k` divides `n`.
pub proof fn lemma_period_gives_border(s: Seq<char>, p: int)
    requires
        has_period(s, p),
    ensures
        s.len() > 1,
        longest_border(s) > 0,
        s.len() as int % (s.len() - longest_border(s)) == 0,
{
    let n = s.len() as int;
    lemma_period_at_most_half(s, p);
    // The full period repeats at distance p, so n - p is a border.
    lemma_period_shift(s, p);
    lemma_border_shift(s, n - p);
    lemma_longest_border(s);
    let k = longest_border(s);
    assert(k >= n - p);
    let q = n - k;
    // The longest border repeats at distance q; q and p both fix the leading
    // block under rotation, hence so does their gcd g.
    lemma_border_shift(s, k);
    lemma_period_rot(s, p, q);
    lemma_rot_whole(s, p);
    let g = gcd(q, p);
    lemma_rot_gcd(s, p, q, p);
    lemma_gcd_divides(q, p);
    lemma_divisor_le(g, q);
    // Rotation by g gives a border of length n - g; k is the longest border,
    // so g is exactly q, and q divides p, which divides n.
    lemma_rot_shift(s, p, g);
    lemma_border_shift(s, n - g);
    assert(g == q);
    lemma_divides_trans(q, p, n);
}

} // verus!
