//! The cyclicity test.
//!
//! A string is cyclic when it consists of two or more repetitions of a
//! strictly shorter block.  The test applies the classic period-detection
//! identity to the last entry `k` of the failure table: a string of length
//! `n` is cyclic exactly when `n > 1`, `k > 0`, and `n - k` divides `n`.

use vstd::prelude::*;

use crate::border::lemma_longest_border;
use crate::border::longest_border;
use crate::border::prefix;
use crate::period::has_period;
use crate::period::is_cyclic_seq;
use crate::period::lemma_border_gives_period;
use crate::period::lemma_period_gives_border;
use crate::table::calculate_next;
use crate::table::failure_entry;
use crate::table::is_failure_table;

verus! {

/// The period-detection identity read off a failure table `t`: the table has
/// more than one entry, its last entry `k` is positive and proper, and
/// `t.len() - k` divides `t.len()`.
pub open spec fn table_verdict(t: Seq<usize>) -> bool {
    let n = t.len() as int;
    &&& n > 1
    &&& 0 < t[n - 1] < n
    &&& n % (n - t[n - 1]) == 0
}

/// The period-detection identity on the string itself, with `k` the length
/// of the longest border of `s`.
pub open spec fn cyclic_verdict(s: Seq<char>) -> bool {
    let n = s.len() as int;
    let k = longest_border(s);
    &&& n > 1
    &&& k > 0
    &&& n % (n - k) == 0
}

/// The verdict read off the failure table of `s` agrees with the verdict on
/// `s` itself: the last table entry is the longest-border length of `s`.
pub proof fn lemma_table_verdict_matches(s: Seq<char>, t: Seq<usize>)
    requires
        is_failure_table(s, t),
    ensures
        table_verdict(t) == cyclic_verdict(s),
{
    let n = s.len() as int;
    if n > 0 {
        assert(prefix(s, n) =~= s);
        assert(t[n - 1] == failure_entry(s, n - 1));
        lemma_longest_border(s);
    }
}

/// The period-detection identity is correct: it holds of `s` exactly when
/// `s` consists of two or more repetitions of a strictly shorter block.
pub proof fn lemma_cyclic_verdict_correct(s: Seq<char>)
    ensures
        cyclic_verdict(s) <==> is_cyclic_seq(s),
{
    if cyclic_verdict(s) {
        lemma_border_gives_period(s);
    }
    if is_cyclic_seq(s) {
        let p = choose|p: int| has_period(s, p);
        lemma_period_gives_border(s, p);
    }
}

/// Applies the period-detection identity to a failure table.
pub fn cyclic_of_table(t: &Vec<usize>) -> (r: bool)
    ensures
        r == table_verdict(t@),
{
    let n = t.len();
    if n <= 1 {
        return false;
    }
    let k = t[n - 1];
    0 < k && k < n && n % (n - k) == 0
}

/// Decides whether `s` is cyclic, that is, made up of two or more
/// repetitions of a strictly shorter block: builds the failure table of `s`
/// and applies the period-detection identity to its last entry.
pub fn is_cyclic(s: &String) -> (r: bool)
    ensures
        r == cyclic_verdict(s@),
        r == is_cyclic_seq(s@),
{
    let next = calculate_next(s);
    let r = cyclic_of_table(&next);
    proof {
        lemma_table_verdict_matches(s@, next@);
        lemma_cyclic_verdict_correct(s@);
    }
    r
}

} // verus!
