//! The Knuth-Morris-Pratt failure table.
//!
//! Entry `i` of the table is the length of the longest border of the prefix
//! of length `i + 1` of the input; `calculate_next` computes the whole table
//! in linear time by reusing already computed entries when a match fails.

use vstd::prelude::*;

use crate::border::is_border;
use crate::border::lemma_border_extend;
use crate::border::lemma_border_nested;
use crate::border::lemma_border_trans;
use crate::border::lemma_border_zero;
use crate::border::lemma_longest_border;
use crate::border::lemma_longest_border_unique;
use crate::border::lemma_prefix_of_prefix;
use crate::border::longest_border;
use crate::border::prefix;

verus! {

/// What entry `i` of the failure table of `s` must be: the length of the
/// longest border of the prefix of length `i + 1`.
pub open spec fn failure_entry(s: Seq<char>, i: int) -> int {
    longest_border(prefix(s, i + 1))
}

/// `t` is the failure table of `s`: same length, and every entry is the
/// longest-border length of the corresponding prefix.
pub open spec fn is_failure_table(s: Seq<char>, t: Seq<usize>) -> bool {
    &&& t.len() == s.len()
    &&& forall|i: int| 0 <= i < s.len() ==> t[i] as int == failure_entry(s, i)
}

/// Entry 0 of a failure table is always 0: a one-character prefix has only
/// the empty border.
pub proof fn lemma_failure_entry_zero(s: Seq<char>)
    requires
        s.len() >= 1,
    ensures
        failure_entry(s, 0) == 0,
{
    lemma_longest_border(prefix(s, 1));
}

/// Every failure-table entry is at most its index: a border of the prefix of
/// length `i + 1` is proper, so its length is at most `i`.
pub proof fn lemma_failure_entry_bound(s: Seq<char>, i: int)
    requires
        0 <= i < s.len(),
    ensures
        0 <= failure_entry(s, i) <= i,
{
    lemma_longest_border(prefix(s, i + 1));
}

/// The failure table of a string is unique: any two tables that satisfy
/// `is_failure_table` for the same string are equal.  The builder is
/// therefore a pure function of its input: two calls on the same string
/// return identical tables.
pub proof fn lemma_failure_table_unique(s: Seq<char>, t1: Seq<usize>, t2: Seq<usize>)
    requires
        is_failure_table(s, t1),
        is_failure_table(s, t2),
    ensures
        t1 == t2,
{
    assert(t1 =~= t2);
}

/// Collects the characters of a string slice into a vector.
fn chars_of(s: &str) -> (r: Vec<char>)
    ensures
        r@ == s@,
{
    let mut r: Vec<char> = Vec::new();
    for c in it: s.chars()
        invariant
            it.seq() == s@,
            r@.len() == it.index(),
            forall|m: int| 0 <= m < it.index() ==> r@[m] == it.seq()[m],
    {
        r.push(c);
    }
    proof {
        assert(r@ =~= s@);
    }
    r
}

/// Computes the failure table of a character sequence: entry `i` is the
/// length of the longest border of the prefix of length `i + 1`.
#[verifier::loop_isolation(false)]
pub fn failure_table(chars: &Vec<char>) -> (r: Vec<usize>)
    ensures
        is_failure_table(chars@, r@),
{
    let n = chars.len();
    let mut next: Vec<usize> = Vec::new();
    if n == 0 {
        return next;
    }
    proof {
        lemma_failure_entry_zero(chars@);
    }
    next.push(0);
    let mut j: usize = 0;
    let mut i: usize = 1;
    while i < n
        invariant
            1 <= i <= n,
            next@.len() == i,
            forall|m: int| 0 <= m < i ==> next@[m] as int == failure_entry(chars@, m),
            j as int == failure_entry(chars@, i - 1),
        decreases n - i,
    {
        proof {
            lemma_failure_entry_bound(chars@, i - 1);
            lemma_longest_border(prefix(chars@, i as int));
            assert forall|k: int| #[trigger]
                is_border(prefix(chars@, i + 1), k) implies k <= j + 1 by {
                if k >= 1 {
                    lemma_border_extend(chars@, i as int, k);
                }
            }
        }
        while j > 0 && chars[i] != chars[j]
            invariant
                is_border(prefix(chars@, i as int), j as int),
                forall|k: int| #[trigger] is_border(prefix(chars@, i + 1), k) ==> k <= j + 1,
            decreases j,
        {
            let fall = next[j - 1];
            proof {
                lemma_longest_border(prefix(chars@, j as int));
                lemma_prefix_of_prefix(chars@, i as int, j as int);
                lemma_border_trans(prefix(chars@, i as int), j as int, fall as int);
                assert forall|k: int| #[trigger]
                    is_border(prefix(chars@, i + 1), k) implies k <= fall + 1 by {
                    if k >= 1 {
                        lemma_border_extend(chars@, i as int, k);
                        if k == j + 1 {
                            assert(chars@[j as int] == chars@[i as int]);
                        }
                        lemma_border_nested(prefix(chars@, i as int), k - 1, j as int);
                    }
                }
            }
            j = fall;
        }
        if chars[i] == chars[j] {
            proof {
                lemma_border_extend(chars@, i as int, j + 1);
                lemma_longest_border_unique(prefix(chars@, i + 1), j + 1);
            }
            j = j + 1;
        } else {
            proof {
                lemma_border_zero(prefix(chars@, i + 1));
                assert forall|m: int|
                    0 < m < i + 1 implies !#[trigger] is_border(prefix(chars@, i + 1), m) by {
                    if is_border(prefix(chars@, i + 1), m) {
                        lemma_border_extend(chars@, i as int, m);
                    }
                }
                lemma_longest_border_unique(prefix(chars@, i + 1), 0);
            }
        }
        next.push(j);
        i = i + 1;
    }
    next
}

/// Builds the Knuth-Morris-Pratt failure table of `s`, one entry per
/// character of `s`.
pub fn calculate_next(s: &String) -> (r: Vec<usize>)
    ensures
        r@.len() == s@.len(),
        is_failure_table(s@, r@),
        forall|i: int| 0 <= i < r@.len() ==> 0 <= #[trigger] r@[i] as int <= i,
        s@.len() > 0 ==> r@[0] == 0,
{
    let chars: Vec<char> = chars_of(s.as_str());
    let r = failure_table(&chars);
    proof {
        assert forall|i: int| 0 <= i < r@.len() implies 0 <= #[trigger] r@[i] as int <= i by {
            lemma_failure_entry_bound(s@, i);
        }
        if s@.len() > 0 {
            lemma_failure_entry_zero(s@);
        }
    }
    r
}

} // verus!
