//! Borders of a character sequence.
//!
//! A border of `s` is a proper prefix of `s` that is also a suffix of `s`.
//! The failure table of the Knuth-Morris-Pratt algorithm records, for every
//! prefix of the input, the length of its longest border; this module gives
//! that notion its mathematical definition and the lemmas the rest of the
//! crate builds on.

use vstd::prelude::*;

verus! {

/// The prefix of `s` of length `n`.
pub open spec fn prefix(s: Seq<char>, n: int) -> Seq<char> {
    s.subrange(0, n)
}

/// `k` is the length of a border of `s`: the prefix of length `k` is proper
/// (`k < s.len()`) and coincides with the suffix of length `k`.
pub open spec fn is_border(s: Seq<char>, k: int) -> bool {
    &&& 0 <= k < s.len()
    &&& forall|j: int| 0 <= j < k ==> #[trigger] s[j] == s[s.len() - k + j]
}

/// The largest border length of `s` that is at most `k` (0 when none is).
pub open spec fn max_border_below(s: Seq<char>, k: int) -> int
    decreases k,
{
    if k <= 0 {
        0
    } else if is_border(s, k) {
        k
    } else {
        max_border_below(s, k - 1)
    }
}

/// The length of the longest border of `s` (0 for the empty sequence).
pub open spec fn longest_border(s: Seq<char>) -> int {
    max_border_below(s, s.len() - 1)
}

/// The empty prefix is a border of every non-empty sequence.
pub proof fn lemma_border_zero(s: Seq<char>)
    requires
        s.len() >= 1,
    ensures
        is_border(s, 0),
{
}

proof fn lemma_max_border_below(s: Seq<char>, k: int)
    requires
        0 <= k < s.len(),
    ensures
        0 <= max_border_below(s, k) <= k,
        is_border(s, max_border_below(s, k)),
        forall|m: int| max_border_below(s, k) < m <= k ==> !is_border(s, m),
    decreases k,
{
    if k <= 0 {
        lemma_border_zero(s);
    } else if is_border(s, k) {
    } else {
        lemma_max_border_below(s, k - 1);
    }
}

/// The longest border of a non-empty sequence is a border, is shorter than
/// the sequence, and no longer border exists.
pub proof fn lemma_longest_border(s: Seq<char>)
    requires
        s.len() >= 1,
    ensures
        0 <= longest_border(s) < s.len(),
        is_border(s, longest_border(s)),
        forall|m: int| longest_border(s) < m < s.len() ==> !is_border(s, m),
{
    lemma_max_border_below(s, s.len() - 1);
}

/// Taking a prefix of a prefix is the same as taking the shorter prefix
/// directly.
pub proof fn lemma_prefix_of_prefix(s: Seq<char>, i: int, j: int)
    requires
        0 <= j <= i <= s.len(),
    ensures
        prefix(prefix(s, i), j) == prefix(s, j),
{
    assert(prefix(prefix(s, i), j) =~= prefix(s, j));
}

/// A border of the prefix of length `i + 1` that ends with a matching
/// character is one character longer than a border of the prefix of length
/// `i`, and conversely: for `1 <= k <= i`, `k` is a border length of
/// `prefix(s, i + 1)` exactly when `k - 1` is a border length of
/// `prefix(s, i)` and `s[k - 1] == s[i]`.
pub proof fn lemma_border_extend(s: Seq<char>, i: int, k: int)
    requires
        1 <= k <= i < s.len(),
    ensures
        is_border(prefix(s, i + 1), k) <==> (is_border(prefix(s, i), k - 1) && s[k - 1] == s[i]),
{
    let p = prefix(s, i + 1);
    let q = prefix(s, i);
    if is_border(p, k) {
        assert(p[k - 1] == p[i + 1 - k + (k - 1)]);
        assert forall|j: int| 0 <= j < k - 1 implies #[trigger] q[j] == q[i - (k - 1) + j] by {
            assert(p[j] == p[i + 1 - k + j]);
        }
    }
    if is_border(q, k - 1) && s[k - 1] == s[i] {
        assert forall|j: int| 0 <= j < k implies #[trigger] p[j] == p[i + 1 - k + j] by {
            if j < k - 1 {
                assert(q[j] == q[i - (k - 1) + j]);
            }
        }
    }
}

/// Of two borders of `s`, the shorter is a border of the longer (viewed as a
/// prefix of `s`): borders are nested.
pub proof fn lemma_border_nested(s: Seq<char>, k: int, j: int)
    requires
        is_border(s, k),
        is_border(s, j),
        k < j,
    ensures
        is_border(prefix(s, j), k),
{
    let n = s.len() as int;
    let q = prefix(s, j);
    assert forall|m: int| 0 <= m < k implies #[trigger] q[m] == q[j - k + m] by {
        assert(s[j - k + m] == s[n - j + (j - k + m)]);
        assert(s[m] == s[n - k + m]);
    }
}

/// A border of a border of `s` is itself a border of `s`.
pub proof fn lemma_border_trans(s: Seq<char>, j: int, k: int)
    requires
        is_border(s, j),
        is_border(prefix(s, j), k),
    ensures
        is_border(s, k),
{
    let n = s.len() as int;
    let q = prefix(s, j);
    assert forall|m: int| 0 <= m < k implies #[trigger] s[m] == s[n - k + m] by {
        assert(q[m] == q[j - k + m]);
        assert(s[j - k + m] == s[n - j + (j - k + m)]);
    }
}

/// A border length that no longer border exceeds is exactly the longest
/// border: the longest border is characterised by these two properties.
pub proof fn lemma_longest_border_unique(s: Seq<char>, j: int)
    requires
        s.len() >= 1,
        is_border(s, j),
        forall|m: int| j < m < s.len() ==> !is_border(s, m),
    ensures
        j == longest_border(s),
{
    lemma_longest_border(s);
}

} // verus!
