//! Maximal runs of equal values in a sequence.

use vstd::prelude::*;

verus! {

/// First index of the maximal run of equal values that holds index `k`.
pub open spec fn run_start<T>(s: Seq<T>, k: int) -> int
    decreases k,
{
    if 0 < k < s.len() && s[k - 1] == s[k] {
        run_start(s, k - 1)
    } else {
        k
    }
}

/// Last index of the maximal run of equal values that holds index `k`.
pub open spec fn run_end<T>(s: Seq<T>, k: int) -> int
    decreases s.len() - k,
{
    if 0 <= k && k + 1 < s.len() && s[k + 1] == s[k] {
        run_end(s, k + 1)
    } else {
        k
    }
}

/// `[a, b]` is a maximal run of equal values in `s`.
pub open spec fn is_maximal_run<T>(s: Seq<T>, a: int, b: int) -> bool {
    &&& 0 <= a <= b < s.len()
    &&& forall|k: int| a <= k <= b ==> #[trigger] s[k] == s[a]
    &&& (a == 0 || s[a - 1] != s[a])
    &&& (b + 1 == s.len() || s[b + 1] != s[a])
}

proof fn lemma_run_start_props<T>(s: Seq<T>, k: int)
    requires
        0 <= k < s.len(),
    ensures
        0 <= run_start(s, k) <= k,
        forall|j: int| run_start(s, k) <= j <= k ==> #[trigger] s[j] == s[k],
        run_start(s, k) == 0 || s[run_start(s, k) - 1] != s[k],
    decreases k,
{
    if 0 < k && s[k - 1] == s[k] {
        lemma_run_start_props(s, k - 1);
    }
}

proof fn lemma_run_end_props<T>(s: Seq<T>, k: int)
    requires
        0 <= k < s.len(),
    ensures
        k <= run_end(s, k) < s.len(),
        forall|j: int| k <= j <= run_end(s, k) ==> #[trigger] s[j] == s[k],
        run_end(s, k) + 1 == s.len() || s[run_end(s, k) + 1] != s[k],
    decreases s.len() - k,
{
    if k + 1 < s.len() && s[k + 1] == s[k] {
        lemma_run_end_props(s, k + 1);
    }
}

/// The run through `k` is maximal, and it holds `k`.
pub proof fn lemma_run_through<T>(s: Seq<T>, k: int)
    requires
        0 <= k < s.len(),
    ensures
        run_start(s, k) <= k <= run_end(s, k),
        is_maximal_run(s, run_start(s, k), run_end(s, k)),
{
    lemma_run_start_props(s, k);
    lemma_run_end_props(s, k);
}

proof fn lemma_start_within<T>(s: Seq<T>, a: int, b: int, k: int)
    requires
        is_maximal_run(s, a, b),
        a <= k <= b,
    ensures
        run_start(s, k) == a,
    decreases k - a,
{
    if k > a {
        assert(s[k - 1] == s[a] && s[k] == s[a]);
        lemma_start_within(s, a, b, k - 1);
    }
}

proof fn lemma_end_within<T>(s: Seq<T>, a: int, b: int, k: int)
    requires
        is_maximal_run(s, a, b),
        a <= k <= b,
    ensures
        run_end(s, k) == b,
    decreases b - k,
{
    if k < b {
        assert(s[k + 1] == s[a] && s[k] == s[a]);
        lemma_end_within(s, a, b, k + 1);
    }
}

/// Every index of a maximal run `[a, b]` has that run as its own.
pub proof fn lemma_maximal_run_members<T>(s: Seq<T>, a: int, b: int)
    requires
        is_maximal_run(s, a, b),
    ensures
        forall|k: int| a <= k <= b ==> run_start(s, k) == a && run_end(s, k) == b,
{
    assert forall|k: int| a <= k <= b implies run_start(s, k) == a && run_end(s, k) == b by {
        lemma_start_within(s, a, b, k);
        lemma_end_within(s, a, b, k);
    }
}

} // verus!
