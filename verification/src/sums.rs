//! Finite sums of an integer function, over an initial segment of the naturals
//! and over a list of indices, and the facts that relate the two.

use vstd::prelude::*;
use crate::fixed::abs;

verus! {

/// `f(0) + f(1) + .. + f(n - 1)`.
pub open spec fn sum_to(f: spec_fn(int) -> int, n: int) -> int
    decreases n,
{
    if n <= 0 {
        0
    } else {
        sum_to(f, n - 1) + f(n - 1)
    }
}

/// The sum of `f` over the entries of `s`, each entry counted as often as it
/// occurs.
pub open spec fn sum_over(f: spec_fn(int) -> int, s: Seq<usize>) -> int
    decreases s.len(),
{
    if s.len() == 0 {
        0
    } else {
        sum_over(f, s.drop_last()) + f(s.last() as int)
    }
}

/// Two functions that agree below `n` have the same sum up to `n`.
pub proof fn lemma_sum_to_agree(f: spec_fn(int) -> int, g: spec_fn(int) -> int, n: int)
    requires
        forall|j: int| 0 <= j < n ==> #[trigger] f(j) == g(j),
    ensures
        sum_to(f, n) == sum_to(g, n),
    decreases n,
{
    if n > 0 {
        lemma_sum_to_agree(f, g, n - 1);
    }
}

/// A sum of `n` terms, none larger in magnitude than `bound`, is no larger in
/// magnitude than `n * bound`.
pub proof fn lemma_sum_to_bound(f: spec_fn(int) -> int, n: int, bound: int)
    requires
        n >= 0,
        forall|j: int| 0 <= j < n ==> abs(#[trigger] f(j)) <= bound,
    ensures
        abs(sum_to(f, n)) <= n * bound,
    decreases n,
{
    if n > 0 {
        lemma_sum_to_bound(f, n - 1, bound);
        assert(abs(f(n - 1)) <= bound);
        assert((n - 1) * bound + bound == n * bound) by (nonlinear_arith);
    } else {
        assert(0 * bound == 0);
    }
}

/// Taking one entry out of a list takes its term out of the sum.
pub proof fn lemma_sum_over_remove(f: spec_fn(int) -> int, s: Seq<usize>, k: int)
    requires
        0 <= k < s.len(),
    ensures
        sum_over(f, s) == sum_over(f, s.remove(k)) + f(s[k] as int),
    decreases s.len(),
{
    if k == s.len() - 1 {
        assert(s.remove(k) =~= s.drop_last());
    } else {
        lemma_sum_over_remove(f, s.drop_last(), k);
        assert(s.remove(k).drop_last() =~= s.drop_last().remove(k));
        assert(s.remove(k).last() == s.last());
    }
}

/// Appending an entry adds its term to the sum.
pub proof fn lemma_sum_over_push(f: spec_fn(int) -> int, s: Seq<usize>, e: usize)
    ensures
        sum_over(f, s.push(e)) == sum_over(f, s) + f(e as int),
{
    assert(s.push(e).drop_last() =~= s);
}

/// A list without repetition of indices below `n` has at most `n` entries.
pub proof fn lemma_distinct_indices_len(s: Seq<usize>, n: int)
    requires
        n >= 0,
        s.no_duplicates(),
        forall|k: int| 0 <= k < s.len() ==> s[k] < n,
    ensures
        s.len() <= n,
    decreases n,
{
    if n == 0 {
        if s.len() > 0 {
            assert(s[0] < n);
        }
    } else if exists|k: int| 0 <= k < s.len() && s[k] == n - 1 {
        let k = choose|k: int| 0 <= k < s.len() && s[k] == n - 1;
        let rest = s.remove(k);
        assert forall|i: int| 0 <= i < rest.len() implies rest[i] < n - 1 by {
            let i0 = if i < k { i } else { i + 1 };
            assert(rest[i] == s[i0]);
        }
        assert forall|i: int, j: int|
            0 <= i < rest.len() && 0 <= j < rest.len() && i != j implies rest[i] != rest[j] by {
            let i0 = if i < k { i } else { i + 1 };
            let j0 = if j < k { j } else { j + 1 };
            assert(rest[i] == s[i0] && rest[j] == s[j0]);
        }
        lemma_distinct_indices_len(rest, n - 1);
    } else {
        lemma_distinct_indices_len(s, n - 1);
    }
}

/// A sum over a list without repetition equals the sum over all indices below
/// `n`, provided the list holds only such indices and `f` vanishes on those it
/// leaves out. The order of the list does not matter.
pub proof fn lemma_sum_over_is_sum_to(f: spec_fn(int) -> int, s: Seq<usize>, n: int)
    requires
        0 <= n <= usize::MAX,
        s.no_duplicates(),
        forall|k: int| 0 <= k < s.len() ==> s[k] < n,
        forall|j: int| 0 <= j < n && !s.contains(j as usize) ==> #[trigger] f(j) == 0,
    ensures
        sum_over(f, s) == sum_to(f, n),
    decreases n,
{
    if n == 0 {
        if s.len() > 0 {
            assert(s[0] < n);
        }
    } else {
        let e = (n - 1) as usize;
        if s.contains(e) {
            let k = s.index_of(e);
            let rest = s.remove(k);
            lemma_sum_over_remove(f, s, k);
            assert forall|i: int| 0 <= i < rest.len() implies rest[i] < n - 1 by {
                if i < k {
                    assert(rest[i] == s[i]);
                } else {
                    assert(rest[i] == s[i + 1]);
                }
            }
            assert(rest.no_duplicates()) by {
                assert forall|i: int, j: int|
                    0 <= i < rest.len() && 0 <= j < rest.len() && i != j
                    implies rest[i] != rest[j] by {
                    let i0 = if i < k { i } else { i + 1 };
                    let j0 = if j < k { j } else { j + 1 };
                    assert(rest[i] == s[i0] && rest[j] == s[j0]);
                }
            }
            assert forall|j: int|
                0 <= j < n - 1 && !rest.contains(j as usize) implies #[trigger] f(j) == 0 by {
                if s.contains(j as usize) {
                    let i = s.index_of(j as usize);
                    assert(s[k] == e && s[i] == j as usize);
                    assert(i != k);
                    let i1 = if i < k { i } else { i - 1 };
                    assert(rest[i1] == s[i]);
                    assert(rest.contains(j as usize));
                }
            }
            lemma_sum_over_is_sum_to(f, rest, n - 1);
        } else {
            assert forall|k: int| 0 <= k < s.len() implies s[k] < n - 1 by {
                assert(s.contains(s[k]));
            }
            lemma_sum_over_is_sum_to(f, s, n - 1);
            assert(f(n - 1) == 0);
        }
    }
}

} // verus!
