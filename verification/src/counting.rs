//! Counting helpers used by the lattice and the search engine: how many
//! integers below a bound occur in a sequence, and how many entries of a
//! boolean sequence are set.

use vstd::prelude::*;

verus! {

/// Whether the sequence holds the value `x`.
pub open spec fn contains_val(v: Seq<usize>, x: int) -> bool {
    exists|j: int| 0 <= j < v.len() && v[j] == x
}

/// The sequence is strictly increasing.
pub open spec fn strictly_sorted(v: Seq<usize>) -> bool {
    forall|j: int, k: int| 0 <= j < k < v.len() ==> v[j] < v[k]
}

/// How many integers in `[0, n)` occur in `v`.
pub open spec fn count_members(v: Seq<usize>, n: int) -> int
    decreases n,
{
    if n <= 0 {
        0
    } else {
        count_members(v, n - 1) + if contains_val(v, n - 1) {
            1int
        } else {
            0int
        }
    }
}

proof fn lemma_count_members_agree(a: Seq<usize>, b: Seq<usize>, n: int)
    requires
        forall|x: int| 0 <= x < n ==> contains_val(a, x) == contains_val(b, x),
    ensures
        count_members(a, n) == count_members(b, n),
    decreases n,
{
    if n > 0 {
        lemma_count_members_agree(a, b, n - 1);
    }
}

proof fn lemma_count_members_empty(n: int)
    ensures
        count_members(Seq::<usize>::empty(), n) == 0,
    decreases n,
{
    if n > 0 {
        lemma_count_members_empty(n - 1);
    }
}

proof fn lemma_count_members_insert(v: Seq<usize>, x: usize, n: int)
    requires
        !contains_val(v, x as int),
        0 <= x < n,
    ensures
        count_members(v.push(x), n) == count_members(v, n) + 1,
    decreases n,
{
    let w = v.push(x);
    assert(forall|i: int| 0 <= i < n && i != x ==> contains_val(w, i) == contains_val(v, i))
        by {
        assert forall|i: int| 0 <= i < n && i != x implies contains_val(w, i) == contains_val(
            v,
            i,
        ) by {
            if contains_val(v, i) {
                let j = choose|j: int| 0 <= j < v.len() && v[j] == i;
                assert(w[j] == i);
            }
            if contains_val(w, i) {
                let j = choose|j: int| 0 <= j < w.len() && w[j] == i;
                assert(j < v.len() && v[j] == i);
            }
        }
    }
    if x == n - 1 {
        assert(contains_val(w, n - 1)) by {
            assert(w[v.len() as int] == x);
        }
        lemma_count_members_agree(w, v, n - 1);
    } else {
        lemma_count_members_insert(v, x, n - 1);
    }
}

/// A strictly increasing sequence whose members all lie below `n` has exactly
/// `v.len()` members among `[0, n)`.
pub proof fn lemma_count_members_sorted(v: Seq<usize>, n: int)
    requires
        strictly_sorted(v),
        forall|j: int| 0 <= j < v.len() ==> v[j] < n,
    ensures
        count_members(v, n) == v.len(),
    decreases v.len(),
{
    if v.len() == 0 {
        lemma_count_members_agree(v, Seq::<usize>::empty(), n);
        lemma_count_members_empty(n);
    } else {
        let last = v.last();
        let w = v.drop_last();
        assert(v =~= w.push(last));
        assert(!contains_val(w, last as int)) by {
            assert(forall|j: int| 0 <= j < w.len() ==> w[j] == v[j] && v[j] < last);
        }
        lemma_count_members_sorted(w, n);
        lemma_count_members_insert(w, last, n);
    }
}

/// How many of the first `n` entries of `s` are set.
pub open spec fn count_true(s: Seq<bool>, n: int) -> int
    decreases n,
{
    if n <= 0 {
        0
    } else {
        count_true(s, n - 1) + if s[n - 1] {
            1int
        } else {
            0int
        }
    }
}

/// Setting a clear entry raises the count by one.
pub proof fn lemma_count_true_update(s: Seq<bool>, i: int, n: int)
    requires
        0 <= i < n <= s.len(),
        !s[i],
    ensures
        count_true(s.update(i, true), n) == count_true(s, n) + 1,
    decreases n,
{
    if i == n - 1 {
        lemma_count_true_agree(s.update(i, true), s, n - 1);
    } else {
        lemma_count_true_update(s, i, n - 1);
    }
}

proof fn lemma_count_true_agree(a: Seq<bool>, b: Seq<bool>, n: int)
    requires
        forall|i: int| 0 <= i < n ==> a[i] == b[i],
    ensures
        count_true(a, n) == count_true(b, n),
    decreases n,
{
    if n > 0 {
        lemma_count_true_agree(a, b, n - 1);
    }
}

/// The count never exceeds the prefix length.
pub proof fn lemma_count_true_bounds(s: Seq<bool>, n: int)
    ensures
        0 <= count_true(s, n) <= if n <= 0 {
            0
        } else {
            n
        },
    decreases n,
{
    if n > 0 {
        lemma_count_true_bounds(s, n - 1);
    }
}

/// A set entry keeps the count strictly positive.
pub proof fn lemma_count_true_pos(s: Seq<bool>, i: int, n: int)
    requires
        0 <= i < n,
        s[i],
    ensures
        count_true(s, n) >= 1,
    decreases n,
{
    if i == n - 1 {
        lemma_count_true_bounds(s, n - 1);
    } else {
        lemma_count_true_pos(s, i, n - 1);
        lemma_count_true_bounds(s, n);
    }
}

/// A clear entry keeps the count strictly below the prefix length.
pub proof fn lemma_count_true_strict(s: Seq<bool>, i: int, n: int)
    requires
        0 <= i < n,
        !s[i],
    ensures
        count_true(s, n) < n,
    decreases n,
{
    if i == n - 1 {
        lemma_count_true_bounds(s, n - 1);
    } else {
        lemma_count_true_strict(s, i, n - 1);
    }
}

} // verus!
