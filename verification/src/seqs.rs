use vstd::prelude::*;

verus! {

/// `s` is in ascending order.
pub open spec fn sorted(s: Seq<u64>) -> bool {
    forall|i: int, j: int| 0 <= i <= j < s.len() ==> s[i] <= s[j]
}

/// `t` holds the same values as `s`, each as often, in ascending order.
pub open spec fn sorted_permutation_of(t: Seq<u64>, s: Seq<u64>) -> bool {
    &&& sorted(t)
    &&& t.to_multiset() == s.to_multiset()
}

/// The sum of the values of `s`.
pub open spec fn seq_sum(s: Seq<u64>) -> int
    decreases s.len(),
{
    if s.len() == 0 {
        0
    } else {
        seq_sum(s.drop_last()) + s.last()
    }
}

/// How many times `v` occurs in `s`.
pub open spec fn occurrences(s: Seq<u64>, v: u64) -> nat
    decreases s.len(),
{
    if s.len() == 0 {
        0
    } else {
        occurrences(s.drop_last(), v) + if s.last() == v {
            1nat
        } else {
            0nat
        }
    }
}

/// Counting occurrences agrees with the multiset of the sequence.
pub proof fn lemma_occurrences_multiset(s: Seq<u64>, v: u64)
    ensures
        occurrences(s, v) == s.to_multiset().count(v),
    decreases s.len(),
{
    broadcast use vstd::seq_lib::group_to_multiset_ensures;

    if s.len() > 0 {
        lemma_occurrences_multiset(s.drop_last(), v);
        assert(s == s.drop_last().push(s.last()));
    }
}

/// Extending a prefix by one element adds that element to the counts.
pub proof fn lemma_occurrences_take(s: Seq<u64>, i: int, v: u64)
    requires
        0 <= i < s.len(),
    ensures
        occurrences(s.take(i + 1), v) == occurrences(s.take(i), v) + if s[i] == v {
            1nat
        } else {
            0nat
        },
{
    assert(s.take(i + 1).drop_last() =~= s.take(i));
}

/// Extending a prefix by one element adds that element to the sum.
pub proof fn lemma_sum_take(s: Seq<u64>, i: int)
    requires
        0 <= i < s.len(),
    ensures
        seq_sum(s.take(i + 1)) == seq_sum(s.take(i)) + s[i],
{
    assert(s.take(i + 1).drop_last() =~= s.take(i));
}

/// The values of `s` in strictly ascending order, so none repeats.
pub open spec fn strictly_increasing(s: Seq<u64>) -> bool {
    forall|i: int, j: int| 0 <= i < j < s.len() ==> s[i] < s[j]
}

/// The sum of a slice, computed without overflow.
pub fn sum_of(t: &[u64]) -> (r: u128)
    ensures
        r as int == seq_sum(t@),
        r as int <= t@.len() * 0xffff_ffff_ffff_ffffint,
{
    let mut acc: u128 = 0;
    let mut i: usize = 0;
    while i < t.len()
        invariant
            i <= t@.len(),
            acc as int == seq_sum(t@.take(i as int)),
            acc as int <= i * 0xffff_ffff_ffff_ffffint,
        decreases t@.len() - i,
    {
        proof {
            lemma_sum_take(t@, i as int);
        }
        acc = acc + t[i] as u128;
        i += 1;
    }
    assert(t@.take(t@.len() as int) =~= t@);
    acc
}

/// The order in which latencies are sorted.
pub open spec fn at_most(x: u64, y: u64) -> bool {
    x <= y
}

/// The values of `s` in ascending order.
pub open spec fn sorted_version(s: Seq<u64>) -> Seq<u64> {
    s.sort_by(|x: u64, y: u64| at_most(x, y))
}

/// Any ascending arrangement of the values of `s` is `sorted_version(s)`.
pub proof fn lemma_sorted_version(t: Seq<u64>, s: Seq<u64>)
    requires
        sorted_permutation_of(t, s),
    ensures
        t == sorted_version(s),
{
    let leq = |x: u64, y: u64| at_most(x, y);
    assert(vstd::relations::total_ordering(leq)) by {
        assert(vstd::relations::reflexive(leq));
        assert(vstd::relations::antisymmetric(leq));
        assert(vstd::relations::transitive(leq));
        assert(vstd::relations::strongly_connected(leq));
    }
    s.lemma_sort_by_ensures(leq);
    assert(vstd::relations::sorted_by(t, leq)) by {
        assert forall|i: int, j: int| 0 <= i < j < t.len() implies #[trigger] leq(t[i], t[j]) by {
        }
    }
    vstd::seq_lib::lemma_sorted_unique(t, sorted_version(s), leq);
}

/// A sum of `n` values between `lo` and `hi` lies between `n * lo` and `n * hi`.
pub proof fn lemma_sum_bounds(s: Seq<u64>, lo: int, hi: int)
    requires
        forall|i: int| 0 <= i < s.len() ==> lo <= #[trigger] s[i] <= hi,
    ensures
        s.len() * lo <= seq_sum(s) <= s.len() * hi,
    decreases s.len(),
{
    if s.len() > 0 {
        lemma_sum_bounds(s.drop_last(), lo, hi);
        let n = s.len() as int;
        assert((n - 1) * lo + lo == n * lo) by (nonlinear_arith);
        assert((n - 1) * hi + hi == n * hi) by (nonlinear_arith);
    }
}

/// The mean of values between `lo` and `hi`, rounded down, lies between them too.
pub proof fn lemma_mean_bounds(s: Seq<u64>, lo: int, hi: int)
    requires
        s.len() > 0,
        0 <= lo,
        forall|i: int| 0 <= i < s.len() ==> lo <= #[trigger] s[i] <= hi,
    ensures
        lo <= seq_sum(s) / (s.len() as int) <= hi,
{
    lemma_sum_bounds(s, lo, hi);
    let n = s.len() as int;
    let t = seq_sum(s);
    assert(lo <= t / n <= hi) by (nonlinear_arith)
        requires
            n * lo <= t <= n * hi,
            n > 0,
    ;
}

/// Sorts the vector in ascending order.
///
/// Trusted: calls `<[u64]>::sort_unstable`, whose documentation says that it
/// sorts the slice, with equal elements in any order; so the result is in
/// ascending order and holds the same values, each as often.
#[verifier::external_body]
pub(crate) fn sort_ascending(v: &mut Vec<u64>)
    ensures
        final(v)@.len() == old(v)@.len(),
        sorted_permutation_of(final(v)@, old(v)@),
{
    v.sort_unstable();
}

} // verus!
