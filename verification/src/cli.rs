use vstd::prelude::*;
use crate::config::App;
use crate::text::copy_strings;
use crate::seqs::{
    lemma_sorted_version, lemma_sum_take, seq_sum, sort_ascending, sorted, sorted_version, sum_of,
};

verus! {

/// The median of ascending values: the middle one, or the mean of the two
/// middle ones rounded down.
pub open spec fn median_of(s: Seq<u64>) -> int
    recommends
        s.len() > 0,
{
    let n = s.len() as int;
    if n % 2 == 0 {
        (s[n / 2 - 1] + s[n / 2]) / 2
    } else {
        s[n / 2] as int
    }
}

/// The median of a non-empty sequence of ascending values.
pub fn median_u64(sorted: &[u64]) -> (m: u64)
    requires
        sorted@.len() > 0,
    ensures
        m as int == median_of(sorted@),
        sorted@.len() % 2 == 0 ==> m as int == (sorted@[sorted@.len() / 2 - 1] + sorted@[
            (sorted@.len() / 2) as int]) / 2,
        sorted@.len() % 2 == 1 ==> m == sorted@[(sorted@.len() / 2) as int],
{
    let n = sorted.len();
    if n % 2 == 0 {
        let a = sorted[n / 2 - 1];
        let b = sorted[n / 2];
        a / 2 + b / 2 + (a % 2 + b % 2) / 2
    } else {
        sorted[n / 2]
    }
}

/// The values of `s` that lie between `lo` and `hi`, in their order.
pub open spec fn within(s: Seq<u64>, lo: int, hi: int) -> Seq<u64>
    decreases s.len(),
{
    if s.len() == 0 {
        s
    } else {
        let r = within(s.drop_last(), lo, hi);
        if lo <= s.last() <= hi {
            r.push(s.last())
        } else {
            r
        }
    }
}

/// The bounds outside which ascending values `s` are outliers: one and a half
/// interquartile ranges (the half rounded down) below the first quartile, but
/// not below zero, and above the third quartile. The quartiles are the values
/// at positions n/4 and 3n/4, rounded down.
pub open spec fn quartile_fences(s: Seq<u64>) -> (int, int)
    recommends
        s.len() > 0,
{
    let n = s.len() as int;
    let q1 = s[n / 4] as int;
    let q3 = s[(3 * n) / 4] as int;
    let iqr = if q3 >= q1 {
        q3 - q1
    } else {
        0
    };
    let reach = iqr + iqr / 2;
    (
        if q1 >= reach {
            q1 - reach
        } else {
            0
        },
        q3 + reach,
    )
}

/// The values of ascending `s` that are not outliers.
pub open spec fn iqr_kept(s: Seq<u64>) -> Seq<u64> {
    within(s, quartile_fences(s).0, quartile_fences(s).1)
}

/// The first and last of ascending values and their mean rounded down, or
/// zeros when there are none.
pub open spec fn first_last_mean(k: Seq<u64>) -> (u64, u64, u64) {
    if k.len() == 0 {
        (0, 0, 0)
    } else {
        (k[0], k.last(), (seq_sum(k) / (k.len() as int)) as u64)
    }
}

/// A copy of a slice as a vector.
fn copy_of(ns: &[u64]) -> (v: Vec<u64>)
    ensures
        v@ == ns@,
{
    let mut v: Vec<u64> = Vec::new();
    let mut i: usize = 0;
    while i < ns.len()
        invariant
            i <= ns@.len(),
            v@ == ns@.take(i as int),
        decreases ns@.len() - i,
    {
        v.push(ns[i]);
        i += 1;
        assert(v@ =~= ns@.take(i as int));
    }
    assert(ns@.take(ns@.len() as int) =~= ns@);
    v
}

/// The mean of a sequence is no larger than its largest value.
proof fn lemma_mean_fits(s: Seq<u64>)
    requires
        s.len() > 0,
        seq_sum(s) <= s.len() * 0xffff_ffff_ffff_ffffint,
    ensures
        0 <= seq_sum(s) / (s.len() as int) <= 0xffff_ffff_ffff_ffffint,
{
    lemma_sum_nonneg(s);
    let n = s.len() as int;
    let t = seq_sum(s);
    assert(t / n <= 0xffff_ffff_ffff_ffffint) by (nonlinear_arith)
        requires
            t <= n * 0xffff_ffff_ffff_ffffint,
            n >= 1,
    ;
    assert(t / n >= 0) by (nonlinear_arith)
        requires
            t >= 0,
            n >= 1,
    ;
}

/// Sums are never negative.
proof fn lemma_sum_nonneg(s: Seq<u64>)
    ensures
        seq_sum(s) >= 0,
    decreases s.len(),
{
    if s.len() > 0 {
        lemma_sum_nonneg(s.drop_last());
    }
}

/// The first, last and mean of ascending values, or zeros when there are none.
fn first_last_mean_of(k: &Vec<u64>) -> (r: (u64, u64, u64))
    ensures
        r == first_last_mean(k@),
{
    let n = k.len();
    if n == 0 {
        return (0, 0, 0);
    }
    let total = sum_of(k.as_slice());
    proof {
        lemma_mean_fits(k@);
    }
    (k[0], k[n - 1], (total / (n as u128)) as u64)
}

/// The smallest, largest and mean (rounded down) of the values that are not
/// outliers by the interquartile-range rule; zeros when there are no values.
pub fn iqr_stats(ns: &[u64]) -> (r: (u64, u64, u64))
    ensures
        r == if ns@.len() == 0 {
            (0u64, 0u64, 0u64)
        } else {
            first_last_mean(iqr_kept(sorted_version(ns@)))
        },
        ns@.len() > 0 ==> ({
            let s = sorted_version(ns@);
            let k = iqr_kept(s);
            let n = s.len() as int;
            let q1 = s[n / 4] as int;
            let q3 = s[(3 * n) / 4] as int;
            let reach = (q3 - q1) + (q3 - q1) / 2;
            &&& forall|x: u64|
                #[trigger] k.contains(x) <==> (s.contains(x) && q1 - reach <= x && x <= q3
                    + reach)
            &&& k.len() > 0
            &&& r.0 == k[0]
            &&& r.1 == k.last()
            &&& r.2 as int == seq_sum(k) / (k.len() as int)
        }),
{
    if ns.len() == 0 {
        return (0, 0, 0);
    }
    let mut s = copy_of(ns);
    sort_ascending(&mut s);
    proof {
        lemma_sorted_version(s@, ns@);
    }
    let n = s.len();
    let q1 = s[n / 4];
    let q3_index = ((3 * (n as u128)) / 4) as usize;
    let q3 = s[q3_index];
    let iqr: u128 = if q3 >= q1 {
        (q3 - q1) as u128
    } else {
        0
    };
    let reach: u128 = iqr + iqr / 2;
    let lo: u128 = if (q1 as u128) >= reach {
        (q1 as u128) - reach
    } else {
        0
    };
    let hi: u128 = (q3 as u128) + reach;
    let ghost fences = quartile_fences(s@);
    assert(fences.0 == lo as int && fences.1 == hi as int);
    let mut kept: Vec<u64> = Vec::new();
    let mut i: usize = 0;
    while i < n
        invariant
            n == s@.len(),
            i <= n,
            kept@ == within(s@.take(i as int), lo as int, hi as int),
        decreases n - i,
    {
        let x = s[i];
        assert(s@.take(i + 1).drop_last() =~= s@.take(i as int));
        if lo <= (x as u128) && (x as u128) <= hi {
            kept.push(x);
        }
        i += 1;
    }
    assert(s@.take(n as int) =~= s@);
    proof {
        let len = n as int;
        let gq1 = s@[len / 4] as int;
        let gq3 = s@[(3 * len) / 4] as int;
        let greach = (gq3 - gq1) + (gq3 - gq1) / 2;
        assert forall|x: u64| #[trigger] iqr_kept(s@).contains(x) <==> (s@.contains(x) && gq1
            - greach <= x && x <= gq3 + greach) by {
            lemma_iqr_rule(s@, x);
        }
        lemma_iqr_keeps_quartiles(s@);
    }
    let r = first_last_mean_of(&kept);
    proof {
        lemma_sum_bounds_cli(kept@);
        lemma_mean_fits(kept@);
    }
    r
}

/// The median of ascending values lies between the first and the last.
pub proof fn lemma_median_between(s: Seq<u64>)
    requires
        sorted(s),
        s.len() > 0,
    ensures
        s[0] <= median_of(s) <= s.last(),
{
    let n = s.len() as int;
    if n % 2 == 0 {
        assert(s[0] <= s[n / 2 - 1] <= s[n / 2] <= s[n - 1]);
    }
}

/// The median of ascending values lies between the two middle values: at
/// least half of the values are at or below it and at least half at or above.
pub proof fn lemma_median_between_middles(s: Seq<u64>)
    requires
        sorted(s),
        s.len() > 0,
    ensures
        s[(s.len() - 1) / 2] <= median_of(s) <= s[(s.len() / 2) as int],
        forall|i: int| 0 <= i <= (s.len() - 1) / 2 ==> s[i] <= median_of(s),
        forall|i: int| s.len() / 2 <= i < s.len() ==> median_of(s) <= s[i],
{
    let n = s.len() as int;
    assert(s[(n - 1) / 2] <= s[n / 2]);
    if n % 2 == 0 {
        assert((n - 1) / 2 == n / 2 - 1);
    }
}

/// A value is kept by the interquartile-range rule exactly when it lies
/// between the first quartile less one and a half interquartile ranges and
/// the third quartile plus one and a half (the half rounded down).
pub proof fn lemma_iqr_rule(s: Seq<u64>, x: u64)
    requires
        sorted(s),
        s.len() > 0,
    ensures
        ({
            let n = s.len() as int;
            let q1 = s[n / 4] as int;
            let q3 = s[(3 * n) / 4] as int;
            let reach = (q3 - q1) + (q3 - q1) / 2;
            iqr_kept(s).contains(x) <==> (s.contains(x) && q1 - reach <= x && x <= q3 + reach)
        }),
{
    let n = s.len() as int;
    assert((3 * n) / 4 < n);
    assert(n / 4 <= (3 * n) / 4);
    let f = quartile_fences(s);
    lemma_within_bounded(s, f.0, f.1);
    lemma_within_subset(s, f.0, f.1);
    if iqr_kept(s).contains(x) {
        let k = choose|k: int| 0 <= k < iqr_kept(s).len() && iqr_kept(s)[k] == x;
        assert(f.0 <= iqr_kept(s)[k] <= f.1);
    }
    if s.contains(x) && f.0 <= x <= f.1 {
        let j = choose|j: int| 0 <= j < s.len() && s[j] == x;
        lemma_within_keeps(s, f.0, f.1, j);
    }
}

/// Every value kept is a value of the sequence.
proof fn lemma_within_subset(s: Seq<u64>, lo: int, hi: int)
    ensures
        forall|x: u64| #[trigger] within(s, lo, hi).contains(x) ==> s.contains(x),
    decreases s.len(),
{
    if s.len() > 0 {
        lemma_within_subset(s.drop_last(), lo, hi);
        let r = within(s.drop_last(), lo, hi);
        assert forall|x: u64| within(s, lo, hi).contains(x) implies s.contains(x) by {
            let w = within(s, lo, hi);
            let k = choose|k: int| 0 <= k < w.len() && w[k] == x;
            if k < r.len() {
                assert(w[k] == r[k]);
                assert(r.contains(x));
                assert(s.drop_last().contains(x));
                let j = choose|j: int| 0 <= j < s.drop_last().len() && s.drop_last()[j] == x;
                assert(s.drop_last()[j] == s[j]);
                assert(s[j] == x);
            } else {
                assert(w == r.push(s.last()));
                assert(s[s.len() - 1] == x);
            }
        }
    }
}

/// A value that lies between the bounds is kept.
proof fn lemma_within_keeps(s: Seq<u64>, lo: int, hi: int, j: int)
    requires
        0 <= j < s.len(),
        lo <= s[j] <= hi,
    ensures
        within(s, lo, hi).contains(s[j]),
    decreases s.len(),
{
    if j < s.len() - 1 {
        lemma_within_keeps(s.drop_last(), lo, hi, j);
        let r = within(s.drop_last(), lo, hi);
        let k = choose|k: int| 0 <= k < r.len() && r[k] == s[j];
        if lo <= s.last() <= hi {
            assert(r.push(s.last())[k] == s[j]);
        }
    } else {
        let r = within(s.drop_last(), lo, hi);
        assert(r.push(s.last())[r.len() as int] == s[j]);
    }
}

/// Every value kept lies between the bounds.
proof fn lemma_within_bounded(s: Seq<u64>, lo: int, hi: int)
    ensures
        forall|k: int|
            0 <= k < within(s, lo, hi).len() ==> lo <= #[trigger] within(s, lo, hi)[k] <= hi,
    decreases s.len(),
{
    if s.len() > 0 {
        lemma_within_bounded(s.drop_last(), lo, hi);
        let r = within(s.drop_last(), lo, hi);
        assert forall|k: int|
            0 <= k < within(s, lo, hi).len() implies lo <= #[trigger] within(s, lo, hi)[k]
            <= hi by {
            if k < r.len() {
                assert(within(s, lo, hi)[k] == r[k]);
            }
        }
    }
}

/// The interquartile-range rule never leaves out the quartiles themselves, so
/// a non-empty set of times always keeps some, and what it keeps lies within
/// one and a half interquartile ranges of the quartiles.
pub proof fn lemma_iqr_keeps_quartiles(s: Seq<u64>)
    requires
        sorted(s),
        s.len() > 0,
    ensures
        iqr_kept(s).contains(s[(s.len() / 4) as int]),
        iqr_kept(s).contains(s[((3 * s.len()) / 4) as int]),
        forall|k: int|
            0 <= k < iqr_kept(s).len() ==> quartile_fences(s).0 <= #[trigger] iqr_kept(s)[k]
                <= quartile_fences(s).1,
{
    let n = s.len() as int;
    assert((3 * n) / 4 < n);
    assert(n / 4 <= (3 * n) / 4);
    let f = quartile_fences(s);
    lemma_within_keeps(s, f.0, f.1, n / 4);
    lemma_within_keeps(s, f.0, f.1, (3 * n) / 4);
    lemma_within_bounded(s, f.0, f.1);
}

/// The values of `s` whose flag in `keep` is set, in their order.
pub open spec fn selected(s: Seq<u64>, keep: Seq<bool>) -> Seq<u64>
    recommends
        s.len() == keep.len(),
    decreases s.len(),
{
    if s.len() == 0 || keep.len() == 0 {
        Seq::empty()
    } else {
        let r = selected(s.drop_last(), keep.drop_last());
        if keep.last() {
            r.push(s.last())
        } else {
            r
        }
    }
}

/// The smallest value of `s`, or zero when it is empty.
pub open spec fn seq_min(s: Seq<u64>) -> u64
    decreases s.len(),
{
    if s.len() == 0 {
        0
    } else if s.len() == 1 {
        s[0]
    } else {
        let m = seq_min(s.drop_last());
        if s.last() < m {
            s.last()
        } else {
            m
        }
    }
}

/// The largest value of `s`, or zero when it is empty.
pub open spec fn seq_largest(s: Seq<u64>) -> u64
    decreases s.len(),
{
    if s.len() == 0 {
        0
    } else {
        let m = seq_largest(s.drop_last());
        if s.last() > m {
            s.last()
        } else {
            m
        }
    }
}

/// The smallest, largest and mean (rounded down) of values, or zeros when
/// there are none.
pub open spec fn min_max_mean(k: Seq<u64>) -> (u64, u64, u64) {
    if k.len() == 0 {
        (0, 0, 0)
    } else {
        (seq_min(k), seq_largest(k), (seq_sum(k) / (k.len() as int)) as u64)
    }
}

/// The smallest value is a value of the sequence and no value is below it.
proof fn lemma_seq_min(s: Seq<u64>)
    requires
        s.len() > 0,
    ensures
        exists|i: int| 0 <= i < s.len() && s[i] == seq_min(s),
        forall|i: int| 0 <= i < s.len() ==> seq_min(s) <= #[trigger] s[i],
    decreases s.len(),
{
    if s.len() == 1 {
        assert(s[0] == seq_min(s));
    } else {
        lemma_seq_min(s.drop_last());
        let m = seq_min(s.drop_last());
        let j = choose|j: int| 0 <= j < s.drop_last().len() && s.drop_last()[j] == m;
        if s.last() < m {
            assert(s[s.len() - 1] == seq_min(s));
        } else {
            assert(s[j] == seq_min(s));
        }
        assert forall|i: int| 0 <= i < s.len() implies seq_min(s) <= #[trigger] s[i] by {
            if i < s.len() - 1 {
                assert(s.drop_last()[i] == s[i]);
            }
        }
    }
}

/// The largest value is a value of the sequence and no value is above it.
proof fn lemma_seq_largest(s: Seq<u64>)
    requires
        s.len() > 0,
    ensures
        exists|i: int| 0 <= i < s.len() && s[i] == seq_largest(s),
        forall|i: int| 0 <= i < s.len() ==> #[trigger] s[i] <= seq_largest(s),
    decreases s.len(),
{
    if s.len() == 1 {
        assert(s.drop_last().len() == 0);
        assert(s[0] == seq_largest(s));
    } else {
        lemma_seq_largest(s.drop_last());
        let m = seq_largest(s.drop_last());
        let j = choose|j: int| 0 <= j < s.drop_last().len() && s.drop_last()[j] == m;
        if s.last() > m {
            assert(s[s.len() - 1] == seq_largest(s));
        } else {
            assert(s[j] == seq_largest(s));
        }
        assert forall|i: int| 0 <= i < s.len() implies #[trigger] s[i] <= seq_largest(s) by {
            if i < s.len() - 1 {
                assert(s.drop_last()[i] == s[i]);
            }
        }
    }
}

/// Of non-empty values, the reported minimum and maximum are values that
/// bound all the others, and the reported mean is the sum divided by the
/// count, rounded down.
pub proof fn lemma_min_max_mean(k: Seq<u64>)
    requires
        k.len() > 0,
    ensures
        exists|i: int| 0 <= i < k.len() && k[i] == min_max_mean(k).0,
        exists|i: int| 0 <= i < k.len() && k[i] == min_max_mean(k).1,
        forall|i: int| 0 <= i < k.len() ==> min_max_mean(k).0 <= #[trigger] k[i] <= min_max_mean(k).1,
        min_max_mean(k).2 as int == seq_sum(k) / (k.len() as int),
{
    lemma_seq_min(k);
    lemma_seq_largest(k);
    lemma_sum_bounds_cli(k);
    lemma_mean_fits(k);
}

/// A sum of 64-bit values is at most their count times the largest 64-bit value.
proof fn lemma_sum_bounds_cli(k: Seq<u64>)
    ensures
        seq_sum(k) <= k.len() * 0xffff_ffff_ffff_ffffint,
{
    crate::seqs::lemma_sum_bounds(k, 0, 0xffff_ffff_ffff_ffffint);
}

/// The smallest, largest and mean of a vector, or zeros when it is empty.
fn min_max_mean_of(k: &Vec<u64>) -> (r: (u64, u64, u64))
    ensures
        r == min_max_mean(k@),
{
    let n = k.len();
    if n == 0 {
        return (0, 0, 0);
    }
    let mut lo = k[0];
    let mut hi = k[0];
    let mut i: usize = 1;
    assert(k@.take(1).drop_last() =~= k@.take(0));
    assert(k@.take(0) =~= Seq::<u64>::empty());
    assert(seq_largest(k@.take(1).drop_last()) == 0);
    assert(k@.take(1).last() == k@[0]);
    assert(seq_largest(k@.take(1)) == k@[0]);
    while i < n
        invariant
            n == k@.len(),
            1 <= i <= n,
            lo == seq_min(k@.take(i as int)),
            hi == seq_largest(k@.take(i as int)),
        decreases n - i,
    {
        assert(k@.take(i + 1).drop_last() =~= k@.take(i as int));
        if k[i] < lo {
            lo = k[i];
        }
        if k[i] > hi {
            hi = k[i];
        }
        i += 1;
    }
    assert(k@.take(n as int) =~= k@);
    let total = sum_of(k.as_slice());
    proof {
        lemma_mean_fits(k@);
    }
    (lo, hi, (total / (n as u128)) as u64)
}

/// The smallest, largest and mean of the values that pass the z-score test,
/// given by `keep` (whose flags are not read when there are fewer than two
/// values): with fewer than two values, the first value three times, or zeros.
pub fn z_score_stats(ns: &[u64], keep: &[bool]) -> (r: (u64, u64, u64))
    requires
        ns@.len() >= 2 ==> keep@.len() == ns@.len(),
    ensures
        r == if ns@.len() == 0 {
            (0u64, 0u64, 0u64)
        } else if ns@.len() == 1 {
            (ns@[0], ns@[0], ns@[0])
        } else {
            min_max_mean(selected(ns@, keep@))
        },
        ns@.len() >= 2 && selected(ns@, keep@).len() > 0 ==> {
            let k = selected(ns@, keep@);
            &&& r.2 as int == seq_sum(k) / (k.len() as int)
            &&& exists|i: int| 0 <= i < k.len() && k[i] == r.0
            &&& exists|i: int| 0 <= i < k.len() && k[i] == r.1
            &&& forall|i: int| 0 <= i < k.len() ==> r.0 <= #[trigger] k[i] <= r.1
        },
{
    if ns.len() < 2 {
        if ns.len() == 0 {
            return (0, 0, 0);
        }
        return (ns[0], ns[0], ns[0]);
    }
    let mut kept: Vec<u64> = Vec::new();
    let mut i: usize = 0;
    while i < ns.len()
        invariant
            i <= ns@.len(),
            keep@.len() == ns@.len(),
            kept@ == selected(ns@.take(i as int), keep@.take(i as int)),
        decreases ns@.len() - i,
    {
        assert(ns@.take(i + 1).drop_last() =~= ns@.take(i as int));
        assert(keep@.take(i + 1).drop_last() =~= keep@.take(i as int));
        if keep[i] {
            kept.push(ns[i]);
        }
        i += 1;
    }
    assert(ns@.take(ns@.len() as int) =~= ns@);
    assert(keep@.take(keep@.len() as int) =~= keep@);
    let r = min_max_mean_of(&kept);
    proof {
        if kept@.len() > 0 {
            lemma_min_max_mean(kept@);
        }
    }
    r
}

/// The smallest, largest and mean (the sum divided by the count, but by one
/// when there are none) of the CPU tick counts; zeros when there are none.
pub fn tick_stats(ticks: &[u64]) -> (r: (u64, u64, u64))
    ensures
        r == min_max_mean(ticks@),
        ticks@.len() == 0 ==> r == (0u64, 0u64, 0u64),
        ticks@.len() > 0 ==> {
            &&& r.2 as int == seq_sum(ticks@) / (ticks@.len() as int)
            &&& exists|i: int| 0 <= i < ticks@.len() && ticks@[i] == r.0
            &&& exists|i: int| 0 <= i < ticks@.len() && ticks@[i] == r.1
            &&& forall|i: int| 0 <= i < ticks@.len() ==> r.0 <= #[trigger] ticks@[i] <= r.1
        },
{
    let v = copy_of(ticks);
    let r = min_max_mean_of(&v);
    proof {
        if ticks@.len() > 0 {
            lemma_min_max_mean(ticks@);
        }
    }
    r
}

/// What is reported about the wall-clock times of a command's runs.
pub struct CliStats {
    /// The times in ascending order.
    pub sorted: Vec<u64>,
    pub min_ns: u64,
    pub max_ns: u64,
    /// The mean, rounded down.
    pub avg_ns: u64,
    pub median_ns: u64,
    /// Smallest, largest and mean once outliers by the interquartile-range rule are left out.
    pub iqr: (u64, u64, u64),
}

/// The statistics of a non-empty set of run times.
pub fn cli_stats(ns: &[u64]) -> (r: CliStats)
    requires
        ns@.len() > 0,
    ensures
        r.sorted@ == sorted_version(ns@),
        r.min_ns == sorted_version(ns@)[0],
        r.max_ns == sorted_version(ns@).last(),
        r.avg_ns as int == seq_sum(ns@) / (ns@.len() as int),
        r.median_ns as int == median_of(sorted_version(ns@)),
        r.iqr == first_last_mean(iqr_kept(sorted_version(ns@))),
{
    let mut s = copy_of(ns);
    sort_ascending(&mut s);
    proof {
        lemma_sorted_version(s@, ns@);
    }
    let n = s.len();
    let total = sum_of(ns);
    proof {
        lemma_mean_fits(ns@);
    }
    let avg = (total / (n as u128)) as u64;
    let median = median_u64(s.as_slice());
    let iqr = iqr_stats(ns);
    CliStats { min_ns: s[0], max_ns: s[n - 1], avg_ns: avg, median_ns: median, iqr, sorted: s }
}

/// The outcome of one timed run of a command: whether it exited successfully,
/// and the time it took.
#[derive(Copy, Clone)]
pub struct RunOutcome {
    pub ok: bool,
    pub time: u64,
}

/// The times of the runs that succeeded, in order.
pub open spec fn successful(runs: Seq<RunOutcome>) -> Seq<u64>
    decreases runs.len(),
{
    if runs.len() == 0 {
        Seq::empty()
    } else {
        let r = successful(runs.drop_last());
        if runs.last().ok {
            r.push(runs.last().time)
        } else {
            r
        }
    }
}

/// The times of the runs that succeeded, in order; failed runs are not timed.
pub fn successful_times(runs: &[RunOutcome]) -> (times: Vec<u64>)
    ensures
        times@ == successful(runs@),
{
    let mut times: Vec<u64> = Vec::new();
    let mut i: usize = 0;
    while i < runs.len()
        invariant
            i <= runs@.len(),
            times@ == successful(runs@.take(i as int)),
        decreases runs@.len() - i,
    {
        assert(runs@.take(i + 1).drop_last() =~= runs@.take(i as int));
        let r = runs[i];
        if r.ok {
            times.push(r.time);
        }
        i += 1;
    }
    assert(runs@.take(runs@.len() as int) =~= runs@);
    times
}

/// Why an application gets no command-line benchmark.
#[derive(Debug, Clone, Copy, PartialEq, Eq)]
pub enum CliSkip {
    /// It has no command to run.
    MissingCommand,
    /// It has no `cli` settings.
    MissingCli,
}

/// A command-line benchmark to run.
#[derive(Debug, Clone)]
pub struct CliJob {
    pub exe: String,
    pub args: Vec<String>,
    /// How many timed runs.
    pub runs: u32,
    /// Whether CPU ticks are measured as well.
    pub tick: bool,
}

/// The command-line benchmark of an application: its command with its
/// arguments (none when not given), and its run count and tick setting.
pub fn cli_job(app: &App) -> (r: Result<CliJob, CliSkip>)
    ensures
        app.command is None ==> r == Err::<CliJob, CliSkip>(CliSkip::MissingCommand),
        app.command is Some && app.cli is None ==> r == Err::<CliJob, CliSkip>(
            CliSkip::MissingCli,
        ),
        app.command is Some && app.cli is Some ==> (r matches Ok(job) && {
            let cmd = app.command->0;
            let cli = app.cli->0;
            &&& job.exe@ == cmd.first@
            &&& job.args@ == match cmd.args {
                Some(a) => a@,
                None => Seq::empty(),
            }
            &&& job.runs == cli.max_run
            &&& job.tick == cli.tick
        }),
{
    let cmd = match &app.command {
        Some(c) => c,
        None => return Err(CliSkip::MissingCommand),
    };
    let cli = match &app.cli {
        Some(c) => c,
        None => return Err(CliSkip::MissingCli),
    };
    let args = match &cmd.args {
        Some(a) => copy_strings(a),
        None => Vec::new(),
    };
    Ok(CliJob { exe: cmd.first.clone(), args, runs: cli.max_run, tick: cli.tick })
}

} // verus!
