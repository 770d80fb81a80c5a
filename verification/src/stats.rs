use vstd::prelude::*;
use crate::seqs::{
    lemma_mean_bounds, lemma_occurrences_multiset, lemma_occurrences_take, occurrences, seq_sum, sort_ascending,
    sorted, strictly_increasing, sum_of,
};

verus! {

/// The result of one benchmark: which target it measured, how long it ran,
/// the latencies of the requests that succeeded (in nanoseconds, ascending),
/// and how many requests were attempted in all.
pub struct BenchResult {
    /// Name of the benchmark: the program started for it (empty when none was),
    /// or a fixed name such as `ws`, `grpc-ping` or `grpc-stream`.
    pub label: String,
    /// Target URL (empty for command-line benchmarks).
    pub url: String,
    /// Wall-clock duration of the whole benchmark.
    pub duration: std::time::Duration,
    /// Nanosecond latencies of successful requests, sorted ascending.
    pub times_ns: Vec<u64>,
    /// Total requests attempted (successes and failures).
    pub total_sent: u64,
}

impl BenchResult {
    /// The number of successful requests.
    pub fn success(&self) -> (n: usize)
        ensures
            n == self.times_ns@.len(),
    {
        self.times_ns.len()
    }
}

/// Nanoseconds in a millisecond.
pub const NS_PER_MS: u64 = 1_000_000;

/// The whole milliseconds of each latency.
pub open spec fn ms_buckets(t: Seq<u64>) -> Seq<u64> {
    t.map_values(|x: u64| x / NS_PER_MS)
}

/// How many latencies of `t` fall in millisecond `m`.
pub open spec fn ms_count(t: Seq<u64>, m: u64) -> nat {
    ms_buckets(t).to_multiset().count(m)
}

/// Millisecond `m` holds latencies of `t`, and no millisecond holds more.
pub open spec fn is_mode_ms(t: Seq<u64>, m: u64) -> bool {
    &&& ms_count(t, m) > 0
    &&& forall|w: u64| ms_count(t, w) <= ms_count(t, m)
}

/// The most frequent whole milliseconds among the latencies, ascending; empty
/// when there are no latencies.
pub fn modes_ms(t: &[u64]) -> (r: Vec<u64>)
    ensures
        strictly_increasing(r@),
        forall|m: u64| r@.contains(m) <==> is_mode_ms(t@, m),
        forall|m: u64|
            r@.contains(m) ==> exists|i: int| 0 <= i < t@.len() && #[trigger] (t@[i] / 1_000_000) == m,
        t@.len() > 0 ==> r@.len() > 0,
{
    let mut ms: Vec<u64> = Vec::new();
    let mut k: usize = 0;
    while k < t.len()
        invariant
            k <= t@.len(),
            ms@ == ms_buckets(t@).take(k as int),
        decreases t@.len() - k,
    {
        ms.push(t[k] / NS_PER_MS);
        k += 1;
        assert(ms@ =~= ms_buckets(t@).take(k as int));
    }
    assert(ms_buckets(t@).take(t@.len() as int) =~= ms_buckets(t@));
    let ghost unsorted = ms@;
    sort_ascending(&mut ms);
    let ghost s = ms@;
    let n = ms.len();
    if n == 0 {
        proof {
            assert forall|m: u64| !is_mode_ms(t@, m) by {
                lemma_occurrences_multiset(s, m);
            }
        }
        return Vec::new();
    }
    let mut modes: Vec<u64> = Vec::new();
    let mut best: usize = 0;
    let mut cur: u64 = ms[0];
    let mut run: usize = 1;
    let mut i: usize = 1;
    proof {
        assert forall|v: u64| occurrences(s.take(1), v) == if s[0] == v { 1nat } else { 0nat } by {
            lemma_occurrences_take(s, 0, v);
            assert(s.take(0) =~= Seq::<u64>::empty());
        }
    }
    while i < n
        invariant
            s == ms@,
            sorted(s),
            n == s.len(),
            1 <= i <= n,
            cur == s[i - 1],
            run as nat == occurrences(s.take(i as int), cur),
            1 <= run <= i,
            best <= i,
            forall|v: u64| v < cur ==> occurrences(s.take(i as int), v) <= best,
            forall|v: u64| v > cur ==> occurrences(s.take(i as int), v) == 0,
            strictly_increasing(modes@),
            forall|k: int| 0 <= k < modes@.len() ==> modes@[k] < cur,
            forall|v: u64|
                modes@.contains(v) <==> (v < cur && occurrences(s.take(i as int), v) > 0
                    && occurrences(s.take(i as int), v) == best),
            best > 0 ==> modes@.len() > 0,
        decreases n - i,
    {
        let x = ms[i];
        proof {
            assert(s[i as int - 1] <= s[i as int]);
            assert forall|v: u64|
                occurrences(s.take(i + 1), v) == occurrences(s.take(i as int), v) + if x == v {
                    1nat
                } else {
                    0nat
                } by {
                lemma_occurrences_take(s, i as int, v);
            }
        }
        if x == cur {
            assert(occurrences(s.take(i + 1), cur) == occurrences(s.take(i as int), cur) + 1);
            run += 1;
            proof {
                assert forall|v: u64|
                    #![trigger occurrences(s.take(i + 1), v)]
                    (v < cur ==> occurrences(s.take(i + 1), v) <= best) && (v > cur
                        ==> occurrences(s.take(i + 1), v) == 0) && (modes@.contains(v) <==> (v
                        < cur && occurrences(s.take(i + 1), v) > 0 && occurrences(s.take(i + 1), v)
                        == best)) by {
                    assert(occurrences(s.take(i + 1), v) == occurrences(s.take(i as int), v)
                        + if x == v { 1nat } else { 0nat });
                }
            }
        } else {
            assert(occurrences(s.take(i as int), x) == 0);
            assert(occurrences(s.take(i + 1), x) == 1);
            let ghost old_modes = modes@;
            let ghost old_best = best as int;
            let ghost old_cur = cur;
            let ghost old_run = run as int;
            if run > best {
                modes = Vec::new();
                modes.push(cur);
                best = run;
            } else if run == best {
                modes.push(cur);
            }
            cur = x;
            run = 1;
            proof {
                assert forall|v: u64|
                    #![trigger occurrences(s.take(i + 1), v)]
                    (v < cur ==> occurrences(s.take(i + 1), v) <= best) && (v > cur
                        ==> occurrences(s.take(i + 1), v) == 0) && (modes@.contains(v) <==> (v
                        < cur && occurrences(s.take(i + 1), v) > 0 && occurrences(s.take(i + 1), v)
                        == best)) by {
                    assert(occurrences(s.take(i + 1), v) == occurrences(s.take(i as int), v)
                        + if x == v { 1nat } else { 0nat });
                    if old_run > old_best {
                        if modes@.contains(v) {
                            assert(modes@[0] == v);
                        }
                        if v == old_cur {
                            assert(modes@[0] == v);
                        }
                    } else if old_run == old_best {
                        if modes@.contains(v) {
                            let k = choose|k: int| 0 <= k < modes@.len() && modes@[k] == v;
                            if k < old_modes.len() {
                                assert(old_modes[k] == v);
                                assert(old_modes.contains(v));
                            }
                        }
                        if v == old_cur {
                            assert(modes@[modes@.len() - 1] == v);
                        }
                        if old_modes.contains(v) {
                            let k = choose|k: int| 0 <= k < old_modes.len() && old_modes[k] == v;
                            assert(modes@[k] == v);
                        }
                    } else {
                        assert(modes@ == old_modes);
                    }
                }
                assert forall|k: int| 0 <= k < modes@.len() implies modes@[k] < cur by {
                    if old_run == old_best && k < old_modes.len() {
                        assert(modes@[k] == old_modes[k]);
                    }
                }
            }
        }
        i += 1;
    }
    assert(s.take(n as int) =~= s);
    if run > best {
        modes = Vec::new();
        modes.push(cur);
        best = run;
        proof {
            assert forall|v: u64|
                modes@.contains(v) <==> (occurrences(s, v) > 0 && occurrences(s, v) == best) by {
                if modes@.contains(v) {
                    assert(modes@[0] == v);
                }
                if v == cur {
                    assert(modes@[0] == v);
                }
            }
        }
    } else if run == best {
        let ghost old_modes = modes@;
        modes.push(cur);
        proof {
            assert forall|v: u64|
                modes@.contains(v) <==> (occurrences(s, v) > 0 && occurrences(s, v) == best) by {
                if modes@.contains(v) {
                    let k = choose|k: int| 0 <= k < modes@.len() && modes@[k] == v;
                    if k < old_modes.len() {
                        assert(old_modes.contains(v));
                    }
                }
                if v == cur {
                    assert(modes@[modes@.len() - 1] == v);
                }
                if old_modes.contains(v) {
                    let k = choose|k: int| 0 <= k < old_modes.len() && old_modes[k] == v;
                    assert(modes@[k] == v);
                }
            }
        }
    }
    proof {
        assert forall|v: u64| occurrences(s, v) <= best by {
        }
        assert forall|m: u64| modes@.contains(m) <==> is_mode_ms(t@, m) by {
            lemma_occurrences_multiset(s, m);
            assert(ms_count(t@, m) == occurrences(s, m));
            let w = modes@[0];
            assert(modes@.contains(w));
            lemma_occurrences_multiset(s, w);
            if modes@.contains(m) {
                assert forall|u: u64| ms_count(t@, u) <= ms_count(t@, m) by {
                    lemma_occurrences_multiset(s, u);
                }
            }
            if is_mode_ms(t@, m) {
                assert(ms_count(t@, w) <= ms_count(t@, m));
            }
        }
        assert forall|m: u64| modes@.contains(m) implies exists|i: int|
            0 <= i < t@.len() && #[trigger] (t@[i] / 1_000_000) == m by {
            lemma_ms_count_positive(t@, m);
        }
    }
    modes
}

/// The millisecond of each latency is its nanoseconds divided by a million,
/// rounded down, with nothing more.
pub proof fn lemma_ms_bucket(t: Seq<u64>, i: int)
    requires
        0 <= i < t.len(),
    ensures
        ms_buckets(t).len() == t.len(),
        ms_buckets(t)[i] == t[i] / 1_000_000,
{
}

/// A millisecond holds latencies exactly when some latency falls in it.
pub proof fn lemma_ms_count_positive(t: Seq<u64>, m: u64)
    ensures
        ms_count(t, m) > 0 <==> exists|i: int|
            0 <= i < t.len() && #[trigger] (t[i] / 1_000_000) == m,
{
    broadcast use vstd::seq_lib::group_to_multiset_ensures;

    let b = ms_buckets(t);
    if ms_count(t, m) > 0 {
        assert(b.contains(m));
        let i = choose|i: int| 0 <= i < b.len() && b[i] == m;
        lemma_ms_bucket(t, i);
    }
    if exists|i: int| 0 <= i < t.len() && #[trigger] (t[i] / 1_000_000) == m {
        let i = choose|i: int| 0 <= i < t.len() && #[trigger] (t[i] / 1_000_000) == m;
        lemma_ms_bucket(t, i);
        assert(b.contains(m));
    }
}

/// When every latency falls in the same millisecond, that millisecond is the
/// one and only mode.
pub proof fn lemma_single_millisecond_mode(t: Seq<u64>, m: u64, w: u64)
    requires
        t.len() > 0,
        forall|i: int| 0 <= i < t.len() ==> #[trigger] (t[i] / 1_000_000) == m,
    ensures
        is_mode_ms(t, m),
        is_mode_ms(t, w) ==> w == m,
{
    lemma_ms_count_positive(t, m);
    assert(t[0] / 1_000_000 == m);
    assert forall|u: u64| u != m implies ms_count(t, u) == 0 by {
        lemma_ms_count_positive(t, u);
        assert(!(exists|i: int| 0 <= i < t.len() && #[trigger] (t[i] / 1_000_000) == u));
    }
    assert forall|u: u64| ms_count(t, u) <= ms_count(t, m) by {
        if u != m {
            assert(ms_count(t, u) == 0);
        }
    }
}

/// The number of latency buckets of the distribution: one below each of the
/// fourteen edges and one at or above the last.
pub const BUCKETS: usize = 15;

/// The bucket of a latency of `ms` whole milliseconds: how many of the edges
/// 1, 2, 5, 10, 20, 30, 50, 75, 100, 150, 200, 300, 500 and 1000 ms are at or
/// below it.
pub open spec fn bucket_of(ms: u64) -> int {
    if ms < 1 {
        0
    } else if ms < 2 {
        1
    } else if ms < 5 {
        2
    } else if ms < 10 {
        3
    } else if ms < 20 {
        4
    } else if ms < 30 {
        5
    } else if ms < 50 {
        6
    } else if ms < 75 {
        7
    } else if ms < 100 {
        8
    } else if ms < 150 {
        9
    } else if ms < 200 {
        10
    } else if ms < 300 {
        11
    } else if ms < 500 {
        12
    } else if ms < 1000 {
        13
    } else {
        14
    }
}

/// The bucket of a latency of `ms` whole milliseconds.
pub fn latency_bucket(ms: u64) -> (k: usize)
    ensures
        k as int == bucket_of(ms),
        k < BUCKETS,
{
    if ms < 1 {
        0
    } else if ms < 2 {
        1
    } else if ms < 5 {
        2
    } else if ms < 10 {
        3
    } else if ms < 20 {
        4
    } else if ms < 30 {
        5
    } else if ms < 50 {
        6
    } else if ms < 75 {
        7
    } else if ms < 100 {
        8
    } else if ms < 150 {
        9
    } else if ms < 200 {
        10
    } else if ms < 300 {
        11
    } else if ms < 500 {
        12
    } else if ms < 1000 {
        13
    } else {
        14
    }
}

/// How many latencies (in nanoseconds) of `t` fall in bucket `k`.
pub open spec fn bucket_total(t: Seq<u64>, k: int) -> nat
    decreases t.len(),
{
    if t.len() == 0 {
        0
    } else {
        bucket_total(t.drop_last(), k) + if bucket_of(t.last() / NS_PER_MS) == k {
            1nat
        } else {
            0nat
        }
    }
}

/// The number of latencies in each bucket of the distribution.
pub fn latency_histogram(t: &[u64]) -> (counts: Vec<u64>)
    ensures
        counts@.len() == BUCKETS,
        forall|k: int| 0 <= k < BUCKETS ==> counts@[k] == bucket_total(t@, k),
{
    let mut counts: Vec<u64> = Vec::new();
    let mut k: usize = 0;
    while k < BUCKETS
        invariant
            k <= BUCKETS,
            counts@.len() == k,
            forall|j: int| 0 <= j < k ==> counts@[j] == 0,
        decreases BUCKETS - k,
    {
        counts.push(0);
        k += 1;
    }
    let mut i: usize = 0;
    while i < t.len()
        invariant
            i <= t@.len(),
            counts@.len() == BUCKETS,
            forall|j: int| 0 <= j < BUCKETS ==> counts@[j] == bucket_total(t@.take(i as int), j),
            forall|j: int| 0 <= j < BUCKETS ==> counts@[j] <= i,
        decreases t@.len() - i,
    {
        let b = latency_bucket(t[i] / NS_PER_MS);
        proof {
            assert forall|j: int| 0 <= j < BUCKETS implies bucket_total(t@.take(i + 1), j)
                == bucket_total(t@.take(i as int), j) + if b == j { 1nat } else { 0nat } by {
                assert(t@.take(i + 1).drop_last() =~= t@.take(i as int));
            }
        }
        counts[b] = counts[b] + 1;
        i += 1;
    }
    assert(t@.take(t@.len() as int) =~= t@);
    counts
}

/// The largest value of `s`, or zero when it is empty.
pub open spec fn seq_max(s: Seq<u64>) -> u64
    decreases s.len(),
{
    if s.len() == 0 {
        0
    } else {
        let m = seq_max(s.drop_last());
        if s.last() > m {
            s.last()
        } else {
            m
        }
    }
}

/// Width in characters of the longest bar of the distribution.
pub const BAR_WIDTH: u64 = 40;

/// The length of the bar of a bucket with `count` latencies when the fullest
/// bucket holds `max_count`: proportional, rounded down, and at least one.
pub open spec fn bar_len(count: u64, max_count: u64) -> int {
    let w = (count * BAR_WIDTH) / (max_count as int);
    if w < 1 {
        1
    } else {
        w
    }
}

/// The bar length of each bucket, scaled so that the fullest bucket (or a
/// count of one, when all are empty) gets the full width.
pub fn histogram_bars(counts: &Vec<u64>) -> (bars: Vec<usize>)
    ensures
        bars@.len() == counts@.len(),
        forall|k: int|
            0 <= k < counts@.len() ==> bars@[k] as int == bar_len(
                counts@[k],
                if seq_max(counts@) > 1 {
                    seq_max(counts@)
                } else {
                    1
                },
            ),
{
    let mut max_count: u64 = 0;
    let mut i: usize = 0;
    while i < counts.len()
        invariant
            i <= counts@.len(),
            max_count == seq_max(counts@.take(i as int)),
            forall|j: int| 0 <= j < i ==> counts@[j] <= max_count,
        decreases counts@.len() - i,
    {
        assert(counts@.take(i + 1).drop_last() =~= counts@.take(i as int));
        if counts[i] > max_count {
            max_count = counts[i];
        }
        i += 1;
    }
    assert(counts@.take(counts@.len() as int) =~= counts@);
    if max_count < 1 {
        max_count = 1;
    }
    let mut bars: Vec<usize> = Vec::new();
    let mut k: usize = 0;
    while k < counts.len()
        invariant
            k <= counts@.len(),
            max_count >= 1,
            max_count == if seq_max(counts@) > 1 {
                seq_max(counts@)
            } else {
                1
            },
            forall|j: int| 0 <= j < counts@.len() ==> counts@[j] <= max_count,
            bars@.len() == k,
            forall|j: int| 0 <= j < k ==> bars@[j] as int == bar_len(counts@[j], max_count),
        decreases counts@.len() - k,
    {
        let c = counts[k];
        let w: u128 = (c as u128) * (BAR_WIDTH as u128) / (max_count as u128);
        proof {
            assert((c as int) * (BAR_WIDTH as int) <= (max_count as int) * (BAR_WIDTH as int))
                by (nonlinear_arith)
                requires
                    c <= max_count,
            ;
            assert(((c as int) * (BAR_WIDTH as int)) / (max_count as int) <= BAR_WIDTH as int)
                by (nonlinear_arith)
                requires
                    (c as int) * (BAR_WIDTH as int) <= (max_count as int) * (BAR_WIDTH as int),
                    max_count >= 1,
            ;
        }
        let len: usize = if w < 1 {
            1
        } else {
            w as usize
        };
        bars.push(len);
        k += 1;
    }
    bars
}

/// What is reported about the latencies of a result with at least one success.
pub struct LatencySummary {
    /// The first latency (the smallest, the latencies being ascending).
    pub min_ns: u64,
    /// The last latency (the largest, the latencies being ascending).
    pub max_ns: u64,
    /// The mean latency, rounded down.
    pub avg_ns: u64,
    /// The lower of the two middle latencies; the middle one when their number is odd.
    pub median_low_ns: u64,
    /// The upper of the two middle latencies; the middle one when their number is odd.
    pub median_high_ns: u64,
    /// The latencies at the 50th, 90th, 95th and 99th percentile rank.
    pub p50_ns: u64,
    pub p90_ns: u64,
    pub p95_ns: u64,
    pub p99_ns: u64,
    /// The most frequent whole milliseconds, ascending.
    pub modes_ms: Vec<u64>,
    /// The number of latencies in each bucket of the distribution.
    pub buckets: Vec<u64>,
    /// The bar length of each bucket.
    pub bars: Vec<usize>,
}

/// The position of the `pct`th percentile among `n` ascending values: the
/// fraction `pct / 100` of the way from the first to the last, rounded down.
pub open spec fn percentile_rank(n: int, pct: int) -> int {
    pct * (n - 1) / 100
}

/// The position of the `pct`th percentile among `n` values.
pub fn percentile_index(n: usize, pct: u64) -> (i: usize)
    requires
        n >= 1,
        pct <= 100,
    ensures
        i as int == percentile_rank(n as int, pct as int),
        i * 100 <= pct * (n - 1) < (i + 1) * 100,
        i < n,
{
    proof {
        assert((pct as int) * ((n - 1) as int) <= 100 * ((n - 1) as int)) by (nonlinear_arith)
            requires
                pct <= 100,
                n >= 1,
        ;
    }
    let r: u128 = (pct as u128) * ((n - 1) as u128) / 100;
    proof {
        lemma_percentile_rank_is_floor(n as int, pct as int);
    }
    r as usize
}

/// The percentile position is `pct / 100` of the way from the first to the
/// last of `n` values, rounded down: its hundredfold is at most `pct * (n - 1)`
/// and the next position's is beyond it. So the 100th percentile is the last
/// value, and the position grows with both `pct` and `n`.
pub proof fn lemma_percentile_rank_is_floor(n: int, pct: int)
    requires
        n >= 1,
        0 <= pct <= 100,
    ensures
        0 <= percentile_rank(n, pct) <= n - 1,
        percentile_rank(n, pct) * 100 <= pct * (n - 1) < (percentile_rank(n, pct) + 1) * 100,
        pct == 100 ==> percentile_rank(n, pct) == n - 1,
{
    let x = pct * (n - 1);
    assert(0 <= x <= 100 * (n - 1)) by (nonlinear_arith)
        requires
            n >= 1,
            0 <= pct <= 100,
            x == pct * (n - 1),
    ;
    let r = percentile_rank(n, pct);
    assert(r == x / 100);
    assert(r * 100 <= x < (r + 1) * 100);
}

/// The summary of the latencies of `r`, or `None` when no request succeeded.
pub fn summarize(r: &BenchResult) -> (s: Option<LatencySummary>)
    ensures
        s is None <==> r.times_ns@.len() == 0,
        s matches Some(s) ==> {
            let t = r.times_ns@;
            let n = t.len() as int;
            &&& s.min_ns == t[0]
            &&& s.max_ns == t[n - 1]
            &&& s.avg_ns == seq_sum(t) / n
            &&& s.median_low_ns == if n % 2 == 0 {
                t[n / 2 - 1]
            } else {
                t[n / 2]
            }
            &&& s.median_high_ns == t[n / 2]
            &&& s.p50_ns == t[percentile_rank(n, 50)]
            &&& s.p90_ns == t[percentile_rank(n, 90)]
            &&& s.p95_ns == t[percentile_rank(n, 95)]
            &&& s.p99_ns == t[percentile_rank(n, 99)]
            &&& strictly_increasing(s.modes_ms@)
            &&& forall|m: u64| s.modes_ms@.contains(m) <==> is_mode_ms(t, m)
            &&& s.buckets@.len() == BUCKETS
            &&& forall|k: int| 0 <= k < BUCKETS ==> s.buckets@[k] == bucket_total(t, k)
            &&& s.bars@.len() == BUCKETS
            &&& forall|k: int|
                0 <= k < BUCKETS ==> s.bars@[k] as int == bar_len(
                    s.buckets@[k],
                    if seq_max(s.buckets@) > 1 {
                        seq_max(s.buckets@)
                    } else {
                        1
                    },
                )
        },
{
    let t = r.times_ns.as_slice();
    let n = t.len();
    if n == 0 {
        return None;
    }
    let total = sum_of(t);
    proof {
        assert(seq_sum(t@) / (n as int) <= 0xffff_ffff_ffff_ffffint) by (nonlinear_arith)
            requires
                seq_sum(t@) <= n * 0xffff_ffff_ffff_ffffint,
                n >= 1,
        ;
    }
    let avg = (total / (n as u128)) as u64;
    let median_low = if n % 2 == 0 {
        t[n / 2 - 1]
    } else {
        t[n / 2]
    };
    let median_high = t[n / 2];
    let buckets = latency_histogram(t);
    let bars = histogram_bars(&buckets);
    Some(
        LatencySummary {
            min_ns: t[0],
            max_ns: t[n - 1],
            avg_ns: avg,
            median_low_ns: median_low,
            median_high_ns: median_high,
            p50_ns: t[percentile_index(n, 50)],
            p90_ns: t[percentile_index(n, 90)],
            p95_ns: t[percentile_index(n, 95)],
            p99_ns: t[percentile_index(n, 99)],
            modes_ms: modes_ms(t),
            buckets,
            bars,
        },
    )
}

/// How many latencies of `t` fall in the first `m` buckets.
pub open spec fn in_first_buckets(t: Seq<u64>, m: int) -> int
    decreases m,
{
    if m <= 0 {
        0
    } else {
        in_first_buckets(t, m - 1) + bucket_total(t, m - 1)
    }
}

proof fn lemma_first_buckets_step(t: Seq<u64>, m: int)
    requires
        t.len() > 0,
        m >= 0,
    ensures
        in_first_buckets(t, m) == in_first_buckets(t.drop_last(), m) + if bucket_of(
            t.last() / NS_PER_MS,
        ) < m {
            1int
        } else {
            0int
        },
    decreases m,
{
    if m > 0 {
        lemma_first_buckets_step(t, m - 1);
    }
}

/// Every latency falls in exactly one bucket: the buckets of the
/// distribution add up to the number of latencies.
pub proof fn lemma_every_latency_in_one_bucket(t: Seq<u64>)
    ensures
        in_first_buckets(t, BUCKETS as int) == t.len(),
    decreases t.len(),
{
    if t.len() > 0 {
        lemma_every_latency_in_one_bucket(t.drop_last());
        lemma_first_buckets_step(t, BUCKETS as int);
    } else {
        lemma_empty_buckets(t, BUCKETS as int);
    }
}

proof fn lemma_empty_buckets(t: Seq<u64>, m: int)
    requires
        t.len() == 0,
    ensures
        in_first_buckets(t, m) == 0,
    decreases m,
{
    if m > 0 {
        lemma_empty_buckets(t, m - 1);
    }
}

/// For ascending latencies the reported figures are ordered: the minimum, the
/// 50th, 90th, 95th and 99th percentiles and the maximum never decrease, and
/// the mean and the median lie between the minimum and the maximum.
pub proof fn lemma_summary_ordered(t: Seq<u64>)
    requires
        sorted(t),
        t.len() > 0,
    ensures
        ({
            let n = t.len() as int;
            &&& 0 <= percentile_rank(n, 50) <= percentile_rank(n, 90) <= percentile_rank(n, 95)
                <= percentile_rank(n, 99) <= n - 1
            &&& t[0] <= t[percentile_rank(n, 50)] <= t[percentile_rank(n, 90)]
                <= t[percentile_rank(n, 95)] <= t[percentile_rank(n, 99)] <= t[n - 1]
            &&& t[0] <= seq_sum(t) / n <= t[n - 1]
            &&& t[0] <= t[n / 2 - 1 + n % 2] <= t[n / 2] <= t[n - 1]
        }),
{
    let n = t.len() as int;
    let m = n - 1;
    assert(0 <= 50 * m / 100 <= 90 * m / 100 <= 95 * m / 100 <= 99 * m / 100 <= m)
        by (nonlinear_arith)
        requires
            m >= 0,
    ;
    lemma_mean_bounds(t, t[0] as int, t[n - 1] as int);
}

/// A latency of `t` lies in a millisecond of greatest count among the first `k`.
proof fn lemma_max_count_prefix(s: Seq<u64>, k: int) -> (j: int)
    requires
        0 < k <= s.len(),
    ensures
        0 <= j < k,
        forall|i: int| 0 <= i < k ==> occurrences(s, s[i]) <= occurrences(s, s[j]),
    decreases k,
{
    if k == 1 {
        0
    } else {
        let j = lemma_max_count_prefix(s, k - 1);
        if occurrences(s, s[k - 1]) > occurrences(s, s[j]) {
            k - 1
        } else {
            j
        }
    }
}

/// A non-empty set of latencies always has at least one most frequent
/// millisecond.
pub proof fn lemma_modes_exist(t: Seq<u64>)
    requires
        t.len() > 0,
    ensures
        exists|m: u64| is_mode_ms(t, m),
{
    broadcast use vstd::seq_lib::group_to_multiset_ensures;

    let s = ms_buckets(t);
    let j = lemma_max_count_prefix(s, s.len() as int);
    let m = s[j];
    lemma_occurrences_multiset(s, m);
    assert(s.contains(m));
    assert forall|w: u64| ms_count(t, w) <= ms_count(t, m) by {
        lemma_occurrences_multiset(s, w);
        if s.contains(w) {
            let i = choose|i: int| 0 <= i < s.len() && s[i] == w;
            assert(occurrences(s, s[i]) <= occurrences(s, s[j]));
        }
    }
    assert(is_mode_ms(t, m));
}

} // verus!
