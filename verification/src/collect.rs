use vstd::prelude::*;
use crate::sample::Sample;
use crate::seqs::{sort_ascending, sorted_permutation_of};
use crate::stats::BenchResult;

verus! {

/// Gathers the samples of a running benchmark: the latencies of the
/// successful requests, in the order they arrived, and the number of requests
/// attempted.
pub struct Collector {
    times_ns: Vec<u64>,
    total_sent: u64,
}

impl Collector {
    #[verifier::type_invariant]
    spec fn no_more_successes_than_requests(self) -> bool {
        &&& self.times_ns@.len() <= self.total_sent
        &&& forall|i: int| 0 <= i < self.times_ns@.len() ==> self.times_ns@[i] > 0
    }

    /// The latencies of the successful requests recorded so far, in arrival order.
    pub closed spec fn latencies(self) -> Seq<u64> {
        self.times_ns@
    }

    /// The number of requests recorded so far.
    pub closed spec fn attempts(self) -> nat {
        self.total_sent as nat
    }

    /// A collector that has recorded nothing.
    pub fn new() -> (c: Self)
        ensures
            c.latencies() == Seq::<u64>::empty(),
            c.attempts() == 0,
    {
        Collector { times_ns: Vec::new(), total_sent: 0 }
    }

    /// The number of requests recorded so far.
    pub fn total_sent(&self) -> (n: u64)
        ensures
            n == self.attempts(),
    {
        self.total_sent
    }

    /// Records one sample: it counts as one more request, and its latency is
    /// kept when the request succeeded.
    pub fn record(&mut self, s: Sample)
        requires
            old(self).attempts() < u64::MAX,
        ensures
            final(self).attempts() == old(self).attempts() + 1,
            final(self).latencies() == if s.latency() > 0 {
                old(self).latencies().push(s.latency())
            } else {
                old(self).latencies()
            },
    {
        proof {
            use_type_invariant(&*self);
        }
        let sent = s.sent();
        let ok = s.is_ok();
        let ns = s.latency_ns();
        let mut times: Vec<u64> = Vec::new();
        std::mem::swap(&mut times, &mut self.times_ns);
        if ok {
            times.push(ns);
        }
        self.total_sent = self.total_sent + sent;
        self.times_ns = times;
    }

    /// The result of the benchmark: the latencies recorded, in ascending order,
    /// and the number of requests recorded, under the given label, target and
    /// duration.
    pub fn finish(self, label: String, url: String, duration: std::time::Duration) -> (r:
        BenchResult)
        ensures
            r.label == label,
            r.url == url,
            r.duration == duration,
            sorted_permutation_of(r.times_ns@, self.latencies()),
            r.total_sent == self.attempts(),
            r.times_ns@.len() <= r.total_sent,
            forall|i: int| 0 <= i < r.times_ns@.len() ==> r.times_ns@[i] > 0,
    {
        proof {
            use_type_invariant(&self);
        }
        let Collector { times_ns, total_sent } = self;
        let mut times_ns = times_ns;
        let ghost before = times_ns@;
        sort_ascending(&mut times_ns);
        proof {
            assert forall|i: int| 0 <= i < times_ns@.len() implies times_ns@[i] > 0 by {
                broadcast use vstd::seq_lib::group_to_multiset_ensures;

                let x = times_ns@[i];
                assert(times_ns@.contains(x));
                assert(times_ns@.to_multiset().count(x) > 0);
                assert(before.to_multiset().count(x) > 0);
                assert(before.contains(x));
                let j = choose|j: int| 0 <= j < before.len() && before[j] == x;
                assert(before[j] > 0);
            }
        }
        BenchResult { label, url, duration, times_ns, total_sent }
    }
}

} // verus!
