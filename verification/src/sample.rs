use vstd::prelude::*;

verus! {

/// The outcome of one request: its latency in nanoseconds, where a latency of
/// zero marks a failure, and the number of requests it stands for (always one).
#[derive(Copy, Clone)]
pub struct Sample {
    pub(crate) latency_ns: u64,
    pub(crate) sent: u64,
}

impl Sample {
    #[verifier::type_invariant]
    spec fn counts_one(self) -> bool {
        self.sent == 1
    }

    /// The latency that the sample carries; zero for a failed request.
    pub closed spec fn latency(self) -> u64 {
        self.latency_ns
    }

    /// A successful request that took `ns` nanoseconds.
    pub fn ok(ns: u64) -> (s: Self)
        ensures
            s.latency() == ns,
    {
        Sample { latency_ns: ns, sent: 1 }
    }

    /// A failed request.
    pub fn fail() -> (s: Self)
        ensures
            s.latency() == 0,
    {
        Sample { latency_ns: 0, sent: 1 }
    }

    /// Whether the request succeeded: a latency of zero counts as a failure,
    /// so a success measured at zero nanoseconds is not told apart from one.
    pub fn is_ok(self) -> (b: bool)
        ensures
            b == (self.latency() > 0),
    {
        self.latency_ns > 0
    }

    /// The latency in nanoseconds (zero for a failure).
    pub fn latency_ns(&self) -> (ns: u64)
        ensures
            ns == self.latency(),
    {
        self.latency_ns
    }

    /// The number of requests this sample stands for.
    pub fn sent(&self) -> (n: u64)
        ensures
            n == 1,
    {
        proof {
            use_type_invariant(self);
        }
        self.sent
    }
}

} // verus!
