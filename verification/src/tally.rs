use vstd::prelude::*;
use crate::http::Data;

verus! {

/// The result of a worker-pool, pong-only WebSocket or single-task gRPC
/// benchmark: how long it ran, the times of the requests that succeeded, how
/// many requests were sent, and what it measured.
#[derive(Debug)]
pub struct Hasil {
    pub duration: std::time::Duration,
    pub times: Vec<std::time::Duration>,
    pub total_send: u64,
    pub command: String,
    pub url: String,
}

/// Counts the outcomes of a running benchmark into the times of the successful
/// requests, in arrival order, and the number of requests sent.
pub struct Tally {
    times: Vec<std::time::Duration>,
    total_send: u64,
}

impl Tally {
    #[verifier::type_invariant]
    spec fn no_more_times_than_requests(self) -> bool {
        self.times@.len() <= self.total_send
    }

    /// The times of the successful requests counted so far, in arrival order.
    pub closed spec fn successes(self) -> Seq<std::time::Duration> {
        self.times@
    }

    /// The number of requests counted so far.
    pub closed spec fn sent(self) -> nat {
        self.total_send as nat
    }

    /// A tally of nothing.
    pub fn new() -> (t: Self)
        ensures
            t.successes() == Seq::<std::time::Duration>::empty(),
            t.sent() == 0,
    {
        Tally { times: Vec::new(), total_send: 0 }
    }

    /// The number of requests counted so far.
    pub fn total_send(&self) -> (n: u64)
        ensures
            n == self.sent(),
    {
        self.total_send
    }

    /// Counts one outcome: one more request, and its time when it succeeded.
    pub fn record(&mut self, d: Data)
        requires
            old(self).sent() < u64::MAX,
        ensures
            final(self).sent() == old(self).sent() + 1,
            final(self).successes() == match d.elapsed() {
                Some(t) => old(self).successes().push(t),
                None => old(self).successes(),
            },
    {
        proof {
            use_type_invariant(&*self);
        }
        let sent = d.total_send();
        let mut times: Vec<std::time::Duration> = Vec::new();
        std::mem::swap(&mut times, &mut self.times);
        match d.time() {
            Some(t) => times.push(t),
            None => {},
        }
        self.total_send = self.total_send + sent;
        self.times = times;
    }

    /// The result: the times and the count of the outcomes counted, with the
    /// given duration, command and target.
    pub fn finish(self, duration: std::time::Duration, command: String, url: String) -> (h: Hasil)
        ensures
            h.times@ == self.successes(),
            h.total_send == self.sent(),
            h.times@.len() <= h.total_send,
            h.duration == duration,
            h.command == command,
            h.url == url,
    {
        proof {
            use_type_invariant(&self);
        }
        let Tally { times, total_send } = self;
        Hasil { duration, times, total_send, command, url }
    }
}

} // verus!
