//! Rate limiting of outbound requests: one shared component records
//! the last dispatch instant and makes every caller wait until a
//! full tick has passed, throttling request starts; and the retry
//! rule for connection failures.

use vstd::prelude::*;

verus! {

/// Milliseconds between request starts when none is configured.
pub const DEFAULT_TICK_INTERVAL_MS: u64 = 1;

/// Milliseconds slept before retrying a connection failure.
pub const CONNECT_BACKOFF_MS: u64 = 3000;

/// The instant the next request may start: a full tick after the
/// last dispatch, or right away when that has already passed or
/// nothing was dispatched yet.
pub open spec fn next_dispatch(last: Option<u64>, tick: u64, now: u64) -> int {
    match last {
        Option::None => now as int,
        Option::Some(l) => if l + tick > now {
            l + tick
        } else {
            now as int
        },
    }
}

/// The request limiter: the shared last-dispatch instant and the
/// minimum spacing between request starts, in milliseconds.
#[derive(Debug, Clone, Copy, PartialEq, Eq, Structural)]
pub struct HttpRequester {
    pub last_request: Option<u64>,
    pub tick_interval: u64,
}

impl HttpRequester {
    /// A limiter with the given spacing and no dispatch yet.
    pub fn new(tick_interval: u64) -> (r: HttpRequester)
        ensures
            r.last_request is None,
            r.tick_interval == tick_interval,
    {
        HttpRequester { last_request: None, tick_interval }
    }

    /// A limiter with the default spacing.
    pub fn default_new() -> (r: HttpRequester)
        ensures
            r.last_request is None,
            r.tick_interval == DEFAULT_TICK_INTERVAL_MS,
    {
        HttpRequester::new(DEFAULT_TICK_INTERVAL_MS)
    }

    /// Changes the spacing between request starts.
    pub fn set_tick_interval(&mut self, tick_interval: u64)
        ensures
            final(self).tick_interval == tick_interval,
            final(self).last_request == old(self).last_request,
    {
        self.tick_interval = tick_interval;
    }

    pub fn tick_interval(&self) -> (r: u64)
        ensures
            r == self.tick_interval,
    {
        self.tick_interval
    }

    /// Reserves the next dispatch slot: how long the caller must
    /// wait from `now` before starting its request, recording the
    /// reserved instant as the new last dispatch.  Successive
    /// dispatches are thereby at least one tick apart.
    pub fn reserve(&mut self, now: u64) -> (wait: u64)
        requires
            (match old(self).last_request {
                Option::Some(l) => l + old(self).tick_interval <= u64::MAX,
                Option::None => true,
            }),
        ensures
            final(self).tick_interval == old(self).tick_interval,
            now + wait == next_dispatch(old(self).last_request, old(self).tick_interval, now),
            final(self).last_request == Option::Some((now + wait) as u64),
            (match old(self).last_request {
                Option::Some(l) => now + wait >= l + old(self).tick_interval,
                Option::None => wait == 0,
            }),
    {
        let wait: u64 = match self.last_request {
            None => 0,
            Some(l) => {
                if l + self.tick_interval > now {
                    l + self.tick_interval - now
                } else {
                    0
                }
            },
        };
        self.last_request = Some(now + wait);
        wait
    }
}

/// Dispatch instants that each wait a full tick after the previous
/// one span at least the tick times one less than their count: a
/// run of consecutive fetches cannot start faster than the
/// configured spacing allows.
pub proof fn lemma_dispatch_spacing(d: Seq<int>, tick: int)
    requires
        tick >= 0,
        d.len() >= 1,
        forall|i: int| 0 <= i < d.len() - 1 ==> #[trigger] d[i + 1] >= d[i] + tick,
    ensures
        d.last() - d.first() >= (d.len() - 1) * tick,
    decreases d.len(),
{
    if d.len() > 1 {
        let t = d.drop_last();
        assert(forall|i: int| 0 <= i < t.len() - 1 ==> #[trigger] t[i + 1] >= t[i] + tick);
        lemma_dispatch_spacing(t, tick);
        let k = d.len() - 2;
        assert(d[k + 1] >= d[k] + tick);
        assert(d.last() == d[k + 1]);
        assert(t.last() == d[d.len() - 2]);
        assert(t.first() == d.first());
        assert(t.last() - t.first() >= (t.len() - 1) * tick);
        assert((t.len() - 1) * tick == (d.len() - 2) * tick);
        assert((d.len() - 1) * tick == (d.len() - 2) * tick + tick) by (nonlinear_arith);
        assert(d.last() - d.first() >= (d.len() - 1) * tick);
    } else {
        assert(d.len() == 1);
        assert((d.len() - 1) * tick == 0) by (nonlinear_arith)
            requires
                d.len() == 1,
        ;
    }
}

/// What one attempted request came back with.
#[derive(Debug)]
pub enum FetchOutcome {
    Body(String),
    ConnectFailure,
    TransportFailure(String),
}

/// What the fetch loop does next.
#[derive(Debug)]
pub enum FetchStep {
    Deliver(String),
    RetryAfterBackoff(u64),
    Fail(String),
}

/// The retry rule for one fetch: a retrieved body is delivered
/// whatever it holds, a connection failure is retried after a fixed
/// backoff as often as it takes, and any other transport failure is
/// fatal for that page only.
pub fn fetch_decision(outcome: FetchOutcome) -> (r: FetchStep)
    ensures
        (match outcome {
            FetchOutcome::Body(b) => r matches FetchStep::Deliver(x) && x == b,
            FetchOutcome::ConnectFailure => (r matches FetchStep::RetryAfterBackoff(ms) &&
            ms == CONNECT_BACKOFF_MS),
            FetchOutcome::TransportFailure(e) => r matches FetchStep::Fail(x) && x == e,
        }),
{
    match outcome {
        FetchOutcome::Body(b) => FetchStep::Deliver(b),
        FetchOutcome::ConnectFailure => FetchStep::RetryAfterBackoff(CONNECT_BACKOFF_MS),
        FetchOutcome::TransportFailure(e) => FetchStep::Fail(e),
    }
}

} // verus!
