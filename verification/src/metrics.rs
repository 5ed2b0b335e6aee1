//! Running totals of signal-processing calls, SCPI queries and instrument
//! connections. Every counter wraps around at `u64::MAX`, as an atomic
//! `fetch_add` does.
use vstd::prelude::*;

verus! {

/// `a + b` modulo 2^64.
pub open spec fn wrapped_sum(a: u64, b: u64) -> u64 {
    if a + b > u64::MAX {
        (a + b - 0x1_0000_0000_0000_0000) as u64
    } else {
        (a + b) as u64
    }
}

/// A counter at `c` after `k` more counts, one at a time.
pub open spec fn counted(c: u64, k: nat) -> u64
    decreases k,
{
    if k == 0 {
        c
    } else {
        wrapped_sum(counted(c, (k - 1) as nat), 1)
    }
}

/// `k` counts, one at a time, add `k` to a counter modulo 2^64: no count is
/// lost, and below `u64::MAX` the counter is exactly `c + k`.
pub proof fn lemma_counts_add_up(c: u64, k: nat)
    ensures
        counted(c, k) == (c + k) % 0x1_0000_0000_0000_0000,
        c + k <= u64::MAX ==> counted(c, k) == c + k,
    decreases k,
{
    if k > 0 {
        lemma_counts_add_up(c, (k - 1) as nat);
    }
}

/// The counters.
pub struct Counters {
    signal_processing_calls: u64,
    signal_processing_total_us: u64,
    tcp_queries: u64,
    tcp_query_total_us: u64,
    instrument_connections: u64,
}

/// The counters as `(processing calls, processing µs, queries, query µs,
/// connections)`.
pub type CountersView = (u64, u64, u64, u64, u64);

impl Counters {
    pub closed spec fn view(&self) -> CountersView {
        (
            self.signal_processing_calls,
            self.signal_processing_total_us,
            self.tcp_queries,
            self.tcp_query_total_us,
            self.instrument_connections,
        )
    }

    /// All counters at zero.
    pub fn new() -> (c: Self)
        ensures
            c@ == (0u64, 0u64, 0u64, 0u64, 0u64),
    {
        Counters {
            signal_processing_calls: 0,
            signal_processing_total_us: 0,
            tcp_queries: 0,
            tcp_query_total_us: 0,
            instrument_connections: 0,
        }
    }

    /// Counts one signal-processing call that took `duration_us`.
    pub fn record_signal_processing(&mut self, duration_us: u64)
        ensures
            final(self)@ == (
                wrapped_sum(old(self)@.0, 1),
                wrapped_sum(old(self)@.1, duration_us),
                old(self)@.2,
                old(self)@.3,
                old(self)@.4,
            ),
    {
        self.signal_processing_calls = self.signal_processing_calls.wrapping_add(1);
        self.signal_processing_total_us = self.signal_processing_total_us.wrapping_add(duration_us);
    }

    /// Counts one SCPI query that took `duration_us`.
    pub fn record_tcp_query(&mut self, duration_us: u64)
        ensures
            final(self)@ == (
                old(self)@.0,
                old(self)@.1,
                wrapped_sum(old(self)@.2, 1),
                wrapped_sum(old(self)@.3, duration_us),
                old(self)@.4,
            ),
    {
        self.tcp_queries = self.tcp_queries.wrapping_add(1);
        self.tcp_query_total_us = self.tcp_query_total_us.wrapping_add(duration_us);
    }

    /// Counts one instrument connection.
    pub fn record_instrument_connected(&mut self)
        ensures
            final(self)@ == (
                old(self)@.0,
                old(self)@.1,
                old(self)@.2,
                old(self)@.3,
                wrapped_sum(old(self)@.4, 1),
            ),
    {
        self.instrument_connections = self.instrument_connections.wrapping_add(1);
    }

    pub fn signal_processing_calls(&self) -> (r: u64)
        ensures
            r == self@.0,
    {
        self.signal_processing_calls
    }

    pub fn signal_processing_total_us(&self) -> (r: u64)
        ensures
            r == self@.1,
    {
        self.signal_processing_total_us
    }

    pub fn tcp_queries(&self) -> (r: u64)
        ensures
            r == self@.2,
    {
        self.tcp_queries
    }

    pub fn tcp_query_total_us(&self) -> (r: u64)
        ensures
            r == self@.3,
    {
        self.tcp_query_total_us
    }

    pub fn instrument_connections(&self) -> (r: u64)
        ensures
            r == self@.4,
    {
        self.instrument_connections
    }
}

} // verus!
