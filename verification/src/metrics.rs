//! Operation counters of a node.

use vstd::prelude::*;

verus! {

/// A counter after `n` more events. Counters wrap round at the end of their
/// range.
pub open spec fn counted(counter: u64, n: nat) -> u64 {
    ((counter + n) % 0x1_0000_0000_0000_0000) as u64
}

/// Counters for node operations.
#[derive(Debug, Clone, Copy)]
pub struct Metrics {
    /// Tasks sent.
    pub tasks_sent: u64,
    /// Tasks received.
    pub tasks_received: u64,
    /// Task sends that failed.
    pub tasks_failed: u64,
    /// Messages published to the transport, on all topics.
    pub messages_published: u64,
    /// Messages received from subscriptions.
    pub messages_received: u64,
    /// Agent cards discovered.
    pub discoveries: u64,
    /// Announcements sent.
    pub announcements_sent: u64,
    /// Presence announcements received and tracked.
    pub peers_discovered: u64,
    /// Payloads encrypted before sending.
    pub encryptions: u64,
    /// Payloads decrypted on receipt.
    pub decryptions: u64,
    /// Sessions created, both locally and on receipt of a task.
    pub sessions_created: u64,
    /// Delegation requests sent.
    pub delegations_sent: u64,
    /// Stream chunks published.
    pub stream_chunks_sent: u64,
    /// Stream chunks received.
    pub stream_chunks_received: u64,
    /// Retries of transport failures.
    pub retry_attempts: u64,
    /// Sends for which all attempts failed.
    pub retries_exhausted: u64,
    /// Responses sent.
    pub responses_sent: u64,
    /// Incoming tasks whose sender is not on the trust list.
    pub tasks_dropped_untrusted: u64,
}

/// All counters at zero.
pub open spec fn zeroed() -> Metrics {
    Metrics {
        tasks_sent: 0,
        tasks_received: 0,
        tasks_failed: 0,
        messages_published: 0,
        messages_received: 0,
        discoveries: 0,
        announcements_sent: 0,
        peers_discovered: 0,
        encryptions: 0,
        decryptions: 0,
        sessions_created: 0,
        delegations_sent: 0,
        stream_chunks_sent: 0,
        stream_chunks_received: 0,
        retry_attempts: 0,
        retries_exhausted: 0,
        responses_sent: 0,
        tasks_dropped_untrusted: 0,
    }
}

impl Metrics {
    /// All counters at zero.
    pub fn new() -> (res: Metrics)
        ensures
            res == zeroed(),
    {
        Metrics {
            tasks_sent: 0,
            tasks_received: 0,
            tasks_failed: 0,
            messages_published: 0,
            messages_received: 0,
            discoveries: 0,
            announcements_sent: 0,
            peers_discovered: 0,
            encryptions: 0,
            decryptions: 0,
            sessions_created: 0,
            delegations_sent: 0,
            stream_chunks_sent: 0,
            stream_chunks_received: 0,
            retry_attempts: 0,
            retries_exhausted: 0,
            responses_sent: 0,
            tasks_dropped_untrusted: 0,
        }
    }

    /// Increments a counter by one.
    pub fn inc(counter: &mut u64)
        ensures
            *final(counter) == counted(*old(counter), 1),
    {
        Metrics::inc_by(counter, 1);
    }

    /// Increments a counter by an arbitrary amount.
    pub fn inc_by(counter: &mut u64, n: u64)
        ensures
            *final(counter) == counted(*old(counter), n as nat),
    {
        *counter = counter.wrapping_add(n);
    }

    /// A point-in-time snapshot of all counters.
    pub fn snapshot(&self) -> (res: MetricsSnapshot)
        ensures
            res == snapshot_of(*self),
    {
        MetricsSnapshot {
            tasks_sent: self.tasks_sent,
            tasks_received: self.tasks_received,
            tasks_failed: self.tasks_failed,
            messages_published: self.messages_published,
            messages_received: self.messages_received,
            discoveries: self.discoveries,
            announcements_sent: self.announcements_sent,
            peers_discovered: self.peers_discovered,
            encryptions: self.encryptions,
            decryptions: self.decryptions,
            sessions_created: self.sessions_created,
            delegations_sent: self.delegations_sent,
            stream_chunks_sent: self.stream_chunks_sent,
            stream_chunks_received: self.stream_chunks_received,
            retry_attempts: self.retry_attempts,
            retries_exhausted: self.retries_exhausted,
            responses_sent: self.responses_sent,
            tasks_dropped_untrusted: self.tasks_dropped_untrusted,
        }
    }
}

impl Default for Metrics {
    fn default() -> (res: Metrics)
        ensures
            res == zeroed(),
    {
        Metrics::new()
    }
}

/// The values of all counters at one point in time.
#[derive(Debug, Clone, Copy, PartialEq, Eq, Structural)]
pub struct MetricsSnapshot {
    pub tasks_sent: u64,
    pub tasks_received: u64,
    pub tasks_failed: u64,
    pub messages_published: u64,
    pub messages_received: u64,
    pub discoveries: u64,
    pub announcements_sent: u64,
    pub peers_discovered: u64,
    pub encryptions: u64,
    pub decryptions: u64,
    pub sessions_created: u64,
    pub delegations_sent: u64,
    pub stream_chunks_sent: u64,
    pub stream_chunks_received: u64,
    pub retry_attempts: u64,
    pub retries_exhausted: u64,
    pub responses_sent: u64,
    pub tasks_dropped_untrusted: u64,
}

/// The snapshot of the given counters.
pub open spec fn snapshot_of(m: Metrics) -> MetricsSnapshot {
    MetricsSnapshot {
        tasks_sent: m.tasks_sent,
        tasks_received: m.tasks_received,
        tasks_failed: m.tasks_failed,
        messages_published: m.messages_published,
        messages_received: m.messages_received,
        discoveries: m.discoveries,
        announcements_sent: m.announcements_sent,
        peers_discovered: m.peers_discovered,
        encryptions: m.encryptions,
        decryptions: m.decryptions,
        sessions_created: m.sessions_created,
        delegations_sent: m.delegations_sent,
        stream_chunks_sent: m.stream_chunks_sent,
        stream_chunks_received: m.stream_chunks_received,
        retry_attempts: m.retry_attempts,
        retries_exhausted: m.retries_exhausted,
        responses_sent: m.responses_sent,
        tasks_dropped_untrusted: m.tasks_dropped_untrusted,
    }
}

/// A counter that is not near the end of its range grows by exactly the number
/// of events, and counting in two steps is counting at once.
pub proof fn counting_adds_up(counter: u64, a: nat, b: nat)
    ensures
        counter + a <= u64::MAX ==> counted(counter, a) == counter + a,
        counted(counted(counter, a), b) == counted(counter, a + b),
{
    let m = 0x1_0000_0000_0000_0000int;
    assert(((counter + a) % m + b) % m == (counter + a + b) % m) by {
        vstd::arithmetic::div_mod::lemma_add_mod_noop((counter + a) as int, b as int, m);
        vstd::arithmetic::div_mod::lemma_mod_twice((counter + a) as int, m);
        vstd::arithmetic::div_mod::lemma_add_mod_noop((counter + a) % m, b as int, m);
    }
}

/// A snapshot shows every counter as it stands, and a fresh node has counted nothing.
pub proof fn a_snapshot_shows_every_counter(m: Metrics)
    ensures
        snapshot_of(m).tasks_sent == m.tasks_sent,
        snapshot_of(m).tasks_received == m.tasks_received,
        snapshot_of(m).tasks_failed == m.tasks_failed,
        snapshot_of(m).messages_published == m.messages_published,
        snapshot_of(m).messages_received == m.messages_received,
        snapshot_of(m).discoveries == m.discoveries,
        snapshot_of(m).announcements_sent == m.announcements_sent,
        snapshot_of(m).peers_discovered == m.peers_discovered,
        snapshot_of(m).encryptions == m.encryptions,
        snapshot_of(m).decryptions == m.decryptions,
        snapshot_of(m).sessions_created == m.sessions_created,
        snapshot_of(m).delegations_sent == m.delegations_sent,
        snapshot_of(m).stream_chunks_sent == m.stream_chunks_sent,
        snapshot_of(m).stream_chunks_received == m.stream_chunks_received,
        snapshot_of(m).retry_attempts == m.retry_attempts,
        snapshot_of(m).retries_exhausted == m.retries_exhausted,
        snapshot_of(m).responses_sent == m.responses_sent,
        snapshot_of(m).tasks_dropped_untrusted == m.tasks_dropped_untrusted,
        snapshot_of(zeroed()).tasks_sent == 0 && snapshot_of(zeroed()).tasks_received == 0
            && snapshot_of(zeroed()).tasks_failed == 0,
{
}

} // verus!
