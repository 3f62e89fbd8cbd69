//! Counters of stalls, throughput and occupancy, for diagnostics.

use vstd::prelude::*;

verus! {

/// A copy of every counter at one moment.
#[derive(Clone, Copy, Debug, PartialEq, Eq)]
pub struct MetricsSnapshot {
    pub req_ring_full: u64,
    pub resp_ring_full: u64,
    pub pool_exhausted: u64,
    pub pool_too_large: u64,
    pub requests_published: u64,
    pub responses_sent: u64,
    pub poll_events: u64,
    pub poll_no_events: u64,
    pub pool_max_in_use: usize,
    pub req_occ: usize,
    pub resp_occ: usize,
    pub req_max_occ: usize,
    pub resp_max_occ: usize,
}

/// The live counters. Cumulative counts and gauges wrap around as atomic
/// counters do; the `*_max_*` gauges keep the largest value seen.
pub type Metrics = MetricsSnapshot;

/// A snapshot with every counter at zero.
pub fn new_metrics() -> (r: Metrics)
    ensures
        r.req_ring_full == 0,
        r.resp_ring_full == 0,
        r.pool_exhausted == 0,
        r.pool_too_large == 0,
        r.requests_published == 0,
        r.responses_sent == 0,
        r.poll_events == 0,
        r.poll_no_events == 0,
        r.pool_max_in_use == 0,
        r.req_occ == 0,
        r.resp_occ == 0,
        r.req_max_occ == 0,
        r.resp_max_occ == 0,
{
    MetricsSnapshot {
        req_ring_full: 0,
        resp_ring_full: 0,
        pool_exhausted: 0,
        pool_too_large: 0,
        requests_published: 0,
        responses_sent: 0,
        poll_events: 0,
        poll_no_events: 0,
        pool_max_in_use: 0,
        req_occ: 0,
        resp_occ: 0,
        req_max_occ: 0,
        resp_max_occ: 0,
    }
}

/// Counts a publish that found the request ring full.
pub fn inc_req_ring_full(m: &mut Metrics)
    ensures
        *final(m) == (MetricsSnapshot { req_ring_full: old(m).req_ring_full.wrapping_add(1), ..*old(m) }),
{
    m.req_ring_full = m.req_ring_full.wrapping_add(1);
}

/// Counts a publish that found a response ring full.
pub fn inc_resp_ring_full(m: &mut Metrics)
    ensures
        *final(m) == (MetricsSnapshot { resp_ring_full: old(m).resp_ring_full.wrapping_add(1), ..*old(m) }),
{
    m.resp_ring_full = m.resp_ring_full.wrapping_add(1);
}

/// Counts an allocation refused for lack of room.
pub fn inc_pool_exhausted(m: &mut Metrics)
    ensures
        *final(m) == (MetricsSnapshot { pool_exhausted: old(m).pool_exhausted.wrapping_add(1), ..*old(m) }),
{
    m.pool_exhausted = m.pool_exhausted.wrapping_add(1);
}

/// Counts an allocation refused as larger than its arena.
pub fn inc_pool_too_large(m: &mut Metrics)
    ensures
        *final(m) == (MetricsSnapshot { pool_too_large: old(m).pool_too_large.wrapping_add(1), ..*old(m) }),
{
    m.pool_too_large = m.pool_too_large.wrapping_add(1);
}

/// Records an arena's in-use count, keeping the largest seen.
pub fn update_pool_in_use(m: &mut Metrics, value: usize)
    ensures
        *final(m) == (MetricsSnapshot {
            pool_max_in_use: if value > old(m).pool_max_in_use { value } else { old(m).pool_max_in_use },
            ..*old(m)
        }),
{
    update_max(&mut m.pool_max_in_use, value);
}

/// Raises `target` to `value` when `value` is larger.
fn update_max(target: &mut usize, value: usize)
    ensures
        *final(target) == if value > *old(target) { value } else { *old(target) },
{
    if value > *target {
        *target = value;
    }
}

/// Counts an event entering the request ring.
pub fn inc_req_occ(m: &mut Metrics)
    ensures
        ({
            let occ = old(m).req_occ.wrapping_add(1);
            *final(m) == (MetricsSnapshot {
                req_occ: occ,
                req_max_occ: if occ > old(m).req_max_occ { occ } else { old(m).req_max_occ },
                ..*old(m)
            })
        }),
{
    m.req_occ = m.req_occ.wrapping_add(1);
    update_max(&mut m.req_max_occ, m.req_occ);
}

/// Counts an event leaving the request ring.
pub fn dec_req_occ(m: &mut Metrics)
    ensures
        *final(m) == (MetricsSnapshot { req_occ: old(m).req_occ.wrapping_sub(1), ..*old(m) }),
{
    m.req_occ = m.req_occ.wrapping_sub(1);
}

/// Counts a response entering a response ring.
pub fn inc_resp_occ(m: &mut Metrics)
    ensures
        ({
            let occ = old(m).resp_occ.wrapping_add(1);
            *final(m) == (MetricsSnapshot {
                resp_occ: occ,
                resp_max_occ: if occ > old(m).resp_max_occ { occ } else { old(m).resp_max_occ },
                ..*old(m)
            })
        }),
{
    m.resp_occ = m.resp_occ.wrapping_add(1);
    update_max(&mut m.resp_max_occ, m.resp_occ);
}

/// Counts a response leaving a response ring.
pub fn dec_resp_occ(m: &mut Metrics)
    ensures
        *final(m) == (MetricsSnapshot { resp_occ: old(m).resp_occ.wrapping_sub(1), ..*old(m) }),
{
    m.resp_occ = m.resp_occ.wrapping_sub(1);
}

/// Counts a request published on the request ring.
pub fn inc_requests_published(m: &mut Metrics)
    ensures
        *final(m) == (MetricsSnapshot { requests_published: old(m).requests_published.wrapping_add(1), ..*old(m) }),
{
    m.requests_published = m.requests_published.wrapping_add(1);
}

/// Counts a response handed to a connection.
pub fn inc_responses_sent(m: &mut Metrics)
    ensures
        *final(m) == (MetricsSnapshot { responses_sent: old(m).responses_sent.wrapping_add(1), ..*old(m) }),
{
    m.responses_sent = m.responses_sent.wrapping_add(1);
}

/// Counts a poll of the request ring that found events.
pub fn inc_poll_events(m: &mut Metrics)
    ensures
        *final(m) == (MetricsSnapshot { poll_events: old(m).poll_events.wrapping_add(1), ..*old(m) }),
{
    m.poll_events = m.poll_events.wrapping_add(1);
}

/// Counts a poll of the request ring that found none.
pub fn inc_poll_no_events(m: &mut Metrics)
    ensures
        *final(m) == (MetricsSnapshot { poll_no_events: old(m).poll_no_events.wrapping_add(1), ..*old(m) }),
{
    m.poll_no_events = m.poll_no_events.wrapping_add(1);
}

/// A copy of every counter.
pub fn snapshot(m: &Metrics) -> (r: MetricsSnapshot)
    ensures
        r == *m,
{
    *m
}

/// What changed between two snapshots: each cumulative count as the
/// difference (zero if it went down), each gauge as it stands in `now`.
pub fn snapshot_delta(now: &MetricsSnapshot, last: &MetricsSnapshot) -> (r: MetricsSnapshot)
    ensures
        r.req_ring_full == if now.req_ring_full >= last.req_ring_full { now.req_ring_full - last.req_ring_full } else { 0 },
        r.resp_ring_full == if now.resp_ring_full >= last.resp_ring_full { now.resp_ring_full - last.resp_ring_full } else { 0 },
        r.pool_exhausted == if now.pool_exhausted >= last.pool_exhausted { now.pool_exhausted - last.pool_exhausted } else { 0 },
        r.pool_too_large == if now.pool_too_large >= last.pool_too_large { now.pool_too_large - last.pool_too_large } else { 0 },
        r.requests_published == if now.requests_published >= last.requests_published { now.requests_published - last.requests_published } else { 0 },
        r.responses_sent == if now.responses_sent >= last.responses_sent { now.responses_sent - last.responses_sent } else { 0 },
        r.poll_events == if now.poll_events >= last.poll_events { now.poll_events - last.poll_events } else { 0 },
        r.poll_no_events == if now.poll_no_events >= last.poll_no_events { now.poll_no_events - last.poll_no_events } else { 0 },
        r.pool_max_in_use == now.pool_max_in_use,
        r.req_occ == now.req_occ,
        r.resp_occ == now.resp_occ,
        r.req_max_occ == now.req_max_occ,
        r.resp_max_occ == now.resp_max_occ,
{
    MetricsSnapshot {
        req_ring_full: now.req_ring_full.saturating_sub(last.req_ring_full),
        resp_ring_full: now.resp_ring_full.saturating_sub(last.resp_ring_full),
        pool_exhausted: now.pool_exhausted.saturating_sub(last.pool_exhausted),
        pool_too_large: now.pool_too_large.saturating_sub(last.pool_too_large),
        requests_published: now.requests_published.saturating_sub(last.requests_published),
        responses_sent: now.responses_sent.saturating_sub(last.responses_sent),
        poll_events: now.poll_events.saturating_sub(last.poll_events),
        poll_no_events: now.poll_no_events.saturating_sub(last.poll_no_events),
        pool_max_in_use: now.pool_max_in_use,
        req_occ: now.req_occ,
        resp_occ: now.resp_occ,
        req_max_occ: now.req_max_occ,
        resp_max_occ: now.resp_max_occ,
    }
}

} // verus!
