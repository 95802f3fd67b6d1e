//! Lock-free daemon counters and the status line built from them.

use vstd::prelude::*;
use crate::num::{dec, dec_int, push_i64, push_u64};

verus! {

/// Trusted: milliseconds since the Unix epoch from `SystemTime::now()` (0
/// before the epoch). Nothing is promised of the value.
#[verifier::external_body]
fn now_ms() -> i64 {
    std::time::SystemTime::now().duration_since(std::time::UNIX_EPOCH).unwrap_or_default().as_millis() as i64
}

/// Counters written from the worker thread and read on a status request.
pub struct DaemonMetrics {
    started_at_ms: i64,
    ingress_count: std::sync::atomic::AtomicU64,
    egress_count: std::sync::atomic::AtomicU64,
    last_event_at_ms: std::sync::atomic::AtomicI64,
}

/// The figures a status line reports.
pub open spec fn status_line(uptime_ms: i64, ingress: u64, egress: u64, last_event_ago: i64) -> Seq<char> {
    "uptime_ms="@ + dec_int(uptime_ms as int) + " ingress="@ + dec(ingress as nat) + " egress="@ + dec(
        egress as nat,
    ) + " last_event_ms_ago="@ + dec_int(last_event_ago as int) + "\n"@
}

/// `uptime_ms=<u> ingress=<i> egress=<e> last_event_ms_ago=<a>` and a
/// newline.
pub fn render_status(uptime_ms: i64, ingress: u64, egress: u64, last_event_ago: i64) -> (r: String)
    ensures
        r@ == status_line(uptime_ms, ingress, egress, last_event_ago),
{
    let mut s = String::from_str("uptime_ms=");
    push_i64(&mut s, uptime_ms);
    s.append(" ingress=");
    push_u64(&mut s, ingress);
    s.append(" egress=");
    push_u64(&mut s, egress);
    s.append(" last_event_ms_ago=");
    push_i64(&mut s, last_event_ago);
    s.append("\n");
    s
}

/// Milliseconds since the last event, or -1 when there has been none (its
/// timestamp is still 0); the difference wraps as `i64` arithmetic does.
pub open spec fn event_age(now: i64, last: i64) -> i64 {
    if last == 0 {
        -1i64
    } else {
        now.wrapping_sub(last)
    }
}

pub fn last_event_age(now: i64, last: i64) -> (r: i64)
    ensures
        r == event_age(now, last),
{
    if last == 0 {
        -1
    } else {
        now.wrapping_sub(last)
    }
}

impl DaemonMetrics {
    pub fn new() -> (r: Self) {
        DaemonMetrics {
            started_at_ms: now_ms(),
            ingress_count: std::sync::atomic::AtomicU64::new(0),
            egress_count: std::sync::atomic::AtomicU64::new(0),
            last_event_at_ms: std::sync::atomic::AtomicI64::new(0),
        }
    }

    /// Counts one stored clipboard entry.
    pub fn record_ingress(&self) {
        self.ingress_count.fetch_add(1, std::sync::atomic::Ordering::Relaxed);
        self.last_event_at_ms.store(now_ms(), std::sync::atomic::Ordering::Relaxed);
    }

    /// Counts one record served back to the clipboard.
    pub fn record_egress(&self) {
        self.egress_count.fetch_add(1, std::sync::atomic::Ordering::Relaxed);
        self.last_event_at_ms.store(now_ms(), std::sync::atomic::Ordering::Relaxed);
    }

    /// The status line for the current counters.
    pub fn format_status(&self) -> (r: String)
        ensures
            exists|u: i64, i: u64, e: u64, a: i64| r@ == status_line(u, i, e, a),
    {
        let last = self.last_event_at_ms.load(std::sync::atomic::Ordering::Relaxed);
        let uptime = now_ms().wrapping_sub(self.started_at_ms);
        let ingress = self.ingress_count.load(std::sync::atomic::Ordering::Relaxed);
        let egress = self.egress_count.load(std::sync::atomic::Ordering::Relaxed);
        let age = last_event_age(now_ms(), last);
        render_status(uptime, ingress, egress, age)
    }
}

} // verus!
