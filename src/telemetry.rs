//! The telemetry buffer: events accumulate until a flush is forced, the
//! buffer is full, or the flush interval has passed.
use vstd::prelude::*;

verus! {

/// Buffered events that trigger a flush.
pub const TELEMETRY_BUFFER_MAX_EVENTS: usize = 50;

/// Seconds after the last flush that trigger a flush.
pub const TELEMETRY_BUFFER_TTL_SECONDS: i64 = 30;

/// What an ingest call asks of its caller.
pub enum TelemetryIngestResult<E> {
    /// Nothing was added and nothing is due.
    Noop,
    /// The events were buffered.
    Buffered,
    /// These events are to be written out now.
    Flush(Vec<E>),
}

/// Events waiting to be written out, and the second of the last flush.
pub struct TelemetryBuffer<E> {
    pub events: Vec<E>,
    pub last_flush: i64,
}

/// Whether a flush is due for `count` buffered events at `now`.
pub open spec fn flush_due(force: bool, count: int, now: int, last_flush: int) -> bool {
    force || count >= TELEMETRY_BUFFER_MAX_EVENTS || now - last_flush >= TELEMETRY_BUFFER_TTL_SECONDS
}

impl<E> TelemetryBuffer<E> {
    /// An empty buffer whose last flush is `now`.
    pub fn new(now: i64) -> (r: Self)
        ensures
            r.events@.len() == 0,
            r.last_flush == now,
    {
        TelemetryBuffer { events: Vec::new(), last_flush: now }
    }

    /// Adds events and flushes when due: all buffered events, old then new, go
    /// out when a flush is forced, the buffer holds at least the maximum, or the
    /// interval has passed, provided there are any.
    pub fn ingest(&mut self, new_events: Vec<E>, force_flush: bool, now: i64) -> (r:
        TelemetryIngestResult<E>)
        ensures
            ({
                let all = old(self).events@ + new_events@;
                let due = flush_due(force_flush, all.len() as int, now as int, old(self).last_flush as int);
                &&& due && all.len() > 0 ==> (r matches TelemetryIngestResult::Flush(out) && out@
                    == all) && final(self).events@.len() == 0 && final(self).last_flush == now
                &&& !(due && all.len() > 0) ==> final(self).events@ == all && final(self).last_flush
                    == old(self).last_flush
                &&& !(due && all.len() > 0) && new_events@.len() > 0 ==> r is Buffered
                &&& !(due && all.len() > 0) && new_events@.len() == 0 ==> r is Noop
            }),
    {
        let has_new = new_events.len() > 0;
        let mut incoming = new_events;
        self.events.append(&mut incoming);
        let elapsed = now as i128 - self.last_flush as i128;
        let should_flush = force_flush || self.events.len() >= TELEMETRY_BUFFER_MAX_EVENTS || elapsed
            >= TELEMETRY_BUFFER_TTL_SECONDS as i128;
        if should_flush && self.events.len() > 0 {
            let mut out: Vec<E> = Vec::new();
            std::mem::swap(&mut out, &mut self.events);
            self.last_flush = now;
            TelemetryIngestResult::Flush(out)
        } else if has_new {
            TelemetryIngestResult::Buffered
        } else {
            TelemetryIngestResult::Noop
        }
    }
}

} // verus!
