//! Sender-to-local clock offset tracking and playout deadlines.
//!
//! Synchronization exchanges yield pairs of a sender timestamp and a local
//! receipt timestamp, both in microseconds. The session keeps an
//! exponentially smoothed offset (sender clock minus local clock). An offset
//! older than the staleness threshold is treated as unknown: playout
//! deadlines are then unavailable and must wait for a fresh exchange. A jump
//! between consecutive offset estimates beyond the drift threshold restarts
//! smoothing from the fresh sample and flags an immediate resynchronization.

use vstd::prelude::*;

use crate::error::SessionError;

verus! {

/// An offset older than this many microseconds is treated as unknown.
pub const STALENESS_THRESHOLD_MICROS: i64 = 10_000_000;

/// A jump beyond this many microseconds between consecutive estimates
/// triggers an immediate resynchronization.
pub const DRIFT_THRESHOLD_MICROS: i64 = 100_000;

/// Timestamps are accepted within this bound, so that differences and
/// smoothing arithmetic stay representable.
pub const TIMESTAMP_BOUND_MICROS: i64 = 0x1000_0000_0000_0000;

/// The smoothing step: one eighth of the difference toward the new sample,
/// rounded toward zero.
pub open spec fn spec_smooth_step(diff: int) -> int {
    if diff >= 0 {
        diff / 8
    } else {
        -((-diff) / 8)
    }
}

/// What one accepted exchange makes of the previous offset: the first sample
/// is taken as is; a sample within the drift threshold is smoothed in; a
/// sample beyond it restarts from the sample.
pub open spec fn spec_next_offset(prev: Option<i64>, sample: int) -> int {
    match prev {
        None => sample,
        Some(o) => if sample - o > DRIFT_THRESHOLD_MICROS || o - sample > DRIFT_THRESHOLD_MICROS {
            sample
        } else {
            o + spec_smooth_step(sample - o)
        },
    }
}

/// The clock synchronization state of one session.
#[derive(Clone, Copy, Debug)]
pub struct ClockSync {
    /// Smoothed offset (sender minus local) in microseconds, once an
    /// exchange completed.
    pub offset_micros: Option<i64>,
    /// Local time of the last accepted exchange, in microseconds.
    pub last_sync_micros: i64,
    /// Whether the last exchange jumped beyond the drift threshold.
    pub resync_needed: bool,
}

impl ClockSync {
    /// All held timestamps stay within the accepted bound.
    pub open spec fn wf(&self) -> bool {
        &&& (self.offset_micros matches Some(o) ==> -2 * TIMESTAMP_BOUND_MICROS <= o <= 2
            * TIMESTAMP_BOUND_MICROS)
        &&& -TIMESTAMP_BOUND_MICROS <= self.last_sync_micros <= TIMESTAMP_BOUND_MICROS
    }

    /// A session that has not completed any exchange yet.
    pub fn new() -> (r: Self)
        ensures
            r.wf(),
            r.offset_micros is None,
            r.last_sync_micros == 0,
            !r.resync_needed,
    {
        ClockSync { offset_micros: None, last_sync_micros: 0, resync_needed: false }
    }

    /// Feeds one synchronization exchange: the sender's timestamp and the
    /// local receipt timestamp. The new offset follows `spec_next_offset` on
    /// the sample (sender minus local); the exchange time is recorded; the
    /// resynchronization flag is set exactly when the sample jumped beyond
    /// the drift threshold.
    pub fn update(&mut self, sender_micros: i64, local_micros: i64)
        requires
            old(self).wf(),
            -TIMESTAMP_BOUND_MICROS <= sender_micros <= TIMESTAMP_BOUND_MICROS,
            -TIMESTAMP_BOUND_MICROS <= local_micros <= TIMESTAMP_BOUND_MICROS,
        ensures
            final (self).wf(),
            final (self).offset_micros == Some(
                spec_next_offset(
                    old(self).offset_micros,
                    sender_micros - local_micros,
                ) as i64,
            ),
            final (self).last_sync_micros == local_micros,
            final (self).resync_needed == (old(self).offset_micros matches Some(o) && (
            sender_micros - local_micros - o > DRIFT_THRESHOLD_MICROS || o - (sender_micros
                - local_micros) > DRIFT_THRESHOLD_MICROS)),
    {
        let sample: i64 = sender_micros - local_micros;
        match self.offset_micros {
            None => {
                self.offset_micros = Some(sample);
                self.resync_needed = false;
            },
            Some(o) => {
                let diff: i64 = sample - o;
                if diff > DRIFT_THRESHOLD_MICROS || -diff > DRIFT_THRESHOLD_MICROS {
                    self.offset_micros = Some(sample);
                    self.resync_needed = true;
                } else {
                    let step: i64 = if diff >= 0 {
                        diff / 8
                    } else {
                        -((-diff) / 8)
                    };
                    self.offset_micros = Some(o + step);
                    self.resync_needed = false;
                }
            },
        }
        self.last_sync_micros = local_micros;
    }

    /// Whether the offset can be trusted at the given local time: an
    /// exchange completed and its age is within the staleness threshold.
    pub open spec fn spec_fresh(&self, now_micros: i64) -> bool {
        self.offset_micros is Some && now_micros - self.last_sync_micros
            <= STALENESS_THRESHOLD_MICROS
    }

    /// Translates a sender-clock time to the local playout deadline.
    /// Succeeds exactly while a trusted offset is held: the deadline is the
    /// sender time minus the offset. With no offset, or one older than the
    /// staleness threshold, the deadline is unavailable and playout must
    /// wait; the caller resynchronizes.
    pub fn translate(&self, sender_micros: i64, now_micros: i64) -> (r: Result<i64, SessionError>)
        requires
            self.wf(),
            -TIMESTAMP_BOUND_MICROS <= sender_micros <= TIMESTAMP_BOUND_MICROS,
            -TIMESTAMP_BOUND_MICROS <= now_micros <= TIMESTAMP_BOUND_MICROS,
        ensures
            match r {
                Ok(deadline) => self.spec_fresh(now_micros) && (self.offset_micros matches Some(o)
                    && deadline == sender_micros - o),
                Err(e) => !self.spec_fresh(now_micros) && e == SessionError::ClockUnavailable,
            },
    {
        match self.offset_micros {
            None => Err(SessionError::ClockUnavailable),
            Some(o) => {
                if now_micros - self.last_sync_micros > STALENESS_THRESHOLD_MICROS {
                    Err(SessionError::ClockUnavailable)
                } else {
                    Ok(sender_micros - o)
                }
            },
        }
    }
}

/// Whether a session that saw its last traffic at `last_traffic_micros` has
/// sat idle beyond the timeout at local time `now_micros` and is to be torn
/// down proactively.
pub fn idle_expired(now_micros: i64, last_traffic_micros: i64, timeout_micros: i64) -> (r: bool)
    requires
        -TIMESTAMP_BOUND_MICROS <= now_micros <= TIMESTAMP_BOUND_MICROS,
        -TIMESTAMP_BOUND_MICROS <= last_traffic_micros <= TIMESTAMP_BOUND_MICROS,
        0 <= timeout_micros <= TIMESTAMP_BOUND_MICROS,
    ensures
        r == (now_micros - last_traffic_micros > timeout_micros),
{
    now_micros - last_traffic_micros > timeout_micros
}

/// Converts a media timestamp in clock-rate units to microseconds.
pub fn media_timestamp_micros(timestamp: u32, clock_rate: u32) -> (r: u64)
    requires
        clock_rate > 0,
    ensures
        r == timestamp as int * 1_000_000 / (clock_rate as int),
{
    proof {
        vstd::arithmetic::mul::lemma_mul_upper_bound(
            timestamp as int,
            0xffff_ffff,
            1_000_000,
            1_000_000,
        );
        vstd::arithmetic::div_mod::lemma_div_is_ordered(
            0,
            timestamp as int * 1_000_000,
            clock_rate as int,
        );
        vstd::arithmetic::div_mod::lemma_div_is_ordered_by_denominator(
            timestamp as int * 1_000_000,
            1,
            clock_rate as int,
        );
    }
    (timestamp as u64) * 1_000_000 / (clock_rate as u64)
}

} // verus!
