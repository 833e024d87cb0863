//! The data-plane receiver: datagram decryption feeding the reorder window,
//! and the bounded hand-off queue toward the decoder.
//!
//! Each datagram carries its sequence number and timestamp in the clear and
//! its payload sealed under the audio key with the sequence number as nonce,
//! so decryption is stateless and tolerates reordering. An undecryptable
//! datagram is dropped and counted — never a crash — and only a count beyond
//! the failure threshold aborts the session. Ordered output is handed to the
//! decoding collaborator through a bounded queue; when the queue is full the
//! oldest item is dropped rather than the newest, because late audio is less
//! useful than current audio.

use vstd::prelude::*;

use crate::crypto::{open, spec_open, FailureMonitor};
use crate::reorder::{AudioPacket, OutputItem, ReorderWindow};

verus! {

/// The per-session data-plane state: the audio key, the reorder window and
/// the failure count.
#[derive(Debug)]
pub struct DataPlaneReceiver {
    /// The audio-stream key handed over when streaming started.
    pub audio_key: u64,
    /// The reordering window.
    pub window: ReorderWindow,
    /// Authentication failures against the abort threshold.
    pub monitor: FailureMonitor,
}

impl DataPlaneReceiver {
    /// The receiver invariant: its window's.
    pub open spec fn wf(&self) -> bool {
        self.window.wf()
    }

    /// A receiver for one streaming session.
    pub fn new(audio_key: u64, window: ReorderWindow, failure_threshold: u64) -> (r: Self)
        requires
            window.wf(),
        ensures
            r.wf(),
            r.audio_key == audio_key,
            r.window == window,
            r.monitor.failures == 0,
            r.monitor.threshold == failure_threshold,
    {
        DataPlaneReceiver { audio_key, window, monitor: FailureMonitor::new(failure_threshold) }
    }

    /// Takes one datagram: decrypts the sealed payload under the
    /// sequence-derived nonce and feeds the packet to the window. The items
    /// the window releases come back in order; the second result is true
    /// when authentication failures have passed the threshold and the
    /// session is to be aborted. An undecryptable datagram changes nothing
    /// but the failure count.
    pub fn receive_datagram(&mut self, seq: u64, timestamp: u32, sealed_payload: &Vec<u8>) -> (r: (
        Vec<OutputItem>,
        bool,
    ))
        requires
            old(self).wf(),
            old(self).monitor.failures < 0xffff_ffff_ffff_ffff,
            seq + old(self).window.slots@.len() < 0x1_0000_0000_0000_0000,
        ensures
            final (self).wf(),
            final (self).audio_key == old(self).audio_key,
            spec_open(old(self).audio_key, seq, Seq::<u8>::empty(), sealed_payload@) is None ==> ({
                &&& r.0@.len() == 0
                &&& final (self).window == old(self).window
                &&& final (self).monitor.failures == old(self).monitor.failures + 1
                &&& r.1 == (old(self).monitor.failures + 1 > old(self).monitor.threshold)
            }),
            spec_open(old(self).audio_key, seq, Seq::<u8>::empty(), sealed_payload@) matches Some(
                pt,
            ) ==> ({
                &&& final (self).monitor == old(self).monitor
                &&& !r.1
                &&& final (self).window.slots@.len() == old(self).window.slots@.len()
                &&& final (self).window.next_seq == old(self).window.next_seq + r.0@.len()
                &&& forall|k: int|
                    0 <= k < r.0@.len() ==> (#[trigger] r.0@[k]).seq_of() == old(
                        self,
                    ).window.next_seq + k
                &&& forall|k: int|
                    0 <= k < r.0@.len() ==> ((#[trigger] r.0@[k]) matches OutputItem::Packet(q)
                        ==> ((q.seq == seq && q.timestamp == timestamp && q.payload@ == pt) || (k
                        < old(self).window.slots@.len() && old(self).window.slots@[k] == Some(q))))
                &&& forall|k: int|
                    0 <= k < r.0@.len() ==> ((#[trigger] r.0@[k]) matches OutputItem::Missing(s)
                        ==> (s != seq && (k < old(self).window.slots@.len() ==> old(
                        self,
                    ).window.slots@[k] is None)))
                &&& seq < old(self).window.next_seq ==> ({
                    &&& r.0@.len() == 0
                    &&& final (self).window.slots == old(self).window.slots
                    &&& final (self).window.next_seq == old(self).window.next_seq
                    &&& final (self).window.late_count == crate::reorder::spec_sat_inc(
                        old(self).window.late_count,
                    )
                    &&& final (self).window.duplicate_count == old(self).window.duplicate_count
                    &&& final (self).window.lost_count == old(self).window.lost_count
                })
                &&& (seq >= old(self).window.next_seq && seq - old(self).window.next_seq < old(
                    self,
                ).window.slots@.len() && old(self).window.slots@[seq - old(
                    self,
                ).window.next_seq] is Some) ==> ({
                    &&& r.0@.len() == 0
                    &&& final (self).window.slots == old(self).window.slots
                    &&& final (self).window.next_seq == old(self).window.next_seq
                    &&& final (self).window.duplicate_count == crate::reorder::spec_sat_inc(
                        old(self).window.duplicate_count,
                    )
                    &&& final (self).window.late_count == old(self).window.late_count
                })
                &&& (seq >= old(self).window.next_seq && !(seq - old(self).window.next_seq < old(
                    self,
                ).window.slots@.len() && old(self).window.slots@[seq - old(
                    self,
                ).window.next_seq] is Some)) ==> ({
                    if seq < final (self).window.next_seq {
                        r.0@[seq - old(self).window.next_seq] matches OutputItem::Packet(q)
                            && q.seq == seq && q.timestamp == timestamp && q.payload@ == pt
                    } else {
                        final (self).window.slots@[seq - final (self).window.next_seq]
                            matches Some(q) && q.seq == seq && q.timestamp == timestamp
                            && q.payload@ == pt
                    }
                })
            }),
    {
        let ad: Vec<u8> = Vec::new();
        match open(self.audio_key, seq, sealed_payload, &ad) {
            Ok(payload) => {
                let ghost pt = payload@;
                let packet = AudioPacket { seq, timestamp, payload };
                let out = self.window.insert(packet);
                (out, false)
            },
            Err(_) => {
                let abort = self.monitor.record_failure();
                (Vec::new(), abort)
            },
        }
    }
}

/// The bounded hand-off channel toward the decoding collaborator. When it is
/// full, pushing drops the oldest buffered item rather than the newest:
/// explicit backpressure instead of blocking.
#[derive(Debug)]
pub struct HandoffQueue {
    /// Buffered items, oldest first.
    pub items: Vec<OutputItem>,
    /// The most items the queue holds.
    pub capacity: usize,
}

impl HandoffQueue {
    /// The queue invariant: a positive bound that the content respects.
    pub open spec fn wf(&self) -> bool {
        &&& self.capacity >= 1
        &&& self.items@.len() <= self.capacity
    }

    /// An empty queue of the given capacity.
    pub fn new(capacity: usize) -> (r: Self)
        requires
            capacity >= 1,
        ensures
            r.wf(),
            r.capacity == capacity,
            r.items@.len() == 0,
    {
        HandoffQueue { items: Vec::new(), capacity }
    }

    /// Hands one item over. A full queue drops its oldest item to make room:
    /// the new item always enters, and what remains is the newest tail of
    /// what was there.
    pub fn push(&mut self, item: OutputItem)
        requires
            old(self).wf(),
        ensures
            final (self).wf(),
            final (self).capacity == old(self).capacity,
            old(self).items@.len() < old(self).capacity ==> final (self).items@ == old(
                self,
            ).items@ + seq![item],
            old(self).items@.len() == old(self).capacity ==> final (self).items@ == old(
                self,
            ).items@.skip(1) + seq![item],
    {
        if self.items.len() == self.capacity {
            self.items.remove(0);
        }
        self.items.push(item);
        proof {
            if old(self).items@.len() == old(self).capacity {
                assert(self.items@ =~= old(self).items@.skip(1) + seq![item]);
            }
        }
    }

    /// Takes the oldest item, if any.
    pub fn pop_oldest(&mut self) -> (r: Option<OutputItem>)
        requires
            old(self).wf(),
        ensures
            final (self).wf(),
            final (self).capacity == old(self).capacity,
            old(self).items@.len() == 0 ==> r is None && final (self).items@ == old(self).items@,
            old(self).items@.len() > 0 ==> (r == Some(old(self).items@[0]) && final (self).items@
                == old(self).items@.skip(1)),
    {
        if self.items.len() == 0 {
            None
        } else {
            let item = self.items.remove(0);
            proof {
                assert(self.items@ =~= old(self).items@.skip(1));
            }
            Some(item)
        }
    }
}

} // verus!
