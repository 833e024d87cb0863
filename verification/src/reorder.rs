//! The bounded reordering window of the data-plane receiver.
//!
//! Decrypted packets arrive keyed by sequence number in arbitrary order. The
//! window holds at most one packet per sequence number within a fixed span
//! ahead of the next sequence to emit. Output is a single ordered stream of
//! items: the packet with the next sequence number, or an explicit gap marker
//! where that packet is missing. A packet older than the trailing edge is
//! dropped and counted as late; a packet too far ahead forces the window to
//! advance, emitting the skipped range — buffered packets as packets, holes
//! as gap markers — rather than skipping it silently.

use vstd::prelude::*;

verus! {

/// One decrypted audio packet.
#[derive(Clone, Debug)]
pub struct AudioPacket {
    /// Wrap-resolved sequence number.
    pub seq: u64,
    /// Media timestamp in units of the negotiated clock rate.
    pub timestamp: u32,
    /// Compressed frame bytes.
    pub payload: Vec<u8>,
}

/// One item of the ordered output stream.
#[derive(Clone, Debug)]
pub enum OutputItem {
    /// The packet with the next sequence number.
    Packet(AudioPacket),
    /// The packet with this sequence number was lost; the gap is explicit.
    Missing(u64),
}

impl OutputItem {
    /// The sequence number an item covers.
    pub open spec fn seq_of(self) -> u64 {
        match self {
            OutputItem::Packet(p) => p.seq,
            OutputItem::Missing(s) => s,
        }
    }
}

/// `x + 1`, saturating at the largest counter value.
pub open spec fn spec_sat_inc(x: u64) -> u64 {
    if x == 0xffff_ffff_ffff_ffff {
        x
    } else {
        (x + 1) as u64
    }
}

/// `x + 1`, saturating at the largest counter value.
fn sat_inc(x: u64) -> (r: u64)
    ensures
        r == spec_sat_inc(x),
{
    if x == 0xffff_ffff_ffff_ffff {
        x
    } else {
        x + 1
    }
}

/// The bounded reordering window of one streaming session.
#[derive(Debug)]
pub struct ReorderWindow {
    /// The next sequence number to emit: the trailing edge of the window.
    pub next_seq: u64,
    /// Slot `j` may hold only the packet with sequence `next_seq + j`.
    pub slots: Vec<Option<AudioPacket>>,
    /// Packets dropped because they arrived behind the trailing edge.
    pub late_count: u64,
    /// Packets dropped because their sequence number was already buffered.
    pub duplicate_count: u64,
    /// Sequence numbers given up as lost when the window advanced past them.
    pub lost_count: u64,
}

impl ReorderWindow {
    /// The window invariant: a fixed positive capacity, the whole span
    /// representable, and every buffered packet in the slot of its own
    /// sequence number with room to advance past it.
    pub open spec fn wf(&self) -> bool {
        &&& self.slots@.len() >= 1
        &&& self.next_seq + self.slots@.len() <= 0x1_0000_0000_0000_0000
        &&& forall|j: int|
            0 <= j < self.slots@.len() ==> ((#[trigger] self.slots@[j]) matches Some(p) ==> p.seq
                == self.next_seq + j && p.seq + self.slots@.len() < 0x1_0000_0000_0000_0000)
    }

    /// An empty window of the given capacity, with the trailing edge at the
    /// first sequence number of the stream.
    pub fn new(capacity: usize, first_seq: u64) -> (r: Self)
        requires
            capacity >= 1,
            first_seq + capacity <= 0x1_0000_0000_0000_0000,
        ensures
            r.wf(),
            r.next_seq == first_seq,
            r.slots@.len() == capacity,
            forall|j: int| 0 <= j < capacity ==> (#[trigger] r.slots@[j]) is None,
            r.late_count == 0,
            r.duplicate_count == 0,
            r.lost_count == 0,
    {
        let mut slots: Vec<Option<AudioPacket>> = Vec::new();
        let mut j: usize = 0;
        while j < capacity
            invariant
                j <= capacity,
                slots@.len() == j,
                forall|i: int| 0 <= i < j ==> (#[trigger] slots@[i]) is None,
            decreases capacity - j,
        {
            slots.push(None);
            j = j + 1;
        }
        ReorderWindow {
            next_seq: first_seq,
            slots,
            late_count: 0,
            duplicate_count: 0,
            lost_count: 0,
        }
    }

    /// Pops the head slot, shifts the window by one and emits the item that
    /// covers the popped sequence number.
    fn emit_head(&mut self, out: &mut Vec<OutputItem>)
        requires
            old(self).wf(),
            old(self).next_seq + old(self).slots@.len() < 0x1_0000_0000_0000_0000,
        ensures
            final (self).wf(),
            final (self).slots@.len() == old(self).slots@.len(),
            final (self).next_seq == old(self).next_seq + 1,
            final (self).late_count == old(self).late_count,
            final (self).duplicate_count == old(self).duplicate_count,
            final (out)@.len() == old(out)@.len() + 1,
            forall|k: int| 0 <= k < old(out)@.len() ==> final (out)@[k] == old(out)@[k],
            final (out)@.last().seq_of() == old(self).next_seq,
            old(self).slots@[0] matches Some(q) ==> final (out)@.last() == OutputItem::Packet(q)
                && final (self).lost_count == old(self).lost_count,
            old(self).slots@[0] is None ==> final (out)@.last() == OutputItem::Missing(
                old(self).next_seq,
            ) && final (self).lost_count == spec_sat_inc(old(self).lost_count),
            forall|j: int|
                0 <= j < final (self).slots@.len() ==> (#[trigger] final (self).slots@[j]) == (if j
                    + 1 < old(self).slots@.len() {
                    old(self).slots@[j + 1]
                } else {
                    None::<AudioPacket>
                }),
    {
        let head = self.slots.remove(0);
        self.slots.push(None);
        match head {
            Some(q) => {
                out.push(OutputItem::Packet(q));
            },
            None => {
                out.push(OutputItem::Missing(self.next_seq));
                self.lost_count = sat_inc(self.lost_count);
            },
        }
        self.next_seq = self.next_seq + 1;
    }

    /// Takes one arriving packet and returns whatever the window can emit in
    /// order because of it.
    ///
    /// - A packet behind the trailing edge is dropped and counted as late;
    ///   nothing is emitted and nothing changes.
    /// - A packet whose sequence number is already buffered is dropped and
    ///   counted as a duplicate; nothing is emitted and nothing changes.
    /// - A packet beyond the window span forces the window to advance,
    ///   emitting every skipped sequence number: buffered packets as
    ///   packets, holes as explicit gap markers counted as lost.
    /// - The emitted items cover exactly the sequence numbers from the old
    ///   trailing edge on, consecutively and therefore in strictly increasing
    ///   order; the accepted packet is emitted now or still buffered.
    pub fn insert(&mut self, p: AudioPacket) -> (out: Vec<OutputItem>)
        requires
            old(self).wf(),
            p.seq + old(self).slots@.len() < 0x1_0000_0000_0000_0000,
        ensures
            final (self).wf(),
            final (self).slots@.len() == old(self).slots@.len(),
            final (self).next_seq == old(self).next_seq + out@.len(),
            forall|k: int|
                0 <= k < out@.len() ==> (#[trigger] out@[k]).seq_of() == old(self).next_seq + k,
            forall|k1: int, k2: int|
                0 <= k1 < k2 < out@.len() ==> out@[k1].seq_of() < out@[k2].seq_of(),
            forall|k: int|
                0 <= k < out@.len() ==> ((#[trigger] out@[k]) matches OutputItem::Packet(q) ==> (q
                    == p || (k < old(self).slots@.len() && old(self).slots@[k] == Some(q)))),
            forall|k: int|
                0 <= k < out@.len() ==> ((#[trigger] out@[k]) matches OutputItem::Missing(s) ==> s
                    != p.seq && (k < old(self).slots@.len() ==> old(self).slots@[k] is None)),
            p.seq < old(self).next_seq ==> ({
                &&& out@.len() == 0
                &&& final (self).slots == old(self).slots
                &&& final (self).next_seq == old(self).next_seq
                &&& final (self).late_count == spec_sat_inc(old(self).late_count)
                &&& final (self).duplicate_count == old(self).duplicate_count
                &&& final (self).lost_count == old(self).lost_count
            }),
            (p.seq >= old(self).next_seq && p.seq - old(self).next_seq < old(self).slots@.len()
                && old(self).slots@[p.seq - old(self).next_seq] is Some) ==> ({
                &&& out@.len() == 0
                &&& final (self).slots == old(self).slots
                &&& final (self).next_seq == old(self).next_seq
                &&& final (self).duplicate_count == spec_sat_inc(old(self).duplicate_count)
                &&& final (self).late_count == old(self).late_count
            }),
            (p.seq >= old(self).next_seq && !(p.seq - old(self).next_seq < old(self).slots@.len()
                && old(self).slots@[p.seq - old(self).next_seq] is Some)) ==> ({
                if p.seq < final (self).next_seq {
                    out@[p.seq - old(self).next_seq] == OutputItem::Packet(p)
                } else {
                    final (self).slots@[p.seq - final (self).next_seq] == Some(p)
                }
            }),
    {
        let mut out: Vec<OutputItem> = Vec::new();
        if p.seq < self.next_seq {
            self.late_count = sat_inc(self.late_count);
            return out;
        }
        let ghost old_self = *old(self);
        let ghost old_next = self.next_seq;
        let ghost old_slots = self.slots@;
        let cap: usize = self.slots.len();
        let cap64: u64 = cap as u64;
        if p.seq - self.next_seq >= cap64 {
            // Too far ahead: advance the trailing edge so that `p` lands in
            // the last slot, emitting everything the window slides past.
            let target: u64 = p.seq - (cap64 - 1);
            while self.next_seq < target
                invariant
                    self.wf(),
                    self.slots@.len() == cap,
                    cap >= 1,
                    old_next <= self.next_seq <= target,
                    target == p.seq - (cap - 1),
                    p.seq >= old_next + cap,
                    p.seq + cap < 0x1_0000_0000_0000_0000,
                    out@.len() == self.next_seq - old_next,
                    self.late_count == old_self.late_count,
                    self.duplicate_count == old_self.duplicate_count,
                    forall|k: int|
                        0 <= k < out@.len() ==> (#[trigger] out@[k]).seq_of() == old_next + k,
                    forall|k: int|
                        0 <= k < out@.len() ==> ((#[trigger] out@[k]) matches OutputItem::Packet(q)
                            ==> k < cap && old_slots[k] == Some(q)),
                    forall|k: int|
                        0 <= k < out@.len() ==> ((#[trigger] out@[k]) matches OutputItem::Missing(s)
                            ==> s == old_next + k && (k < cap ==> old_slots[k] is None)),
                    forall|j: int|
                        0 <= j < cap ==> (#[trigger] self.slots@[j]) == (if j + self.next_seq
                            - old_next < cap {
                            old_slots[j + self.next_seq - old_next]
                        } else {
                            None::<AudioPacket>
                        }),
                decreases target - self.next_seq,
            {
                self.emit_head(&mut out);
            }
        }
        let offset_u64: u64 = p.seq - self.next_seq;
        let offset: usize = offset_u64 as usize;
        let already = match &self.slots[offset] {
            Some(_) => true,
            None => false,
        };
        if already {
            self.duplicate_count = sat_inc(self.duplicate_count);
            return out;
        }
        // Store the packet in the slot of its sequence number.
        let ghost pre_store = self.slots@;
        self.slots.remove(offset);
        self.slots.insert(offset, Some(p));
        proof {
            assert(self.slots@ =~= pre_store.update(offset as int, Some(p)));
        }
        let ghost base_self = *self;
        let ghost base_out = out@;
        // Emit the ready prefix: consecutive buffered packets at the head.
        let mut head_full = match &self.slots[0] {
            Some(_) => true,
            None => false,
        };
        while head_full
            invariant
                self.wf(),
                self.slots@.len() == cap,
                cap >= 1,
                base_self.wf(),
                base_self.slots@.len() == cap,
                base_self.next_seq <= self.next_seq,
                self.next_seq - base_self.next_seq <= cap,
                out@.len() == base_out.len() + (self.next_seq - base_self.next_seq),
                self.late_count == base_self.late_count,
                self.duplicate_count == base_self.duplicate_count,
                head_full == (self.slots@[0] is Some),
                forall|k: int| 0 <= k < base_out.len() ==> (#[trigger] out@[k]) == base_out[k],
                forall|k: int|
                    base_out.len() <= k < out@.len() ==> (base_self.slots@[k - base_out.len()]
                        matches Some(q) && (#[trigger] out@[k]) == OutputItem::Packet(q)),
                forall|j: int|
                    0 <= j < cap ==> (#[trigger] self.slots@[j]) == (if j + self.next_seq
                        - base_self.next_seq < cap {
                        base_self.slots@[j + self.next_seq - base_self.next_seq]
                    } else {
                        None::<AudioPacket>
                    }),
            decreases cap - (self.next_seq - base_self.next_seq),
        {
            proof {
                if self.next_seq - base_self.next_seq == cap {
                    assert(self.slots@[0] is None);
                    assert(false);
                }
                assert(self.slots@[0] == base_self.slots@[self.next_seq - base_self.next_seq]);
            }
            self.emit_head(&mut out);
            head_full = match &self.slots[0] {
                Some(_) => true,
                None => false,
            };
        }
        proof {
            let shift = base_self.next_seq - old_next;
            assert(base_out.len() == shift);
            assert forall|k: int| 0 <= k < out@.len() implies (#[trigger] out@[k]).seq_of()
                == old_next + k by {
                if k >= base_out.len() {
                    let m = k - base_out.len();
                    assert(base_self.slots@[m] matches Some(q) && out@[k] == OutputItem::Packet(q));
                }
            }
            assert forall|k: int| 0 <= k < out@.len() implies ((#[trigger] out@[k])
                matches OutputItem::Packet(q) ==> (q == p || (k < cap && old_slots[k] == Some(
                q,
            )))) by {
                if k >= base_out.len() {
                    let m = k - base_out.len();
                    assert(base_self.slots@[m] matches Some(qq) && out@[k] == OutputItem::Packet(
                        qq,
                    ));
                    assert(base_self.slots@ == pre_store.update(offset as int, Some(p)));
                    if m != offset {
                        assert(base_self.slots@[m] == pre_store[m]);
                        assert(pre_store[m] == (if m + shift < cap {
                            old_slots[m + shift]
                        } else {
                            None::<AudioPacket>
                        }));
                    }
                }
            }
            assert forall|k: int| 0 <= k < out@.len() implies ((#[trigger] out@[k])
                matches OutputItem::Missing(s) ==> (s != p.seq && (k < cap ==> old_slots[k]
                is None))) by {
                if k >= base_out.len() {
                    let m = k - base_out.len();
                    assert(base_self.slots@[m] matches Some(qq) && out@[k] == OutputItem::Packet(
                        qq,
                    ));
                } else {
                    assert(out@[k] == base_out[k]);
                    assert(out@[k].seq_of() == old_next + k);
                    assert(p.seq >= old_next + out@.len() || out@[p.seq - old_next]
                        == OutputItem::Packet(p) || p.seq - old_next >= base_out.len());
                }
            }
        }
        out
    }

    /// Law of the whole stream: feeding packets in any arrival order and then
    /// draining yields one output whose items cover consecutive sequence
    /// numbers from the old trailing edge on — totally ordered by sequence
    /// number, every undelivered number an explicit gap marker, nothing
    /// silently skipped.
    pub fn deliver_all(&mut self, packets: Vec<AudioPacket>) -> (out: Vec<OutputItem>)
        requires
            old(self).wf(),
            forall|j: int|
                0 <= j < packets@.len() ==> (#[trigger] packets@[j]).seq + old(self).slots@.len()
                    < 0x1_0000_0000_0000_0000,
        ensures
            final (self).wf(),
            final (self).slots@.len() == old(self).slots@.len(),
            final (self).next_seq == old(self).next_seq + out@.len(),
            forall|k: int|
                0 <= k < out@.len() ==> (#[trigger] out@[k]).seq_of() == old(self).next_seq + k,
            forall|k1: int, k2: int|
                0 <= k1 < k2 < out@.len() ==> out@[k1].seq_of() < out@[k2].seq_of(),
    {
        let ghost old_next = self.next_seq;
        let ghost cap = self.slots@.len();
        let mut queue = packets;
        let mut out: Vec<OutputItem> = Vec::new();
        while queue.len() > 0
            invariant
                self.wf(),
                self.slots@.len() == cap,
                forall|j: int|
                    0 <= j < queue@.len() ==> (#[trigger] queue@[j]).seq + cap
                        < 0x1_0000_0000_0000_0000,
                old_next <= self.next_seq,
                out@.len() == self.next_seq - old_next,
                forall|k: int|
                    0 <= k < out@.len() ==> (#[trigger] out@[k]).seq_of() == old_next + k,
            decreases queue@.len(),
        {
            let p = queue.remove(0);
            let ghost pre_next = self.next_seq;
            let ghost pre_out = out@;
            let mut chunk = self.insert(p);
            out.append(&mut chunk);
            proof {
                assert forall|k: int| 0 <= k < out@.len() implies (#[trigger] out@[k]).seq_of()
                    == old_next + k by {
                    if k < pre_out.len() {
                        assert(out@[k] == pre_out[k]);
                    }
                }
            }
        }
        let ghost pre_next = self.next_seq;
        let ghost pre_out = out@;
        let mut tail = self.flush();
        out.append(&mut tail);
        proof {
            assert forall|k: int| 0 <= k < out@.len() implies (#[trigger] out@[k]).seq_of()
                == old_next + k by {
                if k < pre_out.len() {
                    assert(out@[k] == pre_out[k]);
                }
            }
        }
        out
    }

    /// Drains the window at teardown or end of stream: emits every remaining
    /// sequence number up to the last buffered packet, buffered packets as
    /// packets and holes as explicit gap markers.
    pub fn flush(&mut self) -> (out: Vec<OutputItem>)
        requires
            old(self).wf(),
        ensures
            final (self).wf(),
            final (self).slots@.len() == old(self).slots@.len(),
            final (self).next_seq == old(self).next_seq + out@.len(),
            forall|k: int|
                0 <= k < out@.len() ==> (#[trigger] out@[k]).seq_of() == old(self).next_seq + k,
            forall|k1: int, k2: int|
                0 <= k1 < k2 < out@.len() ==> out@[k1].seq_of() < out@[k2].seq_of(),
            forall|k: int|
                0 <= k < out@.len() ==> ((#[trigger] out@[k]) matches OutputItem::Packet(q) ==> old(
                    self,
                ).slots@[k] == Some(q)),
            forall|k: int|
                0 <= k < out@.len() ==> ((#[trigger] out@[k]) matches OutputItem::Missing(s) ==> s
                    == old(self).next_seq + k && old(self).slots@[k] is None),
            forall|j: int|
                0 <= j < old(self).slots@.len() ==> ((#[trigger] old(self).slots@[j]) is Some ==> j
                    < out@.len()),
    {
        let ghost old_next = self.next_seq;
        let ghost old_slots = self.slots@;
        let cap: usize = self.slots.len();
        // Find how far the buffered content reaches.
        let mut last: usize = 0;
        let mut j: usize = 0;
        while j < cap
            invariant
                j <= cap,
                last <= j,
                cap == self.slots@.len(),
                self.slots@ == old_slots,
                last == 0 || self.slots@[last - 1] is Some,
                forall|i: int| last <= i < j ==> (#[trigger] self.slots@[i]) is None,
            decreases cap - j,
        {
            let here = match &self.slots[j] {
                Some(_) => true,
                None => false,
            };
            j = j + 1;
            if here {
                last = j;
            }
        }
        let mut out: Vec<OutputItem> = Vec::new();
        let mut e: usize = 0;
        while e < last
            invariant
                e <= last <= cap,
                self.wf(),
                self.slots@.len() == cap,
                self.next_seq == old_next + e,
                out@.len() == e,
                last == 0 || old_slots[last - 1] is Some,
                self.late_count == old(self).late_count,
                self.duplicate_count == old(self).duplicate_count,
                forall|k: int| 0 <= k < e ==> (#[trigger] out@[k]).seq_of() == old_next + k,
                forall|k: int|
                    0 <= k < e ==> ((#[trigger] out@[k]) matches OutputItem::Packet(q) ==> old_slots[k]
                        == Some(q)),
                forall|k: int|
                    0 <= k < e ==> ((#[trigger] out@[k]) matches OutputItem::Missing(s) ==> s
                        == old_next + k && old_slots[k] is None),
                forall|i: int| last <= i < cap ==> (#[trigger] old_slots[i]) is None,
                forall|jj: int|
                    0 <= jj < cap ==> (#[trigger] self.slots@[jj]) == (if jj + e < cap {
                        old_slots[jj + e]
                    } else {
                        None::<AudioPacket>
                    }),
            decreases last - e,
        {
            proof {
                let witness = last - 1 - e;
                assert(self.slots@[witness as int] == old_slots[last - 1]);
                assert(self.slots@[witness as int] matches Some(q) ==> q.seq + cap
                    < 0x1_0000_0000_0000_0000);
            }
            self.emit_head(&mut out);
            e = e + 1;
        }
        out
    }
}

} // verus!
