//! Measurements of a node: bytes sent and received per round, and the time
//! that the node's own proposals took to be delivered.
//!
//! Times are milliseconds on a clock of the caller's choice that never runs
//! backwards.

use crate::report::{header_chars, header_line, round_chars, round_line};
use crate::slots::{grown, slot};
use vstd::prelude::*;

verus! {

pub struct MeasureDs {
    total_sent: Vec<usize>,
    total_recv: Vec<usize>,
    bytes_sent: usize,
    bytes_recv: usize,
    round_start: Vec<u128>,
    deliver_latency: Vec<Option<u128>>,
}

/// The measurements as a mathematical value.
pub struct MeasureView {
    /// For each round that has ended the bytes sent in it.
    pub total_sent: Seq<usize>,
    /// For each round that has ended the bytes received in it.
    pub total_recv: Seq<usize>,
    /// The bytes sent since the last round began.
    pub bytes_sent: usize,
    /// The bytes received since the last round began.
    pub bytes_recv: usize,
    /// For each round the time at which it began.
    pub round_start: Seq<u128>,
    /// For each round the time from its begin to the delivery of the node's
    /// own proposal, where there was a delivery.
    pub deliver_latency: Seq<Option<u128>>,
}

/// The time from `start` to `now`, nothing where `now` is the earlier.
pub open spec fn elapsed(start: u128, now: u128) -> u128 {
    if now >= start {
        (now - start) as u128
    } else {
        0
    }
}

impl View for MeasureDs {
    type V = MeasureView;

    closed spec fn view(&self) -> MeasureView {
        MeasureView {
            total_sent: self.total_sent@,
            total_recv: self.total_recv@,
            bytes_sent: self.bytes_sent,
            bytes_recv: self.bytes_recv,
            round_start: self.round_start@,
            deliver_latency: self.deliver_latency@,
        }
    }
}

/// The measurements after `len` more bytes were sent.
pub open spec fn with_sent(v: MeasureView, len: nat) -> MeasureView {
    MeasureView { bytes_sent: (v.bytes_sent + len) as usize, ..v }
}

/// The measurements after `len` more bytes were received.
pub open spec fn with_recv(v: MeasureView, len: nat) -> MeasureView {
    MeasureView { bytes_recv: (v.bytes_recv + len) as usize, ..v }
}

/// The measurements after a round began at the time `now`: what was counted
/// since the last begin is put down for the round that ends, and counting
/// starts anew.
pub open spec fn round_begun(v: MeasureView, now: u128) -> MeasureView {
    MeasureView {
        total_sent: v.total_sent.push(v.bytes_sent),
        total_recv: v.total_recv.push(v.bytes_recv),
        bytes_sent: 0,
        bytes_recv: 0,
        round_start: v.round_start.push(now),
        ..v
    }
}

/// The measurements after the delivery of the node's own proposal of round
/// `rn` at the time `now`: the round's latency is the time since its begin.
/// The rounds before it that had no delivery stay without a latency.
pub open spec fn with_latency(v: MeasureView, rn: int, now: u128) -> MeasureView {
    MeasureView {
        deliver_latency: grown(v.deliver_latency, rn, None).update(
            rn,
            Some(elapsed(v.round_start[rn], now)),
        ),
        ..v
    }
}

/// The latency of round `i`: the one put down at the delivery of the node's
/// own proposal of that round, none where there was no delivery.
pub open spec fn latency_of(v: MeasureView, i: int) -> Option<u128> {
    slot(v.deliver_latency, i, None)
}

/// A delivery gives its own round a latency and leaves every other round as
/// it is: a round without a delivery stays without a latency, whatever is
/// delivered later. Counting bytes and beginning a round change no latency.
pub proof fn lemma_latency_only_where_delivered(v: MeasureView, rn: int, now: u128, i: int)
    requires
        0 <= rn,
    ensures
        latency_of(with_latency(v, rn, now), rn) == Some(elapsed(v.round_start[rn], now)),
        i != rn ==> latency_of(with_latency(v, rn, now), i) == latency_of(v, i),
        latency_of(round_begun(v, now), i) == latency_of(v, i),
        forall|len: nat| #[trigger] latency_of(with_sent(v, len), i) == latency_of(v, i),
        forall|len: nat| #[trigger] latency_of(with_recv(v, len), i) == latency_of(v, i),
{
}

/// The lines of the report: the header, then one line for each round that
/// has ended.
pub open spec fn report_chars(v: MeasureView, node_ind: u32, node_num: u32, payload_size: usize) -> Seq<
    Seq<char>,
> {
    seq![header_chars(node_ind, node_num, payload_size)] + Seq::new(
        v.total_sent.len(),
        |i: int| round_chars(i as nat, latency_of(v, i), v.total_sent[i], v.total_recv[i]),
    )
}

impl MeasureDs {
    /// Whether every round that has begun has its bytes put down, sent and
    /// received.
    pub open spec fn wf(&self) -> bool {
        self@.total_sent.len() == self@.round_start.len() && self@.total_recv.len()
            == self@.round_start.len()
    }

    /// Measurements with nothing counted and no round begun.
    pub fn new() -> (m: MeasureDs)
        ensures
            m.wf(),
            m@ == (MeasureView {
                total_sent: Seq::empty(),
                total_recv: Seq::empty(),
                bytes_sent: 0,
                bytes_recv: 0,
                round_start: Seq::empty(),
                deliver_latency: Seq::empty(),
            }),
    {
        MeasureDs {
            total_sent: Vec::new(),
            total_recv: Vec::new(),
            bytes_sent: 0,
            bytes_recv: 0,
            round_start: Vec::new(),
            deliver_latency: Vec::new(),
        }
    }

    /// Counts `len` bytes as sent in the current round.
    pub fn incr_bytes_sent(&mut self, len: usize)
        requires
            old(self)@.bytes_sent + len <= usize::MAX,
        ensures
            final(self)@ == with_sent(old(self)@, len as nat),
    {
        self.bytes_sent += len;
    }

    /// Counts `len` bytes as received in the current round.
    pub fn incr_bytes_recv(&mut self, len: usize)
        requires
            old(self)@.bytes_recv + len <= usize::MAX,
        ensures
            final(self)@ == with_recv(old(self)@, len as nat),
    {
        self.bytes_recv += len;
    }

    /// Begins a round at the time `now`.
    pub fn append_round(&mut self, now: u128)
        requires
            old(self).wf(),
        ensures
            final(self).wf(),
            final(self)@ == round_begun(old(self)@, now),
    {
        self.total_sent.push(self.bytes_sent);
        self.bytes_sent = 0;
        self.total_recv.push(self.bytes_recv);
        self.bytes_recv = 0;
        self.round_start.push(now);
    }

    /// Puts down that the node's own proposal of round `rn`, a round that
    /// has begun, was delivered at the time `now`.
    pub fn measure_latency(&mut self, rn: usize, now: u128)
        requires
            rn < old(self)@.round_start.len(),
        ensures
            final(self)@ == with_latency(old(self)@, rn as int, now),
    {
        while self.deliver_latency.len() <= rn
            invariant
                self.total_sent == old(self).total_sent,
                self.total_recv == old(self).total_recv,
                self.bytes_sent == old(self).bytes_sent,
                self.bytes_recv == old(self).bytes_recv,
                self.round_start == old(self).round_start,
                self.deliver_latency@.len() >= old(self).deliver_latency@.len(),
                self.deliver_latency@ =~= old(self).deliver_latency@ + Seq::new(
                    (self.deliver_latency@.len() - old(self).deliver_latency@.len()) as nat,
                    |i: int| None::<u128>,
                ),
                old(self).deliver_latency@.len() > rn ==> self.deliver_latency@ == old(
                    self,
                ).deliver_latency@,
                old(self).deliver_latency@.len() <= rn ==> self.deliver_latency@.len() <= rn + 1,
            decreases rn + 1 - self.deliver_latency.len(),
        {
            self.deliver_latency.push(None);
        }
        let start = self.round_start[rn];
        let latency = if now >= start {
            now - start
        } else {
            0
        };
        self.deliver_latency[rn] = Some(latency);
        assert(self@.deliver_latency =~= grown(old(self)@.deliver_latency, rn as int, None).update(
            rn as int,
            Some(elapsed(old(self)@.round_start[rn as int], now)),
        ));
    }

    /// The lines of the report on node `node_ind` of `node_num` nodes that
    /// propose payloads of `payload_size` bytes.
    pub fn write_measurements(&self, node_ind: u32, node_num: u32, payload_size: usize) -> (lines:
        Vec<String>)
        requires
            self.wf(),
        ensures
            lines@.len() == report_chars(self@, node_ind, node_num, payload_size).len(),
            forall|i: int|
                0 <= i < lines@.len() ==> (#[trigger] lines@[i])@ == report_chars(
                    self@,
                    node_ind,
                    node_num,
                    payload_size,
                )[i],
    {
        let ghost v = self@;
        let mut lines: Vec<String> = Vec::new();
        lines.push(header_line(node_ind, node_num, payload_size));
        let mut i: usize = 0;
        while i < self.total_sent.len()
            invariant
                i <= self.total_sent@.len(),
                self.total_recv@.len() == self.total_sent@.len(),
                v == self@,
                lines@.len() == i + 1,
                lines@[0]@ == header_chars(node_ind, node_num, payload_size),
                forall|j: int|
                    0 <= j < i ==> (#[trigger] lines@[j + 1])@ == round_chars(
                        j as nat,
                        latency_of(v, j),
                        v.total_sent[j],
                        v.total_recv[j],
                    ),
            decreases self.total_sent@.len() - i,
        {
            let latency = if i < self.deliver_latency.len() {
                self.deliver_latency[i]
            } else {
                None
            };
            lines.push(round_line(i, latency, self.total_sent[i], self.total_recv[i]));
            i += 1;
        }
        assert forall|k: int| 0 <= k < lines@.len() implies (#[trigger] lines@[k])@ == report_chars(
            v,
            node_ind,
            node_num,
            payload_size,
        )[k] by {
            if k > 0 {
                assert(lines@[(k - 1) + 1]@ == round_chars(
                    (k - 1) as nat,
                    latency_of(v, k - 1),
                    v.total_sent[k - 1],
                    v.total_recv[k - 1],
                ));
            }
        }
        lines
    }

    /// The number of rounds that have begun.
    pub fn rounds(&self) -> (n: usize)
        ensures
            n == self@.round_start.len(),
    {
        self.round_start.len()
    }

    /// The bytes sent since the last round began.
    pub fn bytes_sent(&self) -> (n: usize)
        ensures
            n == self@.bytes_sent,
    {
        self.bytes_sent
    }

    /// The bytes received since the last round began.
    pub fn bytes_recv(&self) -> (n: usize)
        ensures
            n == self@.bytes_recv,
    {
        self.bytes_recv
    }
}

} // verus!
