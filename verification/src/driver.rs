//! One turn of each of the three loops that drive a node: a frame comes in,
//! the round timer ticks, a frame goes out. Each turn keeps the measurements
//! beside the node's state.
//!
//! Times are milliseconds on the clock of the measurements.

use crate::frame::{bytes_contents, bytes_len};
use crate::measure::{round_begun, with_latency, with_recv, with_sent, MeasureDs, MeasureView};
use crate::sequencer::{answers_frame, CastType, Handled, Sequencer};
use crate::state::{can_propose, propose_cast, propose_step};
use bytes::Bytes;
use vstd::prelude::*;

verus! {

/// The round whose latency a result asks to put down: that of a delivery of
/// the node's own proposal, in a round that has begun.
pub open spec fn timed_round(v: MeasureView, out: Handled) -> Option<int> {
    match out {
        Handled::Done { delivered: Some(d), .. } => if d.own && d.rn < v.round_start.len() {
            Some(d.rn as int)
        } else {
            None
        },
        _ => None,
    }
}

/// The measurements after a frame of `len` bytes came in at the time `now`
/// and `out` came of it: the bytes are counted, and where the frame brought
/// the delivery of the node's own proposal, the latency of its round is put
/// down.
pub open spec fn measured_frame(v: MeasureView, len: nat, out: Handled, now: u128) -> MeasureView {
    match timed_round(v, out) {
        Some(rn) => with_latency(with_recv(v, len), rn, now),
        None => with_recv(v, len),
    }
}

/// A frame came in at the time `now`: counts its bytes, lets the node take
/// it, and puts down the latency where it brought the delivery of the
/// node's own proposal.
pub fn receive(seq: &mut Sequencer, measure: &mut MeasureDs, bytes: Bytes, now: u128) -> (out:
    Handled)
    requires
        old(seq).wf(),
        old(measure).wf(),
        old(measure)@.bytes_recv + bytes_contents(bytes).len() <= usize::MAX,
    ensures
        final(seq).wf(),
        final(seq).key_pair() == old(seq).key_pair(),
        final(measure).wf(),
        answers_frame(old(seq)@, final(seq)@, bytes_contents(bytes), out),
        final(measure)@ == measured_frame(
            old(measure)@,
            bytes_contents(bytes).len(),
            out,
            now,
        ),
{
    measure.incr_bytes_recv(bytes_len(&bytes));
    let out = seq.handle_frame(bytes);
    match &out {
        Handled::Done { delivered: Some(d), .. } => {
            if d.own && (d.rn as usize) < measure.rounds() {
                measure.measure_latency(d.rn as usize, now);
            }
        },
        _ => {},
    }
    out
}

/// The round timer ticked at the time `now`: begins a round of measurements
/// and lets the node propose.
pub fn tick(seq: &mut Sequencer, measure: &mut MeasureDs, now: u128) -> (cast: CastType)
    requires
        old(seq).wf(),
        old(measure).wf(),
        can_propose(old(seq)@),
    ensures
        final(seq).wf(),
        final(seq).key_pair() == old(seq).key_pair(),
        final(measure).wf(),
        final(measure)@ == round_begun(old(measure)@, now),
        exists|sig: Seq<u8>|
            sig.len() == 64 && final(seq)@ == #[trigger] propose_step(old(seq)@, sig),
        cast@ == propose_cast(old(seq)@),
{
    measure.append_round(now);
    seq.propose()
}

/// A frame goes out to one peer, or to all `peer_cnt` of them: counts the
/// bytes that it puts on the wire.
pub fn count_cast(measure: &mut MeasureDs, cast: &CastType, peer_cnt: usize)
    requires
        old(measure)@.bytes_sent + cast.cost(peer_cnt as nat) <= usize::MAX,
    ensures
        final(measure)@ == with_sent(old(measure)@, cast.cost(peer_cnt as nat)),
{
    match cast.wire_bytes(peer_cnt) {
        Some(n) => {
            measure.incr_bytes_sent(n);
        },
        None => {},
    }
}

} // verus!
