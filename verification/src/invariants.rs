//! The laws of the protocol: what holds of every state that a node reaches,
//! whatever the messages that come in.

use crate::message::{
    decode_spec, encode_spec, lemma_decode_encode, signs_well_sized, MessageView,
};
use crate::shape::{
    lemma_echo_step_wf, lemma_fin_step_wf, lemma_propose_step_wf, lemma_send_step_wf,
    lemma_sup_step_wf, lemma_syn_step_wf,
};
use crate::signature::{sha256, signature_valid};
use crate::slots::{saturating_succ, slot};
use crate::state::{
    appended_echo, can_propose, cast_bytes, echo_accepted, echo_casts, echo_completes, echo_step,
    echoes_sent, event_valid, fin_casts, has_signer, initial, message_taken, peer_at,
    propose_cast, run, send_answered, send_casts, send_step, sends_echo, step, sup_delivers,
    sup_step, CastView, Event, NodeView,
};
use vstd::prelude::*;

verus! {

/// Whether an event names this node as the originator of a SEND. A node
/// never gets its own SEND back from an honest transport; one that does come
/// in would put a stranger's payload in the place of the node's own.
pub open spec fn is_own_send(v: NodeView, e: Event) -> bool {
    e matches Event::Incoming { msg } && msg matches MessageView::Send { sender, .. } && sender
        == v.node_ind
}

// ------------------------------------------------------------ shape

/// Every event keeps the shape of the state, the number of nodes and the
/// node's index.
pub proof fn lemma_step_wf(v: NodeView, e: Event)
    requires
        v.wf(),
    ensures
        step(v, e).wf(),
        step(v, e).num_nodes == v.num_nodes,
        step(v, e).node_ind == v.node_ind,
        step(v, e).payload_size == v.payload_size,
{
    match e {
        Event::Incoming { msg } => {
            if message_taken(v, msg) {
                match msg {
                    MessageView::Syn { sender, pub_key } => {
                        lemma_syn_step_wf(v, sender, pub_key);
                    },
                    MessageView::Send { sender, rn, payload } => {
                        lemma_send_step_wf(v, sender, rn, payload, sha256(payload));
                    },
                    MessageView::Echo { sender, rn, sign } => {
                        lemma_echo_step_wf(v, sender, rn, sign);
                    },
                    MessageView::Fin { sender, rn, sign_cnt, signs } => {
                        lemma_fin_step_wf(v, sender, rn, sign_cnt, signs);
                    },
                    MessageView::Sup { rn, originator, .. } => {
                        lemma_sup_step_wf(v, originator, rn);
                    },
                }
            }
        },
        Event::Tick { sig } => {
            if can_propose(v) {
                lemma_propose_step_wf(v, sha256(v.own_payload()), sig);
            }
        },
    }
}

/// A run of events keeps the shape of the state.
pub proof fn lemma_run_wf(v: NodeView, events: Seq<Event>)
    requires
        v.wf(),
    ensures
        run(v, events).wf(),
        run(v, events).num_nodes == v.num_nodes,
        run(v, events).node_ind == v.node_ind,
    decreases events.len(),
{
    if events.len() > 0 {
        lemma_run_wf(v, events.drop_last());
        lemma_step_wf(run(v, events.drop_last()), events.last());
    }
}

/// The state of a node that has seen nothing has the shape that events keep.
pub proof fn lemma_initial_wf(node_ind: u32, num_nodes: u32, payload_size: usize)
    requires
        node_ind < num_nodes,
    ensures
        initial(node_ind, num_nodes, payload_size).wf(),
{
}

// ------------------------------------------------------------ growth

/// Whether every row of `after` is at least as long as it is in `before`.
pub open spec fn rows_no_shorter<T>(before: Seq<Seq<T>>, after: Seq<Seq<T>>) -> bool {
    &&& after.len() == before.len()
    &&& forall|o: int| 0 <= o < before.len() ==> (#[trigger] after[o]).len() >= before[o].len()
}

/// Whether no vector of the state `after` is shorter than it is in `before`.
pub open spec fn no_shorter(before: NodeView, after: NodeView) -> bool {
    &&& after.peer_pkeys.len() == before.peer_pkeys.len()
    &&& rows_no_shorter(before.tx_list, after.tx_list)
    &&& rows_no_shorter(before.hash_list, after.hash_list)
    &&& rows_no_shorter(before.sent_echo, after.sent_echo)
    &&& rows_no_shorter(before.sent_sup, after.sent_sup)
    &&& rows_no_shorter(before.delivered, after.delivered)
    &&& rows_no_shorter(before.recv_sup_cnt, after.recv_sup_cnt)
    &&& after.echo_list.len() >= before.echo_list.len()
    &&& after.sent_fin.len() >= before.sent_fin.len()
    &&& forall|r: int|
        0 <= r < before.echo_list.len() ==> (#[trigger] after.echo_list[r]).len()
            >= before.echo_list[r].len()
}

/// No event shortens a vector of the state: slots are added, never taken
/// away, and a round keeps the signatures that it has.
pub proof fn lemma_step_grows(v: NodeView, e: Event)
    requires
        v.wf(),
    ensures
        no_shorter(v, step(v, e)),
{
    let w = step(v, e);
    lemma_step_wf(v, e);
    match e {
        Event::Incoming { msg } => {
            if message_taken(v, msg) {
                match msg {
                    MessageView::Echo { sender, rn, sign } => {
                        if echo_accepted(v, sender, rn, sign) {
                            lemma_appended_grows(v.echo_list, rn as int, sender, sign);
                        }
                    },
                    _ => {},
                }
            }
        },
        Event::Tick { sig } => {
            if can_propose(v) {
                lemma_appended_grows(v.echo_list, v.curr_round as int, v.node_ind, sig);
            }
        },
    }
}

/// Adding a signature keeps every round's signatures as a prefix of what the
/// round has afterwards.
pub proof fn lemma_appended_grows(
    rounds: Seq<Seq<(u32, Seq<u8>)>>,
    r: int,
    s: u32,
    sig: Seq<u8>,
)
    requires
        0 <= r,
    ensures
        appended_echo(rounds, r, s, sig).len() >= rounds.len(),
        appended_echo(rounds, r, s, sig).len() > r,
        forall|q: int|
            0 <= q < rounds.len() ==> rounds[q].is_prefix_of(
                #[trigger] appended_echo(rounds, r, s, sig)[q],
            ),
        forall|q: int|
            0 <= q < appended_echo(rounds, r, s, sig).len() && q != r ==> #[trigger] appended_echo(
                rounds,
                r,
                s,
                sig,
            )[q] == slot(rounds, q, Seq::empty()),
{
    let a = appended_echo(rounds, r, s, sig);
    assert forall|q: int| 0 <= q < rounds.len() implies rounds[q].is_prefix_of(#[trigger] a[q]) by {
        assert(rounds[q] =~= a[q].subrange(0, rounds[q].len() as int));
    }
    assert forall|q: int| 0 <= q < a.len() && q != r implies #[trigger] a[q] == slot(
        rounds,
        q,
        Seq::empty(),
    ) by {
        if q >= rounds.len() {
            assert(a[q] =~= Seq::empty());
        }
    }
}

// ------------------------------------------------------------ delivery

/// A payload that is delivered stays delivered: no event takes a delivery
/// back, so that each payload is delivered at most once.
pub proof fn lemma_delivery_is_final(v: NodeView, e: Event, o: int, r: int)
    requires
        v.wf(),
        v.is_delivered(o, r),
    ensures
        step(v, e).is_delivered(o, r),
{
}

/// The confirmations counted for a payload never become fewer.
pub proof fn lemma_sup_count_grows(v: NodeView, e: Event, o: int, r: int)
    requires
        v.wf(),
    ensures
        step(v, e).sup_count(o, r) >= v.sup_count(o, r),
{
}

/// Whether every delivery rests on a quorum: for a payload that is
/// delivered, `2f + 1` confirmations are counted.
pub open spec fn deliveries_justified(v: NodeView) -> bool {
    forall|o: int, r: int| #[trigger] v.is_delivered(o, r) ==> v.sup_count(o, r) >= v.quorum()
}

/// Every event keeps deliveries resting on a quorum.
pub proof fn lemma_step_deliveries_justified(v: NodeView, e: Event)
    requires
        v.wf(),
        deliveries_justified(v),
    ensures
        deliveries_justified(step(v, e)),
{
    let w = step(v, e);
    lemma_step_wf(v, e);
    assert forall|o: int, r: int| #[trigger] w.is_delivered(o, r) implies w.sup_count(o, r)
        >= w.quorum() by {
        lemma_sup_count_grows(v, e, o, r);
        if v.is_delivered(o, r) {
        } else {
            // the delivery is new: only a SUP brings one, and only with a quorum
            match e {
                Event::Incoming { msg } => {
                    if message_taken(v, msg) {
                        match msg {
                            MessageView::Sup { rn, originator, .. } => {
                                assert(o == originator && r == rn);
                                assert(sup_delivers(v, originator, rn));
                            },
                            _ => {},
                        }
                    }
                },
                Event::Tick { sig } => {},
            }
        }
    }
}

/// A delivery that an event brings comes with `2f + 1` confirmations counted.
pub proof fn lemma_new_delivery_has_quorum(v: NodeView, e: Event, o: int, r: int)
    requires
        v.wf(),
        !v.is_delivered(o, r),
        step(v, e).is_delivered(o, r),
    ensures
        step(v, e).sup_count(o, r) >= v.quorum(),
        e matches Event::Incoming { msg } && msg matches MessageView::Sup { rn, originator, .. }
            && originator == o && rn == r,
{
    match e {
        Event::Incoming { msg } => {
            if message_taken(v, msg) {
                match msg {
                    MessageView::Sup { rn, originator, .. } => {
                        assert(o == originator && r == rn);
                        assert(sup_delivers(v, originator, rn));
                    },
                    _ => {},
                }
            }
        },
        Event::Tick { sig } => {},
    }
}

/// What a SUP does to the count and the delivery of `(o, r)`. For a node
/// `o` the counter goes up by one, but for the largest number, which stays;
/// the payload is delivered afterwards exactly if it was before or the
/// counter reaches `2f + 1`. A SUP that names no node changes nothing. The
/// quorum is below the largest number, so that a counter that stays there
/// hides no delivery.
pub proof fn lemma_sup_counts_one(v: NodeView, o: u32, r: u32)
    requires
        v.wf(),
    ensures
        o < v.num_nodes ==> sup_step(v, o, r).sup_count(o as int, r as int) == saturating_succ(
            v.sup_count(o as int, r as int),
        ),
        o < v.num_nodes && v.sup_count(o as int, r as int) < u32::MAX ==> sup_step(
            v,
            o,
            r,
        ).sup_count(o as int, r as int) == v.sup_count(o as int, r as int) + 1,
        o < v.num_nodes ==> (sup_step(v, o, r).is_delivered(o as int, r as int) <==> v.is_delivered(
            o as int,
            r as int,
        ) || saturating_succ(v.sup_count(o as int, r as int)) >= v.quorum()),
        o >= v.num_nodes ==> sup_step(v, o, r) == v,
        sup_delivers(v, o, r) <==> !v.is_delivered(o as int, r as int) && sup_step(
            v,
            o,
            r,
        ).is_delivered(o as int, r as int),
        v.quorum() <= v.num_nodes <= u32::MAX,
{
}

// ------------------------------------------------------------ ECHO

/// What a SEND of originator `s` for round `r` brings. Where `s` is a node,
/// one ECHO goes out if none went out for `(s, r)` before, else nothing, and
/// the flag of `(s, r)` is up afterwards. A SEND that names no node brings
/// nothing and changes nothing.
pub proof fn lemma_send_answers_once(v: NodeView, s: u32, r: u32, p: Seq<u8>, sig: Seq<u8>)
    requires
        v.wf(),
    ensures
        send_casts(v, s, r, sig).len() == if s < v.num_nodes && !v.has_sent_echo(
            s as int,
            r as int,
        ) {
            1nat
        } else {
            0nat
        },
        s < v.num_nodes ==> send_step(v, s, r, p).has_sent_echo(s as int, r as int),
        s < v.num_nodes && !v.has_sent_echo(s as int, r as int) ==> send_step(v, s, r, p).payload(
            s as int,
            r as int,
        ) == Some(p) && send_step(v, s, r, p).hash(s as int, r as int) == Some(sha256(p)),
        s >= v.num_nodes || v.has_sent_echo(s as int, r as int) ==> send_step(v, s, r, p) == v,
{
}

/// The ECHO that completes the quorum. Where the digest of the round is
/// known, no FIN went out for it, and an ECHO of a signer that the round has
/// no signature of is taken as the one with which the round has `2f + 1`:
/// the round holds its signatures and the new one at their end, the FIN flag
/// is up, the FIN and then the SUP go out to everyone with all of them, and
/// the node's own count for the round goes up by one, but for the largest
/// number.
pub proof fn lemma_echo_completes_quorum(v: NodeView, s: u32, r: u32, sig: Seq<u8>)
    requires
        v.wf(),
        echo_accepted(v, s, r, sig),
        !has_signer(v.echoes(r as int), s),
        !v.has_sent_fin(r as int),
        v.echoes(r as int).len() + 1 >= v.quorum(),
    ensures
        echo_step(v, s, r, sig).echoes(r as int) == v.echoes(r as int).push((s, sig)),
        echo_step(v, s, r, sig).has_sent_fin(r as int),
        echo_step(v, s, r, sig).sup_count(v.node_ind as int, r as int) == saturating_succ(
            v.sup_count(v.node_ind as int, r as int),
        ),
        echo_step(v, s, r, sig).is_delivered(v.node_ind as int, r as int) == v.is_delivered(
            v.node_ind as int,
            r as int,
        ),
        echo_casts(v, s, r, sig) == seq![
            CastView::Multicast {
                bytes: encode_spec(
                    MessageView::Fin {
                        sender: v.node_ind,
                        rn: r,
                        sign_cnt: (v.echoes(r as int).len() + 1) as u32,
                        signs: v.echoes(r as int).push((s, sig)),
                    },
                ),
            },
            CastView::Multicast {
                bytes: encode_spec(
                    MessageView::Sup {
                        sender: v.node_ind,
                        rn: r,
                        sign_cnt: (v.echoes(r as int).len() + 1) as u32,
                        signs: v.echoes(r as int).push((s, sig)),
                        originator: v.node_ind,
                        payload: Seq::empty(),
                    },
                ),
            },
        ],
{
    let a = appended_echo(v.echo_list, r as int, s, sig);
    assert(a[r as int] =~= v.echoes(r as int).push((s, sig)));
}


/// A flag that says an ECHO went out is never taken back.
pub proof fn lemma_sent_echo_is_final(v: NodeView, e: Event, s: int, r: int)
    requires
        v.wf(),
        v.has_sent_echo(s, r),
    ensures
        step(v, e).has_sent_echo(s, r),
{
}

/// An event that makes the node send an ECHO for `(s, r)` finds the flag of
/// `(s, r)` down and leaves it up.
pub proof fn lemma_echo_raises_flag(v: NodeView, e: Event, s: u32, r: u32)
    requires
        v.wf(),
        sends_echo(v, e, s, r),
    ensures
        !v.has_sent_echo(s as int, r as int),
        step(v, e).has_sent_echo(s as int, r as int),
{
}

/// What goes out after a SEND is an ECHO exactly when the event counts as
/// sending one.
pub proof fn lemma_send_casts_counted(v: NodeView, s: u32, r: u32, p: Seq<u8>, sig: Seq<u8>)
    ensures
        send_casts(v, s, r, sig).len() == if send_answered(v, s, r) {
            1nat
        } else {
            0nat
        },
{
}

/// In a run of events a node sends at most one ECHO for each originator and
/// round, and none where it has sent one before the run.
pub proof fn lemma_at_most_one_echo(v: NodeView, events: Seq<Event>, s: u32, r: u32)
    requires
        v.wf(),
    ensures
        echoes_sent(v, events, s, r) <= 1,
        v.has_sent_echo(s as int, r as int) ==> echoes_sent(v, events, s, r) == 0,
        echoes_sent(v, events, s, r) == 1 ==> run(v, events).has_sent_echo(s as int, r as int),
        v.has_sent_echo(s as int, r as int) ==> run(v, events).has_sent_echo(s as int, r as int),
    decreases events.len(),
{
    if events.len() > 0 {
        let before = events.drop_last();
        let last = events.last();
        let w = run(v, before);
        lemma_at_most_one_echo(v, before, s, r);
        lemma_run_wf(v, before);
        if w.has_sent_echo(s as int, r as int) {
            lemma_sent_echo_is_final(w, last, s as int, r as int);
        }
        if sends_echo(w, last, s, r) {
            lemma_echo_raises_flag(w, last, s, r);
        }
    }
}

// ------------------------------------------------------------ stores

/// What this node has answered with an ECHO stays as it is: no event puts
/// another payload or digest in the place of one that a peer originated and
/// that this node has signed.
pub proof fn lemma_echoed_payload_is_final(v: NodeView, e: Event, o: int, r: int)
    requires
        v.wf(),
        v.has_sent_echo(o, r),
        o != v.node_ind,
    ensures
        step(v, e).payload(o, r) == v.payload(o, r),
        step(v, e).hash(o, r) == v.hash(o, r),
{
}


/// Whether payloads and digests are kept in step: where one of the two is
/// known the other is too, the digest is that of the payload, and both are
/// known wherever an ECHO went out.
pub open spec fn stores_consistent(v: NodeView) -> bool {
    &&& forall|o: int, r: int|
        (#[trigger] v.hash(o, r) is Some) <==> (#[trigger] v.payload(o, r) is Some)
    &&& forall|o: int, r: int|
        (#[trigger] v.hash(o, r)) is Some ==> v.hash(o, r)->0 == sha256(v.payload(o, r)->0)
    &&& forall|o: int, r: int| #[trigger] v.has_sent_echo(o, r) ==> v.hash(o, r) is Some
}

/// Every event keeps payloads and digests in step.
pub proof fn lemma_step_stores_consistent(v: NodeView, e: Event)
    requires
        v.wf(),
        stores_consistent(v),
    ensures
        stores_consistent(step(v, e)),
{
    let w = step(v, e);
    lemma_step_wf(v, e);
    assert forall|o: int, r: int|
        (#[trigger] w.hash(o, r) is Some) <==> (#[trigger] w.payload(o, r) is Some) by {
        assert(v.hash(o, r) is Some <==> v.payload(o, r) is Some);
    }
    assert forall|o: int, r: int| (#[trigger] w.hash(o, r)) is Some implies w.hash(o, r)->0
        == sha256(w.payload(o, r)->0) by {
        assert(v.hash(o, r) is Some <==> v.payload(o, r) is Some);
        if v.hash(o, r) is Some {
            assert(v.hash(o, r)->0 == sha256(v.payload(o, r)->0));
        }
    }
    assert forall|o: int, r: int| #[trigger] w.has_sent_echo(o, r) implies w.hash(o, r)
        is Some by {
        if v.has_sent_echo(o, r) {
            assert(v.hash(o, r) is Some);
        }
    }
}

// ------------------------------------------------------------ signatures

/// Whether an entry of this node's round `r` passes verification: its
/// signature is valid for the digest of the node's proposal of that round
/// under the key that its signer announced.
pub open spec fn echo_verified(v: NodeView, r: int, e: (u32, Seq<u8>)) -> bool {
    &&& v.hash(v.node_ind as int, r) is Some
    &&& v.peer_key(e.0 as int) is Some
    &&& signature_valid(v.peer_key(e.0 as int)->0, v.hash(v.node_ind as int, r)->0, e.1)
}

/// Whether an entry of this node's round `r` is bound to the proposal: it
/// is the node's own signature of 64 bytes, or it passes verification.
pub open spec fn echo_bound(v: NodeView, r: int, e: (u32, Seq<u8>)) -> bool {
    (e.0 == v.node_ind && e.1.len() == 64) || echo_verified(v, r, e)
}

/// Whether every signature that is collected is bound to the proposal of its
/// round, and nothing is kept for rounds that the node has yet to propose.
pub open spec fn signatures_bound(v: NodeView) -> bool {
    &&& forall|r: int, i: int|
        0 <= r < v.echo_list.len() && 0 <= i < v.echo_list[r].len() ==> echo_bound(
            v,
            r,
            #[trigger] v.echo_list[r][i],
        )
    &&& forall|r: int| r >= v.curr_round ==> #[trigger] v.hash(v.node_ind as int, r) is None
    &&& forall|r: int|
        v.curr_round <= r < v.echo_list.len() ==> (#[trigger] v.echo_list[r]).len() == 0
}

/// Every event but a SEND that names this node as its originator keeps the
/// collected signatures bound to the proposals, and with that at 64 bytes
/// each.
pub proof fn lemma_step_signatures_bound(v: NodeView, e: Event)
    requires
        v.wf(),
        signatures_bound(v),
        event_valid(e),
        !is_own_send(v, e),
    ensures
        signatures_bound(step(v, e)),
{
    let w = step(v, e);
    let me = v.node_ind as int;
    lemma_step_wf(v, e);
    match e {
        Event::Incoming { msg } => {
            if message_taken(v, msg) {
                match msg {
                    MessageView::Syn { sender, pub_key } => {
                        assert forall|r: int, i: int|
                            0 <= r < w.echo_list.len() && 0 <= i
                                < w.echo_list[r].len() implies echo_bound(
                            w,
                            r,
                            #[trigger] w.echo_list[r][i],
                        ) by {
                            assert(echo_bound(v, r, v.echo_list[r][i]));
                        }
                        assert forall|r: int| r >= w.curr_round implies #[trigger] w.hash(me, r)
                            is None by {
                            assert(v.hash(me, r) is None);
                        }
                    },
                    MessageView::Send { sender, rn, payload } => {
                        assert(sender != v.node_ind);
                        assert forall|r: int| #[trigger] w.hash(me, r) == v.hash(me, r) by {}
                        assert forall|r: int, i: int|
                            0 <= r < w.echo_list.len() && 0 <= i
                                < w.echo_list[r].len() implies echo_bound(
                            w,
                            r,
                            #[trigger] w.echo_list[r][i],
                        ) by {
                            assert(echo_bound(v, r, v.echo_list[r][i]));
                            assert(w.hash(me, r) == v.hash(me, r));
                        }
                        assert forall|r: int| r >= w.curr_round implies #[trigger] w.hash(me, r)
                            is None by {
                            assert(v.hash(me, r) is None);
                        }
                    },
                    MessageView::Echo { sender, rn, sign } => {
                        if echo_accepted(v, sender, rn, sign) {
                            lemma_appended_grows(v.echo_list, rn as int, sender, sign);
                            assert(v.hash(me, rn as int) is Some);
                            assert(rn < v.curr_round) by {
                                if rn >= v.curr_round {
                                    assert(v.hash(me, rn as int) is None);
                                }
                            }
                            assert forall|r: int, i: int|
                                0 <= r < w.echo_list.len() && 0 <= i
                                    < w.echo_list[r].len() implies echo_bound(
                                w,
                                r,
                                #[trigger] w.echo_list[r][i],
                            ) by {
                                if r < v.echo_list.len() && i < v.echo_list[r].len() {
                                    assert(v.echo_list[r].is_prefix_of(w.echo_list[r]));
                                    assert(w.echo_list[r][i] == v.echo_list[r][i]);
                                    assert(echo_bound(v, r, v.echo_list[r][i]));
                                } else if r == rn {
                                    assert(w.echo_list[r][i] == (sender, sign));
                                } else {
                                    assert(w.echo_list[r] == slot(
                                        v.echo_list,
                                        r,
                                        Seq::empty(),
                                    ));
                                }
                            }
                            assert forall|r: int| r >= w.curr_round implies #[trigger] w.hash(
                                me,
                                r,
                            ) is None by {
                                assert(v.hash(me, r) is None);
                            }
                            assert forall|r: int|
                                w.curr_round <= r < w.echo_list.len() implies (
                            #[trigger] w.echo_list[r]).len() == 0 by {
                                assert(w.echo_list[r] == slot(v.echo_list, r, Seq::empty()));
                                if r < v.echo_list.len() {
                                    assert(v.echo_list[r].len() == 0);
                                }
                            }
                        }
                    },
                    MessageView::Fin { sender, rn, sign_cnt, signs } => {
                        assert forall|r: int, i: int|
                            0 <= r < w.echo_list.len() && 0 <= i
                                < w.echo_list[r].len() implies echo_bound(
                            w,
                            r,
                            #[trigger] w.echo_list[r][i],
                        ) by {
                            assert(echo_bound(v, r, v.echo_list[r][i]));
                        }
                        assert forall|r: int| r >= w.curr_round implies #[trigger] w.hash(me, r)
                            is None by {
                            assert(v.hash(me, r) is None);
                        }
                    },
                    MessageView::Sup { rn, originator, .. } => {
                        assert forall|r: int, i: int|
                            0 <= r < w.echo_list.len() && 0 <= i
                                < w.echo_list[r].len() implies echo_bound(
                            w,
                            r,
                            #[trigger] w.echo_list[r][i],
                        ) by {
                            assert(echo_bound(v, r, v.echo_list[r][i]));
                        }
                        assert forall|r: int| r >= w.curr_round implies #[trigger] w.hash(me, r)
                            is None by {
                            assert(v.hash(me, r) is None);
                        }
                    },
                }
            }
        },
        Event::Tick { sig } => {
            if can_propose(v) {
                let c = v.curr_round as int;
                lemma_appended_grows(v.echo_list, c, v.node_ind, sig);
                assert forall|r: int| r >= w.curr_round implies #[trigger] w.hash(me, r)
                    is None by {
                    assert(v.hash(me, r) is None);
                }
                assert forall|r: int|
                    w.curr_round <= r < w.echo_list.len() implies (#[trigger] w.echo_list[r]).len()
                    == 0 by {
                    assert(w.echo_list[r] == slot(v.echo_list, r, Seq::empty()));
                    if r < v.echo_list.len() {
                        assert(v.echo_list[r].len() == 0);
                    }
                }
                assert forall|r: int, i: int|
                    0 <= r < w.echo_list.len() && 0 <= i < w.echo_list[r].len() implies echo_bound(
                    w,
                    r,
                    #[trigger] w.echo_list[r][i],
                ) by {
                    if r == c {
                        // the round was empty: its one entry is the node's own
                        if c < v.echo_list.len() {
                            assert(v.echo_list[c].len() == 0);
                        }
                        assert(w.echo_list[r][i].0 == v.node_ind);
                    } else {
                        assert(w.echo_list[r] == slot(v.echo_list, r, Seq::empty()));
                        assert(echo_bound(v, r, v.echo_list[r][i]));
                        assert(w.hash(me, r) == v.hash(me, r));
                    }
                }
            }
        },
    }
}

/// Whether every FIN that went out had its quorum: a round whose FIN flag is
/// up holds `2f + 1` signatures.
pub open spec fn fins_after_quorum(v: NodeView) -> bool {
    forall|r: int| #[trigger] v.has_sent_fin(r) ==> v.echoes(r).len() >= v.quorum()
}

/// Every event keeps the FIN flags resting on a quorum of signatures.
pub proof fn lemma_step_fins_after_quorum(v: NodeView, e: Event)
    requires
        v.wf(),
        fins_after_quorum(v),
    ensures
        fins_after_quorum(step(v, e)),
{
    let w = step(v, e);
    lemma_step_wf(v, e);
    lemma_step_grows(v, e);
    assert forall|r: int| #[trigger] w.has_sent_fin(r) implies w.echoes(r).len()
        >= w.quorum() by {
        if v.has_sent_fin(r) {
            assert(v.echoes(r).len() >= v.quorum());
            if 0 <= r < v.echo_list.len() {
                assert(w.echo_list[r].len() >= v.echo_list[r].len());
            }
        } else {
            match e {
                Event::Incoming { msg } => {
                    if message_taken(v, msg) {
                        match msg {
                            MessageView::Echo { sender, rn, sign } => {
                                assert(echo_completes(v, sender, rn, sign));
                                assert(r == rn);
                            },
                            _ => {},
                        }
                    }
                },
                Event::Tick { sig } => {},
            }
        }
    }
}

/// A FIN goes out with the quorum at hand: the ECHO that makes the node send
/// it leaves the round with `2f + 1` signatures or more, the FIN carries all
/// of them under their count, and each is bound to the proposal. What goes
/// out is the FIN and then the SUP, both are read at the receiver as what
/// was meant, and the FIN flag of the round is up.
pub proof fn lemma_fin_carries_quorum(v: NodeView, s: u32, r: u32, sig: Seq<u8>)
    requires
        v.wf(),
        signatures_bound(v),
        echo_casts(v, s, r, sig).len() > 0,
    ensures
        echo_casts(v, s, r, sig).len() == 2,
        echo_casts(v, s, r, sig)[0] matches CastView::Multicast { bytes } && bytes
            == encode_spec(
            MessageView::Fin {
                sender: v.node_ind,
                rn: r,
                sign_cnt: echo_step(v, s, r, sig).echoes(r as int).len() as u32,
                signs: echo_step(v, s, r, sig).echoes(r as int),
            },
        ),
        v.quorum() <= echo_step(v, s, r, sig).echoes(r as int).len() <= v.num_nodes,
        forall|i: int|
            0 <= i < echo_step(v, s, r, sig).echoes(r as int).len() ==> echo_bound(
                echo_step(v, s, r, sig),
                r as int,
                #[trigger] echo_step(v, s, r, sig).echoes(r as int)[i],
            ),
        !v.has_sent_fin(r as int),
        echo_step(v, s, r, sig).has_sent_fin(r as int),
        decode_spec(cast_bytes(echo_casts(v, s, r, sig)[0])) == Some(
            MessageView::Fin {
                sender: v.node_ind,
                rn: r,
                sign_cnt: echo_step(v, s, r, sig).echoes(r as int).len() as u32,
                signs: echo_step(v, s, r, sig).echoes(r as int),
            },
        ),
        decode_spec(cast_bytes(echo_casts(v, s, r, sig)[1])) == Some(
            MessageView::Sup {
                sender: v.node_ind,
                rn: r,
                sign_cnt: echo_step(v, s, r, sig).echoes(r as int).len() as u32,
                signs: echo_step(v, s, r, sig).echoes(r as int),
                originator: v.node_ind,
                payload: Seq::empty(),
            },
        ),
        echo_step(v, s, r, sig).echoes(r as int).len() as u32 == echo_step(v, s, r, sig).echoes(
            r as int,
        ).len(),
{
    let e = Event::Incoming { msg: MessageView::Echo { sender: s, rn: r, sign: sig } };
    let w = echo_step(v, s, r, sig);
    assert(w == step(v, e));
    lemma_step_signatures_bound(v, e);
    lemma_echo_step_wf(v, s, r, sig);
    lemma_appended_grows(v.echo_list, r as int, s, sig);
    let signs = w.echoes(r as int);
    assert forall|i: int| 0 <= i < signs.len() implies echo_bound(
        w,
        r as int,
        #[trigger] signs[i],
    ) by {
        assert(echo_bound(w, r as int, w.echo_list[r as int][i]));
    }
    assert(signs_well_sized(signs)) by {
        assert forall|i: int| 0 <= i < signs.len() implies (#[trigger] signs[i]).1.len() == 64 by {
            assert(echo_bound(w, r as int, signs[i]));
        }
    }
    lemma_decode_encode(
        MessageView::Fin { sender: v.node_ind, rn: r, sign_cnt: signs.len() as u32, signs },
    );
    lemma_decode_encode(
        MessageView::Sup {
            sender: v.node_ind,
            rn: r,
            sign_cnt: signs.len() as u32,
            signs,
            originator: v.node_ind,
            payload: Seq::empty(),
        },
    );
}

/// Where every signature of the round passes verification before the ECHO
/// that makes the node send the FIN, every signature that the FIN carries
/// passes it: the FIN is read at the receiver as the FIN of this node for
/// the round with `k` signatures, `k` the length of its list and `2f + 1`
/// or more, the list all that the round holds with the new one, each valid
/// for the digest of the proposal under the key of its signer.
pub proof fn lemma_fin_entries_verified(v: NodeView, s: u32, r: u32, sig: Seq<u8>)
    requires
        v.wf(),
        forall|i: int|
            0 <= i < v.echoes(r as int).len() ==> echo_verified(
                v,
                r as int,
                #[trigger] v.echoes(r as int)[i],
            ),
        echo_casts(v, s, r, sig).len() > 0,
    ensures
        forall|i: int|
            0 <= i < echo_step(v, s, r, sig).echoes(r as int).len() ==> echo_verified(
                echo_step(v, s, r, sig),
                r as int,
                #[trigger] echo_step(v, s, r, sig).echoes(r as int)[i],
            ),
        echo_step(v, s, r, sig).echoes(r as int) == appended_echo(
            v.echo_list,
            r as int,
            s,
            sig,
        )[r as int],
        v.quorum() <= echo_step(v, s, r, sig).echoes(r as int).len() <= v.num_nodes,
        decode_spec(cast_bytes(echo_casts(v, s, r, sig)[0])) == Some(
            MessageView::Fin {
                sender: v.node_ind,
                rn: r,
                sign_cnt: echo_step(v, s, r, sig).echoes(r as int).len() as u32,
                signs: echo_step(v, s, r, sig).echoes(r as int),
            },
        ),
        echo_step(v, s, r, sig).echoes(r as int).len() as u32 == echo_step(v, s, r, sig).echoes(
            r as int,
        ).len(),
{
    let w = echo_step(v, s, r, sig);
    lemma_echo_step_wf(v, s, r, sig);
    lemma_appended_grows(v.echo_list, r as int, s, sig);
    let signs = w.echoes(r as int);
    let before = v.echoes(r as int);
    assert forall|i: int| 0 <= i < signs.len() implies echo_verified(
        w,
        r as int,
        #[trigger] signs[i],
    ) by {
        if i < before.len() {
            if r < v.echo_list.len() {
                assert(v.echo_list[r as int].is_prefix_of(w.echo_list[r as int]));
            }
            assert(signs[i] == before[i]);
            assert(echo_verified(v, r as int, before[i]));
        } else {
            assert(signs[i] == (s, sig));
        }
    }
    assert(signs_well_sized(signs)) by {
        assert forall|i: int| 0 <= i < signs.len() implies (#[trigger] signs[i]).1.len() == 64 by {
            assert(echo_verified(w, r as int, signs[i]));
        }
    }
    lemma_decode_encode(
        MessageView::Fin { sender: v.node_ind, rn: r, sign_cnt: signs.len() as u32, signs },
    );
}

// ------------------------------------------------------------ frames

/// The ECHO that answers a SEND is read at the originator as what was meant.
pub proof fn lemma_echo_decodes(v: NodeView, s: u32, r: u32, sig: Seq<u8>)
    requires
        send_answered(v, s, r),
    ensures
        send_casts(v, s, r, sig).len() == 1,
        send_casts(v, s, r, sig)[0] matches CastView::Unicast { dest, .. } && dest == s,
        decode_spec(cast_bytes(send_casts(v, s, r, sig)[0])) == Some(
            MessageView::Echo { sender: v.node_ind, rn: r, sign: sig },
        ),
{
    lemma_decode_encode(MessageView::Echo { sender: v.node_ind, rn: r, sign: sig });
}

/// The SEND of a proposal is read at every peer as what was meant.
pub proof fn lemma_send_decodes(v: NodeView)
    ensures
        propose_cast(v) is Multicast,
        decode_spec(cast_bytes(propose_cast(v))) == Some(
            MessageView::Send { sender: v.node_ind, rn: v.curr_round, payload: v.own_payload() },
        ),
{
    lemma_decode_encode(
        MessageView::Send { sender: v.node_ind, rn: v.curr_round, payload: v.own_payload() },
    );
}

/// Every SUP that goes out after a FIN is read at its peer as what was meant,
/// where the signatures of the FIN take 64 bytes each, as those of a FIN
/// that came in a frame do.
pub proof fn lemma_sup_decodes(
    v: NodeView,
    sender: u32,
    r: u32,
    sign_cnt: u32,
    signs: Seq<(u32, Seq<u8>)>,
    k: int,
)
    requires
        v.wf(),
        signs_well_sized(signs),
        0 <= k < fin_casts(v, sender, r, sign_cnt, signs).len(),
    ensures
        fin_casts(v, sender, r, sign_cnt, signs).len() == v.num_nodes - 1,
        fin_casts(v, sender, r, sign_cnt, signs)[k] matches CastView::Unicast { dest, .. } && dest
            == peer_at(v.node_ind, k) && dest != v.node_ind && dest < v.num_nodes,
        decode_spec(cast_bytes(fin_casts(v, sender, r, sign_cnt, signs)[k])) matches Some(
            MessageView::Sup { sender: from, rn, sign_cnt: cnt, signs: got, originator, payload },
        ) && from == v.node_ind && rn == r && cnt == sign_cnt && got == signs && originator
            == sender && payload == if has_signer(signs, peer_at(v.node_ind, k)) {
            Seq::<u8>::empty()
        } else {
            match v.payload(sender as int, r as int) {
                Some(p) => p,
                None => Seq::<u8>::empty(),
            }
        },
{
    let dest = peer_at(v.node_ind, k);
    let payload = if has_signer(signs, dest) {
        Seq::<u8>::empty()
    } else {
        match v.payload(sender as int, r as int) {
            Some(p) => p,
            None => Seq::<u8>::empty(),
        }
    };
    lemma_decode_encode(
        MessageView::Sup { sender: v.node_ind, rn: r, sign_cnt, signs, originator: sender, payload },
    );
}

// ------------------------------------------------------------ all together

/// What holds of every state that a node reaches.
pub open spec fn inv(v: NodeView) -> bool {
    &&& v.wf()
    &&& deliveries_justified(v)
    &&& stores_consistent(v)
    &&& signatures_bound(v)
    &&& fins_after_quorum(v)
}

/// A node that has seen nothing is in a state of which all of it holds.
pub proof fn lemma_initial_inv(node_ind: u32, num_nodes: u32, payload_size: usize)
    requires
        node_ind < num_nodes,
    ensures
        inv(initial(node_ind, num_nodes, payload_size)),
{
}

/// Every event but a SEND that names this node as its originator leads from
/// a state of which all of it holds to another one.
pub proof fn lemma_step_inv(v: NodeView, e: Event)
    requires
        inv(v),
        event_valid(e),
        !is_own_send(v, e),
    ensures
        inv(step(v, e)),
{
    lemma_step_wf(v, e);
    lemma_step_deliveries_justified(v, e);
    lemma_step_stores_consistent(v, e);
    lemma_step_signatures_bound(v, e);
    lemma_step_fins_after_quorum(v, e);
}

/// After any run of events none of which is a SEND that names the node as
/// its originator, all of it holds.
pub proof fn lemma_run_inv(v: NodeView, events: Seq<Event>)
    requires
        inv(v),
        forall|i: int| 0 <= i < events.len() ==> event_valid(#[trigger] events[i]),
        forall|i: int| 0 <= i < events.len() ==> !is_own_send(v, #[trigger] events[i]),
    ensures
        inv(run(v, events)),
    decreases events.len(),
{
    if events.len() > 0 {
        let before = events.drop_last();
        assert forall|i: int| 0 <= i < before.len() implies !is_own_send(
            v,
            #[trigger] before[i],
        ) by {
            assert(before[i] == events[i]);
        }
        assert forall|i: int| 0 <= i < before.len() implies event_valid(#[trigger] before[i]) by {
            assert(before[i] == events[i]);
        }
        lemma_run_inv(v, before);
        lemma_run_wf(v, before);
        assert(!is_own_send(v, events[events.len() - 1]));
        assert(event_valid(events[events.len() - 1]));
        lemma_step_inv(run(v, before), events.last());
    }
}

/// Whatever comes in at a node that started with nothing, as long as no SEND
/// names the node itself as originator: all of it holds of the state that
/// the node is in.
pub proof fn lemma_reachable_inv(
    node_ind: u32,
    num_nodes: u32,
    payload_size: usize,
    events: Seq<Event>,
)
    requires
        node_ind < num_nodes,
        forall|i: int| 0 <= i < events.len() ==> event_valid(#[trigger] events[i]),
        forall|i: int|
            0 <= i < events.len() ==> !is_own_send(
                initial(node_ind, num_nodes, payload_size),
                #[trigger] events[i],
            ),
    ensures
        inv(run(initial(node_ind, num_nodes, payload_size), events)),
{
    lemma_initial_inv(node_ind, num_nodes, payload_size);
    lemma_run_inv(initial(node_ind, num_nodes, payload_size), events);
}

} // verus!
