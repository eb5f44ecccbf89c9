//! The state of one node as a mathematical value, and what each event does
//! to it.
//!
//! A node reacts to five kinds of message and to its own round timer. Each
//! reaction is a function from the state before and the event to the state
//! after, and a second function to the frames that the node sends.

use crate::message::{encode_spec, MessageView};
use crate::signature::{sha256, signature_valid, MAX_HASHED_LEN};
use crate::slots::{bumped, grown, slot, with_slot};
use vstd::prelude::*;

verus! {

/// A frame on its way out: to one peer, or to all of them.
pub enum CastView {
    Unicast { dest: u32, bytes: Seq<u8> },
    Multicast { bytes: Seq<u8> },
}

/// The state of a node.
pub struct NodeView {
    /// This node's index.
    pub node_ind: u32,
    /// The number of nodes.
    pub num_nodes: u32,
    /// The length of the payloads that this node proposes.
    pub payload_size: usize,
    /// The round that this node proposes next.
    pub curr_round: u32,
    /// For each node the public key that it announced.
    pub peer_pkeys: Seq<Option<Seq<u8>>>,
    /// For each originator and round the payload, once known.
    pub tx_list: Seq<Seq<Option<Seq<u8>>>>,
    /// For each originator and round the digest of the payload, once known.
    pub hash_list: Seq<Seq<Option<Seq<u8>>>>,
    /// For each round of this node's own proposals the signatures collected.
    pub echo_list: Seq<Seq<(u32, Seq<u8>)>>,
    /// For each originator and round whether this node has sent its ECHO.
    pub sent_echo: Seq<Seq<bool>>,
    /// For each round whether this node has sent the FIN of its proposal.
    pub sent_fin: Seq<bool>,
    /// For each originator and round whether this node has handled a FIN.
    pub sent_sup: Seq<Seq<bool>>,
    /// For each originator and round whether the payload is delivered.
    pub delivered: Seq<Seq<bool>>,
    /// For each originator and round the number of confirmations counted.
    pub recv_sup_cnt: Seq<Seq<u32>>,
}

/// Whether a signature list holds an entry of signer `s`.
pub open spec fn has_signer(entries: Seq<(u32, Seq<u8>)>, s: u32) -> bool {
    exists|i: int| 0 <= i < entries.len() && (#[trigger] entries[i]).0 == s
}

/// Whether no two entries of a signature list have the same signer.
pub open spec fn distinct_signers(entries: Seq<(u32, Seq<u8>)>) -> bool {
    forall|i: int, j: int|
        0 <= i < j < entries.len() ==> (#[trigger] entries[i]).0 != (#[trigger] entries[j]).0
}

/// The collected signatures after `(s, sig)` came in for round `r`: the
/// rounds are filled up to `r`, and the pair is added at the end of that
/// round's list unless the list has an entry of `s` already.
pub open spec fn appended_echo(
    rounds: Seq<Seq<(u32, Seq<u8>)>>,
    r: int,
    s: u32,
    sig: Seq<u8>,
) -> Seq<Seq<(u32, Seq<u8>)>> {
    let g = grown(rounds, r, Seq::empty());
    if has_signer(g[r], s) {
        g
    } else {
        g.update(r, g[r].push((s, sig)))
    }
}

impl NodeView {
    /// The number of faulty nodes that the protocol bears.
    pub open spec fn f_cnt(self) -> int {
        (self.num_nodes - 1) / 3
    }

    /// The number of signatures, and of confirmations, that decide: `2f + 1`.
    pub open spec fn quorum(self) -> int {
        2 * self.f_cnt() + 1
    }

    pub open spec fn peer_key(self, s: int) -> Option<Seq<u8>> {
        slot(self.peer_pkeys, s, None)
    }

    pub open spec fn payload(self, o: int, r: int) -> Option<Seq<u8>> {
        slot(slot(self.tx_list, o, Seq::empty()), r, None)
    }

    pub open spec fn hash(self, o: int, r: int) -> Option<Seq<u8>> {
        slot(slot(self.hash_list, o, Seq::empty()), r, None)
    }

    pub open spec fn echoes(self, r: int) -> Seq<(u32, Seq<u8>)> {
        slot(self.echo_list, r, Seq::empty())
    }

    pub open spec fn has_sent_echo(self, o: int, r: int) -> bool {
        slot(slot(self.sent_echo, o, Seq::empty()), r, false)
    }

    pub open spec fn has_sent_fin(self, r: int) -> bool {
        slot(self.sent_fin, r, false)
    }

    pub open spec fn has_sent_sup(self, o: int, r: int) -> bool {
        slot(slot(self.sent_sup, o, Seq::empty()), r, false)
    }

    pub open spec fn is_delivered(self, o: int, r: int) -> bool {
        slot(slot(self.delivered, o, Seq::empty()), r, false)
    }

    pub open spec fn sup_count(self, o: int, r: int) -> u32 {
        slot(slot(self.recv_sup_cnt, o, Seq::empty()), r, 0u32)
    }

    /// The payload that this node proposes: `payload_size` bytes, each the
    /// low byte of the node's index.
    pub open spec fn own_payload(self) -> Seq<u8> {
        Seq::new(self.payload_size as nat, |i: int| (self.node_ind % 256) as u8)
    }

    /// Whether the state has the shape that the reactions keep: one row for
    /// each node in every table, and in every round's signature list signers
    /// that are nodes and occur once.
    pub open spec fn wf(self) -> bool {
        &&& self.node_ind < self.num_nodes
        &&& self.peer_pkeys.len() == self.num_nodes
        &&& self.tx_list.len() == self.num_nodes
        &&& self.hash_list.len() == self.num_nodes
        &&& self.sent_echo.len() == self.num_nodes
        &&& self.sent_sup.len() == self.num_nodes
        &&& self.delivered.len() == self.num_nodes
        &&& self.recv_sup_cnt.len() == self.num_nodes
        &&& forall|r: int|
            0 <= r < self.echo_list.len() ==> distinct_signers(#[trigger] self.echo_list[r])
        &&& forall|r: int, i: int|
            0 <= r < self.echo_list.len() && 0 <= i < self.echo_list[r].len() ==> (
            #[trigger] self.echo_list[r][i]).0 < self.num_nodes
    }
}

/// Whether every digest that is kept takes 32 bytes.
pub open spec fn digests_sized(hash_list: Seq<Seq<Option<Seq<u8>>>>) -> bool {
    forall|o: int, r: int|
        0 <= o < hash_list.len() && 0 <= r < hash_list[o].len() && hash_list[o][r] is Some ==> (
        #[trigger] hash_list[o][r])->0.len() == 32
}

/// The state of a node that has seen nothing yet.
pub open spec fn initial(node_ind: u32, num_nodes: u32, payload_size: usize) -> NodeView {
    NodeView {
        node_ind,
        num_nodes,
        payload_size,
        curr_round: 0,
        peer_pkeys: Seq::new(num_nodes as nat, |i: int| None),
        tx_list: Seq::new(num_nodes as nat, |i: int| Seq::empty()),
        hash_list: Seq::new(num_nodes as nat, |i: int| Seq::empty()),
        echo_list: Seq::empty(),
        sent_echo: Seq::new(num_nodes as nat, |i: int| Seq::empty()),
        sent_fin: Seq::empty(),
        sent_sup: Seq::new(num_nodes as nat, |i: int| Seq::empty()),
        delivered: Seq::new(num_nodes as nat, |i: int| Seq::empty()),
        recv_sup_cnt: Seq::new(num_nodes as nat, |i: int| Seq::empty()),
    }
}

// ---------------------------------------------------------------- SYN

/// Whether a SYN of `s` can be taken: `s` is a node that has announced no key.
pub open spec fn syn_admissible(v: NodeView, s: u32) -> bool {
    s < v.num_nodes && v.peer_key(s as int) is None
}

/// The state after node `s` announced the public key `pk`.
pub open spec fn syn_step(v: NodeView, s: u32, pk: Seq<u8>) -> NodeView {
    NodeView { peer_pkeys: v.peer_pkeys.update(s as int, Some(pk)), ..v }
}

// ---------------------------------------------------------------- SEND

/// Whether a SEND of originator `s` for round `r` is answered with an ECHO:
/// `s` is a node and no ECHO went out for `(s, r)` before.
pub open spec fn send_answered(v: NodeView, s: u32, r: u32) -> bool {
    s < v.num_nodes && !v.has_sent_echo(s as int, r as int)
}

/// The state after a SEND of originator `s` for round `r` with payload `p`,
/// whose digest is `h`.
pub open spec fn send_step_with(v: NodeView, s: u32, r: u32, p: Seq<u8>, h: Seq<u8>) -> NodeView {
    if send_answered(v, s, r) {
        NodeView {
            sent_echo: v.sent_echo.update(
                s as int,
                with_slot(v.sent_echo[s as int], r as int, false, true),
            ),
            tx_list: v.tx_list.update(
                s as int,
                with_slot(v.tx_list[s as int], r as int, None, Some(p)),
            ),
            hash_list: v.hash_list.update(
                s as int,
                with_slot(v.hash_list[s as int], r as int, None, Some(h)),
            ),
            ..v
        }
    } else {
        v
    }
}

/// The state after a SEND of originator `s` for round `r` with payload `p`.
pub open spec fn send_step(v: NodeView, s: u32, r: u32, p: Seq<u8>) -> NodeView {
    send_step_with(v, s, r, p, sha256(p))
}

/// What goes out after a SEND, where `sig` is this node's signature of the
/// payload's digest: the ECHO to the originator, or nothing.
pub open spec fn send_casts(v: NodeView, s: u32, r: u32, sig: Seq<u8>) -> Seq<CastView> {
    if send_answered(v, s, r) {
        seq![
            CastView::Unicast {
                dest: s,
                bytes: encode_spec(MessageView::Echo { sender: v.node_ind, rn: r, sign: sig }),
            },
        ]
    } else {
        Seq::empty()
    }
}

// ---------------------------------------------------------------- ECHO

/// Whether the ECHO `(s, sig)` for round `r` of this node's own proposals is
/// taken: the proposal's digest is known, `s` has announced a key, and the
/// signature is valid for the digest under that key.
pub open spec fn echo_accepted(v: NodeView, s: u32, r: u32, sig: Seq<u8>) -> bool {
    &&& v.hash(v.node_ind as int, r as int) is Some
    &&& v.peer_key(s as int) is Some
    &&& signature_valid(v.peer_key(s as int)->0, v.hash(v.node_ind as int, r as int)->0, sig)
}

/// Whether the ECHO `(s, sig)` for round `r` completes the quorum: it is
/// taken, no FIN went out for the round, and with it the round has `2f + 1`
/// signatures.
pub open spec fn echo_completes(v: NodeView, s: u32, r: u32, sig: Seq<u8>) -> bool {
    &&& echo_accepted(v, s, r, sig)
    &&& !v.has_sent_fin(r as int)
    &&& appended_echo(v.echo_list, r as int, s, sig)[r as int].len() >= v.quorum()
}

/// The state after the ECHO `(s, sig)` for round `r`.
pub open spec fn echo_step(v: NodeView, s: u32, r: u32, sig: Seq<u8>) -> NodeView {
    if !echo_accepted(v, s, r, sig) {
        v
    } else {
        let me = v.node_ind as int;
        let echo_list = appended_echo(v.echo_list, r as int, s, sig);
        let sent_fin = grown(v.sent_fin, r as int, false);
        if echo_completes(v, s, r, sig) {
            NodeView {
                echo_list,
                sent_fin: sent_fin.update(r as int, true),
                delivered: v.delivered.update(me, grown(v.delivered[me], r as int, false)),
                recv_sup_cnt: v.recv_sup_cnt.update(me, bumped(v.recv_sup_cnt[me], r as int)),
                ..v
            }
        } else {
            NodeView { echo_list, sent_fin, ..v }
        }
    }
}

/// What goes out after the ECHO `(s, sig)` for round `r`: where it completes
/// the quorum, the FIN with all signatures of the round and then the SUP for
/// this node's own proposal, both to everyone; else nothing.
pub open spec fn echo_casts(v: NodeView, s: u32, r: u32, sig: Seq<u8>) -> Seq<CastView> {
    if echo_completes(v, s, r, sig) {
        let signs = appended_echo(v.echo_list, r as int, s, sig)[r as int];
        seq![
            CastView::Multicast {
                bytes: encode_spec(
                    MessageView::Fin {
                        sender: v.node_ind,
                        rn: r,
                        sign_cnt: signs.len() as u32,
                        signs,
                    },
                ),
            },
            CastView::Multicast {
                bytes: encode_spec(
                    MessageView::Sup {
                        sender: v.node_ind,
                        rn: r,
                        sign_cnt: signs.len() as u32,
                        signs,
                        originator: v.node_ind,
                        payload: Seq::empty(),
                    },
                ),
            },
        ]
    } else {
        Seq::empty()
    }
}

// ---------------------------------------------------------------- FIN

/// Whether an entry of a FIN counts as a valid signature of the digest `h`:
/// it names this node itself, or a node whose announced key accepts it.
pub open spec fn entry_valid(v: NodeView, h: Seq<u8>, e: (u32, Seq<u8>)) -> bool {
    e.0 == v.node_ind || (v.peer_key(e.0 as int) is Some && signature_valid(
        v.peer_key(e.0 as int)->0,
        h,
        e.1,
    ))
}

/// The number of entries of a FIN that count as valid. An entry counts as
/// often as it occurs.
pub open spec fn valid_count(v: NodeView, h: Seq<u8>, signs: Seq<(u32, Seq<u8>)>) -> nat
    decreases signs.len(),
{
    if signs.len() == 0 {
        0
    } else {
        valid_count(v, h, signs.drop_last()) + if entry_valid(v, h, signs.last()) {
            1nat
        } else {
            0nat
        }
    }
}

/// Whether a FIN of `sender` for round `r` is looked at: its count is the
/// length of its list, `sender` is a node, and no FIN for `(sender, r)` was
/// looked at before.
pub open spec fn fin_considered(
    v: NodeView,
    sender: u32,
    r: u32,
    sign_cnt: u32,
    signs: Seq<(u32, Seq<u8>)>,
) -> bool {
    &&& signs.len() == sign_cnt
    &&& sender < v.num_nodes
    &&& !v.has_sent_sup(sender as int, r as int)
}

/// Whether a FIN that is looked at passes: the digest of `(sender, r)` is
/// known and `2f + 1` entries count as valid for it.
pub open spec fn fin_passes(
    v: NodeView,
    sender: u32,
    r: u32,
    sign_cnt: u32,
    signs: Seq<(u32, Seq<u8>)>,
) -> bool {
    &&& fin_considered(v, sender, r, sign_cnt, signs)
    &&& v.hash(sender as int, r as int) is Some
    &&& valid_count(v, v.hash(sender as int, r as int)->0, signs) >= v.quorum()
}

/// The state after a FIN.
pub open spec fn fin_step(
    v: NodeView,
    sender: u32,
    r: u32,
    sign_cnt: u32,
    signs: Seq<(u32, Seq<u8>)>,
) -> NodeView {
    if !fin_considered(v, sender, r, sign_cnt, signs) {
        v
    } else {
        let o = sender as int;
        let sent_sup = v.sent_sup.update(o, with_slot(v.sent_sup[o], r as int, false, true));
        if fin_passes(v, sender, r, sign_cnt, signs) {
            NodeView {
                sent_sup,
                delivered: v.delivered.update(o, grown(v.delivered[o], r as int, false)),
                recv_sup_cnt: v.recv_sup_cnt.update(o, bumped(v.recv_sup_cnt[o], r as int)),
                ..v
            }
        } else {
            NodeView { sent_sup, ..v }
        }
    }
}

/// The `k`-th node other than node `me`, in the order of the indices.
pub open spec fn peer_at(me: u32, k: int) -> u32 {
    if k < me {
        k as u32
    } else {
        (k + 1) as u32
    }
}

/// The SUP that goes to node `dest` after a FIN that passed. A node that
/// signed gets no payload, any other node the payload of `(sender, r)`.
pub open spec fn sup_for(
    v: NodeView,
    sender: u32,
    r: u32,
    sign_cnt: u32,
    signs: Seq<(u32, Seq<u8>)>,
    dest: u32,
) -> CastView {
    CastView::Unicast {
        dest,
        bytes: encode_spec(
            MessageView::Sup {
                sender: v.node_ind,
                rn: r,
                sign_cnt,
                signs,
                originator: sender,
                payload: if has_signer(signs, dest) {
                    Seq::empty()
                } else {
                    match v.payload(sender as int, r as int) {
                        Some(p) => p,
                        None => Seq::empty(),
                    }
                },
            },
        ),
    }
}

/// What goes out after a FIN: where it passes, one SUP to every other node
/// in the order of the indices; else nothing.
pub open spec fn fin_casts(
    v: NodeView,
    sender: u32,
    r: u32,
    sign_cnt: u32,
    signs: Seq<(u32, Seq<u8>)>,
) -> Seq<CastView> {
    if fin_passes(v, sender, r, sign_cnt, signs) {
        Seq::new(
            (v.num_nodes - 1) as nat,
            |k: int| sup_for(v, sender, r, sign_cnt, signs, peer_at(v.node_ind, k)),
        )
    } else {
        Seq::empty()
    }
}

// ---------------------------------------------------------------- SUP

/// Whether a SUP for `(o, r)` brings the delivery: `o` is a node, the
/// payload is not delivered yet, and with this confirmation `2f + 1` are
/// counted.
pub open spec fn sup_delivers(v: NodeView, o: u32, r: u32) -> bool {
    &&& o < v.num_nodes
    &&& !v.is_delivered(o as int, r as int)
    &&& bumped(v.recv_sup_cnt[o as int], r as int)[r as int] >= v.quorum()
}

/// The state after a SUP for `(o, r)`.
pub open spec fn sup_step(v: NodeView, o: u32, r: u32) -> NodeView {
    if o >= v.num_nodes {
        v
    } else {
        let delivered = grown(v.delivered[o as int], r as int, false);
        NodeView {
            delivered: v.delivered.update(
                o as int,
                if sup_delivers(v, o, r) {
                    delivered.update(r as int, true)
                } else {
                    delivered
                },
            ),
            recv_sup_cnt: v.recv_sup_cnt.update(
                o as int,
                bumped(v.recv_sup_cnt[o as int], r as int),
            ),
            ..v
        }
    }
}

// ---------------------------------------------------------------- timer

/// The state after this node proposed its next round, where `h` is the
/// digest of its payload and `sig` its signature of the digest.
pub open spec fn propose_step_with(v: NodeView, h: Seq<u8>, sig: Seq<u8>) -> NodeView {
    let me = v.node_ind as int;
    let r = v.curr_round as int;
    NodeView {
        tx_list: v.tx_list.update(me, with_slot(v.tx_list[me], r, None, Some(v.own_payload()))),
        hash_list: v.hash_list.update(me, with_slot(v.hash_list[me], r, None, Some(h))),
        echo_list: appended_echo(v.echo_list, r, v.node_ind, sig),
        curr_round: (v.curr_round + 1) as u32,
        ..v
    }
}

/// The state after this node proposed its next round with the signature `sig`.
pub open spec fn propose_step(v: NodeView, sig: Seq<u8>) -> NodeView {
    propose_step_with(v, sha256(v.own_payload()), sig)
}

/// What goes out when this node proposes: the SEND of the round to everyone.
pub open spec fn propose_cast(v: NodeView) -> CastView {
    CastView::Multicast {
        bytes: encode_spec(
            MessageView::Send { sender: v.node_ind, rn: v.curr_round, payload: v.own_payload() },
        ),
    }
}

// ---------------------------------------------------------------- messages

/// Whether a message is taken at all. A SYN is refused unless its sender is
/// a node that has announced no key; a SEND is refused when its payload is
/// longer than a digest can be taken of.
pub open spec fn message_taken(v: NodeView, m: MessageView) -> bool {
    match m {
        MessageView::Syn { sender, .. } => syn_admissible(v, sender),
        MessageView::Send { payload, .. } => payload.len() <= MAX_HASHED_LEN,
        _ => true,
    }
}

/// The state after a message came in. A message that is not taken changes
/// nothing.
pub open spec fn message_step(v: NodeView, m: MessageView) -> NodeView {
    if !message_taken(v, m) {
        v
    } else {
        match m {
            MessageView::Syn { sender, pub_key } => syn_step(v, sender, pub_key),
            MessageView::Send { sender, rn, payload } => send_step(v, sender, rn, payload),
            MessageView::Echo { sender, rn, sign } => echo_step(v, sender, rn, sign),
            MessageView::Fin { sender, rn, sign_cnt, signs } => fin_step(
                v,
                sender,
                rn,
                sign_cnt,
                signs,
            ),
            MessageView::Sup { rn, originator, .. } => sup_step(v, originator, rn),
        }
    }
}

/// What goes out after a message that is taken, where `sig` is the signature
/// that this node makes if the message is a SEND.
pub open spec fn message_casts(v: NodeView, m: MessageView, sig: Seq<u8>) -> Seq<CastView> {
    match m {
        MessageView::Syn { .. } => Seq::empty(),
        MessageView::Send { sender, rn, .. } => send_casts(v, sender, rn, sig),
        MessageView::Echo { sender, rn, sign } => echo_casts(v, sender, rn, sign),
        MessageView::Fin { sender, rn, sign_cnt, signs } => fin_casts(
            v,
            sender,
            rn,
            sign_cnt,
            signs,
        ),
        MessageView::Sup { .. } => Seq::empty(),
    }
}

/// The delivery that a message brings, as originator and round: that of a
/// SUP which completes the confirmations, and no other.
pub open spec fn message_delivery(v: NodeView, m: MessageView) -> Option<(u32, u32)> {
    match m {
        MessageView::Sup { rn, originator, .. } => if sup_delivers(v, originator, rn) {
            Some((originator, rn))
        } else {
            None
        },
        _ => None,
    }
}

// ---------------------------------------------------------------- events

/// Whether the node can propose: the number of its next round is not the
/// last that a frame can spell, and its payload is no longer than a digest
/// can be taken of.
pub open spec fn can_propose(v: NodeView) -> bool {
    v.curr_round < u32::MAX && v.payload_size <= MAX_HASHED_LEN
}

/// What happens to a node: a message comes in, or its round timer ticks and
/// it proposes, signing with `sig`.
pub enum Event {
    Incoming { msg: MessageView },
    Tick { sig: Seq<u8> },
}

/// Whether an event is one that happens: the signature that a tick brings is
/// this node's own, and a signature takes 64 bytes.
pub open spec fn event_valid(e: Event) -> bool {
    e matches Event::Tick { sig } ==> sig.len() == 64
}

/// The bytes of a frame on its way out.
pub open spec fn cast_bytes(c: CastView) -> Seq<u8> {
    match c {
        CastView::Unicast { bytes, .. } => bytes,
        CastView::Multicast { bytes } => bytes,
    }
}

/// The state after an event.
pub open spec fn step(v: NodeView, e: Event) -> NodeView {
    match e {
        Event::Incoming { msg } => message_step(v, msg),
        Event::Tick { sig } => if can_propose(v) {
            propose_step(v, sig)
        } else {
            v
        },
    }
}

/// The state after a run of events, the first of them first.
pub open spec fn run(v: NodeView, events: Seq<Event>) -> NodeView
    decreases events.len(),
{
    if events.len() == 0 {
        v
    } else {
        step(run(v, events.drop_last()), events.last())
    }
}

/// Whether an event makes the node send an ECHO for `(s, r)`.
pub open spec fn sends_echo(v: NodeView, e: Event, s: u32, r: u32) -> bool {
    e matches Event::Incoming { msg } && msg matches MessageView::Send { sender, rn, .. } && sender
        == s && rn == r && message_taken(v, msg) && send_answered(v, s, r)
}

/// The number of ECHOs for `(s, r)` that the node sends in a run of events.
pub open spec fn echoes_sent(v: NodeView, events: Seq<Event>, s: u32, r: u32) -> nat
    decreases events.len(),
{
    if events.len() == 0 {
        0
    } else {
        echoes_sent(v, events.drop_last(), s, r) + if sends_echo(
            run(v, events.drop_last()),
            events.last(),
            s,
            r,
        ) {
            1nat
        } else {
            0nat
        }
    }
}

} // verus!
