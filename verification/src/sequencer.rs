//! One node of the sequencer: its state and its reactions.
//!
//! The node owns its state. Whoever drives it hands in one event at a time,
//! a decoded message or the tick of the round timer, and gets back the frames
//! to send. What an event does is stated over the node's mathematical state.

use bytes::Bytes;
use crate::frame::{bytes_as_slice, bytes_contents, bytes_from_vec, bytes_len};
use crate::message::{
    copy_bytes, copy_signs, decode_spec, encode_spec, signs_view, Message, MessageView,
};
use crate::shape::{
    lemma_appended_echo, lemma_digest_stored, lemma_echo_step_wf, lemma_fin_step_wf,
    lemma_propose_step_wf, lemma_send_step_wf, lemma_sup_step_wf, lemma_syn_step_wf,
    lemma_valid_count_same_keys,
};
use crate::signature::{digest_sha256, KeyPair, MAX_HASHED_LEN};
use crate::slots::{
    bump_counter, grow_flag_row, grow_flags, grow_rounds, raise_flag, read_counter, read_flag,
    read_slot, rounds_view, row_view, store_slot, store_view, table_view,
};
use crate::state::{
    appended_echo, can_propose, digests_sized, echo_accepted, echo_casts, echo_completes, echo_step,
    entry_valid, fin_casts, fin_considered, fin_passes, fin_step, has_signer, initial,
    message_casts, message_delivery, message_step, message_taken, peer_at, propose_cast,
    propose_step, propose_step_with, send_casts, send_step, send_step_with, sup_delivers, sup_for,
    sup_step, syn_admissible, syn_step, valid_count, CastView, NodeView,
};
use std::collections::HashSet;
use vstd::prelude::*;

verus! {

/// A frame on its way out: to the node `dest`, or to every other node.
pub enum CastType {
    Unicast { dest: u32, bytes: Bytes },
    Multicast { bytes: Bytes },
}

impl View for CastType {
    type V = CastView;

    open spec fn view(&self) -> CastView {
        match *self {
            CastType::Unicast { dest, bytes } => CastView::Unicast {
                dest,
                bytes: bytes_contents(bytes),
            },
            CastType::Multicast { bytes } => CastView::Multicast { bytes: bytes_contents(bytes) },
        }
    }
}

/// A list of frames on their way out, as a mathematical value.
pub open spec fn casts_view(casts: Seq<CastType>) -> Seq<CastView> {
    Seq::new(casts.len(), |i: int| casts[i]@)
}

/// The frame of a message, ready to go out.
pub fn frame_of(msg: &Message) -> (b: Bytes)
    ensures
        bytes_contents(b) == encode_spec(msg@),
{
    bytes_from_vec(msg.encode())
}

pub struct Sequencer {
    node_ind: u32,
    num_nodes: u32,
    f_cnt: usize,
    payload_size: usize,
    keypair: KeyPair,
    peer_pkeys: Vec<Option<Vec<u8>>>,
    tx_list: Vec<Vec<Option<Vec<u8>>>>,
    hash_list: Vec<Vec<Option<Vec<u8>>>>,
    echo_list: Vec<Vec<(u32, Vec<u8>)>>,
    sent_echo: Vec<Vec<bool>>,
    sent_fin: Vec<bool>,
    sent_sup: Vec<Vec<bool>>,
    delivered: Vec<Vec<bool>>,
    recv_sup_cnt: Vec<Vec<u32>>,
    curr_round: u32,
}

impl View for Sequencer {
    type V = NodeView;

    closed spec fn view(&self) -> NodeView {
        NodeView {
            node_ind: self.node_ind,
            num_nodes: self.num_nodes,
            payload_size: self.payload_size,
            curr_round: self.curr_round,
            peer_pkeys: row_view(self.peer_pkeys@),
            tx_list: store_view(self.tx_list@),
            hash_list: store_view(self.hash_list@),
            echo_list: rounds_view(self.echo_list@),
            sent_echo: table_view(self.sent_echo@),
            sent_fin: self.sent_fin@,
            sent_sup: table_view(self.sent_sup@),
            delivered: table_view(self.delivered@),
            recv_sup_cnt: table_view(self.recv_sup_cnt@),
        }
    }
}

impl Sequencer {
    /// Whether the node's state has the shape that its reactions keep.
    pub closed spec fn wf(&self) -> bool {
        &&& self@.wf()
        &&& digests_sized(self@.hash_list)
        &&& self.f_cnt == self@.f_cnt()
    }

    /// The state of a node of good shape has the shape that the laws speak of.
    pub proof fn lemma_wf(&self)
        requires
            self.wf(),
        ensures
            self@.wf(),
    {
    }

    /// A node that has seen nothing yet.
    pub fn new(node_ind: u32, num_nodes: u32, payload_size: usize, keypair: KeyPair) -> (s:
        Sequencer)
        requires
            node_ind < num_nodes,
        ensures
            s.wf(),
            s.key_pair() == keypair,
            s@ == initial(node_ind, num_nodes, payload_size),
    {
        let mut peer_pkeys: Vec<Option<Vec<u8>>> = Vec::new();
        let mut tx_list: Vec<Vec<Option<Vec<u8>>>> = Vec::new();
        let mut hash_list: Vec<Vec<Option<Vec<u8>>>> = Vec::new();
        let mut sent_echo: Vec<Vec<bool>> = Vec::new();
        let mut sent_sup: Vec<Vec<bool>> = Vec::new();
        let mut delivered: Vec<Vec<bool>> = Vec::new();
        let mut recv_sup_cnt: Vec<Vec<u32>> = Vec::new();
        let mut i: u32 = 0;
        while i < num_nodes
            invariant
                i <= num_nodes,
                peer_pkeys@.len() == i,
                tx_list@.len() == i,
                hash_list@.len() == i,
                sent_echo@.len() == i,
                sent_sup@.len() == i,
                delivered@.len() == i,
                recv_sup_cnt@.len() == i,
                forall|j: int| 0 <= j < i ==> (#[trigger] peer_pkeys@[j]) is None,
                forall|j: int| 0 <= j < i ==> (#[trigger] tx_list@[j])@.len() == 0,
                forall|j: int| 0 <= j < i ==> (#[trigger] hash_list@[j])@.len() == 0,
                forall|j: int| 0 <= j < i ==> (#[trigger] sent_echo@[j])@.len() == 0,
                forall|j: int| 0 <= j < i ==> (#[trigger] sent_sup@[j])@.len() == 0,
                forall|j: int| 0 <= j < i ==> (#[trigger] delivered@[j])@.len() == 0,
                forall|j: int| 0 <= j < i ==> (#[trigger] recv_sup_cnt@[j])@.len() == 0,
            decreases num_nodes - i,
        {
            peer_pkeys.push(None);
            tx_list.push(Vec::new());
            hash_list.push(Vec::new());
            sent_echo.push(Vec::new());
            sent_sup.push(Vec::new());
            delivered.push(Vec::new());
            recv_sup_cnt.push(Vec::new());
            i += 1;
        }
        let s = Sequencer {
            node_ind,
            num_nodes,
            f_cnt: ((num_nodes - 1) / 3) as usize,
            payload_size,
            keypair,
            peer_pkeys,
            tx_list,
            hash_list,
            echo_list: Vec::new(),
            sent_echo,
            sent_fin: Vec::new(),
            sent_sup,
            delivered,
            recv_sup_cnt,
            curr_round: 0,
        };
        proof {
            let v = s@;
            let w = initial(node_ind, num_nodes, payload_size);
            assert(v.peer_pkeys =~= w.peer_pkeys);
            assert forall|j: int| 0 <= j < num_nodes implies v.tx_list[j] == w.tx_list[j] by {
                assert(s.tx_list@[j]@.len() == 0);
                assert(v.tx_list[j] =~= w.tx_list[j]);
            }
            assert(v.tx_list =~= w.tx_list);
            assert forall|j: int| 0 <= j < num_nodes implies v.hash_list[j] == w.hash_list[j] by {
                assert(s.hash_list@[j]@.len() == 0);
                assert(v.hash_list[j] =~= w.hash_list[j]);
            }
            assert(v.hash_list =~= w.hash_list);
            assert(v.echo_list =~= w.echo_list);
            assert forall|j: int| 0 <= j < num_nodes implies v.sent_echo[j] == w.sent_echo[j] by {
                assert(s.sent_echo@[j]@.len() == 0);
                assert(v.sent_echo[j] =~= w.sent_echo[j]);
            }
            assert(v.sent_echo =~= w.sent_echo);
            assert(v.sent_fin =~= w.sent_fin);
            assert forall|j: int| 0 <= j < num_nodes implies v.sent_sup[j] == w.sent_sup[j] by {
                assert(s.sent_sup@[j]@.len() == 0);
                assert(v.sent_sup[j] =~= w.sent_sup[j]);
            }
            assert(v.sent_sup =~= w.sent_sup);
            assert forall|j: int| 0 <= j < num_nodes implies v.delivered[j] == w.delivered[j] by {
                assert(s.delivered@[j]@.len() == 0);
                assert(v.delivered[j] =~= w.delivered[j]);
            }
            assert(v.delivered =~= w.delivered);
            assert forall|j: int| 0 <= j < num_nodes implies v.recv_sup_cnt[j]
                == w.recv_sup_cnt[j] by {
                assert(s.recv_sup_cnt@[j]@.len() == 0);
                assert(v.recv_sup_cnt[j] =~= w.recv_sup_cnt[j]);
            }
            assert(v.recv_sup_cnt =~= w.recv_sup_cnt);
        }
        s
    }

    /// Takes a SUP for the payload of `originator` in round `rn`. Says
    /// whether this confirmation brought the delivery.
    pub fn handle_sup_msg(&mut self, originator: u32, rn: u32) -> (delivered_now: bool)
        requires
            old(self).wf(),
        ensures
            final(self).wf(),
            final(self).key_pair() == old(self).key_pair(),
            final(self)@ == sup_step(old(self)@, originator, rn),
            delivered_now == sup_delivers(old(self)@, originator, rn),
    {
        if originator >= self.num_nodes {
            return false;
        }
        let o = originator as usize;
        let r = rn as usize;
        grow_flag_row(&mut self.delivered, o, r);
        let now = bump_counter(&mut self.recv_sup_cnt, o, r);
        let threshold = self.f_cnt * 2 + 1;
        let mut delivered_now = false;
        if !read_flag(&self.delivered, o, r) && now as usize >= threshold {
            raise_flag(&mut self.delivered, o, r);
            delivered_now = true;
        }
        proof {
            let v = old(self)@;
            assert(self@.delivered =~= sup_step(v, originator, rn).delivered);
            assert(self@ == sup_step(v, originator, rn));
            lemma_sup_step_wf(v, originator, rn);
        }
        delivered_now
    }
}

impl Sequencer {
    /// Whether a SYN of `sender` can be taken: `sender` is a node that has
    /// announced no key yet.
    pub fn accepts_syn(&self, sender: u32) -> (b: bool)
        requires
            self.wf(),
        ensures
            b == syn_admissible(self@, sender),
    {
        sender < self.num_nodes && self.peer_pkeys[sender as usize].is_none()
    }

    /// Takes the SYN of `sender`: keeps the public key that it announces. A
    /// node announces its key once.
    pub fn handle_syn_msg(&mut self, sender: u32, pub_key: Vec<u8>)
        requires
            old(self).wf(),
            syn_admissible(old(self)@, sender),
        ensures
            final(self).wf(),
            final(self).key_pair() == old(self).key_pair(),
            final(self)@ == syn_step(old(self)@, sender, pub_key@),
    {
        self.peer_pkeys[sender as usize] = Some(pub_key);
        proof {
            assert(self@.peer_pkeys =~= syn_step(old(self)@, sender, pub_key@).peer_pkeys);
            lemma_syn_step_wf(old(self)@, sender, pub_key@);
        }
    }

    /// Takes a SEND whose digest and whose answer's signature are at hand:
    /// unless an ECHO went out for `(sender, rn)` before, keeps payload and
    /// digest and gives back the ECHO for the originator.
    pub fn record_send(
        &mut self,
        sender: u32,
        rn: u32,
        payload: Vec<u8>,
        digest: Vec<u8>,
        sign: Vec<u8>,
    ) -> (out: Vec<CastType>)
        requires
            old(self).wf(),
            digest@.len() == 32,
        ensures
            final(self).wf(),
            final(self).key_pair() == old(self).key_pair(),
            final(self)@ == send_step_with(old(self)@, sender, rn, payload@, digest@),
            casts_view(out@) == send_casts(old(self)@, sender, rn, sign@),
    {
        let mut out: Vec<CastType> = Vec::new();
        if sender >= self.num_nodes {
            assert(casts_view(out@) =~= send_casts(old(self)@, sender, rn, sign@));
            return out;
        }
        let s = sender as usize;
        let r = rn as usize;
        let was = raise_flag(&mut self.sent_echo, s, r);
        if was {
            assert(casts_view(out@) =~= send_casts(old(self)@, sender, rn, sign@));
            return out;
        }
        store_slot(&mut self.tx_list, s, r, payload);
        store_slot(&mut self.hash_list, s, r, digest);
        let echo = Message::Echo { sender: self.node_ind, rn, sign };
        out.push(CastType::Unicast { dest: sender, bytes: frame_of(&echo) });
        proof {
            lemma_send_step_wf(old(self)@, sender, rn, payload@, digest@);
            lemma_digest_stored(old(self)@.hash_list, sender as int, rn as int, digest@);
            assert(casts_view(out@) =~= send_casts(old(self)@, sender, rn, sign@));
        }
        out
    }

    /// Takes a SEND of originator `sender` for round `rn`. The first SEND
    /// for `(sender, rn)` is answered with an ECHO that carries this node's
    /// signature of the payload's digest; any later one changes nothing.
    pub fn handle_send_msg(&mut self, sender: u32, rn: u32, payload: Vec<u8>) -> (out: Vec<
        CastType,
    >)
        requires
            old(self).wf(),
            payload@.len() <= MAX_HASHED_LEN,
        ensures
            final(self).wf(),
            final(self).key_pair() == old(self).key_pair(),
            final(self)@ == send_step(old(self)@, sender, rn, payload@),
            exists|sig: Seq<u8>|
                sig.len() == 64 && casts_view(out@) == #[trigger] send_casts(
                    old(self)@,
                    sender,
                    rn,
                    sig,
                ),
    {
        if sender >= self.num_nodes || read_flag(&self.sent_echo, sender as usize, rn as usize) {
            let out: Vec<CastType> = Vec::new();
            let ghost sig = Seq::new(64, |i: int| 0u8);
            assert(casts_view(out@) =~= send_casts(old(self)@, sender, rn, sig));
            return out;
        }
        let digest = digest_sha256(payload.as_slice());
        let sign = self.keypair.sign(digest.as_slice());
        let ghost sig = sign@;
        let out = self.record_send(sender, rn, payload, digest, sign);
        assert(casts_view(out@) == send_casts(old(self)@, sender, rn, sig));
        out
    }

    /// Adds the signature `sign` of node `sender` to those collected for
    /// round `rn`, unless the round holds a signature of that node already.
    pub fn append_echo(&mut self, rn: u32, sender: u32, sign: Vec<u8>)
        requires
            old(self).wf(),
            sender < old(self)@.num_nodes,
        ensures
            final(self).wf(),
            final(self).key_pair() == old(self).key_pair(),
            final(self)@ == (NodeView {
                echo_list: appended_echo(old(self)@.echo_list, rn as int, sender, sign@),
                ..old(self)@
            }),
    {
        let r = rn as usize;
        grow_rounds(&mut self.echo_list, r);
        let ghost g = rounds_view(self.echo_list@);
        let mut found = false;
        let mut i: usize = 0;
        while i < self.echo_list[r].len()
            invariant
                r < self.echo_list@.len(),
                i <= self.echo_list@[r as int]@.len(),
                found == exists|j: int|
                    0 <= j < i && (#[trigger] signs_view(self.echo_list@[r as int]@)[j]).0
                        == sender,
            decreases self.echo_list@[r as int]@.len() - i,
        {
            if self.echo_list[r][i].0 == sender {
                found = true;
                assert(signs_view(self.echo_list@[r as int]@)[i as int].0 == sender);
            }
            i += 1;
        }
        assert(found == has_signer(g[r as int], sender));
        if !found {
            let round = &mut self.echo_list[r];
            round.push((sender, sign));
            assert(signs_view(round@) =~= g[r as int].push((sender, sign@)));
        }
        proof {
            let v = old(self)@;
            assert(self@.echo_list =~= appended_echo(v.echo_list, rn as int, sender, sign@));
            lemma_appended_echo(v.echo_list, rn as int, sender, sign@, v.num_nodes as nat);
        }
    }

    /// Whether round `rn` has collected at least `echo_threshold` signatures.
    pub fn got_enough_echo(&self, rn: u32, echo_threshold: usize) -> (b: bool)
        ensures
            b == (self@.echoes(rn as int).len() >= echo_threshold),
    {
        let r = rn as usize;
        if r < self.echo_list.len() {
            assert(self@.echo_list[r as int].len() == self.echo_list@[r as int]@.len());
            self.echo_list[r].len() >= echo_threshold
        } else {
            0 >= echo_threshold
        }
    }
}

impl Sequencer {
    /// Whether the ECHO `(sender, sign)` for round `rn` is taken.
    fn echo_is_accepted(&self, sender: u32, rn: u32, sign: &Vec<u8>) -> (b: bool)
        requires
            self.wf(),
        ensures
            b == echo_accepted(self@, sender, rn, sign@),
    {
        match read_slot(&self.hash_list, self.node_ind as usize, rn as usize) {
            None => false,
            Some(hash) => {
                if sender >= self.num_nodes {
                    false
                } else {
                    match &self.peer_pkeys[sender as usize] {
                        None => false,
                        Some(pkey) => {
                            assert(self@.hash_list[self.node_ind as int][rn as int] == Some(
                                hash@,
                            ));
                            KeyPair::verify_signature(
                                pkey.as_slice(),
                                hash.as_slice(),
                                sign.as_slice(),
                            )
                        },
                    }
                }
            },
        }
    }

    /// Takes the ECHO of node `sender` for this node's own proposal of round
    /// `rn`. An ECHO whose signature is accepted is added to the round's
    /// signatures; the one that completes the quorum is answered with the
    /// FIN and the SUP of the round, and counts as this node's own
    /// confirmation.
    pub fn handle_echo_msg(&mut self, sender: u32, rn: u32, sign: Vec<u8>) -> (out: Vec<CastType>)
        requires
            old(self).wf(),
        ensures
            final(self).wf(),
            final(self).key_pair() == old(self).key_pair(),
            final(self)@ == echo_step(old(self)@, sender, rn, sign@),
            casts_view(out@) == echo_casts(old(self)@, sender, rn, sign@),
    {
        let mut out: Vec<CastType> = Vec::new();
        let ghost v = old(self)@;
        let ghost sig = sign@;
        proof {
            lemma_echo_step_wf(v, sender, rn, sig);
        }
        if !self.echo_is_accepted(sender, rn, &sign) {
            assert(casts_view(out@) =~= echo_casts(v, sender, rn, sig));
            return out;
        }
        let me = self.node_ind as usize;
        let r = rn as usize;
        self.append_echo(rn, sender, sign);
        grow_flags(&mut self.sent_fin, r);
        let threshold = self.f_cnt * 2 + 1;
        if !self.sent_fin[r] && self.got_enough_echo(rn, threshold) {
            self.sent_fin[r] = true;
            assert(self@.echo_list[r as int].len() == self.echo_list@[r as int]@.len());
            let sign_cnt = self.echo_list[r].len() as u32;
            let fin = Message::Fin {
                sender: self.node_ind,
                rn,
                sign_cnt,
                signs: copy_signs(&self.echo_list[r]),
            };
            let sup = Message::Sup {
                sender: self.node_ind,
                rn,
                sign_cnt,
                signs: copy_signs(&self.echo_list[r]),
                originator: self.node_ind,
                payload: Vec::new(),
            };
            out.push(CastType::Multicast { bytes: frame_of(&fin) });
            out.push(CastType::Multicast { bytes: frame_of(&sup) });
            grow_flag_row(&mut self.delivered, me, r);
            bump_counter(&mut self.recv_sup_cnt, me, r);
            proof {
                assert(echo_completes(v, sender, rn, sig));
                assert(sup@->Sup_payload =~= Seq::<u8>::empty());
                assert(casts_view(out@) =~= echo_casts(v, sender, rn, sig));
                assert(self@.sent_fin =~= echo_step(v, sender, rn, sig).sent_fin);
            }
        } else {
            proof {
                assert(!echo_completes(v, sender, rn, sig));
                assert(casts_view(out@) =~= echo_casts(v, sender, rn, sig));
            }
        }
        assert(self@ == echo_step(v, sender, rn, sig));
        out
    }
}

/// The signers of a signature list, as a set.
pub fn signer_set(list: &Vec<(u32, Vec<u8>)>) -> (set: HashSet<u32>)
    ensures
        forall|x: u32| set@.contains(x) <==> has_signer(signs_view(list@), x),
{
    let mut set: HashSet<u32> = HashSet::new();
    let ghost signs = signs_view(list@);
    let mut i: usize = 0;
    while i < list.len()
        invariant
            i <= list.len(),
            signs == signs_view(list@),
            forall|x: u32| set@.contains(x) <==> has_signer(signs.take(i as int), x),
        decreases list.len() - i,
    {
        set.insert(list[i].0);
        proof {
            let t0 = signs.take(i as int);
            let t1 = signs.take(i + 1);
            assert forall|x: u32| set@.contains(x) <==> has_signer(t1, x) by {
                if x == list@[i as int].0 {
                    assert(t1[i as int].0 == x);
                }
                if has_signer(t1, x) {
                    let j = choose|j: int| 0 <= j < t1.len() && (#[trigger] t1[j]).0 == x;
                    if j < i {
                        assert(t0[j].0 == x);
                    }
                }
                if has_signer(t0, x) {
                    let j = choose|j: int| 0 <= j < t0.len() && (#[trigger] t0[j]).0 == x;
                    assert(t1[j].0 == x);
                }
            }
        }
        i += 1;
    }
    assert(signs.take(list@.len() as int) =~= signs);
    set
}

impl Sequencer {
    /// The number of entries of `list` that count as valid signatures of the
    /// digest `hash`: an entry of this node itself counts unasked, any other
    /// if its signer has announced a key that accepts the signature.
    fn count_valid(&self, hash: &Vec<u8>, list: &Vec<(u32, Vec<u8>)>) -> (n: usize)
        requires
            self.wf(),
            hash@.len() == 32,
        ensures
            n == valid_count(self@, hash@, signs_view(list@)),
    {
        let ghost signs = signs_view(list@);
        let mut valid_signatures: usize = 0;
        let mut i: usize = 0;
        while i < list.len()
            invariant
                i <= list.len(),
                self.wf(),
                hash@.len() == 32,
                signs == signs_view(list@),
                valid_signatures <= i,
                valid_signatures == valid_count(self@, hash@, signs.take(i as int)),
            decreases list.len() - i,
        {
            let signer_id = list[i].0;
            let valid = if signer_id == self.node_ind {
                true
            } else if signer_id >= self.num_nodes {
                false
            } else {
                match &self.peer_pkeys[signer_id as usize] {
                    None => false,
                    Some(pkey) => KeyPair::verify_signature(
                        pkey.as_slice(),
                        hash.as_slice(),
                        list[i].1.as_slice(),
                    ),
                }
            };
            proof {
                let t1 = signs.take(i + 1);
                assert(t1.drop_last() =~= signs.take(i as int));
                assert(t1.last() == signs[i as int]);
                assert(valid == entry_valid(self@, hash@, signs[i as int]));
            }
            if valid {
                valid_signatures += 1;
            }
            i += 1;
        }
        assert(signs.take(list@.len() as int) =~= signs);
        valid_signatures
    }

    /// Takes the FIN of `sender` for round `rn`. The first FIN for
    /// `(sender, rn)` whose count fits its list is looked at, whatever comes
    /// of it; where the digest is known and `2f + 1` entries count as valid,
    /// this node counts its own confirmation and sends a SUP to every other
    /// node, with the payload for those that did not sign.
    pub fn handle_fin_msg(
        &mut self,
        sender: u32,
        rn: u32,
        sign_cnt: u32,
        sign_list: Vec<(u32, Vec<u8>)>,
    ) -> (out: Vec<CastType>)
        requires
            old(self).wf(),
        ensures
            final(self).wf(),
            final(self).key_pair() == old(self).key_pair(),
            final(self)@ == fin_step(old(self)@, sender, rn, sign_cnt, signs_view(sign_list@)),
            casts_view(out@) == fin_casts(old(self)@, sender, rn, sign_cnt, signs_view(sign_list@)),
    {
        let mut out: Vec<CastType> = Vec::new();
        let ghost v = old(self)@;
        let ghost signs = signs_view(sign_list@);
        proof {
            lemma_fin_step_wf(v, sender, rn, sign_cnt, signs);
        }
        if sign_list.len() != sign_cnt as usize || sender >= self.num_nodes {
            assert(casts_view(out@) =~= fin_casts(v, sender, rn, sign_cnt, signs));
            return out;
        }
        let s = sender as usize;
        let r = rn as usize;
        let was = raise_flag(&mut self.sent_sup, s, r);
        if was {
            assert(casts_view(out@) =~= fin_casts(v, sender, rn, sign_cnt, signs));
            return out;
        }
        assert(fin_considered(v, sender, rn, sign_cnt, signs));
        let valid_signatures = match read_slot(&self.hash_list, s, r) {
            None => {
                assert(casts_view(out@) =~= fin_casts(v, sender, rn, sign_cnt, signs));
                return out;
            },
            Some(h_tx) => {
                assert(self@.hash_list[s as int][r as int] == Some(h_tx@));
                self.count_valid(h_tx, &sign_list)
            },
        };
        let ghost h = v.hash(sender as int, rn as int)->0;
        assert(valid_signatures == valid_count(v, h, signs)) by {
            lemma_valid_count_same_keys(self@, v, h, signs);
        }
        if valid_signatures < 2 * self.f_cnt + 1 {
            assert(casts_view(out@) =~= fin_casts(v, sender, rn, sign_cnt, signs));
            return out;
        }
        assert(fin_passes(v, sender, rn, sign_cnt, signs));
        grow_flag_row(&mut self.delivered, s, r);
        bump_counter(&mut self.recv_sup_cnt, s, r);
        assert(self@ == fin_step(v, sender, rn, sign_cnt, signs));
        let signers_set = signer_set(&sign_list);
        let mut i: u32 = 0;
        while i < self.num_nodes
            invariant
                i <= self.num_nodes,
                self.wf(),
                self@ == fin_step(v, sender, rn, sign_cnt, signs),
                v.wf(),
                signs == signs_view(sign_list@),
                s == sender as usize,
                r == rn as usize,
                sender < v.num_nodes,
                forall|x: u32| signers_set@.contains(x) <==> has_signer(signs, x),
                out@.len() == if i <= v.node_ind {
                    i as int
                } else {
                    i - 1
                },
                forall|k: int|
                    0 <= k < out@.len() ==> (#[trigger] out@[k])@ == sup_for(
                        v,
                        sender,
                        rn,
                        sign_cnt,
                        signs,
                        peer_at(v.node_ind, k),
                    ),
            decreases self.num_nodes - i,
        {
            if i != self.node_ind {
                let payload = if signers_set.contains(&i) {
                    Vec::new()
                } else {
                    match read_slot(&self.tx_list, s, r) {
                        Some(p) => copy_bytes(p),
                        None => Vec::new(),
                    }
                };
                let sup_msg = Message::Sup {
                    sender: self.node_ind,
                    rn,
                    sign_cnt,
                    signs: copy_signs(&sign_list),
                    originator: sender,
                    payload,
                };
                proof {
                    assert(peer_at(v.node_ind, out@.len() as int) == i);
                    if has_signer(signs, i) {
                        assert(payload@ =~= Seq::<u8>::empty());
                    } else {
                        assert(self@.tx_list == v.tx_list);
                        if v.payload(sender as int, rn as int) is None {
                            assert(payload@ =~= Seq::<u8>::empty());
                        }
                    }
                }
                out.push(CastType::Unicast { dest: i, bytes: frame_of(&sup_msg) });
            }
            i += 1;
        }
        assert(casts_view(out@) =~= fin_casts(v, sender, rn, sign_cnt, signs));
        out
    }
}

/// A delivery: the payload of `originator` in round `rn` is decided. `own`
/// says whether the originator is the node itself.
#[derive(Debug, Clone, Copy, PartialEq, Eq, Structural)]
pub struct Delivery {
    pub originator: u32,
    pub rn: u32,
    pub own: bool,
}

/// What came of a frame or a message.
pub enum Handled {
    /// The frame spelled no message, or the message was too long to take.
    /// Nothing changed.
    Dropped,
    /// A SYN of a node that has announced its key already, or of no node.
    /// Nothing changed.
    RefusedSyn { sender: u32 },
    /// The message was taken: the frames to send, in order, and the delivery
    /// that it brought, if any.
    Done { casts: Vec<CastType>, delivered: Option<Delivery> },
}

/// Whether `out` is what comes of the message `m` at a node in the state
/// `v`. A SEND that is not taken is dropped and a SYN that is not taken is
/// refused. For a message that is taken, the frames that go out are those of
/// its kind, with some signature of 64 bytes where the node signs, and the
/// delivery is the one that the message brings.
pub open spec fn answers_message(v: NodeView, m: MessageView, out: Handled) -> bool {
    match out {
        Handled::Dropped => m is Send && !message_taken(v, m),
        Handled::RefusedSyn { sender } => m matches MessageView::Syn { sender: s, .. } && s
            == sender && !message_taken(v, m),
        Handled::Done { casts, delivered } => {
            &&& message_taken(v, m)
            &&& exists|sig: Seq<u8>|
                sig.len() == 64 && casts_view(casts@) == #[trigger] message_casts(v, m, sig)
            &&& match delivered {
                Some(d) => message_delivery(v, m) == Some((d.originator, d.rn)) && d.own == (
                d.originator == v.node_ind),
                None => message_delivery(v, m) is None,
            }
        },
    }
}

/// Whether the state `w` and `out` are what comes of the frame `frame` at a
/// node in the state `v`. A frame that spells no message is dropped and
/// changes nothing; any other does what its message does.
pub open spec fn answers_frame(v: NodeView, w: NodeView, frame: Seq<u8>, out: Handled) -> bool {
    match decode_spec(frame) {
        None => out is Dropped && w == v,
        Some(m) => w == message_step(v, m) && answers_message(v, m, out),
    }
}

impl Sequencer {
    /// The payload that this node proposes.
    pub fn own_payload(&self) -> (p: Vec<u8>)
        ensures
            p@ == self@.own_payload(),
    {
        let byte = (self.node_ind % 256) as u8;
        let mut p: Vec<u8> = Vec::new();
        let mut i: usize = 0;
        while i < self.payload_size
            invariant
                i <= self.payload_size,
                byte == (self.node_ind % 256) as u8,
                p@.len() == i,
                forall|j: int| 0 <= j < i ==> p@[j] == byte,
            decreases self.payload_size - i,
        {
            p.push(byte);
            i += 1;
        }
        assert(p@ =~= self@.own_payload());
        p
    }

    /// Whether this node can propose.
    pub fn ready_to_propose(&self) -> (b: bool)
        ensures
            b == can_propose(self@),
    {
        self.curr_round < u32::MAX && self.payload_size as u64 <= MAX_HASHED_LEN
    }

    /// Proposes the next round with the payload, its digest and this node's
    /// signature of the digest at hand: keeps payload and digest as this
    /// node's own of the round, counts the signature as the first ECHO, and
    /// gives back the SEND for everyone.
    pub fn record_proposal(&mut self, payload: Vec<u8>, digest: Vec<u8>, sign: Vec<u8>) -> (cast:
        CastType)
        requires
            old(self).wf(),
            old(self)@.curr_round < u32::MAX,
            payload@ == old(self)@.own_payload(),
            digest@.len() == 32,
        ensures
            final(self).wf(),
            final(self).key_pair() == old(self).key_pair(),
            final(self)@ == propose_step_with(old(self)@, digest@, sign@),
            cast@ == propose_cast(old(self)@),
    {
        let ghost v = old(self)@;
        let me = self.node_ind as usize;
        let curr_round = self.curr_round;
        let send = Message::Send {
            sender: self.node_ind,
            rn: curr_round,
            payload: copy_bytes(&payload),
        };
        store_slot(&mut self.tx_list, me, curr_round as usize, payload);
        store_slot(&mut self.hash_list, me, curr_round as usize, digest);
        proof {
            lemma_propose_step_wf(v, digest@, sign@);
            lemma_digest_stored(v.hash_list, v.node_ind as int, v.curr_round as int, digest@);
            let w = NodeView { tx_list: self@.tx_list, hash_list: self@.hash_list, ..v };
            assert(self@ == w);
            assert(w.wf());
        }
        self.append_echo(curr_round, self.node_ind, sign);
        self.curr_round = curr_round + 1;
        CastType::Multicast { bytes: frame_of(&send) }
    }

    /// Proposes the next round: this node's payload under the number of the
    /// round, signed by this node.
    pub fn propose(&mut self) -> (cast: CastType)
        requires
            old(self).wf(),
            can_propose(old(self)@),
        ensures
            final(self).wf(),
            final(self).key_pair() == old(self).key_pair(),
            exists|sig: Seq<u8>|
                sig.len() == 64 && final(self)@ == #[trigger] propose_step(old(self)@, sig),
            cast@ == propose_cast(old(self)@),
    {
        let payload = self.own_payload();
        let digest = digest_sha256(payload.as_slice());
        let sign = self.keypair.sign(digest.as_slice());
        let ghost sig = sign@;
        let cast = self.record_proposal(payload, digest, sign);
        assert(self@ == propose_step(old(self)@, sig));
        cast
    }

    /// Takes a message. What it does to the state and what goes out is what
    /// the message's kind says; a message that is not taken changes nothing.
    pub fn handle_message(&mut self, msg: Message) -> (out: Handled)
        requires
            old(self).wf(),
        ensures
            final(self).wf(),
            final(self).key_pair() == old(self).key_pair(),
            final(self)@ == message_step(old(self)@, msg@),
            answers_message(old(self)@, msg@, out),
    {
        let ghost v = old(self)@;
        let ghost m = msg@;
        let ghost zeros = Seq::new(64, |i: int| 0u8);
        match msg {
            Message::Syn { sender, pub_key } => {
                if !self.accepts_syn(sender) {
                    return Handled::RefusedSyn { sender };
                }
                self.handle_syn_msg(sender, pub_key);
                let casts: Vec<CastType> = Vec::new();
                assert(casts_view(casts@) =~= message_casts(v, m, zeros));
                Handled::Done { casts, delivered: None }
            },
            Message::Send { sender, rn, payload } => {
                if payload.len() as u64 > MAX_HASHED_LEN {
                    return Handled::Dropped;
                }
                let casts = self.handle_send_msg(sender, rn, payload);
                proof {
                    let sig = choose|sig: Seq<u8>|
                        sig.len() == 64 && casts_view(casts@) == #[trigger] send_casts(
                            v,
                            sender,
                            rn,
                            sig,
                        );
                    assert(casts_view(casts@) == message_casts(v, m, sig));
                }
                Handled::Done { casts, delivered: None }
            },
            Message::Echo { sender, rn, sign } => {
                let casts = self.handle_echo_msg(sender, rn, sign);
                assert(casts_view(casts@) == message_casts(v, m, zeros));
                Handled::Done { casts, delivered: None }
            },
            Message::Fin { sender, rn, sign_cnt, signs } => {
                let casts = self.handle_fin_msg(sender, rn, sign_cnt, signs);
                assert(casts_view(casts@) == message_casts(v, m, zeros));
                Handled::Done { casts, delivered: None }
            },
            Message::Sup { sender: _, rn, sign_cnt: _, signs: _, originator, payload: _ } => {
                let delivered_now = self.handle_sup_msg(originator, rn);
                let casts: Vec<CastType> = Vec::new();
                assert(casts_view(casts@) =~= message_casts(v, m, zeros));
                let delivered = if delivered_now {
                    Some(Delivery { originator, rn, own: originator == self.node_ind })
                } else {
                    None
                };
                Handled::Done { casts, delivered }
            },
        }
    }

    /// Takes a frame as it came from the transport: decodes it and takes the
    /// message. A frame that spells no message is dropped.
    pub fn handle_frame(&mut self, bytes: Bytes) -> (out: Handled)
        requires
            old(self).wf(),
        ensures
            final(self).wf(),
            final(self).key_pair() == old(self).key_pair(),
            answers_frame(old(self)@, final(self)@, bytes_contents(bytes), out),
    {
        match Message::decode(bytes_as_slice(&bytes)) {
            Err(_) => Handled::Dropped,
            Ok(msg) => self.handle_message(msg),
        }
    }
}

/// The bytes that a frame of `len` bytes puts on the wire when it goes to
/// `copies` nodes.
pub open spec fn wire_cost(len: nat, copies: nat) -> nat {
    len * copies
}

impl CastType {
    /// The bytes that this frame puts on the wire, where a frame for everyone
    /// goes to `peer_cnt` nodes.
    pub open spec fn cost(self, peer_cnt: nat) -> nat {
        match self {
            CastType::Unicast { bytes, .. } => bytes_contents(bytes).len(),
            CastType::Multicast { bytes } => wire_cost(bytes_contents(bytes).len(), peer_cnt),
        }
    }

    /// The bytes that this frame puts on the wire, where a frame for everyone
    /// goes to `peer_cnt` nodes; `None` where the number is beyond `usize`.
    pub fn wire_bytes(&self, peer_cnt: usize) -> (n: Option<usize>)
        ensures
            match n {
                Some(n) => n == self.cost(peer_cnt as nat),
                None => self.cost(peer_cnt as nat) > usize::MAX,
            },
    {
        match self {
            CastType::Unicast { bytes, .. } => Some(bytes_len(bytes)),
            CastType::Multicast { bytes } => {
                let len = bytes_len(bytes);
                assert((len as int) * (peer_cnt as int) <= 0xffff_ffff_ffff_ffff
                    * 0xffff_ffff_ffff_ffff) by (nonlinear_arith)
                    requires
                        0 <= len <= 0xffff_ffff_ffff_ffff,
                        0 <= peer_cnt <= 0xffff_ffff_ffff_ffff,
                ;
                let product = (len as u128) * (peer_cnt as u128);
                if product <= usize::MAX as u128 {
                    Some(product as usize)
                } else {
                    None
                }
            },
        }
    }
}

impl Sequencer {
    /// The key pair with which this node signs. It is the one that the node
    /// was made with, for good.
    pub closed spec fn key_pair(&self) -> KeyPair {
        self.keypair
    }

    /// The public key that this node announces.
    pub open spec fn public_key(&self) -> Seq<u8> {
        self.key_pair().public_key()
    }

    /// The frame with which this node announces its public key to its peers.
    pub fn greeting(&self) -> (b: Bytes)
        ensures
            bytes_contents(b) == encode_spec(
                MessageView::Syn { sender: self@.node_ind, pub_key: self.public_key() },
            ),
    {
        let syn_msg = Message::Syn { sender: self.node_ind, pub_key: self.keypair.public_key_vec() };
        frame_of(&syn_msg)
    }

    /// The indices of all nodes but this one, in order.
    pub fn peers(&self) -> (peers: Vec<u32>)
        requires
            self.wf(),
        ensures
            peers@ == Seq::new((self@.num_nodes - 1) as nat, |k: int| peer_at(self@.node_ind, k)),
    {
        let mut peers: Vec<u32> = Vec::new();
        let mut i: u32 = 0;
        while i < self.num_nodes
            invariant
                i <= self.num_nodes,
                self.node_ind < self.num_nodes,
                peers@.len() == if i <= self.node_ind {
                    i as int
                } else {
                    i - 1
                },
                forall|k: int| 0 <= k < peers@.len() ==> peers@[k] == peer_at(self.node_ind, k),
            decreases self.num_nodes - i,
        {
            if i != self.node_ind {
                peers.push(i);
            }
            i += 1;
        }
        assert(peers@ =~= Seq::new(
            (self@.num_nodes - 1) as nat,
            |k: int| peer_at(self@.node_ind, k),
        ));
        peers
    }

    /// This node's index.
    pub fn node_ind(&self) -> (i: u32)
        ensures
            i == self@.node_ind,
    {
        self.node_ind
    }

    /// The number of nodes.
    pub fn num_nodes(&self) -> (n: u32)
        ensures
            n == self@.num_nodes,
    {
        self.num_nodes
    }

    /// The number of faulty nodes that the protocol bears.
    pub fn f_cnt(&self) -> (f: usize)
        requires
            self.wf(),
        ensures
            f == self@.f_cnt(),
    {
        self.f_cnt
    }

    /// The length of the payloads that this node proposes.
    pub fn payload_size(&self) -> (n: usize)
        ensures
            n == self@.payload_size,
    {
        self.payload_size
    }

    /// The round that this node proposes next.
    pub fn curr_round(&self) -> (r: u32)
        ensures
            r == self@.curr_round,
    {
        self.curr_round
    }

    /// The public key that node `sender` announced, if it announced one.
    pub fn peer_key(&self, sender: u32) -> (k: Option<Vec<u8>>)
        requires
            self.wf(),
        ensures
            match k {
                Some(k) => self@.peer_key(sender as int) == Some(k@),
                None => self@.peer_key(sender as int) is None,
            },
    {
        if sender >= self.num_nodes {
            None
        } else {
            match &self.peer_pkeys[sender as usize] {
                Some(k) => Some(copy_bytes(k)),
                None => None,
            }
        }
    }

    /// The payload of `originator` in round `rn`, if it is known.
    pub fn payload(&self, originator: u32, rn: u32) -> (p: Option<Vec<u8>>)
        requires
            self.wf(),
        ensures
            match p {
                Some(p) => self@.payload(originator as int, rn as int) == Some(p@),
                None => self@.payload(originator as int, rn as int) is None,
            },
    {
        if originator >= self.num_nodes {
            None
        } else {
            match read_slot(&self.tx_list, originator as usize, rn as usize) {
                Some(p) => Some(copy_bytes(p)),
                None => None,
            }
        }
    }

    /// The digest of the payload of `originator` in round `rn`, if it is known.
    pub fn hash(&self, originator: u32, rn: u32) -> (h: Option<Vec<u8>>)
        requires
            self.wf(),
        ensures
            match h {
                Some(h) => self@.hash(originator as int, rn as int) == Some(h@),
                None => self@.hash(originator as int, rn as int) is None,
            },
    {
        if originator >= self.num_nodes {
            None
        } else {
            match read_slot(&self.hash_list, originator as usize, rn as usize) {
                Some(h) => Some(copy_bytes(h)),
                None => None,
            }
        }
    }

    /// The signatures collected for this node's proposal of round `rn`.
    pub fn echoes(&self, rn: u32) -> (signs: Vec<(u32, Vec<u8>)>)
        ensures
            signs_view(signs@) == self@.echoes(rn as int),
    {
        if (rn as usize) < self.echo_list.len() {
            copy_signs(&self.echo_list[rn as usize])
        } else {
            let signs: Vec<(u32, Vec<u8>)> = Vec::new();
            assert(signs_view(signs@) =~= self@.echoes(rn as int));
            signs
        }
    }

    /// Whether this node has sent its ECHO for `(originator, rn)`.
    pub fn has_sent_echo(&self, originator: u32, rn: u32) -> (b: bool)
        requires
            self.wf(),
        ensures
            b == self@.has_sent_echo(originator as int, rn as int),
    {
        originator < self.num_nodes && read_flag(
            &self.sent_echo,
            originator as usize,
            rn as usize,
        )
    }

    /// Whether this node has sent the FIN of its proposal of round `rn`.
    pub fn has_sent_fin(&self, rn: u32) -> (b: bool)
        ensures
            b == self@.has_sent_fin(rn as int),
    {
        (rn as usize) < self.sent_fin.len() && self.sent_fin[rn as usize]
    }

    /// Whether this node has looked at a FIN for `(originator, rn)`.
    pub fn has_sent_sup(&self, originator: u32, rn: u32) -> (b: bool)
        requires
            self.wf(),
        ensures
            b == self@.has_sent_sup(originator as int, rn as int),
    {
        originator < self.num_nodes && read_flag(&self.sent_sup, originator as usize, rn as usize)
    }

    /// Whether the payload of `originator` in round `rn` is delivered.
    pub fn is_delivered(&self, originator: u32, rn: u32) -> (b: bool)
        requires
            self.wf(),
        ensures
            b == self@.is_delivered(originator as int, rn as int),
    {
        originator < self.num_nodes && read_flag(
            &self.delivered,
            originator as usize,
            rn as usize,
        )
    }

    /// The confirmations counted for the payload of `originator` in round `rn`.
    pub fn sup_count(&self, originator: u32, rn: u32) -> (c: u32)
        requires
            self.wf(),
        ensures
            c == self@.sup_count(originator as int, rn as int),
    {
        if originator < self.num_nodes {
            read_counter(&self.recv_sup_cnt, originator as usize, rn as usize)
        } else {
            0
        }
    }
}

} // verus!
