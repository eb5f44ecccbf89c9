use bytes::Bytes;
use ring::rand::SystemRandom;
use ring::signature::Ed25519KeyPair;
use sequencer::measure::MeasureDs;
use sequencer::message::Message;
use sequencer::sequencer::{CastType, Delivery, Handled, Sequencer};
use ring::digest::{digest, SHA256};
use sequencer::signature::KeyPair;
use std::collections::VecDeque;

fn digest_sha256(data: &[u8]) -> Vec<u8> {
    digest(&SHA256, data).as_ref().to_vec()
}

fn document() -> Vec<u8> {
    Ed25519KeyPair::generate_pkcs8(&SystemRandom::new()).unwrap().as_ref().to_vec()
}

fn node(ind: u32, n: u32, payload_size: usize, doc: &[u8]) -> Sequencer {
    Sequencer::new(ind, n, payload_size, KeyPair::from_pkcs8(doc).unwrap())
}

/// Four nodes that know each other's keys, and the documents of their keys.
fn cluster(n: u32, payload_size: usize) -> (Vec<Sequencer>, Vec<Vec<u8>>) {
    let docs: Vec<Vec<u8>> = (0..n).map(|_| document()).collect();
    let mut nodes: Vec<Sequencer> =
        (0..n).map(|i| node(i, n, payload_size, &docs[i as usize])).collect();
    for i in 0..n as usize {
        let greeting = nodes[i].greeting();
        for j in 0..n as usize {
            if i != j {
                assert!(matches!(
                    nodes[j].handle_frame(greeting.clone()),
                    Handled::Done { .. }
                ));
            }
        }
    }
    (nodes, docs)
}

fn casts_of(handled: Handled) -> Vec<CastType> {
    match handled {
        Handled::Done { casts, .. } => casts,
        _ => panic!("the message was not taken"),
    }
}

/// Carries frames between the nodes until none is left.
fn deliver_all(nodes: &mut Vec<Sequencer>, first: Vec<(usize, CastType)>) -> Vec<(usize, Delivery)> {
    let n = nodes.len();
    let mut queue: VecDeque<(usize, usize, Bytes)> = VecDeque::new();
    let mut deliveries = Vec::new();
    let mut put = |queue: &mut VecDeque<(usize, usize, Bytes)>, from: usize, cast: CastType| {
        match cast {
            CastType::Unicast { dest, bytes } => queue.push_back((from, dest as usize, bytes)),
            CastType::Multicast { bytes } => {
                for to in 0..n {
                    if to != from {
                        queue.push_back((from, to, bytes.clone()));
                    }
                }
            }
        }
    };
    for (from, cast) in first {
        put(&mut queue, from, cast);
    }
    while let Some((_from, to, bytes)) = queue.pop_front() {
        match nodes[to].handle_frame(bytes) {
            Handled::Done { casts, delivered } => {
                if let Some(d) = delivered {
                    deliveries.push((to, d));
                }
                for cast in casts {
                    put(&mut queue, to, cast);
                }
            }
            _ => panic!("a frame between honest nodes was not taken"),
        }
    }
    deliveries
}

#[test]
fn test_new_sequencer() {
    let sequencer = node(0, 4, 8, &document());
    assert_eq!(sequencer.node_ind(), 0);
    assert_eq!(sequencer.num_nodes(), 4);
    assert_eq!(sequencer.f_cnt(), 1);
    assert!(!sequencer.has_sent_fin(0));
    assert_eq!(sequencer.curr_round(), 0);
    assert_eq!(sequencer.payload_size(), 8);
    assert_eq!(sequencer.peers(), vec![1, 2, 3]);
}

#[test]
fn test_append_echo() {
    let mut sequencer = node(0, 4, 8, &document());
    let sender = 1;
    let round = 0;
    let sign = vec![1, 2, 3, 4];
    sequencer.append_echo(round, sender, sign.clone());
    assert_eq!(sequencer.echoes(0).len(), 1);
    assert_eq!(sequencer.echoes(0), vec![(sender, sign)]);
}

#[test]
fn append_echo_keeps_one_signature_per_signer() {
    let mut sequencer = node(0, 4, 8, &document());
    sequencer.append_echo(2, 1, vec![1]);
    sequencer.append_echo(2, 3, vec![3]);
    sequencer.append_echo(2, 1, vec![9]);
    assert_eq!(sequencer.echoes(2), vec![(1, vec![1]), (3, vec![3])]);
    assert_eq!(sequencer.echoes(0), vec![]);
    assert_eq!(sequencer.echoes(1), vec![]);
    assert!(sequencer.got_enough_echo(2, 2));
    assert!(!sequencer.got_enough_echo(2, 3));
    assert!(!sequencer.got_enough_echo(7, 1));
}

#[test]
fn quorum_follows_the_number_of_nodes() {
    for (n, f) in [(1u32, 0usize), (3, 0), (4, 1), (6, 1), (7, 2), (10, 3), (100, 33)] {
        assert_eq!(node(0, n, 0, &document()).f_cnt(), f);
    }
}

#[test]
fn peers_are_all_nodes_but_this_one() {
    assert_eq!(node(2, 5, 0, &document()).peers(), vec![0, 1, 3, 4]);
    assert_eq!(node(4, 5, 0, &document()).peers(), vec![0, 1, 2, 3]);
    assert_eq!(node(0, 1, 0, &document()).peers(), Vec::<u32>::new());
}

#[test]
fn greeting_announces_the_public_key() {
    let doc = document();
    let kp = KeyPair::from_pkcs8(&doc).unwrap();
    let seq = node(3, 4, 8, &doc);
    match Message::from_bytes(seq.greeting()).unwrap() {
        Message::Syn { sender, pub_key } => {
            assert_eq!(sender, 3);
            assert_eq!(pub_key, kp.pub_key);
        }
        _ => panic!(),
    }
}

#[test]
fn syn_is_taken_once() {
    let mut seq = node(0, 4, 8, &document());
    assert!(seq.accepts_syn(1));
    assert!(seq.peer_key(1).is_none());
    let syn = Message::Syn { sender: 1, pub_key: vec![7; 32] };
    assert!(matches!(seq.handle_message(syn), Handled::Done { .. }));
    assert_eq!(seq.peer_key(1), Some(vec![7; 32]));
    assert!(!seq.accepts_syn(1));
    let again = Message::Syn { sender: 1, pub_key: vec![8; 32] };
    assert!(matches!(seq.handle_message(again), Handled::RefusedSyn { sender: 1 }));
    assert_eq!(seq.peer_key(1), Some(vec![7; 32]));
    let stranger = Message::Syn { sender: 4, pub_key: vec![8; 32] };
    assert!(matches!(seq.handle_message(stranger), Handled::RefusedSyn { sender: 4 }));
}

#[test]
fn malformed_frame_is_dropped() {
    let mut seq = node(0, 4, 8, &document());
    assert!(matches!(seq.handle_frame(Bytes::from(vec![9u8, 1, 2])), Handled::Dropped));
    assert!(matches!(seq.handle_frame(Bytes::new()), Handled::Dropped));
}

#[test]
fn propose_stores_payload_digest_and_own_echo() {
    let doc = document();
    let kp = KeyPair::from_pkcs8(&doc).unwrap();
    let mut seq = node(2, 4, 8, &doc);
    assert!(seq.ready_to_propose());
    assert_eq!(seq.own_payload(), vec![2u8; 8]);
    let cast = seq.propose();
    match cast {
        CastType::Multicast { bytes } => match Message::from_bytes(bytes).unwrap() {
            Message::Send { sender, rn, payload } => {
                assert_eq!(sender, 2);
                assert_eq!(rn, 0);
                assert_eq!(payload, vec![2u8; 8]);
            }
            _ => panic!(),
        },
        _ => panic!(),
    }
    assert_eq!(seq.curr_round(), 1);
    assert_eq!(seq.payload(2, 0), Some(vec![2u8; 8]));
    let digest = digest_sha256(&[2u8; 8]);
    assert_eq!(seq.hash(2, 0), Some(digest.clone()));
    let echoes = seq.echoes(0);
    assert_eq!(echoes.len(), 1);
    assert_eq!(echoes[0].0, 2);
    assert!(KeyPair::verify_signature(&kp.pub_key, &digest, &echoes[0].1));
    assert!(!seq.has_sent_echo(2, 0));
    let second = seq.propose();
    assert!(matches!(second, CastType::Multicast { .. }));
    assert_eq!(seq.curr_round(), 2);
    assert_eq!(seq.payload(2, 1), Some(vec![2u8; 8]));
}

#[test]
fn payload_bytes_are_the_low_byte_of_the_index() {
    let seq = node(258, 300, 3, &document());
    assert_eq!(seq.own_payload(), vec![2u8; 3]);
}

#[test]
fn send_is_answered_with_one_signed_echo() {
    let doc = document();
    let kp = KeyPair::from_pkcs8(&doc).unwrap();
    let mut seq = node(1, 4, 8, &doc);
    let casts = seq.handle_send_msg(0, 5, vec![42; 8]);
    assert_eq!(casts.len(), 1);
    match &casts[0] {
        CastType::Unicast { dest, bytes } => {
            assert_eq!(*dest, 0);
            match Message::from_bytes(bytes.clone()).unwrap() {
                Message::Echo { sender, rn, sign } => {
                    assert_eq!(sender, 1);
                    assert_eq!(rn, 5);
                    assert!(KeyPair::verify_signature(
                        &kp.pub_key,
                        &digest_sha256(&[42; 8]),
                        &sign
                    ));
                }
                _ => panic!(),
            }
        }
        _ => panic!(),
    }
    assert!(seq.has_sent_echo(0, 5));
    assert!(!seq.has_sent_echo(0, 4));
    assert_eq!(seq.payload(0, 5), Some(vec![42; 8]));
    assert_eq!(seq.hash(0, 5), Some(digest_sha256(&[42; 8])));
    assert_eq!(seq.payload(0, 4), None);
    assert_eq!(seq.hash(0, 4), None);
}

#[test]
fn send_duplicate_gets_exactly_one_echo() {
    let mut seq = node(1, 4, 8, &document());
    let send = Message::Send { sender: 0, rn: 0, payload: vec![42; 8] }.to_bytes().unwrap();
    let first = casts_of(seq.handle_frame(send.clone()));
    let second = casts_of(seq.handle_frame(send));
    assert_eq!(first.len(), 1);
    assert_eq!(second.len(), 0);
    // another payload under the same originator and round changes nothing
    let third = seq.handle_send_msg(0, 0, vec![1; 8]);
    assert_eq!(third.len(), 0);
    assert_eq!(seq.payload(0, 0), Some(vec![42; 8]));
}

#[test]
fn send_of_no_node_is_dropped() {
    let mut seq = node(1, 4, 8, &document());
    assert_eq!(seq.handle_send_msg(4, 0, vec![1]).len(), 0);
    assert_eq!(seq.payload(4, 0), None);
    assert!(!seq.has_sent_echo(4, 0));
}

#[test]
fn happy_path_four_nodes_deliver_all_proposals() {
    let (mut nodes, _docs) = cluster(4, 8);
    let mut first = Vec::new();
    for i in 0..4 {
        first.push((i, nodes[i].propose()));
    }
    let deliveries = deliver_all(&mut nodes, first);
    for i in 0..4 {
        for o in 0..4u32 {
            assert!(nodes[i].is_delivered(o, 0), "node {} originator {}", i, o);
            assert!(nodes[i].sup_count(o, 0) >= 3);
            assert_eq!(nodes[i].payload(o, 0), Some(vec![o as u8; 8]));
        }
        assert!(nodes[i].has_sent_fin(0));
        assert!(nodes[i].echoes(0).len() >= 3);
    }
    // every signature that a node collected is accepted for the digest of
    // its proposal under the key of its signer
    for i in 0..4usize {
        let digest = nodes[i].hash(i as u32, 0).unwrap();
        for (signer, sign) in nodes[i].echoes(0) {
            let key = KeyPair::from_pkcs8(&_docs[signer as usize]).unwrap().pub_key;
            assert!(KeyPair::verify_signature(&key, &digest, &sign));
        }
    }
    // each payload is delivered once on each node
    assert_eq!(deliveries.len(), 16);
    for i in 0..4usize {
        for o in 0..4u32 {
            let hits: Vec<&(usize, Delivery)> = deliveries
                .iter()
                .filter(|(at, d)| *at == i && d.originator == o && d.rn == 0)
                .collect();
            assert_eq!(hits.len(), 1);
            assert_eq!(hits[0].1.own, o as usize == i);
        }
    }
}

#[test]
fn happy_path_with_payload_of_42() {
    // node 0 takes eight bytes of 42 as its proposal of round 0 and signs it
    let (mut nodes, _docs) = cluster(4, 8);
    let payload = vec![42u8; 8];
    let own = nodes[0].handle_send_msg(0, 0, payload.clone());
    assert_eq!(own.len(), 1);
    match &own[0] {
        CastType::Unicast { bytes, .. } => match Message::from_bytes(bytes.clone()).unwrap() {
            Message::Echo { sign, .. } => nodes[0].append_echo(0, 0, sign),
            _ => panic!(),
        },
        _ => panic!(),
    }
    let send = Message::Send { sender: 0, rn: 0, payload: payload.clone() };
    let first = vec![(0usize, CastType::Multicast { bytes: send.to_bytes().unwrap() })];
    let deliveries = deliver_all(&mut nodes, first);
    for i in 0..4 {
        assert!(nodes[i].is_delivered(0, 0));
        assert!(nodes[i].sup_count(0, 0) >= 3);
        assert_eq!(nodes[i].payload(0, 0), Some(payload.clone()));
        assert_eq!(nodes[i].hash(0, 0), Some(digest_sha256(&payload)));
    }
    assert_eq!(deliveries.len(), 4);
}

#[test]
fn two_rounds_in_a_row_are_delivered() {
    let (mut nodes, _docs) = cluster(4, 4);
    for round in 0..2u32 {
        let mut first = Vec::new();
        for i in 0..4 {
            first.push((i, nodes[i].propose()));
        }
        deliver_all(&mut nodes, first);
        for i in 0..4 {
            for o in 0..4u32 {
                assert!(nodes[i].is_delivered(o, round));
            }
        }
    }
    assert!(!nodes[0].is_delivered(0, 2));
}

#[test]
fn forged_echo_is_dropped() {
    let (mut nodes, docs) = cluster(4, 8);
    let _send = nodes[0].propose();
    let digest = nodes[0].hash(0, 0).unwrap();
    let forged = KeyPair::from_pkcs8(&docs[2]).unwrap().sign(&digest);
    let before = nodes[0].echoes(0).len();
    let casts = nodes[0].handle_echo_msg(1, 0, forged.clone());
    assert_eq!(casts.len(), 0);
    assert_eq!(nodes[0].echoes(0).len(), before);
    assert!(!nodes[0].has_sent_fin(0));
    // the same signature under its true signer is taken
    let casts = nodes[0].handle_echo_msg(2, 0, forged);
    assert_eq!(casts.len(), 0);
    assert_eq!(nodes[0].echoes(0).len(), before + 1);
}

#[test]
fn echo_of_a_node_without_key_is_dropped() {
    let doc0 = document();
    let doc1 = document();
    let mut seq = node(0, 4, 8, &doc0);
    seq.propose();
    let digest = seq.hash(0, 0).unwrap();
    let sign = KeyPair::from_pkcs8(&doc1).unwrap().sign(&digest);
    assert_eq!(seq.handle_echo_msg(1, 0, sign.clone()).len(), 0);
    assert_eq!(seq.echoes(0).len(), 1);
    assert_eq!(seq.handle_echo_msg(9, 0, sign).len(), 0);
    assert_eq!(seq.echoes(0).len(), 1);
}

#[test]
fn quorum_of_echoes_sends_fin_and_sup_once() {
    let (mut nodes, docs) = cluster(4, 8);
    nodes[0].propose();
    let digest = nodes[0].hash(0, 0).unwrap();
    let sig1 = KeyPair::from_pkcs8(&docs[1]).unwrap().sign(&digest);
    let sig2 = KeyPair::from_pkcs8(&docs[2]).unwrap().sign(&digest);
    let sig3 = KeyPair::from_pkcs8(&docs[3]).unwrap().sign(&digest);
    assert_eq!(nodes[0].handle_echo_msg(1, 0, sig1.clone()).len(), 0);
    assert!(!nodes[0].has_sent_fin(0));
    assert_eq!(nodes[0].sup_count(0, 0), 0);
    // a second ECHO of the same signer does not count twice
    assert_eq!(nodes[0].handle_echo_msg(1, 0, sig1.clone()).len(), 0);
    assert_eq!(nodes[0].echoes(0).len(), 2);
    let casts = nodes[0].handle_echo_msg(2, 0, sig2.clone());
    assert_eq!(casts.len(), 2);
    assert!(nodes[0].has_sent_fin(0));
    assert_eq!(nodes[0].sup_count(0, 0), 1);
    assert!(!nodes[0].is_delivered(0, 0));
    let own = nodes[0].echoes(0)[0].1.clone();
    let expected = vec![(0u32, own), (1u32, sig1), (2u32, sig2)];
    match &casts[0] {
        CastType::Multicast { bytes } => match Message::from_bytes(bytes.clone()).unwrap() {
            Message::Fin { sender, rn, sign_cnt, signs } => {
                assert_eq!((sender, rn, sign_cnt), (0, 0, 3));
                assert_eq!(signs, expected);
            }
            _ => panic!(),
        },
        _ => panic!(),
    }
    match &casts[1] {
        CastType::Multicast { bytes } => match Message::from_bytes(bytes.clone()).unwrap() {
            Message::Sup { sender, rn, sign_cnt, signs, originator, payload } => {
                assert_eq!((sender, rn, sign_cnt, originator), (0, 0, 3, 0));
                assert_eq!(signs, expected);
                assert_eq!(payload, Vec::<u8>::new());
            }
            _ => panic!(),
        },
        _ => panic!(),
    }
    // the fourth signature is kept, but no second FIN goes out
    assert_eq!(nodes[0].handle_echo_msg(3, 0, sig3).len(), 0);
    assert_eq!(nodes[0].echoes(0).len(), 4);
    assert_eq!(nodes[0].sup_count(0, 0), 1);
}

#[test]
fn out_of_order_echo_is_dropped_and_fresh_ones_restore_quorum() {
    let (mut nodes, docs) = cluster(4, 8);
    let digest = digest_sha256(&[0u8; 8]);
    let sig1 = KeyPair::from_pkcs8(&docs[1]).unwrap().sign(&digest);
    let sig2 = KeyPair::from_pkcs8(&docs[2]).unwrap().sign(&digest);
    let early = Message::Echo { sender: 1, rn: 0, sign: sig1.clone() }.to_bytes().unwrap();
    let casts = casts_of(nodes[0].handle_frame(early));
    assert_eq!(casts.len(), 0);
    assert_eq!(nodes[0].echoes(0).len(), 0);
    nodes[0].propose();
    assert_eq!(nodes[0].echoes(0).len(), 1);
    assert_eq!(nodes[0].handle_echo_msg(1, 0, sig1).len(), 0);
    assert_eq!(nodes[0].handle_echo_msg(2, 0, sig2).len(), 2);
    assert!(nodes[0].has_sent_fin(0));
}

#[test]
fn fin_with_only_2f_signatures_is_dropped() {
    let (mut nodes, docs) = cluster(4, 8);
    let payload = vec![0u8; 8];
    let digest = digest_sha256(&payload);
    assert_eq!(nodes[1].handle_send_msg(0, 0, payload).len(), 1);
    let sig0 = KeyPair::from_pkcs8(&docs[0]).unwrap().sign(&digest);
    let sig2 = KeyPair::from_pkcs8(&docs[2]).unwrap().sign(&digest);
    let casts = nodes[1].handle_fin_msg(0, 0, 2, vec![(0, sig0), (2, sig2)]);
    assert_eq!(casts.len(), 0);
    assert_eq!(nodes[1].sup_count(0, 0), 0);
    assert!(!nodes[1].is_delivered(0, 0));
    // the FIN was looked at: a later one for the same proposal is not
    assert!(nodes[1].has_sent_sup(0, 0));
}

#[test]
fn fin_with_a_forged_signature_does_not_pass() {
    let (mut nodes, docs) = cluster(4, 8);
    let payload = vec![0u8; 8];
    let digest = digest_sha256(&payload);
    nodes[1].handle_send_msg(0, 0, payload);
    let sig0 = KeyPair::from_pkcs8(&docs[0]).unwrap().sign(&digest);
    let sig2 = KeyPair::from_pkcs8(&docs[2]).unwrap().sign(&digest);
    let casts = nodes[1].handle_fin_msg(0, 0, 3, vec![(0, sig0), (2, sig2.clone()), (3, sig2)]);
    assert_eq!(casts.len(), 0);
    assert_eq!(nodes[1].sup_count(0, 0), 0);
}

#[test]
fn fin_with_quorum_sends_sup_to_every_other_node() {
    let (mut nodes, docs) = cluster(4, 8);
    let payload = vec![0u8; 8];
    let digest = digest_sha256(&payload);
    nodes[1].handle_send_msg(0, 0, payload.clone());
    let sig0 = KeyPair::from_pkcs8(&docs[0]).unwrap().sign(&digest);
    let sig2 = KeyPair::from_pkcs8(&docs[2]).unwrap().sign(&digest);
    // this node's own entry counts unasked
    let signs = vec![(0u32, sig0), (1u32, vec![0; 64]), (2u32, sig2)];
    let casts = nodes[1].handle_fin_msg(0, 0, 3, signs.clone());
    assert_eq!(casts.len(), 3);
    assert_eq!(nodes[1].sup_count(0, 0), 1);
    assert!(!nodes[1].is_delivered(0, 0));
    let mut dests = Vec::new();
    for cast in &casts {
        match cast {
            CastType::Unicast { dest, bytes } => {
                dests.push(*dest);
                match Message::from_bytes(bytes.clone()).unwrap() {
                    Message::Sup { sender, rn, sign_cnt, signs: got, originator, payload: p } => {
                        assert_eq!((sender, rn, sign_cnt, originator), (1, 0, 3, 0));
                        assert_eq!(got, signs);
                        if *dest == 3 {
                            assert_eq!(p, payload);
                        } else {
                            assert_eq!(p, Vec::<u8>::new());
                        }
                    }
                    _ => panic!(),
                }
            }
            _ => panic!(),
        }
    }
    assert_eq!(dests, vec![0, 2, 3]);
    // a second FIN for the same proposal changes nothing
    assert_eq!(nodes[1].handle_fin_msg(0, 0, 3, signs).len(), 0);
    assert_eq!(nodes[1].sup_count(0, 0), 1);
}

#[test]
fn fin_whose_count_does_not_fit_is_rejected_unseen() {
    let (mut nodes, _docs) = cluster(4, 8);
    nodes[1].handle_send_msg(0, 0, vec![0u8; 8]);
    assert_eq!(nodes[1].handle_fin_msg(0, 0, 2, vec![(0, vec![0; 64])]).len(), 0);
    assert!(!nodes[1].has_sent_sup(0, 0));
}

#[test]
fn fin_before_the_send_finds_no_digest() {
    let (mut nodes, docs) = cluster(4, 8);
    let digest = digest_sha256(&[0u8; 8]);
    let signs: Vec<(u32, Vec<u8>)> = (0..3u32)
        .map(|i| (i, KeyPair::from_pkcs8(&docs[i as usize]).unwrap().sign(&digest)))
        .collect();
    assert_eq!(nodes[3].handle_fin_msg(0, 0, 3, signs).len(), 0);
    assert!(nodes[3].has_sent_sup(0, 0));
    assert_eq!(nodes[3].sup_count(0, 0), 0);
}

#[test]
fn delivery_comes_with_the_third_confirmation_and_stays() {
    let mut seq = node(1, 4, 8, &document());
    assert!(!seq.handle_sup_msg(0, 2));
    assert!(!seq.handle_sup_msg(0, 2));
    assert_eq!(seq.sup_count(0, 2), 2);
    assert!(!seq.is_delivered(0, 2));
    assert!(seq.handle_sup_msg(0, 2));
    assert!(seq.is_delivered(0, 2));
    assert_eq!(seq.sup_count(0, 2), 3);
    assert!(!seq.handle_sup_msg(0, 2));
    assert!(seq.is_delivered(0, 2));
    assert_eq!(seq.sup_count(0, 2), 4);
    assert!(!seq.is_delivered(0, 1));
    assert!(!seq.is_delivered(1, 2));
    assert_eq!(seq.sup_count(0, 0), 0);
}

#[test]
fn sup_reports_whose_payload_was_delivered() {
    let mut seq = node(1, 1, 8, &document());
    // one node: f = 0, the quorum is 1
    let sup = Message::Sup {
        sender: 0,
        rn: 3,
        sign_cnt: 0,
        signs: vec![],
        originator: 0,
        payload: vec![],
    };
    match seq.handle_message(sup) {
        Handled::Done { casts, delivered } => {
            assert_eq!(casts.len(), 0);
            assert_eq!(delivered, Some(Delivery { originator: 0, rn: 3, own: false }));
        }
        _ => panic!(),
    }
    let mut own = node(0, 1, 8, &document());
    let sup = Message::Sup {
        sender: 0,
        rn: 0,
        sign_cnt: 0,
        signs: vec![],
        originator: 0,
        payload: vec![],
    };
    match own.handle_message(sup) {
        Handled::Done { delivered, .. } => {
            assert_eq!(delivered, Some(Delivery { originator: 0, rn: 0, own: true }));
        }
        _ => panic!(),
    }
}

#[test]
fn sup_of_no_node_changes_nothing() {
    let mut seq = node(1, 4, 8, &document());
    assert!(!seq.handle_sup_msg(4, 0));
    assert!(!seq.handle_sup_msg(4, 0));
    assert!(!seq.handle_sup_msg(4, 0));
    assert!(!seq.is_delivered(4, 0));
    assert_eq!(seq.sup_count(4, 0), 0);
}

#[test]
fn wire_bytes_count_every_copy() {
    let uni = CastType::Unicast { dest: 1, bytes: Bytes::from(vec![0u8; 10]) };
    let multi = CastType::Multicast { bytes: Bytes::from(vec![0u8; 10]) };
    assert_eq!(uni.wire_bytes(3), Some(10));
    assert_eq!(multi.wire_bytes(3), Some(30));
    assert_eq!(multi.wire_bytes(0), Some(0));
    assert_eq!(multi.wire_bytes(usize::MAX), None);
}

#[test]
fn own_delivery_gives_the_round_a_finite_latency() {
    let (mut nodes, _docs) = cluster(4, 8);
    let mut measure = MeasureDs::new();
    measure.append_round(5000);
    let mut first = Vec::new();
    for i in 0..4 {
        first.push((i, nodes[i].propose()));
    }
    let deliveries = deliver_all(&mut nodes, first);
    for (at, delivery) in deliveries {
        if at == 0 && delivery.own {
            assert_eq!(delivery.originator, 0);
            measure.measure_latency(delivery.rn as usize, 5012);
        }
    }
    measure.append_round(6000);
    let lines = measure.write_measurements(0, 4, 8);
    assert_eq!(lines[0], "index: 0, node_num: 4, payload_size: 8");
    assert_eq!(lines[1], "r000: 12 0 0");
    assert_eq!(lines[2], "r001: INF 0 0");
}

#[test]
fn counted_bytes_follow_the_frames_sent() {
    let mut seq = node(0, 4, 8, &document());
    let mut measure = MeasureDs::new();
    measure.append_round(0);
    let cast = seq.propose();
    // tag, sender, round and eight bytes of payload, to three peers
    let cost = cast.wire_bytes(seq.peers().len()).unwrap();
    assert_eq!(cost, 3 * (1 + 4 + 4 + 8));
    measure.incr_bytes_sent(cost);
    measure.append_round(1000);
    assert_eq!(measure.write_measurements(0, 4, 8)[2], "r001: INF 51 0");
}

#[test]
fn record_send_keeps_what_it_is_handed() {
    let mut seq = node(1, 4, 8, &document());
    let casts = seq.record_send(2, 3, vec![5, 6], vec![7; 32], vec![9; 64]);
    assert_eq!(casts.len(), 1);
    match &casts[0] {
        CastType::Unicast { dest, bytes } => {
            assert_eq!(*dest, 2);
            let mut frame = vec![2u8, 1, 0, 0, 0, 3, 0, 0, 0];
            frame.extend_from_slice(&[9; 64]);
            assert_eq!(*bytes, frame);
        }
        _ => panic!(),
    }
    assert_eq!(seq.payload(2, 3), Some(vec![5, 6]));
    assert_eq!(seq.hash(2, 3), Some(vec![7; 32]));
    assert_eq!(seq.payload(2, 2), None);
    assert!(seq.has_sent_echo(2, 3));
    assert_eq!(seq.record_send(2, 3, vec![1], vec![8; 32], vec![9; 64]).len(), 0);
    assert_eq!(seq.hash(2, 3), Some(vec![7; 32]));
}

#[test]
fn record_proposal_keeps_what_it_is_handed() {
    let mut seq = node(1, 4, 2, &document());
    let cast = seq.record_proposal(vec![1, 1], vec![7; 32], vec![9; 64]);
    match cast {
        CastType::Multicast { bytes } => {
            assert_eq!(bytes, vec![1u8, 1, 0, 0, 0, 0, 0, 0, 0, 1, 1]);
        }
        _ => panic!(),
    }
    assert_eq!(seq.payload(1, 0), Some(vec![1, 1]));
    assert_eq!(seq.hash(1, 0), Some(vec![7; 32]));
    assert_eq!(seq.echoes(0), vec![(1, vec![9; 64])]);
    assert_eq!(seq.curr_round(), 1);
    let cast = seq.record_proposal(vec![1, 1], vec![8; 32], vec![3; 64]);
    match cast {
        CastType::Multicast { bytes } => {
            assert_eq!(bytes, vec![1u8, 1, 0, 0, 0, 1, 0, 0, 0, 1, 1]);
        }
        _ => panic!(),
    }
    assert_eq!(seq.hash(1, 1), Some(vec![8; 32]));
    assert_eq!(seq.echoes(1), vec![(1, vec![3; 64])]);
}

#[test]
fn slots_grow_with_defaults_and_are_never_taken_away() {
    let mut seq = node(1, 4, 8, &document());
    seq.handle_send_msg(0, 5, vec![1]);
    assert!(!seq.has_sent_echo(0, 0));
    assert_eq!(seq.payload(0, 0), None);
    seq.handle_send_msg(0, 2, vec![2]);
    assert!(seq.has_sent_echo(0, 5));
    assert_eq!(seq.payload(0, 5), Some(vec![1]));
    assert_eq!(seq.payload(0, 2), Some(vec![2]));
    seq.handle_sup_msg(3, 9);
    assert_eq!(seq.sup_count(3, 9), 1);
    assert_eq!(seq.sup_count(3, 8), 0);
    assert!(!seq.is_delivered(3, 9));
}
