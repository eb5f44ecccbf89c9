use bytes::Bytes;
use sequencer::message::Message;

fn sig(fill: u8) -> Vec<u8> {
    vec![fill; 64]
}

#[test]
fn test_send_to_byte() {
    let msg = Message::Send {
        sender: 67305985,
        rn: 134678021,
        payload: [8, 9, 8, 9, 8, 9, 8, 9, 8, 9].to_vec(),
    };
    assert_eq!(
        msg.to_bytes().unwrap(),
        [1, 1, 2, 3, 4, 5, 6, 7, 8, 8, 9, 8, 9, 8, 9, 8, 9, 8, 9].to_vec()
    );
}

#[test]
fn test_send_from_byte() {
    let array: Vec<u8> = [1, 1, 2, 3, 4, 5, 6, 7, 8, 8, 9, 8, 9, 8, 9, 8, 9, 8, 9].to_vec();
    let msg = Message::from_bytes(Bytes::from(array)).unwrap();
    if let Message::Send { sender, rn, payload } = msg {
        assert_eq!(sender, 67305985);
        assert_eq!(rn, 134678021);
        assert_eq!(payload, [8, 9, 8, 9, 8, 9, 8, 9, 8, 9].to_vec());
    } else {
        panic!();
    }
}

#[test]
fn send_golden_frame_has_little_endian_fields() {
    let msg = Message::Send {
        sender: 0x04030201,
        rn: 0x07060504,
        payload: vec![8, 9, 8, 9, 8, 9, 8, 9, 8, 9],
    };
    assert_eq!(
        msg.encode(),
        vec![
            0x01, 0x01, 0x02, 0x03, 0x04, 0x04, 0x05, 0x06, 0x07, 0x08, 0x09, 0x08, 0x09, 0x08,
            0x09, 0x08, 0x09, 0x08, 0x09
        ]
    );
}

#[test]
fn syn_frame_is_tag_sender_key() {
    let msg = Message::Syn { sender: 3, pub_key: vec![0xaa, 0xbb] };
    assert_eq!(msg.encode(), vec![0, 3, 0, 0, 0, 0xaa, 0xbb]);
    match Message::decode(&[0, 3, 0, 0, 0, 0xaa, 0xbb]).unwrap() {
        Message::Syn { sender, pub_key } => {
            assert_eq!(sender, 3);
            assert_eq!(pub_key, vec![0xaa, 0xbb]);
        }
        _ => panic!(),
    }
}

#[test]
fn echo_frame_round_trips() {
    let msg = Message::Echo { sender: 0xfffffffe, rn: 256, sign: sig(7) };
    let frame = msg.encode();
    assert_eq!(frame.len(), 1 + 4 + 4 + 64);
    assert_eq!(&frame[..9], &[2, 0xfe, 0xff, 0xff, 0xff, 0, 1, 0, 0]);
    match Message::decode(&frame).unwrap() {
        Message::Echo { sender, rn, sign } => {
            assert_eq!(sender, 0xfffffffe);
            assert_eq!(rn, 256);
            assert_eq!(sign, sig(7));
        }
        _ => panic!(),
    }
}

#[test]
fn fin_frame_round_trips() {
    let signs = vec![(1u32, sig(1)), (0x01020304u32, sig(2)), (3u32, sig(3))];
    let msg = Message::Fin { sender: 9, rn: 2, sign_cnt: 3, signs: signs.clone() };
    let frame = msg.encode();
    assert_eq!(frame.len(), 13 + 3 * 68);
    assert_eq!(&frame[..13], &[3, 9, 0, 0, 0, 2, 0, 0, 0, 3, 0, 0, 0]);
    assert_eq!(&frame[13 + 68..13 + 72], &[4, 3, 2, 1]);
    assert_eq!(frame[13 + 72], 2);
    match Message::decode(&frame).unwrap() {
        Message::Fin { sender, rn, sign_cnt, signs: got } => {
            assert_eq!(sender, 9);
            assert_eq!(rn, 2);
            assert_eq!(sign_cnt, 3);
            assert_eq!(got, signs);
        }
        _ => panic!(),
    }
    assert_eq!(Message::decode(&frame).unwrap().encode(), frame);
}

#[test]
fn sup_frame_round_trips() {
    let signs = vec![(0u32, sig(5)), (2u32, sig(6))];
    let msg = Message::Sup {
        sender: 1,
        rn: 4,
        sign_cnt: 2,
        signs: signs.clone(),
        originator: 0x0a0b0c0d,
        payload: vec![1, 2, 3],
    };
    let frame = msg.encode();
    assert_eq!(frame.len(), 13 + 2 * 68 + 4 + 3);
    assert_eq!(&frame[13 + 136..], &[0x0d, 0x0c, 0x0b, 0x0a, 1, 2, 3]);
    match Message::decode(&frame).unwrap() {
        Message::Sup { sender, rn, sign_cnt, signs: got, originator, payload } => {
            assert_eq!(sender, 1);
            assert_eq!(rn, 4);
            assert_eq!(sign_cnt, 2);
            assert_eq!(got, signs);
            assert_eq!(originator, 0x0a0b0c0d);
            assert_eq!(payload, vec![1, 2, 3]);
        }
        _ => panic!(),
    }
}

#[test]
fn sup_with_empty_payload_and_no_signatures() {
    let msg = Message::Sup {
        sender: 0,
        rn: 0,
        sign_cnt: 0,
        signs: vec![],
        originator: 7,
        payload: vec![],
    };
    let frame = msg.encode();
    assert_eq!(frame, vec![4, 0, 0, 0, 0, 0, 0, 0, 0, 0, 0, 0, 0, 7, 0, 0, 0]);
    assert!(matches!(
        Message::decode(&frame),
        Ok(Message::Sup { originator: 7, sign_cnt: 0, .. })
    ));
}

#[test]
fn empty_frame_is_refused() {
    assert!(Message::decode(&[]).is_err());
    assert!(Message::from_bytes(Bytes::new()).is_err());
}

#[test]
fn unknown_tag_is_refused() {
    assert!(Message::decode(&[5, 0, 0, 0, 0, 0, 0, 0, 0]).is_err());
    assert!(Message::decode(&[0xff, 1, 2, 3, 4, 5]).is_err());
}

#[test]
fn short_fixed_fields_are_refused() {
    assert!(Message::decode(&[0, 1, 2, 3]).is_err());
    assert!(Message::decode(&[0, 1, 2, 3, 4]).is_ok());
    assert!(Message::decode(&[1, 1, 2, 3, 4, 5, 6, 7]).is_err());
    assert!(Message::decode(&[1, 1, 2, 3, 4, 5, 6, 7, 8]).is_ok());
    assert!(Message::decode(&[2, 1, 2, 3, 4, 5, 6, 7]).is_err());
    assert!(Message::decode(&[3, 0, 0, 0, 0, 0, 0, 0, 0, 0, 0, 0]).is_err());
    assert!(Message::decode(&[3, 0, 0, 0, 0, 0, 0, 0, 0, 0, 0, 0, 0]).is_ok());
    assert!(Message::decode(&[4, 0, 0, 0, 0, 0, 0, 0, 0, 0, 0, 0, 0, 1, 0, 0]).is_err());
}

#[test]
fn fin_trailer_must_hold_exactly_the_counted_entries() {
    let msg = Message::Fin { sender: 0, rn: 0, sign_cnt: 1, signs: vec![(1, sig(1))] };
    let mut frame = msg.encode();
    assert!(Message::decode(&frame).is_ok());
    frame.push(0);
    assert!(Message::decode(&frame).is_err());
    frame.pop();
    frame.pop();
    assert!(Message::decode(&frame).is_err());
    // a count of the largest number with nothing behind it
    assert!(Message::decode(&[3, 0, 0, 0, 0, 0, 0, 0, 0, 0xff, 0xff, 0xff, 0xff]).is_err());
}

#[test]
fn sup_trailer_must_reach_the_originator() {
    let msg = Message::Sup {
        sender: 0,
        rn: 0,
        sign_cnt: 1,
        signs: vec![(1, sig(1))],
        originator: 2,
        payload: vec![],
    };
    let mut frame = msg.encode();
    assert!(Message::decode(&frame).is_ok());
    frame.pop();
    assert!(Message::decode(&frame).is_err());
}

#[test]
fn encode_writes_signatures_of_any_length_as_they_are() {
    let msg = Message::Fin { sender: 0, rn: 0, sign_cnt: 5, signs: vec![(1, vec![9, 9])] };
    assert_eq!(msg.encode(), vec![3, 0, 0, 0, 0, 0, 0, 0, 0, 5, 0, 0, 0, 1, 0, 0, 0, 9, 9]);
}

#[test]
fn test_sequencer_msg_communication() {
    let test_message = Message::Syn { sender: 0, pub_key: vec![0; 32] };
    let serialized_message = test_message.to_bytes().unwrap();
    let received_message = Message::from_bytes(serialized_message).unwrap();
    match received_message {
        Message::Syn { sender, pub_key } => {
            assert_eq!(sender, 0);
            assert_eq!(pub_key, vec![0; 32]);
        }
        _ => panic!("Did not receive the message within the expected time"),
    }
}
