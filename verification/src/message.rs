//! Wire messages exchanged between sequencer nodes, and their byte encoding.
//!
//! A frame starts with a one-byte tag that names the kind of message. All
//! integers are little-endian, signatures take 64 bytes.

use bytes::Bytes;
use crate::frame::{bytes_as_slice, bytes_contents, bytes_from_vec};
use vstd::prelude::*;
use vstd::slice::{slice_subrange, slice_to_vec};

verus! {

pub const SYN_MSG: u8 = 0x0;

pub const SEND_MSG: u8 = 0x1;

pub const ECHO_MSG: u8 = 0x2;

pub const FIN_MSG: u8 = 0x3;

pub const SUP_MSG: u8 = 0x4;

/// Length in bytes of a signature on the wire.
pub const SIGN_LEN: usize = 64;

/// Length in bytes of one `(signer, signature)` entry on the wire.
pub const ENTRY_LEN: usize = 68;

#[derive(Debug)]
pub enum Message {
    Syn { sender: u32, pub_key: Vec<u8> },
    Send { sender: u32, rn: u32, payload: Vec<u8> },
    Echo { sender: u32, rn: u32, sign: Vec<u8> },
    Fin { sender: u32, rn: u32, sign_cnt: u32, signs: Vec<(u32, Vec<u8>)> },
    Sup {
        sender: u32,
        rn: u32,
        sign_cnt: u32,
        signs: Vec<(u32, Vec<u8>)>,
        originator: u32,
        payload: Vec<u8>,
    },
}

/// A message as a mathematical value.
pub enum MessageView {
    Syn { sender: u32, pub_key: Seq<u8> },
    Send { sender: u32, rn: u32, payload: Seq<u8> },
    Echo { sender: u32, rn: u32, sign: Seq<u8> },
    Fin { sender: u32, rn: u32, sign_cnt: u32, signs: Seq<(u32, Seq<u8>)> },
    Sup {
        sender: u32,
        rn: u32,
        sign_cnt: u32,
        signs: Seq<(u32, Seq<u8>)>,
        originator: u32,
        payload: Seq<u8>,
    },
}

/// A list of `(signer, signature)` entries as a mathematical value.
pub open spec fn signs_view(signs: Seq<(u32, Vec<u8>)>) -> Seq<(u32, Seq<u8>)> {
    Seq::new(signs.len(), |i: int| (signs[i].0, signs[i].1@))
}

impl View for Message {
    type V = MessageView;

    open spec fn view(&self) -> MessageView {
        match *self {
            Message::Syn { sender, pub_key } => MessageView::Syn { sender, pub_key: pub_key@ },
            Message::Send { sender, rn, payload } => MessageView::Send {
                sender,
                rn,
                payload: payload@,
            },
            Message::Echo { sender, rn, sign } => MessageView::Echo { sender, rn, sign: sign@ },
            Message::Fin { sender, rn, sign_cnt, signs } => MessageView::Fin {
                sender,
                rn,
                sign_cnt,
                signs: signs_view(signs@),
            },
            Message::Sup { sender, rn, sign_cnt, signs, originator, payload } => MessageView::Sup {
                sender,
                rn,
                sign_cnt,
                signs: signs_view(signs@),
                originator,
                payload: payload@,
            },
        }
    }
}

/// The four bytes of `x`, least significant first.
pub open spec fn u32_le_bytes(x: u32) -> Seq<u8> {
    seq![
        (x % 256) as u8,
        ((x / 256) % 256) as u8,
        ((x / 65536) % 256) as u8,
        (x / 16777216) as u8,
    ]
}

/// The number that four bytes spell, least significant first.
pub open spec fn le_u32(b: Seq<u8>) -> u32 {
    (b[0] as int + 256 * (b[1] as int) + 65536 * (b[2] as int) + 16777216 * (b[3] as int)) as u32
}

/// The little-endian number in the four bytes of `b` that start at `at`.
pub open spec fn u32_at(b: Seq<u8>, at: int) -> u32 {
    le_u32(b.subrange(at, at + 4))
}

/// The entries of a signature list written one after the other: for each the
/// signer, then the signature bytes as they are.
pub open spec fn signs_bytes(signs: Seq<(u32, Seq<u8>)>) -> Seq<u8>
    decreases signs.len(),
{
    if signs.len() == 0 {
        Seq::empty()
    } else {
        signs_bytes(signs.drop_last()) + u32_le_bytes(signs.last().0) + signs.last().1
    }
}

/// The first `cnt` entries of 68 bytes each that `body` starts with.
pub open spec fn parse_signs(body: Seq<u8>, cnt: nat) -> Seq<(u32, Seq<u8>)> {
    Seq::new(cnt, |i: int| (u32_at(body, 68 * i), body.subrange(68 * i + 4, 68 * i + 68)))
}

/// Whether every signature of the list takes exactly 64 bytes.
pub open spec fn signs_well_sized(signs: Seq<(u32, Seq<u8>)>) -> bool {
    forall|i: int| 0 <= i < signs.len() ==> (#[trigger] signs[i]).1.len() == 64
}

/// Whether a message is one that a frame can spell: the signature list of a
/// FIN or a SUP has as many entries as its count says, of 64 bytes each.
pub open spec fn valid_message(m: MessageView) -> bool {
    match m {
        MessageView::Fin { sign_cnt, signs, .. } => signs.len() == sign_cnt && signs_well_sized(
            signs,
        ),
        MessageView::Sup { sign_cnt, signs, .. } => signs.len() == sign_cnt && signs_well_sized(
            signs,
        ),
        _ => true,
    }
}

/// The frame of a message.
pub open spec fn encode_spec(m: MessageView) -> Seq<u8> {
    match m {
        MessageView::Syn { sender, pub_key } => seq![0u8] + u32_le_bytes(sender) + pub_key,
        MessageView::Send { sender, rn, payload } => seq![1u8] + u32_le_bytes(sender)
            + u32_le_bytes(rn) + payload,
        MessageView::Echo { sender, rn, sign } => seq![2u8] + u32_le_bytes(sender) + u32_le_bytes(
            rn,
        ) + sign,
        MessageView::Fin { sender, rn, sign_cnt, signs } => seq![3u8] + u32_le_bytes(sender)
            + u32_le_bytes(rn) + u32_le_bytes(sign_cnt) + signs_bytes(signs),
        MessageView::Sup { sender, rn, sign_cnt, signs, originator, payload } => seq![4u8]
            + u32_le_bytes(sender) + u32_le_bytes(rn) + u32_le_bytes(sign_cnt) + signs_bytes(signs)
            + u32_le_bytes(originator) + payload,
    }
}

/// The message that a frame spells, if it spells one. A frame is refused when
/// it is empty, when its tag is unknown, when it is too short for the fixed
/// fields of its kind, and when what follows the count of a FIN or a SUP is not
/// that many entries (in a SUP: followed by the originator).
pub open spec fn decode_spec(b: Seq<u8>) -> Option<MessageView> {
    if b.len() == 0 {
        None
    } else if b[0] == 0 {
        if b.len() < 5 {
            None
        } else {
            Some(MessageView::Syn { sender: u32_at(b, 1), pub_key: b.skip(5) })
        }
    } else if b[0] == 1 {
        if b.len() < 9 {
            None
        } else {
            Some(MessageView::Send { sender: u32_at(b, 1), rn: u32_at(b, 5), payload: b.skip(9) })
        }
    } else if b[0] == 2 {
        if b.len() < 9 {
            None
        } else {
            Some(MessageView::Echo { sender: u32_at(b, 1), rn: u32_at(b, 5), sign: b.skip(9) })
        }
    } else if b[0] == 3 {
        if b.len() < 13 || b.len() != 13 + 68 * u32_at(b, 9) {
            None
        } else {
            Some(
                MessageView::Fin {
                    sender: u32_at(b, 1),
                    rn: u32_at(b, 5),
                    sign_cnt: u32_at(b, 9),
                    signs: parse_signs(b.skip(13), u32_at(b, 9) as nat),
                },
            )
        }
    } else if b[0] == 4 {
        if b.len() < 13 || b.len() < 13 + 68 * u32_at(b, 9) + 4 {
            None
        } else {
            Some(
                MessageView::Sup {
                    sender: u32_at(b, 1),
                    rn: u32_at(b, 5),
                    sign_cnt: u32_at(b, 9),
                    signs: parse_signs(b.skip(13), u32_at(b, 9) as nat),
                    originator: u32_at(b, 13 + 68 * u32_at(b, 9)),
                    payload: b.skip(13 + 68 * u32_at(b, 9) + 4),
                },
            )
        }
    } else {
        None
    }
}

/// Reads the little-endian `u32` in the four bytes of `bytes` that start at `at`.
pub fn read_u32_le(bytes: &[u8], at: usize) -> (r: u32)
    requires
        at + 4 <= bytes.len(),
    ensures
        r == u32_at(bytes@, at as int),
{
    let b0: u32 = bytes[at] as u32;
    let b1: u32 = bytes[at + 1] as u32;
    let b2: u32 = bytes[at + 2] as u32;
    let b3: u32 = bytes[at + 3] as u32;
    b0 + 256 * b1 + 65536 * b2 + 16777216 * b3
}

/// Appends the four bytes of `x` to `buf`, least significant first.
pub fn put_u32_le(buf: &mut Vec<u8>, x: u32)
    ensures
        final(buf)@ == old(buf)@ + u32_le_bytes(x),
{
    buf.push((x % 256) as u8);
    buf.push(((x / 256) % 256) as u8);
    buf.push(((x / 65536) % 256) as u8);
    buf.push((x / 16777216) as u8);
    assert(buf@ =~= old(buf)@ + u32_le_bytes(x));
}

/// Appends the bytes of `src` to `buf`.
pub fn put_bytes(buf: &mut Vec<u8>, src: &Vec<u8>)
    ensures
        final(buf)@ == old(buf)@ + src@,
{
    let mut i: usize = 0;
    while i < src.len()
        invariant
            i <= src.len(),
            buf@ == old(buf)@ + src@.take(i as int),
        decreases src.len() - i,
    {
        buf.push(src[i]);
        assert(src@.take(i + 1) =~= src@.take(i as int).push(src@[i as int]));
        i += 1;
    }
    assert(src@.take(src@.len() as int) =~= src@);
}

/// A copy of a byte string.
pub fn copy_bytes(src: &Vec<u8>) -> (out: Vec<u8>)
    ensures
        out@ == src@,
{
    slice_to_vec(src.as_slice())
}

/// A copy of a signature list.
pub fn copy_signs(src: &Vec<(u32, Vec<u8>)>) -> (out: Vec<(u32, Vec<u8>)>)
    ensures
        signs_view(out@) == signs_view(src@),
{
    let mut out: Vec<(u32, Vec<u8>)> = Vec::new();
    let mut i: usize = 0;
    while i < src.len()
        invariant
            i <= src.len(),
            out@.len() == i,
            forall|j: int|
                0 <= j < i ==> (#[trigger] out@[j]).0 == src@[j].0 && out@[j].1@ == src@[j].1@,
        decreases src.len() - i,
    {
        out.push((src[i].0, copy_bytes(&src[i].1)));
        i += 1;
    }
    assert(signs_view(out@) =~= signs_view(src@));
    out
}

/// Appends the entries of a signature list to `buf`, one after the other.
pub fn put_signs(buf: &mut Vec<u8>, signs: &Vec<(u32, Vec<u8>)>)
    ensures
        final(buf)@ == old(buf)@ + signs_bytes(signs_view(signs@)),
{
    let mut i: usize = 0;
    assert(signs_view(signs@.take(0)) =~= Seq::empty());
    while i < signs.len()
        invariant
            i <= signs.len(),
            buf@ == old(buf)@ + signs_bytes(signs_view(signs@.take(i as int))),
        decreases signs.len() - i,
    {
        put_u32_le(buf, signs[i].0);
        put_bytes(buf, &signs[i].1);
        proof {
            let t0 = signs_view(signs@.take(i as int));
            let t1 = signs_view(signs@.take(i + 1));
            assert(t1.drop_last() =~= t0);
            assert(t1.last() == (signs@[i as int].0, signs@[i as int].1@));
            assert(buf@ =~= old(buf)@ + signs_bytes(t1));
        }
        i += 1;
    }
    assert(signs@.take(signs@.len() as int) =~= signs@);
}

/// Reads `cnt` entries of 68 bytes each that start at `start`.
pub fn read_signs(bytes: &[u8], start: usize, cnt: u32) -> (signs: Vec<(u32, Vec<u8>)>)
    requires
        start + 68 * cnt <= bytes.len(),
    ensures
        signs_view(signs@) == parse_signs(bytes@.skip(start as int), cnt as nat),
{
    let ghost body = bytes@.skip(start as int);
    let mut signs: Vec<(u32, Vec<u8>)> = Vec::new();
    let mut k: u32 = 0;
    let mut idx: usize = start;
    while k < cnt
        invariant
            k <= cnt,
            idx == start + 68 * k,
            start + 68 * cnt <= bytes.len(),
            body == bytes@.skip(start as int),
            signs@.len() == k,
            forall|i: int|
                0 <= i < k ==> (#[trigger] signs@[i]).0 == u32_at(body, 68 * i) && signs@[i].1@
                    == body.subrange(68 * i + 4, 68 * i + 68),
        decreases cnt - k,
    {
        let node_id = read_u32_le(bytes, idx);
        let sign = slice_to_vec(slice_subrange(bytes, idx + 4, idx + 68));
        proof {
            assert(body.subrange(68 * k, 68 * k + 4) =~= bytes@.subrange(idx as int, idx + 4));
            assert(body.subrange(68 * k + 4, 68 * k + 68) =~= bytes@.subrange(idx + 4, idx + 68));
        }
        signs.push((node_id, sign));
        k += 1;
        idx += 68;
    }
    assert(signs_view(signs@) =~= parse_signs(body, cnt as nat));
    signs
}

impl Message {
    /// The frame of this message as a vector of bytes.
    pub fn encode(&self) -> (out: Vec<u8>)
        ensures
            out@ == encode_spec(self@),
    {
        let mut buf: Vec<u8> = Vec::new();
        match self {
            Message::Syn { sender, pub_key } => {
                buf.push(SYN_MSG);
                put_u32_le(&mut buf, *sender);
                put_bytes(&mut buf, pub_key);
            },
            Message::Send { sender, rn, payload } => {
                buf.push(SEND_MSG);
                put_u32_le(&mut buf, *sender);
                put_u32_le(&mut buf, *rn);
                put_bytes(&mut buf, payload);
            },
            Message::Echo { sender, rn, sign } => {
                buf.push(ECHO_MSG);
                put_u32_le(&mut buf, *sender);
                put_u32_le(&mut buf, *rn);
                put_bytes(&mut buf, sign);
            },
            Message::Fin { sender, rn, sign_cnt, signs } => {
                buf.push(FIN_MSG);
                put_u32_le(&mut buf, *sender);
                put_u32_le(&mut buf, *rn);
                put_u32_le(&mut buf, *sign_cnt);
                put_signs(&mut buf, signs);
            },
            Message::Sup { sender, rn, sign_cnt, signs, originator, payload } => {
                buf.push(SUP_MSG);
                put_u32_le(&mut buf, *sender);
                put_u32_le(&mut buf, *rn);
                put_u32_le(&mut buf, *sign_cnt);
                put_signs(&mut buf, signs);
                put_u32_le(&mut buf, *originator);
                put_bytes(&mut buf, payload);
            },
        }
        assert(buf@ =~= encode_spec(self@));
        buf
    }

    /// The frame of this message. Encoding never fails.
    pub fn to_bytes(self) -> (r: Result<Bytes, ()>)
        ensures
            r matches Ok(b) && bytes_contents(b) == encode_spec(self@),
    {
        Ok(bytes_from_vec(self.encode()))
    }

    /// The message that the frame `bytes` spells, or `Err` if it spells none.
    pub fn decode(bytes: &[u8]) -> (r: Result<Message, ()>)
        ensures
            match decode_spec(bytes@) {
                Some(m) => r matches Ok(x) && x@ == m,
                None => r is Err,
            },
    {
        let len = bytes.len();
        if len == 0 {
            return Err(());
        }
        let tag = bytes[0];
        if tag == SYN_MSG {
            if len < 5 {
                return Err(());
            }
            let sender = read_u32_le(bytes, 1);
            let pub_key = slice_to_vec(slice_subrange(bytes, 5, len));
            Ok(Message::Syn { sender, pub_key })
        } else if tag == SEND_MSG {
            if len < 9 {
                return Err(());
            }
            let sender = read_u32_le(bytes, 1);
            let rn = read_u32_le(bytes, 5);
            let payload = slice_to_vec(slice_subrange(bytes, 9, len));
            Ok(Message::Send { sender, rn, payload })
        } else if tag == ECHO_MSG {
            if len < 9 {
                return Err(());
            }
            let sender = read_u32_le(bytes, 1);
            let rn = read_u32_le(bytes, 5);
            let sign = slice_to_vec(slice_subrange(bytes, 9, len));
            Ok(Message::Echo { sender, rn, sign })
        } else if tag == FIN_MSG {
            if len < 13 {
                return Err(());
            }
            let sender = read_u32_le(bytes, 1);
            let rn = read_u32_le(bytes, 5);
            let sign_cnt = read_u32_le(bytes, 9);
            let need: u64 = 13 + 68 * (sign_cnt as u64);
            if len as u64 != need {
                return Err(());
            }
            let signs = read_signs(bytes, 13, sign_cnt);
            Ok(Message::Fin { sender, rn, sign_cnt, signs })
        } else if tag == SUP_MSG {
            if len < 13 {
                return Err(());
            }
            let sender = read_u32_le(bytes, 1);
            let rn = read_u32_le(bytes, 5);
            let sign_cnt = read_u32_le(bytes, 9);
            let need: u64 = 13 + 68 * (sign_cnt as u64) + 4;
            if (len as u64) < need {
                return Err(());
            }
            let signs = read_signs(bytes, 13, sign_cnt);
            let at: usize = 13 + 68 * (sign_cnt as usize);
            let originator = read_u32_le(bytes, at);
            let payload = slice_to_vec(slice_subrange(bytes, at + 4, len));
            Ok(Message::Sup { sender, rn, sign_cnt, signs, originator, payload })
        } else {
            Err(())
        }
    }

    /// The message that a frame spells, or `Err` if it spells none.
    pub fn from_bytes(bytes: Bytes) -> (r: Result<Message, ()>)
        ensures
            match decode_spec(bytes_contents(bytes)) {
                Some(m) => r matches Ok(x) && x@ == m,
                None => r is Err,
            },
    {
        Message::decode(bytes_as_slice(&bytes))
    }
}

} // verus!

verus! {

/// Writing a number and reading it back gives the number.
pub proof fn lemma_le_u32_of_bytes(x: u32)
    ensures
        u32_le_bytes(x).len() == 4,
        le_u32(u32_le_bytes(x)) == x,
{
}

/// Reading four bytes and writing the number back gives the four bytes.
pub proof fn lemma_bytes_of_le_u32(b: Seq<u8>)
    requires
        b.len() == 4,
    ensures
        u32_le_bytes(le_u32(b)) == b,
{
    let b0 = b[0] as int;
    let b1 = b[1] as int;
    let b2 = b[2] as int;
    let b3 = b[3] as int;
    let hi2 = b2 + 256 * b3;
    let hi1 = b1 + 256 * hi2;
    let x = b0 + 256 * hi1;
    assert(le_u32(b) as int == x);
    assert(x % 256 == b0 && x / 256 == hi1);
    assert(hi1 % 256 == b1 && hi1 / 256 == hi2);
    assert(hi2 % 256 == b2 && hi2 / 256 == b3);
    assert(x / 65536 == hi2) by {
        assert(65536 * hi2 <= x < 65536 * hi2 + 65536);
    }
    assert(x / 16777216 == b3) by {
        assert(16777216 * b3 <= x < 16777216 * b3 + 16777216);
    }
    assert(u32_le_bytes(le_u32(b)) =~= b);
}

} // verus!

verus! {

/// A list of well-sized entries takes 68 bytes per entry.
pub proof fn lemma_signs_bytes_len(signs: Seq<(u32, Seq<u8>)>)
    requires
        signs_well_sized(signs),
    ensures
        signs_bytes(signs).len() == 68 * signs.len(),
    decreases signs.len(),
{
    if signs.len() > 0 {
        lemma_signs_bytes_len(signs.drop_last());
        assert(signs.last().1.len() == 64);
    }
}

/// Reading back what was written for a list of well-sized entries gives the
/// list, whatever follows it in the frame.
pub proof fn lemma_parse_of_signs_bytes(signs: Seq<(u32, Seq<u8>)>, rest: Seq<u8>)
    requires
        signs_well_sized(signs),
    ensures
        parse_signs(signs_bytes(signs) + rest, signs.len()) == signs,
    decreases signs.len(),
{
    let body = signs_bytes(signs) + rest;
    if signs.len() == 0 {
        assert(parse_signs(body, 0) =~= signs);
    } else {
        let init = signs.drop_last();
        let last = signs.last();
        let n = signs.len() as int;
        let rest1 = u32_le_bytes(last.0) + last.1 + rest;
        lemma_signs_bytes_len(init);
        lemma_parse_of_signs_bytes(init, rest1);
        assert(body =~= signs_bytes(init) + rest1);
        assert(last.1.len() == 64);
        let parsed = parse_signs(body, signs.len());
        assert forall|i: int| 0 <= i < n implies parsed[i] == signs[i] by {
            if i < n - 1 {
                assert(parse_signs(body, init.len())[i] == init[i]);
            } else {
                assert(body.subrange(68 * i, 68 * i + 4) =~= u32_le_bytes(last.0));
                lemma_le_u32_of_bytes(last.0);
                assert(body.subrange(68 * i + 4, 68 * i + 68) =~= last.1);
            }
        }
        assert(parsed =~= signs);
    }
}

/// Writing the entries that were read from a frame gives the bytes they were
/// read from, and each of them is well sized.
pub proof fn lemma_signs_bytes_of_parse(body: Seq<u8>, cnt: nat)
    requires
        68 * cnt <= body.len(),
    ensures
        signs_bytes(parse_signs(body, cnt)) == body.subrange(0, 68 * (cnt as int)),
        signs_well_sized(parse_signs(body, cnt)),
        parse_signs(body, cnt).len() == cnt,
    decreases cnt,
{
    let signs = parse_signs(body, cnt);
    if cnt == 0 {
        assert(signs_bytes(signs) =~= body.subrange(0, 0));
    } else {
        let k = cnt as int - 1;
        lemma_signs_bytes_of_parse(body, k as nat);
        assert(signs.drop_last() =~= parse_signs(body, k as nat));
        let chunk = body.subrange(68 * k, 68 * k + 4);
        lemma_bytes_of_le_u32(chunk);
        assert(signs.last().0 == le_u32(chunk));
        assert(signs.last().1 == body.subrange(68 * k + 4, 68 * k + 68));
        assert(signs_bytes(signs) =~= body.subrange(0, 68 * (cnt as int)));
    }
}

/// Decoding the frame of a SYN gives the SYN back.
proof fn lemma_decode_encode_syn(sender: u32, pub_key: Seq<u8>)
    ensures
        decode_spec(encode_spec(MessageView::Syn { sender, pub_key })) == Some(
            MessageView::Syn { sender, pub_key },
        ),
{
    let b = encode_spec(MessageView::Syn { sender, pub_key });
    lemma_le_u32_of_bytes(sender);
    assert(b.len() >= 5 && b[0] == 0);
    assert(b.subrange(1, 5) =~= u32_le_bytes(sender));
    assert(b.skip(5) =~= pub_key);
}

/// Decoding the frame of a SEND gives the SEND back.
proof fn lemma_decode_encode_send(sender: u32, rn: u32, payload: Seq<u8>)
    ensures
        decode_spec(encode_spec(MessageView::Send { sender, rn, payload })) == Some(
            MessageView::Send { sender, rn, payload },
        ),
{
    let b = encode_spec(MessageView::Send { sender, rn, payload });
    lemma_le_u32_of_bytes(sender);
    lemma_le_u32_of_bytes(rn);
    assert(b.len() >= 9 && b[0] == 1);
    assert(b.subrange(1, 5) =~= u32_le_bytes(sender));
    assert(b.subrange(5, 9) =~= u32_le_bytes(rn));
    assert(b.skip(9) =~= payload);
}

/// Decoding the frame of an ECHO gives the ECHO back.
proof fn lemma_decode_encode_echo(sender: u32, rn: u32, sign: Seq<u8>)
    ensures
        decode_spec(encode_spec(MessageView::Echo { sender, rn, sign })) == Some(
            MessageView::Echo { sender, rn, sign },
        ),
{
    let b = encode_spec(MessageView::Echo { sender, rn, sign });
    lemma_le_u32_of_bytes(sender);
    lemma_le_u32_of_bytes(rn);
    assert(b.len() >= 9 && b[0] == 2);
    assert(b.subrange(1, 5) =~= u32_le_bytes(sender));
    assert(b.subrange(5, 9) =~= u32_le_bytes(rn));
    assert(b.skip(9) =~= sign);
}

/// The fixed fields at the begin of the frame of a FIN or a SUP read back
/// as they were written.
proof fn lemma_counted_header(tag: u8, sender: u32, rn: u32, sign_cnt: u32, rest: Seq<u8>)
    ensures
        ({
            let b = seq![tag] + u32_le_bytes(sender) + u32_le_bytes(rn) + u32_le_bytes(sign_cnt)
                + rest;
            &&& b.len() == 13 + rest.len()
            &&& b[0] == tag
            &&& u32_at(b, 1) == sender
            &&& u32_at(b, 5) == rn
            &&& u32_at(b, 9) == sign_cnt
            &&& b.skip(13) == rest
        }),
{
    let b = seq![tag] + u32_le_bytes(sender) + u32_le_bytes(rn) + u32_le_bytes(sign_cnt) + rest;
    lemma_le_u32_of_bytes(sender);
    lemma_le_u32_of_bytes(rn);
    lemma_le_u32_of_bytes(sign_cnt);
    assert(b.subrange(1, 5) =~= u32_le_bytes(sender));
    assert(b.subrange(5, 9) =~= u32_le_bytes(rn));
    assert(b.subrange(9, 13) =~= u32_le_bytes(sign_cnt));
    assert(b.skip(13) =~= rest);
}

/// Decoding the frame of a valid FIN gives the FIN back.
proof fn lemma_decode_encode_fin(sender: u32, rn: u32, sign_cnt: u32, signs: Seq<(u32, Seq<u8>)>)
    requires
        signs.len() == sign_cnt,
        signs_well_sized(signs),
    ensures
        decode_spec(encode_spec(MessageView::Fin { sender, rn, sign_cnt, signs })) == Some(
            MessageView::Fin { sender, rn, sign_cnt, signs },
        ),
{
    let b = encode_spec(MessageView::Fin { sender, rn, sign_cnt, signs });
    let rest = signs_bytes(signs);
    lemma_counted_header(3, sender, rn, sign_cnt, rest);
    assert(b =~= seq![3u8] + u32_le_bytes(sender) + u32_le_bytes(rn) + u32_le_bytes(sign_cnt)
        + rest);
    lemma_signs_bytes_len(signs);
    assert(rest =~= signs_bytes(signs) + Seq::<u8>::empty());
    lemma_parse_of_signs_bytes(signs, Seq::empty());
}

/// Decoding the frame of a valid SUP gives the SUP back.
proof fn lemma_decode_encode_sup(
    sender: u32,
    rn: u32,
    sign_cnt: u32,
    signs: Seq<(u32, Seq<u8>)>,
    originator: u32,
    payload: Seq<u8>,
)
    requires
        signs.len() == sign_cnt,
        signs_well_sized(signs),
    ensures
        decode_spec(
            encode_spec(MessageView::Sup { sender, rn, sign_cnt, signs, originator, payload }),
        ) == Some(MessageView::Sup { sender, rn, sign_cnt, signs, originator, payload }),
{
    let b = encode_spec(MessageView::Sup { sender, rn, sign_cnt, signs, originator, payload });
    let tail = u32_le_bytes(originator) + payload;
    let rest = signs_bytes(signs) + tail;
    lemma_counted_header(4, sender, rn, sign_cnt, rest);
    assert(b =~= seq![4u8] + u32_le_bytes(sender) + u32_le_bytes(rn) + u32_le_bytes(sign_cnt)
        + rest);
    lemma_signs_bytes_len(signs);
    lemma_parse_of_signs_bytes(signs, tail);
    lemma_le_u32_of_bytes(originator);
    let at = 13 + 68 * sign_cnt;
    assert(b.len() == at + 4 + payload.len());
    assert(b.subrange(at, at + 4) =~= u32_le_bytes(originator));
    assert(b.skip(at + 4) =~= payload);
}

/// Decoding the frame of a valid message gives the message back.
pub proof fn lemma_decode_encode(m: MessageView)
    requires
        valid_message(m),
    ensures
        decode_spec(encode_spec(m)) == Some(m),
{
    match m {
        MessageView::Syn { sender, pub_key } => {
            lemma_decode_encode_syn(sender, pub_key);
        },
        MessageView::Send { sender, rn, payload } => {
            lemma_decode_encode_send(sender, rn, payload);
        },
        MessageView::Echo { sender, rn, sign } => {
            lemma_decode_encode_echo(sender, rn, sign);
        },
        MessageView::Fin { sender, rn, sign_cnt, signs } => {
            lemma_decode_encode_fin(sender, rn, sign_cnt, signs);
        },
        MessageView::Sup { sender, rn, sign_cnt, signs, originator, payload } => {
            lemma_decode_encode_sup(sender, rn, sign_cnt, signs, originator, payload);
        },
    }
}

/// A frame that decodes is the frame of the message it decodes to, and that
/// message is valid.
pub proof fn lemma_encode_decode(b: Seq<u8>)
    requires
        decode_spec(b) is Some,
    ensures
        encode_spec(decode_spec(b)->0) == b,
        valid_message(decode_spec(b)->0),
{
    let m = decode_spec(b)->0;
    lemma_bytes_of_le_u32(b.subrange(1, 5));
    if b[0] != 0 {
        lemma_bytes_of_le_u32(b.subrange(5, 9));
    }
    if b[0] == 3 || b[0] == 4 {
        let cnt = u32_at(b, 9);
        lemma_bytes_of_le_u32(b.subrange(9, 13));
        lemma_signs_bytes_of_parse(b.skip(13), cnt as nat);
        if b[0] == 4 {
            lemma_bytes_of_le_u32(b.subrange(13 + 68 * cnt, 13 + 68 * cnt + 4));
        }
    }
    assert(encode_spec(m) =~= b);
}

} // verus!
