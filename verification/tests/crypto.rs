use ring::error::Unspecified;
use ring::rand::SystemRandom;
use ring::signature::Ed25519KeyPair;
use ring::digest::{digest, SHA256};
use sequencer::sequencer::Sequencer;
use sequencer::signature::{KeyError, KeyPair};

fn digest_sha256(data: &[u8]) -> Vec<u8> {
    digest(&SHA256, data).as_ref().to_vec()
}

fn document() -> Vec<u8> {
    Ed25519KeyPair::generate_pkcs8(&SystemRandom::new()).unwrap().as_ref().to_vec()
}

#[test]
fn digest_kept_for_a_payload_is_its_sha256() {
    let mut seq = Sequencer::new(1, 4, 0, KeyPair::new().unwrap());
    seq.handle_send_msg(0, 0, b"abc".to_vec());
    assert_eq!(
        hex::encode(seq.hash(0, 0).unwrap()),
        "ba7816bf8f01cfea414140de5dae2223b00361a396177a9cb410ff61f20015ad"
    );
    seq.handle_send_msg(0, 1, Vec::new());
    assert_eq!(
        hex::encode(seq.hash(0, 1).unwrap()),
        "e3b0c44298fc1c149afbf4c8996fb92427ae41e4649b934ca495991b7852b855"
    );
}

#[test]
fn digest_of_the_own_payload_is_its_sha256() {
    let mut seq = Sequencer::new(0, 4, 0, KeyPair::new().unwrap());
    seq.propose();
    assert_eq!(seq.hash(0, 0), Some(digest_sha256(b"")));
}

#[test]
fn new_key_pairs_have_32_byte_public_keys_and_differ() {
    let a = KeyPair::new().unwrap();
    let b = KeyPair::new().unwrap();
    assert_eq!(a.pub_key.len(), 32);
    assert_eq!(b.pub_key.len(), 32);
    assert_ne!(a.pub_key, b.pub_key);
    assert_eq!(a.public_key_vec(), a.pub_key);
}

#[test]
fn a_document_gives_the_same_key_pair_again() {
    let doc = document();
    let a = KeyPair::from_pkcs8(&doc).unwrap();
    let b = KeyPair::from_pkcs8(&doc).unwrap();
    assert_eq!(a.pub_key, b.pub_key);
    assert_eq!(a.sign(b"message"), b.sign(b"message"));
}

#[test]
fn a_broken_document_is_rejected() {
    assert!(matches!(KeyPair::from_pkcs8(&[1, 2, 3]), Err(KeyError::Rejected)));
    assert!(matches!(KeyPair::from_pkcs8(&[]), Err(KeyError::Rejected)));
}

#[test]
fn signature_takes_64_bytes_and_verifies() {
    let kp = KeyPair::new().unwrap();
    let digest = digest_sha256(b"payload");
    let sig = kp.sign(&digest);
    assert_eq!(sig.len(), 64);
    assert_ne!(&sig[..32], &digest[..]);
    assert!(KeyPair::verify_signature(&kp.pub_key, &digest, &sig));
}

#[test]
fn signature_fails_under_another_key_message_or_when_altered() {
    let kp = KeyPair::new().unwrap();
    let other = KeyPair::new().unwrap();
    let digest = digest_sha256(b"payload");
    let sig = kp.sign(&digest);
    assert!(!KeyPair::verify_signature(&other.pub_key, &digest, &sig));
    assert!(!KeyPair::verify_signature(&kp.pub_key, &digest_sha256(b"other"), &sig));
    let mut bad = sig.clone();
    bad[0] ^= 1;
    assert!(!KeyPair::verify_signature(&kp.pub_key, &digest, &bad));
    assert!(!KeyPair::verify_signature(&kp.pub_key, &digest, &sig[..63]));
    assert!(!KeyPair::verify_signature(&kp.pub_key[..31], &digest, &sig));
    assert!(!KeyPair::verify_signature(&[], &digest, &[]));
}

#[test]
fn a_generator_that_gave_nothing_gives_no_key_pair() {
    assert!(matches!(KeyPair::from_generated(Err(Unspecified)), Err(KeyError::Generation)));
}

#[test]
fn a_generated_document_gives_its_key_pair() {
    let doc = document();
    let direct = KeyPair::from_pkcs8(&doc).unwrap();
    let generated = KeyPair::from_generated(Ok(doc)).unwrap();
    assert_eq!(generated.pub_key, direct.pub_key);
    assert_eq!(generated.sign(b"m"), direct.sign(b"m"));
}

#[test]
fn a_generated_document_that_is_broken_is_rejected() {
    assert!(matches!(KeyPair::from_generated(Ok(vec![1, 2, 3])), Err(KeyError::Rejected)));
    let mut doc = document();
    let last = doc.len() - 1;
    doc[last] ^= 1;
    assert!(matches!(KeyPair::from_pkcs8(&doc), Err(KeyError::Rejected)));
}
