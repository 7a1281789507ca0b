use mini_eth_net::crypto::{generate_keypair, node_id_from_pubkey, sign_message, verify_signature, CryptoError};
use mini_eth_net::enr::{EnrBuilder, EnrRecord};

#[test]
fn test_enr_sign_and_verify() {
    let kp = generate_keypair().unwrap();

    let enr = EnrBuilder::new()
        .add(b"id", b"v4")
        .add(b"ip", b"127.0.0.1")
        .add(b"quic", &9001u16.to_be_bytes())
        .build(&kp)
        .unwrap();

    assert!(enr.verify(&kp.verifying_key));
}

#[test]
fn keypair_shapes() {
    let kp = generate_keypair().unwrap();
    assert_eq!(kp.signing_key.len(), 32);
    assert_eq!(kp.verifying_key.len(), 65);
    assert_eq!(kp.verifying_key[0], 0x04);
    let other = generate_keypair().unwrap();
    assert_ne!(kp.signing_key, other.signing_key);
}

#[test]
fn node_id_is_keccak_of_key_body() {
    let empty_digest = "c5d2460186f7233c927e7db2dcc703c0e500b653ca82273b7bfad8045d85a470";
    let id = node_id_from_pubkey(&[0x04]);
    let hex: String = id.iter().map(|b| format!("{:02x}", b)).collect();
    assert_eq!(hex, empty_digest);
    let kp = generate_keypair().unwrap();
    assert_ne!(node_id_from_pubkey(&kp.verifying_key), id);
}

#[test]
fn signatures_are_deterministic_and_checked() {
    let kp = generate_keypair().unwrap();
    let digest = [7u8; 32];
    let s1 = sign_message(&kp.signing_key, &digest).unwrap();
    let s2 = sign_message(&kp.signing_key, &digest).unwrap();
    assert_eq!(s1.len(), 64);
    assert_eq!(s1, s2);
    assert!(verify_signature(&kp.verifying_key, &digest, &s1));
    assert!(!verify_signature(&kp.verifying_key, &[8u8; 32], &s1));
    assert!(!verify_signature(&kp.verifying_key, &digest, &s1[..10]));
    assert!(!verify_signature(&[1, 2, 3], &digest, &s1));
}

#[test]
fn signing_with_a_bad_secret_fails() {
    match sign_message(&[0u8; 32], &[1u8; 32]) {
        Err(CryptoError::SignError(_)) => {}
        other => panic!("expected a signing error, got {:?}", other),
    }
}

#[test]
fn tampered_record_fails_verification() {
    let kp = generate_keypair().unwrap();
    let rec = EnrBuilder::new().seq(3).add(b"id", b"v4").add(b"ip", b"127.0.0.1").build(&kp).unwrap();
    assert_eq!(rec.seq, 3);
    assert_eq!(rec.pairs.len(), 2);
    assert!(rec.verify(&kp.verifying_key));

    let mut other_value = rec.clone();
    other_value.pairs[1].1 = b"127.0.0.2".to_vec();
    assert!(!other_value.verify(&kp.verifying_key));
    assert_ne!(other_value.content_hash(), rec.content_hash());

    let mut other_seq = rec.clone();
    other_seq.seq = 4;
    assert!(!other_seq.verify(&kp.verifying_key));

    let stranger = generate_keypair().unwrap();
    assert!(!rec.verify(&stranger.verifying_key));
}

#[test]
fn empty_record_hash_is_stable() {
    let kp = generate_keypair().unwrap();
    let a = EnrBuilder::new().build(&kp).unwrap();
    let b = EnrRecord { signature: vec![], seq: 1, pairs: vec![] };
    assert_eq!(a.content_hash(), b.content_hash());
    assert!(a.verify(&kp.verifying_key));
    assert!(!b.verify(&kp.verifying_key));
}
