use keystore::err::KeyPairError;
use keystore::key::KeyPair;

const PHRASE_12: &str =
    "abandon abandon abandon abandon abandon abandon abandon abandon abandon abandon abandon about";

#[test]
fn it_works() {
    let ks = KeyPair::new();
    let mut data = Vec::with_capacity((8 + 12) * 4);
    data.extend_from_slice(b"Owlchat");
    ks.encrypt(&mut data).expect("ecnrypt");
    let original = b"Owlchat".to_vec();
    assert_ne!(data, original);
    ks.decrypt(&mut data).expect("decrypt");
    assert_eq!(data, original);
}

#[test]
fn keypair_init() {
    let ks = KeyPair::new();
    let mut data = Vec::with_capacity((8 + 12) * 4);
    data.extend_from_slice(b"Owlchat");
    let original = b"Owlchat".to_vec();
    ks.encrypt(&mut data).unwrap();
    let sk = ks.secret_key();
    drop(ks);
    let ks = KeyPair::init(sk);
    ks.decrypt(&mut data).unwrap();
    assert_eq!(data, original);
}

#[test]
fn same_shared_secret() {
    let alice_ks = KeyPair::new();
    let bob_ks = KeyPair::new();

    let alice_sk = alice_ks.dh(bob_ks.public_key());
    let bob_sk = bob_ks.dh(alice_ks.public_key());
    assert_eq!(alice_sk, bob_sk);
}

#[test]
fn funny_conversation() {
    let alice_ks = KeyPair::new();
    let bob_ks = KeyPair::new();

    let alice_sk = alice_ks.dh(bob_ks.public_key());
    let bob_sk = bob_ks.dh(alice_ks.public_key());

    let mut m0 = Vec::with_capacity((12 + 12) * 4);
    m0.extend_from_slice(b"Knock, knock");
    let original = b"Knock, knock".to_vec();
    alice_ks.encrypt_with(alice_sk, &mut m0).unwrap();
    bob_ks.decrypt_with(bob_sk, &mut m0).unwrap();
    assert_eq!(original, m0);

    let mut m1 = Vec::with_capacity((12 + 12) * 4);
    m1.extend_from_slice(b"Who's there?");
    let original = b"Who's there?".to_vec();
    bob_ks.encrypt_with(bob_sk, &mut m1).unwrap();
    alice_ks.decrypt_with(alice_sk, &mut m1).unwrap();
    assert_eq!(original, m1);
}

#[test]
fn backup_and_restore() {
    let ks = KeyPair::new();
    let paper_key = ks.backup(None).unwrap();
    println!("Backup Paper Key: {}", paper_key);
    let mut data = Vec::with_capacity((8 + 12) * 4);
    data.extend_from_slice(b"Owlchat");
    let original = b"Owlchat".to_vec();
    ks.encrypt(&mut data).unwrap();
    drop(ks);

    let ks = KeyPair::restore(paper_key).unwrap();
    ks.decrypt(&mut data).unwrap();
    assert_eq!(original, data);
}

#[test]
fn restore_keeps_public_key_and_seed() {
    let ks = KeyPair::new();
    let restored = KeyPair::restore(ks.backup(None).unwrap()).unwrap();
    assert_eq!(restored.public_key(), ks.public_key());
    assert_eq!(restored.secret_key(), ks.secret_key());
    assert_eq!(restored.seed(), ks.seed());
    assert_eq!(restored.seed().unwrap().len(), 32);
}

#[test]
fn envelope_layout() {
    let ks = KeyPair::new();
    let mut data = b"Owlchat".to_vec();
    ks.encrypt(&mut data).unwrap();
    assert_eq!(data.len(), 7 + 16 + 12);
    let mut empty = Vec::new();
    ks.encrypt(&mut empty).unwrap();
    assert_eq!(empty.len(), 16 + 12);
    ks.decrypt(&mut empty).unwrap();
    assert!(empty.is_empty());
}

#[test]
fn fresh_nonce_for_each_encryption() {
    let ks = KeyPair::new();
    let mut a = b"same".to_vec();
    let mut b = b"same".to_vec();
    ks.encrypt(&mut a).unwrap();
    ks.encrypt(&mut b).unwrap();
    assert_ne!(a[a.len() - 12..], b[b.len() - 12..]);
}

#[test]
fn tampered_envelope_fails() {
    let ks = KeyPair::new();
    let mut data = b"Owlchat".to_vec();
    ks.encrypt(&mut data).unwrap();
    for i in 0..data.len() {
        let mut bad = data.clone();
        bad[i] ^= 0x01;
        assert!(matches!(ks.decrypt(&mut bad), Err(KeyPairError::AeadError(_))));
        assert_ne!(bad, b"Owlchat".to_vec());
    }
}

#[test]
fn short_envelope_fails_unchanged() {
    let ks = KeyPair::new();
    let mut data = vec![1u8; 11];
    assert!(matches!(ks.decrypt(&mut data), Err(KeyPairError::AeadError(_))));
    assert_eq!(data, vec![1u8; 11]);
}

#[test]
fn failed_decryption_leaves_nonce_cut_off() {
    let ks = KeyPair::new();
    let other = KeyPair::new();
    let mut data = b"Owlchat".to_vec();
    ks.encrypt(&mut data).unwrap();
    let sealed = data[..data.len() - 12].to_vec();
    assert!(other.decrypt(&mut data).is_err());
    assert_eq!(data, sealed);
}

#[test]
fn wrong_key_fails() {
    let ks = KeyPair::new();
    let mut data = b"Owlchat".to_vec();
    ks.encrypt_with([7u8; 32], &mut data).unwrap();
    assert!(ks.decrypt_with([8u8; 32], &mut data).is_err());
}

#[test]
fn init_has_no_seed_and_backup_needs_one() {
    let ks = KeyPair::init([9u8; 32]);
    assert_eq!(ks.seed(), None);
    assert!(matches!(ks.backup(None), Err(KeyPairError::EmptySeed)));
    let phrase = ks.backup(Some([0u8; 32])).unwrap();
    assert_eq!(phrase.split(' ').count(), 24);
    assert!(phrase.starts_with("abandon abandon"));
    assert!(phrase.ends_with("art"));
}

#[test]
fn init_clamps_the_secret_key() {
    let ks = KeyPair::init([0xffu8; 32]);
    let sk = ks.secret_key();
    assert_eq!(sk[0], 0xf8);
    assert_eq!(sk[31], 0x7f);
    assert_eq!(sk[1], 0xff);
    let again = KeyPair::init(sk);
    assert_eq!(again.public_key(), ks.public_key());
    let from: KeyPair = [0xffu8; 32].into();
    assert_eq!(from.public_key(), ks.public_key());
}

#[test]
fn known_public_key() {
    // RFC 7748, section 6.1: Alice's private and public keys
    let sk: [u8; 32] = [
        0x77, 0x07, 0x6d, 0x0a, 0x73, 0x18, 0xa5, 0x7d, 0x3c, 0x16, 0xc1, 0x72, 0x51, 0xb2, 0x66,
        0x45, 0xdf, 0x4c, 0x2f, 0x87, 0xeb, 0xc0, 0x99, 0x2a, 0xb1, 0x77, 0xfb, 0xa5, 0x1d, 0xb9,
        0x2c, 0x2a,
    ];
    let pk: [u8; 32] = [
        0x85, 0x20, 0xf0, 0x09, 0x89, 0x30, 0xa7, 0x54, 0x74, 0x8b, 0x7d, 0xdc, 0xb4, 0x3e, 0xf7,
        0x5a, 0x0d, 0xbf, 0x3a, 0x0d, 0x26, 0x38, 0x1a, 0xf4, 0xeb, 0xa4, 0xa9, 0x8e, 0xaa, 0x9b,
        0x4e, 0x6a,
    ];
    assert_eq!(KeyPair::init(sk).public_key(), pk);
}

#[test]
fn restore_rejects_bad_phrases() {
    assert!(matches!(
        KeyPair::restore("not a mnemonic".to_string()),
        Err(KeyPairError::Bip39Error(_))
    ));
    assert!(matches!(
        KeyPair::restore(PHRASE_12.to_string()),
        Err(KeyPairError::InsufficientEntropy)
    ));
    let ks: Result<KeyPair, KeyPairError> = std::convert::TryFrom::try_from(PHRASE_12.to_string());
    assert!(ks.is_err());
}

#[test]
fn restore_from_known_phrase() {
    let phrase = KeyPair::init([1u8; 32]).backup(Some([0u8; 32])).unwrap();
    let ks = KeyPair::restore(phrase).unwrap();
    assert_eq!(ks.seed(), Some([0u8; 32]));
    assert_eq!(ks.public_key(), KeyPair::init([0u8; 32]).public_key());
}

#[test]
fn default_key_pair_has_a_seed() {
    let ks = KeyPair::default();
    assert!(ks.seed().is_some());
}
