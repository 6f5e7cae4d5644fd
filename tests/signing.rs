use onero::signature::{sign, SignedTransaction};
use onero::transaction::Transaction;
use ring::signature::KeyPair;
use onero::wallet::Wallet;

fn sample() -> Transaction {
    Transaction { sender: "alice".to_string(), receiver: "bob".to_string(), amount: 10, fee: 1 }
}

#[test]
fn canonical_bytes_are_fixed_width_little_endian() {
    let t = Transaction { sender: "a".to_string(), receiver: "bc".to_string(), amount: 0x01020304, fee: 7 };
    let expected: Vec<u8> = vec![
        1, 0, 0, 0, 0, 0, 0, 0, b'a', 2, 0, 0, 0, 0, 0, 0, 0, b'b', b'c', 4, 3, 2, 1, 7, 0, 0, 0,
    ];
    assert_eq!(t.as_raw(), expected);
}

#[test]
fn canonical_bytes_match_bincode() {
    let t = Transaction { sender: "sénder".to_string(), receiver: "r".to_string(), amount: 99, fee: 0xdead };
    let reference = bincode::serialize(&(t.sender.as_str(), t.receiver.as_str(), t.amount, t.fee)).unwrap();
    assert_eq!(t.as_raw(), reference);
}

#[test]
fn signature_verifies_under_the_matching_key() {
    let wallet = Wallet::new().unwrap();
    let signed = wallet.sign_transaction(&sample());
    assert_eq!(signed.transaction, sample());
    assert_eq!(signed.signature.len(), 64);
    assert!(signed.is_transaction_valid(&wallet.public_key_bytes()));
}

#[test]
fn altered_fields_fail_verification() {
    let wallet = Wallet::new().unwrap();
    let key = wallet.public_key_bytes();
    let signed = wallet.sign_transaction(&sample());
    let alterations: Vec<fn(&mut Transaction)> = vec![
        |t| t.sender.push('x'),
        |t| t.receiver = "eve".to_string(),
        |t| t.amount += 1,
        |t| t.fee = 0,
    ];
    for alter in alterations {
        let mut tampered = signed.clone();
        alter(&mut tampered.transaction);
        assert!(!tampered.is_transaction_valid(&key));
    }
}

#[test]
fn other_key_or_corrupt_signature_fails_verification() {
    let wallet = Wallet::new().unwrap();
    let other = Wallet::new().unwrap();
    let signed = wallet.sign_transaction(&sample());
    assert!(!signed.is_transaction_valid(&other.public_key_bytes()));
    let mut corrupt = signed.clone();
    corrupt.signature[0] ^= 1;
    assert!(!corrupt.is_transaction_valid(&wallet.public_key_bytes()));
    let short = SignedTransaction { transaction: sample(), signature: vec![1, 2, 3] };
    assert!(!short.is_transaction_valid(&wallet.public_key_bytes()));
    assert!(!signed.is_transaction_valid(&[0u8; 5]));
}

#[test]
fn address_is_hex_of_public_key() {
    let wallet = Wallet::new().unwrap();
    let key = wallet.public_key_bytes();
    assert_eq!(key.len(), 32);
    assert_eq!(wallet.address(), hex::encode(&key));
    assert_eq!(wallet.address().len(), 64);
}

#[test]
fn wallets_from_the_same_key_sign_alike() {
    let rng = ring::rand::SystemRandom::new();
    let pkcs8 = ring::signature::Ed25519KeyPair::generate_pkcs8(&rng).unwrap();
    let a = Wallet::new_from_keypair(ring::signature::Ed25519KeyPair::from_pkcs8(pkcs8.as_ref()).unwrap());
    let b = Wallet::new_from_keypair(ring::signature::Ed25519KeyPair::from_pkcs8(pkcs8.as_ref()).unwrap());
    assert_eq!(a.public_key_bytes(), b.public_key_bytes());
    let pair = ring::signature::Ed25519KeyPair::from_pkcs8(pkcs8.as_ref()).unwrap();
    assert_eq!(a.public_key_bytes(), pair.public_key().as_ref().to_vec());
    let own = SignedTransaction::new(&sample(), &pair);
    assert!(own.is_transaction_valid(pair.public_key().as_ref()));
    let signed = a.sign_transaction(&sample());
    assert!(signed.is_transaction_valid(&b.public_key_bytes()));
    let signature = sign(&sample(), &ring::signature::Ed25519KeyPair::from_pkcs8(pkcs8.as_ref()).unwrap());
    assert_eq!(signature, signed.signature);
    let direct = SignedTransaction::new(
        &sample(),
        &ring::signature::Ed25519KeyPair::from_pkcs8(pkcs8.as_ref()).unwrap(),
    );
    assert_eq!(direct.signature, signed.signature);
}
