use elena_core::crypto::{hash_512, CryptoError, KeyPair, PublicKeyBytes, PUBLIC_KEY_SIZE};

#[test]
fn test_sign_verify() {
    let keypair = KeyPair::generate();
    let message = b"Hello, Elena!";
    let signature = keypair.sign(message).ok().unwrap();
    let pk = PublicKeyBytes::from_bytes(keypair.public_key()).ok().unwrap();
    assert!(pk.verify(message, &signature).ok().unwrap());
}

#[test]
fn test_hash() {
    let h = hash_512(b"test");
    assert_eq!(h.len(), 64);
}

#[test]
fn hash_of_empty_input_is_sha3_512() {
    let h = hash_512(b"");
    assert_eq!(
        hex::encode(h),
        "a69f73cca23a9ac5c8b567dc185a756e97c982164fe25859e0d1dcc1475c80a615b2123af1f5f94c11e3e9402c3ac558f500199d95b6d3e301758586281dcd26"
    );
}

#[test]
fn flipped_signature_byte_fails_verification() {
    let keypair = KeyPair::generate();
    let message = b"Hello, Elena!";
    let mut signature = keypair.sign(message).ok().unwrap();
    let pk = PublicKeyBytes::from_bytes(keypair.public_key()).ok().unwrap();
    signature[10] ^= 0x01;
    assert!(!pk.verify(message, &signature).ok().unwrap());
}

#[test]
fn other_message_fails_verification() {
    let keypair = KeyPair::generate();
    let signature = keypair.sign(b"Hello, Elena!").ok().unwrap();
    let pk = PublicKeyBytes::from_bytes(keypair.public_key()).ok().unwrap();
    assert!(!pk.verify(b"Hello, Elena?", &signature).ok().unwrap());
}

#[test]
fn generated_keys_have_documented_sizes() {
    let keypair = KeyPair::generate();
    assert_eq!(keypair.public_key().len(), PUBLIC_KEY_SIZE);
    assert_eq!(keypair.secret_key().len(), elena_core::crypto::SECRET_KEY_SIZE);
}

#[test]
fn malformed_public_key_is_rejected() {
    assert!(matches!(PublicKeyBytes::from_bytes(&[1u8; 10]), Err(CryptoError::InvalidKeyFormat)));
    let pk = PublicKeyBytes(vec![0u8; 3]);
    assert!(matches!(pk.verify(b"m", b"s"), Err(CryptoError::VerificationError(_))));
}

#[test]
fn malformed_secret_key_cannot_sign() {
    let keypair = KeyPair::from_parts(vec![0u8; PUBLIC_KEY_SIZE], vec![0u8; 5]);
    assert!(matches!(keypair.sign(b"x"), Err(CryptoError::SignatureError(_))));
}

#[test]
fn listing_entries_are_lower_case_hex() {
    let t = elena_core::graph::Transaction::unsigned(vec![0x00, 0xab], vec![0x10, 0xff], 5, [0; 64], vec![], 0, 0, 9);
    let item = elena_core::graph::RecentTxItem::of(&t);
    assert_eq!(item.from, "00ab");
    assert_eq!(item.to, "10ff");
    assert_eq!(item.id, hex::encode(t.id));
    assert_eq!(item.amount, 5);
    assert_eq!(item.timestamp, 9);
}

#[test]
fn key_pair_bytes_round_trip() {
    let keypair = KeyPair::generate();
    let bytes = keypair.to_bytes().ok().unwrap();
    assert_eq!(bytes.len(), 16 + PUBLIC_KEY_SIZE + elena_core::crypto::SECRET_KEY_SIZE);
    assert_eq!(&bytes[0..8], &(PUBLIC_KEY_SIZE as u64).to_le_bytes());
    let back = KeyPair::from_bytes(&bytes).ok().unwrap();
    assert_eq!(back.public_key(), keypair.public_key());
    assert_eq!(back.secret_key(), keypair.secret_key());
    assert!(matches!(KeyPair::from_bytes(&bytes[..bytes.len() - 1]), Err(CryptoError::InvalidKeyFormat)));
    assert!(matches!(KeyPair::from_bytes(&[1, 2, 3]), Err(CryptoError::InvalidKeyFormat)));
}

#[test]
fn key_pair_bytes_layout() {
    let keypair = KeyPair::from_parts(vec![7, 8], vec![9]);
    let bytes = keypair.to_bytes().ok().unwrap();
    assert_eq!(bytes, vec![2, 0, 0, 0, 0, 0, 0, 0, 7, 8, 1, 0, 0, 0, 0, 0, 0, 0, 9]);
    let mut longer = bytes.clone();
    longer.push(0xee);
    let back = KeyPair::from_bytes(&longer).ok().unwrap();
    assert_eq!(back.public_key(), &[7, 8]);
    assert_eq!(back.secret_key(), &[9]);
    let mut huge = bytes.clone();
    huge[7] = 0xff;
    assert!(matches!(KeyPair::from_bytes(&huge), Err(CryptoError::InvalidKeyFormat)));
}
