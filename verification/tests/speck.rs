use speck_cbc::block::Block;
use speck_cbc::speck::{decrypt_block, encrypt_block, Speck128};

const KAT_KEY: [u8; 16] = [
    0x00, 0x01, 0x02, 0x03, 0x04, 0x05, 0x06, 0x07, 0x08, 0x09, 0x0a, 0x0b, 0x0c, 0x0d, 0x0e,
    0x0f,
];

const KAT_PLAINTEXT: [u8; 16] = [
    0x20, 0x6d, 0x61, 0x64, 0x65, 0x20, 0x69, 0x74, 0x20, 0x65, 0x71, 0x75, 0x69, 0x76, 0x61,
    0x6c,
];

const KAT_CIPHERTEXT: [u8; 16] = [
    0x18, 0x0d, 0x57, 0x5c, 0xdf, 0xfe, 0x60, 0x78, 0x65, 0x32, 0x78, 0x79, 0x51, 0x98, 0x5d,
    0xa6,
];

#[test]
fn speck_known_answer() {
    let pt = Block::from_bytes(KAT_PLAINTEXT.to_vec()).unwrap();
    let ct = encrypt_block(&KAT_KEY, &pt);
    assert_eq!(ct.as_bytes(), &KAT_CIPHERTEXT.to_vec());
    let back = decrypt_block(&KAT_KEY, &ct);
    assert_eq!(back.as_bytes(), &KAT_PLAINTEXT.to_vec());
}

#[test]
fn speck_cached_schedule_matches_free_functions() {
    let cipher = Speck128::new(&KAT_KEY);
    let pt = Block::from_bytes(KAT_PLAINTEXT.to_vec()).unwrap();
    let ct = cipher.encrypt_block(&pt);
    assert_eq!(ct.as_bytes(), &KAT_CIPHERTEXT.to_vec());
    assert_eq!(cipher.decrypt_block(&ct).as_bytes(), &KAT_PLAINTEXT.to_vec());
}

#[test]
fn speck_round_trip_various_blocks() {
    let key: [u8; 16] = [0x5A; 16];
    let cipher = Speck128::new(&key);
    for seed in 0u8..8u8 {
        let bytes: Vec<u8> = (0u8..16u8).map(|i| i.wrapping_mul(37).wrapping_add(seed)).collect();
        let pt = Block::from_bytes(bytes.clone()).unwrap();
        let ct = cipher.encrypt_block(&pt);
        assert_ne!(ct.as_bytes(), &bytes);
        let back = cipher.decrypt_block(&ct);
        assert_eq!(back.as_bytes(), &bytes);
    }
}

#[test]
fn block_from_bytes_checks_length() {
    assert!(Block::from_bytes(vec![0u8; 16]).is_some());
    assert!(Block::from_bytes(vec![0u8; 15]).is_none());
    assert!(Block::from_bytes(vec![0u8; 17]).is_none());
    assert!(Block::from_bytes(vec![]).is_none());
}

#[test]
fn block_xor_is_elementwise() {
    let a = Block::from_bytes((0u8..16u8).collect()).unwrap();
    let b = Block::from_bytes(vec![0xFF; 16]).unwrap();
    let x = a.xor(&b);
    let expect: Vec<u8> = (0u8..16u8).map(|i| i ^ 0xFF).collect();
    assert_eq!(x.as_bytes(), &expect);
    let back = x.xor(&b);
    assert_eq!(back.as_bytes(), a.as_bytes());
}
