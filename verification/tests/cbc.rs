use speck_cbc::block::Block;
use speck_cbc::cbc::{cbc_decrypt, cbc_encrypt};
use speck_cbc::padding::{PaddingError, PaddingScheme};
use speck_cbc::speck::encrypt_block;

const KEY: [u8; 16] = [
    0x00, 0x11, 0x22, 0x33, 0x44, 0x55, 0x66, 0x77, 0x88, 0x99, 0xaa, 0xbb, 0xcc, 0xdd, 0xee,
    0xff,
];

fn iv() -> Block {
    Block::from_bytes((1u8..17u8).collect()).unwrap()
}

#[test]
fn cbc_round_trip_pkcs7() {
    let plaintext: Vec<u8> = (0u8..41u8).collect();
    let ct = cbc_encrypt(&KEY, &iv(), &plaintext, PaddingScheme::Pkcs7);
    assert_eq!(ct.len() % 16, 0);
    assert_eq!(ct.len(), 48);
    let back = cbc_decrypt(&KEY, &iv(), &ct, PaddingScheme::Pkcs7);
    assert_eq!(back.unwrap(), plaintext);
}

#[test]
fn cbc_round_trip_ansi_x923() {
    let plaintext: Vec<u8> = (0u8..32u8).collect();
    let ct = cbc_encrypt(&KEY, &iv(), &plaintext, PaddingScheme::AnsiX923);
    assert_eq!(ct.len(), 48);
    let back = cbc_decrypt(&KEY, &iv(), &ct, PaddingScheme::AnsiX923);
    assert_eq!(back.unwrap(), plaintext);
}

#[test]
fn cbc_round_trip_empty_plaintext() {
    let plaintext: Vec<u8> = vec![];
    let ct = cbc_encrypt(&KEY, &iv(), &plaintext, PaddingScheme::Pkcs7);
    assert_eq!(ct.len(), 16);
    let back = cbc_decrypt(&KEY, &iv(), &ct, PaddingScheme::Pkcs7);
    assert_eq!(back.unwrap(), plaintext);
}

#[test]
fn cbc_first_block_chains_from_iv() {
    let plaintext: Vec<u8> = vec![0x42; 16];
    let ct = cbc_encrypt(&KEY, &iv(), &plaintext, PaddingScheme::Pkcs7);
    let first = Block::from_bytes(plaintext.clone()).unwrap();
    let expect = encrypt_block(&KEY, &first.xor(&iv()));
    assert_eq!(&ct[..16], &expect.as_bytes()[..]);
}

#[test]
fn cbc_decrypt_misaligned_is_length_error() {
    let ct: Vec<u8> = vec![0u8; 21];
    let r = cbc_decrypt(&KEY, &iv(), &ct, PaddingScheme::Pkcs7);
    assert_eq!(r, Err(PaddingError::WrongCiphertextLength));
}

#[test]
fn cbc_decrypt_empty_is_length_error() {
    let ct: Vec<u8> = vec![];
    let r = cbc_decrypt(&KEY, &iv(), &ct, PaddingScheme::AnsiX923);
    assert_eq!(r, Err(PaddingError::WrongCiphertextLength));
}

#[test]
fn cbc_different_ivs_differ() {
    let plaintext: Vec<u8> = (0u8..16u8).collect();
    let iv2 = Block::from_bytes((2u8..18u8).collect()).unwrap();
    let c1 = cbc_encrypt(&KEY, &iv(), &plaintext, PaddingScheme::Pkcs7);
    let c2 = cbc_encrypt(&KEY, &iv2, &plaintext, PaddingScheme::Pkcs7);
    assert_ne!(c1, c2);
}
