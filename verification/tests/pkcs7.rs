use speck_cbc::padding::PaddingError;
use speck_cbc::pkcs7::PKCS7;

fn check_padding(plaintext: &[u8], block_len: usize, padded: &[u8]) {
    let p: Vec<u8> = plaintext.to_vec();
    let out = PKCS7::pad(&p, block_len);
    assert_eq!(out, padded.to_vec());
    let back = PKCS7::unpad(&out, block_len);
    assert_eq!(back.unwrap(), p);
}

fn check_remove_padding(plaintext: &[u8], block_len: usize, padded: &[u8]) {
    let c: Vec<u8> = padded.to_vec();
    let back = PKCS7::unpad(&c, block_len);
    assert_eq!(back.unwrap(), plaintext.to_vec());
}

#[test]
fn pkcs7_block_8() {
    const B: usize = 8;

    check_padding(&[], B, &[08; 08]);
    check_padding(&[0xAA, 0xCC, 0xEE, 0xBB, 0x13], B, &[0xAA, 0xCC, 0xEE, 0xBB, 0x13, 03, 03, 03]);
    check_padding(
        &[0xAA, 0xCC, 0xEE, 0x48, 0x13, 0xFF, 0x11, 0xDD],
        B,
        &[0xAA, 0xCC, 0xEE, 0x48, 0x13, 0xFF, 0x11, 0xDD, 08, 08, 08, 08, 08, 08, 08, 08],
    );
    check_padding(
        &[0x10, 0xCC, 0x73, 0xBB, 0x13, 0xFF, 0x11, 0xDD, 0x50, 0x24],
        B,
        &[0x10, 0xCC, 0x73, 0xBB, 0x13, 0xFF, 0x11, 0xDD, 0x50, 0x24, 06, 06, 06, 06, 06, 06],
    );
}

#[test]
fn pkcs7_block_16() {
    const B: usize = 16;

    check_padding(&[], B, &[16; 16]);
    check_padding(
        &[0xAA, 0xCC, 0xEE, 0xBB, 0x13],
        B,
        &[0xAA, 0xCC, 0xEE, 0xBB, 0x13, 11, 11, 11, 11, 11, 11, 11, 11, 11, 11, 11],
    );
    check_padding(
        &[0xAA, 0xCC, 0xEE, 0x48, 0x13, 0xFF, 0x11, 0xDD],
        B,
        &[0xAA, 0xCC, 0xEE, 0x48, 0x13, 0xFF, 0x11, 0xDD, 08, 08, 08, 08, 08, 08, 08, 08],
    );
    check_padding(
        &[0x10, 0xCC, 0x73, 0xBB, 0x13, 0xFF, 0x11, 0xDD, 0x50, 0x24],
        B,
        &[0x10, 0xCC, 0x73, 0xBB, 0x13, 0xFF, 0x11, 0xDD, 0x50, 0x24, 06, 06, 06, 06, 06, 06],
    );
    check_padding(
        &[0x10, 0xCC, 0x73, 0xBB, 0x13, 0xFF, 0x11, 0xDD, 0x50, 0x24, 0x37, 0x22, 0xF5, 0xD3, 00,
            0x1C],
        B,
        &[0x10, 0xCC, 0x73, 0xBB, 0x13, 0xFF, 0x11, 0xDD, 0x50, 0x24, 0x37, 0x22, 0xF5, 0xD3, 00,
            0x1C, 16, 16, 16, 16, 16, 16, 16, 16, 16, 16, 16, 16, 16, 16, 16, 16],
    );
    check_padding(
        &[0x10, 0xCC, 0x73, 0xBB, 0x13, 0xFF, 0x11, 0xDD, 0x50, 0x24, 0x37, 0x22, 0xF5, 0xD3, 00,
            0x1C, 0xCA, 0x6D, 0x34, 0x66, 0xB1, 0xB1, 0x25],
        B,
        &[0x10, 0xCC, 0x73, 0xBB, 0x13, 0xFF, 0x11, 0xDD, 0x50, 0x24, 0x37, 0x22, 0xF5, 0xD3, 00,
            0x1C, 0xCA, 0x6D, 0x34, 0x66, 0xB1, 0xB1, 0x25, 09, 09, 09, 09, 09, 09, 09, 09, 09],
    );
}

#[test]
fn pkcs7_block_misc() {
    check_padding(&[], 3, &[3, 3, 3]);
    check_padding(&[0xAA, 0xCC, 0xEE, 0xBB, 0x13], 7, &[0xAA, 0xCC, 0xEE, 0xBB, 0x13, 02, 02]);
    check_padding(
        &[0xAA, 0xCC, 0xEE, 0x48, 0x13, 0xFF, 0x11, 0xDD],
        11,
        &[0xAA, 0xCC, 0xEE, 0x48, 0x13, 0xFF, 0x11, 0xDD, 03, 03, 03],
    );
    check_padding(
        &[0x10, 0xCC, 0x73, 0xBB, 0x13, 0xFF, 0x11, 0xDD, 0x50, 0x24],
        6,
        &[0x10, 0xCC, 0x73, 0xBB, 0x13, 0xFF, 0x11, 0xDD, 0x50, 0x24, 02, 02],
    );
    check_padding(
        &[0x10, 0xCC, 0x73, 0xBB, 0x13, 0xFF, 0x11, 0xDD, 0x50, 0x24, 0x37, 0x22, 0xF5, 0xD3, 00,
            0x1C],
        13,
        &[0x10, 0xCC, 0x73, 0xBB, 0x13, 0xFF, 0x11, 0xDD, 0x50, 0x24, 0x37, 0x22, 0xF5, 0xD3, 00,
            0x1C, 10, 10, 10, 10, 10, 10, 10, 10, 10, 10],
    );
}

#[test]
#[should_panic]
fn pkcs7_should_fail_1() {
    check_remove_padding(&[0xAA, 0xCC, 0xEE, 0xBB, 0x13], 7, &[0xAA, 0xCC, 0xEE, 0xBB, 0x13, 01, 02]);
}

#[test]
#[should_panic]
fn pkcs7_should_fail_2() {
    check_remove_padding(&[0xAA, 0xCC, 0xEE, 0xBB, 0x13], 7, &[0xAA, 0xCC, 0xEE, 0xBB, 0x13, 02, 02, 02]);
}

#[test]
#[should_panic]
fn pkcs7_should_fail_3() {
    check_remove_padding(&[0xAA, 0xCC, 0xEE, 0xBB, 0x13], 7, &[0xAA, 0xCC, 0xEE, 0xBB, 0x13, 02]);
}

#[test]
#[should_panic]
fn pkcs7_should_fail_4() {
    check_remove_padding(&[0xAA, 0xCC, 0xEE, 0xBB, 0x13], 7, &[0xAA, 0xCC, 0xEE, 0xBB, 03, 03, 03]);
}

#[test]
fn pkcs7_full_extra_block() {
    let p: Vec<u8> = (0u8..16u8).collect();
    let out = PKCS7::pad(&p, 16);
    assert_eq!(out.len(), 32);
    assert_eq!(&out[..16], &p[..]);
    assert!(out[16..].iter().all(|&b| b == 16));
}

#[test]
fn pkcs7_unpad_empty_is_length_error() {
    let c: Vec<u8> = vec![];
    assert_eq!(PKCS7::unpad(&c, 8), Err(PaddingError::WrongCiphertextLength));
}

#[test]
fn pkcs7_unpad_misaligned_is_length_error() {
    let c: Vec<u8> = vec![1, 2, 3, 4, 5];
    assert_eq!(PKCS7::unpad(&c, 8), Err(PaddingError::WrongCiphertextLength));
}

#[test]
fn pkcs7_unpad_zero_count_is_padding_error() {
    let c: Vec<u8> = vec![1, 2, 3, 4, 5, 6, 7, 0];
    assert_eq!(PKCS7::unpad(&c, 8), Err(PaddingError::WrongPadding));
}

#[test]
fn pkcs7_unpad_count_past_buffer_is_padding_error() {
    let c: Vec<u8> = vec![9, 9, 9];
    assert_eq!(PKCS7::unpad(&c, 3), Err(PaddingError::WrongPadding));
}

#[test]
fn pkcs7_unpad_tampered_tail_is_padding_error() {
    let p: Vec<u8> = vec![0xAA, 0xCC, 0xEE];
    let mut c = PKCS7::pad(&p, 8);
    c[4] ^= 0xFF;
    assert_eq!(PKCS7::unpad(&c, 8), Err(PaddingError::WrongPadding));
}
