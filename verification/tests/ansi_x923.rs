use speck_cbc::ansi_x923::AnsiX923;
use speck_cbc::padding::PaddingError;

#[test]
fn ansi_x923_pad_example() {
    let p: Vec<u8> = vec![0xAA, 0xCC, 0xEE, 0xBB, 0x13];
    let out = AnsiX923::pad(&p, 8);
    assert_eq!(out, vec![0xAA, 0xCC, 0xEE, 0xBB, 0x13, 0x00, 0x00, 0x03]);
    assert_eq!(AnsiX923::unpad(&out, 8).unwrap(), p);
}

#[test]
fn ansi_x923_full_extra_block() {
    let p: Vec<u8> = (0u8..8u8).collect();
    let out = AnsiX923::pad(&p, 8);
    assert_eq!(out.len(), 16);
    assert_eq!(&out[..8], &p[..]);
    assert!(out[8..15].iter().all(|&b| b == 0));
    assert_eq!(out[15], 8);
}

#[test]
fn ansi_x923_empty_plaintext() {
    let p: Vec<u8> = vec![];
    let out = AnsiX923::pad(&p, 4);
    assert_eq!(out, vec![0, 0, 0, 4]);
    assert_eq!(AnsiX923::unpad(&out, 4).unwrap(), p);
}

#[test]
fn ansi_x923_unpad_empty_is_length_error() {
    let c: Vec<u8> = vec![];
    assert_eq!(AnsiX923::unpad(&c, 8), Err(PaddingError::WrongCiphertextLength));
}

#[test]
fn ansi_x923_unpad_misaligned_is_length_error() {
    let c: Vec<u8> = vec![0, 0, 3];
    assert_eq!(AnsiX923::unpad(&c, 8), Err(PaddingError::WrongCiphertextLength));
}

#[test]
fn ansi_x923_unpad_zero_count_is_padding_error() {
    let c: Vec<u8> = vec![1, 2, 3, 0, 0, 0, 0, 0];
    assert_eq!(AnsiX923::unpad(&c, 8), Err(PaddingError::WrongPadding));
}

#[test]
fn ansi_x923_unpad_nonzero_filler_is_padding_error() {
    let c: Vec<u8> = vec![0xAA, 0xCC, 0xEE, 0xBB, 0x13, 0x00, 0x07, 0x03];
    assert_eq!(AnsiX923::unpad(&c, 8), Err(PaddingError::WrongPadding));
}

#[test]
fn ansi_x923_unpad_count_past_buffer_is_padding_error() {
    let c: Vec<u8> = vec![0, 0, 9];
    assert_eq!(AnsiX923::unpad(&c, 3), Err(PaddingError::WrongPadding));
}
