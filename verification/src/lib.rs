//! A symmetric-key block-cipher toolkit: the Speck128/128 ARX block cipher,
//! CBC chaining over it, and two byte-oriented padding schemes (PKCS#7 and
//! ANSI X9.23) that make variable-length plaintext block-aligned.

pub mod ansi_x923;
pub mod block;
pub mod cbc;
pub mod padding;
pub mod pkcs7;
pub mod speck;

