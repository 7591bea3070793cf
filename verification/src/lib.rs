//! Codec for Level-5 MAT-files holding plain numeric matrices.
//!
//! The crate writes numeric arrays into the byte-exact layout of a
//! MAT-file and parses that layout back.
//!
//! - [`format`] says what the bytes of a file are: a function from the
//!   values of a file to its bytes, with the facts about padding,
//!   alignment and length fields that follow from it.
//! - [`write`] writes those bytes into a buffer; [`parse`] reads them back.
//!   Files are written and read in either byte order.
//! - [`round_trip`] proves that what the format gives for a file is parsed
//!   to the matrices of that file.
//! - [`primitive`] and [`scalar`] hold the numbers of 8 to 64 bits as bytes.
//!
//! Every function is verified against its contract. Two calls into the
//! standard library are taken on trust: `u16::to_ne_bytes`, by which
//! [`primitive::ByteOrder::native`] finds the byte order of the machine,
//! and `String::from_utf8`, by which the parser makes a name of its bytes.
//!
//! Floating-point numbers are held as the bit patterns of their IEEE 754
//! form (`f32::to_bits`, `f64::to_bits`), which is what a file stores.

pub mod format;
pub mod parse;
pub mod primitive;
pub mod round_trip;
pub mod scalar;
pub mod sequences;
pub mod write;
