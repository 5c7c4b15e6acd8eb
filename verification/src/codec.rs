//! Encoded-byte boundaries: output format choice and the conservative input metadata gates.
pub mod decode;
pub mod sniff;
pub mod encoding;
pub mod exif;
pub mod input_contract;
