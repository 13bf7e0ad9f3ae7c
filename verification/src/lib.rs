//! Locates encrypted volume headers on a disk image by verifying a known
//! password against candidate sectors: per-sector key derivation, a
//! tweakable-block-cipher decryption of the header block, and a check of the
//! decrypted bytes against the volume magic signature.

pub mod aes;
pub mod gf2n;
pub mod partitioninfo;
pub mod ranges;
pub mod tcfinder;
pub mod xts;
