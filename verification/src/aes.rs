//! Trusted boundary to the external block-cipher and key-derivation
//! primitives: AES-256 in CBC mode with an all-zero initialization vector
//! and no padding, applied to exactly one 16-byte block (equivalent to a
//! single-block ECB operation), and PBKDF2 over HMAC-RIPEMD160.
//!
//! Everything the rest of the library knows about these primitives is
//! stated here, over the uninterpreted names `aes256_encrypted`,
//! `aes256_decrypted` and `kdf_ripemd160`.

use crypto::buffer::{ReadBuffer, WriteBuffer};
use crypto::symmetriccipher::{Decryptor, Encryptor, SymmetricCipherError};
use vstd::prelude::*;

verus! {

/// The error enum of the external cipher, carried through unexamined.
#[verifier::external_type_specification]
#[verifier::external_body]
pub struct ExSymmetricCipherError(SymmetricCipherError);

/// What the external encryption call returns for a 32-byte key and a
/// 16-byte block: a function of its two arguments alone.
pub uninterp spec fn aes256_encrypted(key: Seq<u8>, block: Seq<u8>) -> Seq<u8>;

/// What the external decryption call returns for a 32-byte key and a
/// 16-byte block: a function of its two arguments alone.
pub uninterp spec fn aes256_decrypted(key: Seq<u8>, block: Seq<u8>) -> Seq<u8>;

/// What the external key-derivation call returns: a deterministic, pure
/// function of password, salt, iteration count and output length.
pub uninterp spec fn kdf_ripemd160(
    password: Seq<u8>,
    salt: Seq<u8>,
    iterations: u32,
    out_len: int,
) -> Seq<u8>;

/// A primitive's output re-padded with leading zero bytes to the full
/// 16-byte block, in case leading zeros were elided.
pub open spec fn pad16(s: Seq<u8>) -> Seq<u8> {
    if s.len() >= 16 {
        s
    } else {
        Seq::new(16, |i: int| if i < 16 - s.len() {
            0u8
        } else {
            s[i - (16 - s.len())]
        })
    }
}

/// A primitive's output as one full block: re-padded and, for totality of
/// the specification alone, capped at 16 bytes. The real primitive returns
/// at most one block for one block of input, so the cap never bites.
pub open spec fn fit16(s: Seq<u8>) -> Seq<u8> {
    pad16(s).take(16)
}

/// Relies on crypto::aes::cbc_encryptor with KeySize256, a zero IV and
/// NoPadding, driven over exactly one 16-byte block: for full-block input
/// the engine always reaches its finished state and reports success, with
/// at most one block of output.
#[verifier::external_body]
pub fn encrypt_block(block: &[u8], key: &[u8]) -> (r: Result<Vec<u8>, SymmetricCipherError>)
    requires
        block@.len() == 16,
        key@.len() == 32,
    ensures
        r is Ok,
        r matches Ok(v) ==> v@ == aes256_encrypted(key@, block@) && v@.len() <= 16,
{
    let np = crypto::blockmodes::NoPadding;
    let mut eng = crypto::aes::cbc_encryptor(crypto::aes::KeySize::KeySize256, key, &[0u8; 16], np);
    let mut out = Vec::<u8>::new();
    let mut buf = [0u8; 16];
    let mut rb = crypto::buffer::RefReadBuffer::new(block);
    let mut wb = crypto::buffer::RefWriteBuffer::new(&mut buf);
    loop {
        let res = eng.encrypt(&mut rb, &mut wb, true)?;
        out.extend(wb.take_read_buffer().take_remaining());
        if let crypto::buffer::BufferResult::BufferUnderflow = res { break ; }
    }
    Ok(out)
}

/// Relies on crypto::aes::cbc_decryptor with KeySize256, a zero IV and
/// NoPadding, driven over exactly one 16-byte block: success as for
/// encryption, and decryption inverts encryption under the same key, up to
/// the re-padding of elided leading zeros on either side.
#[verifier::external_body]
pub fn decrypt_block(block: &[u8], key: &[u8]) -> (r: Result<Vec<u8>, SymmetricCipherError>)
    requires
        block@.len() == 16,
        key@.len() == 32,
    ensures
        r is Ok,
        r matches Ok(v) ==> v@ == aes256_decrypted(key@, block@) && v@.len() <= 16,
        r matches Ok(v) ==> forall|p: Seq<u8>|
            p.len() == 16 && block@ == fit16(#[trigger] aes256_encrypted(key@, p)) ==> pad16(v@)
                == p,
{
    let np = crypto::blockmodes::NoPadding;
    let mut eng = crypto::aes::cbc_decryptor(crypto::aes::KeySize::KeySize256, key, &[0u8; 16], np);
    let mut out = Vec::<u8>::new();
    let mut buf = [0u8; 16];
    let mut rb = crypto::buffer::RefReadBuffer::new(block);
    let mut wb = crypto::buffer::RefWriteBuffer::new(&mut buf);
    loop {
        let res = eng.decrypt(&mut rb, &mut wb, true)?;
        out.extend(wb.take_read_buffer().take_remaining());
        if let crypto::buffer::BufferResult::BufferUnderflow = res { break ; }
    }
    Ok(out)
}

/// Relies on crypto::pbkdf2::pbkdf2 with an HMAC-RIPEMD160 pseudo-random
/// function: fills the requested number of output bytes deterministically
/// from password and salt. The call asserts a positive iteration count and
/// caps the block index, so tiny iteration counts and huge outputs are
/// excluded here.
#[verifier::external_body]
pub(crate) fn pbkdf2_hmac_ripemd160(
    password: &[u8],
    salt: &[u8],
    iterations: u32,
    out_len: usize,
) -> (r: Vec<u8>)
    requires
        1 <= iterations,
        out_len <= 4096,
    ensures
        r@.len() == out_len,
        r@ == kdf_ripemd160(password@, salt@, iterations, out_len as int),
{
    let mut mac = crypto::hmac::Hmac::new(crypto::ripemd160::Ripemd160::new(), password);
    let mut out = vec![0u8; out_len];
    crypto::pbkdf2::pbkdf2(&mut mac, salt, iterations, &mut out);
    out
}

} // verus!
