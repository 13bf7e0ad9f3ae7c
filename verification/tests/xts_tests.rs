//! XTS block decryption: the round trip against the inverse construction,
//! for several keys, plaintexts and tweak indices.

use tcfinder::aes::encrypt_block;
use tcfinder::gf2n::gfmul_simd;
use tcfinder::xts::{arr_size_to_16b, xor_bytes_16, xts_decrypt};

/// The inverse construction: XOR the tweak in, AES-encrypt under key1, XOR
/// the tweak back in, with the tweak built exactly as the decryptor builds
/// it.
fn encrypt_equivalent(key1: &[u8], key2: &[u8], idx: u8, plain: &[u8]) -> Vec<u8> {
    let e = encrypt_block(&[0u8; 16], key2).unwrap();
    let e16 = arr_size_to_16b(e);
    let g_bytes = (1u128 << idx).to_be_bytes();
    let tweak = gfmul_simd(&e16, &g_bytes);
    let xored = xor_bytes_16(&tweak, plain);
    let enc = encrypt_block(&xored, key1).unwrap();
    let enc16 = arr_size_to_16b(enc);
    xor_bytes_16(&tweak, &enc16)
}

fn pseudo_random_bytes<const N: usize>(seed: u8) -> [u8; N] {
    let mut out = [0u8; N];
    let mut x = seed;
    for b in out.iter_mut() {
        x = x.wrapping_mul(167).wrapping_add(13);
        *b = x;
    }
    out
}

#[test]
fn decrypt_inverts_encrypt_equivalent_index_zero() {
    for seed in [1u8, 55, 200] {
        let key1: [u8; 32] = pseudo_random_bytes(seed);
        let key2: [u8; 32] = pseudo_random_bytes(seed.wrapping_add(7));
        let plain: [u8; 16] = pseudo_random_bytes(seed.wrapping_add(31));
        let cipher = encrypt_equivalent(&key1, &key2, 0, &plain);
        let back = xts_decrypt(&key1, &key2, 0, &cipher);
        assert_eq!(&back[..], &plain[..]);
    }
}

#[test]
fn decrypt_inverts_encrypt_equivalent_higher_index() {
    let key1: [u8; 32] = pseudo_random_bytes(90);
    let key2: [u8; 32] = pseudo_random_bytes(17);
    let plain: [u8; 16] = *b"TRUE-headers-ok!";
    for idx in [1u8, 5, 127] {
        let cipher = encrypt_equivalent(&key1, &key2, idx, &plain);
        let back = xts_decrypt(&key1, &key2, idx, &cipher);
        assert_eq!(&back[..], &plain[..]);
    }
}

#[test]
fn decrypt_differs_from_ciphertext() {
    // The decryption must actually transform the block.
    let key1: [u8; 32] = pseudo_random_bytes(3);
    let key2: [u8; 32] = pseudo_random_bytes(4);
    let block: [u8; 16] = pseudo_random_bytes(5);
    let out = xts_decrypt(&key1, &key2, 0, &block);
    assert_ne!(&out[..], &block[..]);
}

#[test]
fn xor_bytes_16_xors_pointwise() {
    let a = [0xFFu8; 16];
    let mut b = [0u8; 16];
    b[0] = 0x0F;
    b[15] = 0xF0;
    let r = xor_bytes_16(&a, &b);
    assert_eq!(r[0], 0xF0);
    assert_eq!(r[1], 0xFF);
    assert_eq!(r[15], 0x0F);
}

#[test]
fn arr_size_to_16b_left_pads() {
    let r = arr_size_to_16b(vec![1u8, 2, 3]);
    assert_eq!(r.len(), 16);
    assert_eq!(&r[..13], &[0u8; 13]);
    assert_eq!(&r[13..], &[1u8, 2, 3]);
}
