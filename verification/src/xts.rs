//! Tweakable-block (XTS-mode) decryption of a single 16-byte block.
//!
//! The tweak for block index `i` is the encryption of the all-zero block
//! under the secondary key, scaled in GF(2^128) by x^i; the block is then
//! decrypted as `plaintext = Decrypt(ciphertext XOR tweak, key1) XOR tweak`.

use crate::aes::{aes256_decrypted, aes256_encrypted, decrypt_block, encrypt_block, fit16,
    pad16};
use crate::gf2n::{be_bytes16, be_bytes16_of, be_u128, be_u128_at, gf_mul_portable, spec_gf_mul,
    spec_xtime, xtime};
use vstd::prelude::*;

verus! {

/// The all-zero 16-byte block.
pub open spec fn zero_block() -> Seq<u8> {
    Seq::new(16, |i: int| 0u8)
}

/// Pointwise XOR of two 16-byte strings.
pub open spec fn xor16(a: Seq<u8>, b: Seq<u8>) -> Seq<u8> {
    Seq::new(16, |i: int| a[i] ^ b[i])
}

/// x^i in the field: the tweak scale factor for block index i. The field's
/// multiplicative identity for index 0; doubling once per further index.
pub open spec fn gf_pow_x(i: nat) -> u128
    decreases i,
{
    if i == 0 {
        1u128
    } else {
        spec_xtime(gf_pow_x((i - 1) as nat))
    }
}

/// The XTS tweak for block index `i` under the secondary key: the zero
/// block encrypted under that key, scaled by x^i.
pub open spec fn spec_tweak(key2: Seq<u8>, i: nat) -> Seq<u8> {
    be_bytes16(spec_gf_mul(be_u128(fit16(aes256_encrypted(key2, zero_block()))), gf_pow_x(i)))
}

/// XTS decryption of one 16-byte block.
pub open spec fn spec_xts_decrypt(key1: Seq<u8>, key2: Seq<u8>, i: nat, c: Seq<u8>) -> Seq<u8> {
    let t = spec_tweak(key2, i);
    xor16(t, fit16(aes256_decrypted(key1, xor16(t, c))))
}

/// The inverse construction: XOR the tweak in, encrypt under the primary
/// key, XOR the tweak back in.
pub open spec fn spec_xts_encrypt(key1: Seq<u8>, key2: Seq<u8>, i: nat, p: Seq<u8>) -> Seq<u8> {
    let t = spec_tweak(key2, i);
    xor16(t, fit16(aes256_encrypted(key1, xor16(t, p))))
}

/// XOR-ing the same 16-byte string in twice gives the original back.
pub proof fn lemma_xor16_involution(t: Seq<u8>, s: Seq<u8>)
    requires
        s.len() == 16,
    ensures
        xor16(t, xor16(t, s)) =~= s,
{
    assert forall|i: int| 0 <= i < 16 implies xor16(t, xor16(t, s))[i] == s[i] by {
        let x = t[i];
        let y = s[i];
        assert(x ^ (x ^ y) == y) by (bit_vector);
    }
}

/// A fresh all-zero block.
fn zeros16() -> (r: Vec<u8>)
    ensures
        r@ == zero_block(),
        r@.len() == 16,
{
    let mut r: Vec<u8> = Vec::new();
    let mut i: usize = 0;
    while i < 16
        invariant
            i <= 16,
            r@ =~= zero_block().take(i as int),
        decreases 16 - i,
    {
        r.push(0u8);
        proof {
            assert(r@ =~= zero_block().take(i as int + 1));
        }
        i = i + 1;
    }
    proof {
        assert(r@ =~= zero_block());
    }
    r
}

/// Compute x^i by repeated doubling in the field.
pub fn pow_x(i: u8) -> (r: u128)
    ensures
        r == gf_pow_x(i as nat),
{
    let mut r: u128 = 1;
    let mut j: u8 = 0;
    while j < i
        invariant
            j <= i,
            r == gf_pow_x(j as nat),
        decreases i - j,
    {
        r = xtime(r);
        j = j + 1;
    }
    r
}

/// XOR two 16-byte strings.
pub fn xor_bytes_16(a: &[u8], b: &[u8]) -> (r: Vec<u8>)
    requires
        a@.len() == 16,
        b@.len() == 16,
    ensures
        r@ == xor16(a@, b@),
        r@.len() == 16,
{
    let mut r: Vec<u8> = Vec::new();
    let mut i: usize = 0;
    while i < 16
        invariant
            i <= 16,
            a@.len() == 16,
            b@.len() == 16,
            r@ =~= xor16(a@, b@).take(i as int),
        decreases 16 - i,
    {
        let x = *vstd::slice::slice_index_get(a, i);
        let y = *vstd::slice::slice_index_get(b, i);
        r.push(x ^ y);
        proof {
            assert(r@ =~= xor16(a@, b@).take(i as int + 1));
        }
        i = i + 1;
    }
    proof {
        assert(r@ =~= xor16(a@, b@));
    }
    r
}

/// Left-pad a short primitive output with zero bytes to the full 16-byte
/// block.
pub fn arr_size_to_16b(arr: Vec<u8>) -> (r: Vec<u8>)
    requires
        arr@.len() <= 16,
    ensures
        r@ == pad16(arr@),
        r@.len() == 16,
{
    if arr.len() == 16 {
        return arr;
    }
    let diff: usize = 16 - arr.len();
    let mut r: Vec<u8> = Vec::new();
    let mut i: usize = 0;
    while i < diff
        invariant
            i <= diff,
            diff == 16 - arr@.len(),
            arr@.len() < 16,
            r@ =~= pad16(arr@).take(i as int),
        decreases diff - i,
    {
        r.push(0u8);
        proof {
            assert(r@ =~= pad16(arr@).take(i as int + 1));
        }
        i = i + 1;
    }
    let mut j: usize = 0;
    while j < arr.len()
        invariant
            j <= arr@.len(),
            diff == 16 - arr@.len(),
            arr@.len() < 16,
            r@ =~= pad16(arr@).take(diff + j),
        decreases arr@.len() - j,
    {
        let x = arr[j];
        r.push(x);
        proof {
            assert(r@ =~= pad16(arr@).take(diff + j + 1));
        }
        j = j + 1;
    }
    proof {
        assert(r@ =~= pad16(arr@));
    }
    r
}

/// Decrypt one 16-byte block at tweak index `i`: the tweak is XOR-ed in,
/// the block decrypted under the primary key, and the tweak XOR-ed back.
/// Decrypting what the inverse construction encrypted gives the plaintext
/// back.
pub fn xts_decrypt(key1: &[u8], key2: &[u8], i: u8, block: &[u8]) -> (r: Vec<u8>)
    requires
        key1@.len() == 32,
        key2@.len() == 32,
        block@.len() == 16,
    ensures
        r@ == spec_xts_decrypt(key1@, key2@, i as nat, block@),
        r@.len() == 16,
        forall|p: Seq<u8>|
            p.len() == 16 && block@ == spec_xts_encrypt(key1@, key2@, i as nat, p) ==> r@ == p,
{
    let zeros = zeros16();
    let e = match encrypt_block(zeros.as_slice(), key2) {
        Ok(v) => v,
        Err(_) => {
            proof {
                assert(false);
            }
            Vec::new()
        },
    };
    let e16 = arr_size_to_16b(e);
    let ev = be_u128_at(e16.as_slice(), 0);
    proof {
        assert(e16@.subrange(0, 16) =~= e16@);
    }
    let g = pow_x(i);
    let tv = gf_mul_portable(ev, g);
    let t = be_bytes16_of(tv);
    let ghost tweak = spec_tweak(key2@, i as nat);
    proof {
        assert(t@ == tweak);
    }
    let xored = xor_bytes_16(t.as_slice(), block);
    let d = match decrypt_block(xored.as_slice(), key1) {
        Ok(v) => v,
        Err(_) => {
            proof {
                assert(false);
            }
            Vec::new()
        },
    };
    let d16 = arr_size_to_16b(d);
    let out = xor_bytes_16(t.as_slice(), d16.as_slice());
    proof {
        assert forall|p: Seq<u8>|
            p.len() == 16 && block@ == spec_xts_encrypt(
                key1@,
                key2@,
                i as nat,
                p,
            ) implies out@ == p by {
            lemma_xor16_involution(tweak, fit16(aes256_encrypted(key1@, xor16(tweak, p))));
            lemma_xor16_involution(tweak, p);
        }
    }
    out
}

} // verus!
