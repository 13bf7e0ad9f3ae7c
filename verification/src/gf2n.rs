//! GF(2^128) field arithmetic for the XTS tweak chain.
//!
//! Elements are 128-bit values read as polynomials over GF(2) modulo
//! x^128 + x^7 + x^2 + x + 1 (the big-endian byte sequence `01 00..00 87`).
//! Addition is XOR; multiplication is carry-less polynomial multiplication
//! followed by reduction. Two interchangeable engines are provided: a
//! portable shift-and-xor routine on whole 128-bit words, and one on split
//! 64-bit halves, the layout a hardware carry-less-multiply routine consumes.
//! Both are proved against the same specification, `spec_gf_mul`, so they
//! agree bit for bit on all inputs.

use vstd::prelude::*;

verus! {

/// Low 128 bits of the reduction polynomial x^128 + x^7 + x^2 + x + 1.
pub const REDUCTION_POLY_LOW: u128 = 0x87;

/// High bit of a 128-bit word: the coefficient of x^127.
pub const HIGH_BIT: u128 = 0x8000_0000_0000_0000_0000_0000_0000_0000;

/// Multiplication by x: shift left one bit and, when the coefficient of
/// x^127 was set, fold the low bits of the reduction polynomial back in.
pub open spec fn spec_xtime(a: u128) -> u128 {
    if a >= HIGH_BIT {
        (a << 1) ^ REDUCTION_POLY_LOW
    } else {
        a << 1
    }
}

/// Field multiplication, defined by the peasant recursion over the bits of
/// `b`, least significant first: each bit of `b` that is set contributes the
/// correspondingly x-scaled copy of `a` to the XOR accumulator.
pub open spec fn spec_gf_mul(a: u128, b: u128) -> u128
    decreases b,
{
    if b == 0 {
        0
    } else {
        (if b % 2 == 1 {
            a
        } else {
            0u128
        }) ^ spec_gf_mul(spec_xtime(a), b / 2)
    }
}

/// XOR on 128-bit words forms the field's addition: associative,
/// commutative, self-inverse, with 0 as its identity.
pub proof fn lemma_xor_algebra()
    by (bit_vector)
    ensures
        forall|x: u128, y: u128, z: u128| #[trigger] ((x ^ y) ^ z) == x ^ (y ^ z),
        forall|x: u128, y: u128| #[trigger] (x ^ y) == y ^ x,
        forall|x: u128| #[trigger] (x ^ x) == 0u128,
        forall|x: u128| #[trigger] (x ^ 0u128) == x,
        forall|p: u128, q: u128, u: u128, v: u128|
            #[trigger] ((p ^ q) ^ (u ^ v)) == (p ^ u) ^ (q ^ v),
{
}

/// The bit forms the two engines use agree with the arithmetic forms the
/// specification uses.
pub proof fn lemma_bit_basics()
    by (bit_vector)
    ensures
        forall|x: u128| #[trigger] (x & 1) == x % 2,
        forall|x: u128| #[trigger] (x >> 1) == x / 2,
{
}

/// Multiply by x: the doubling step shared by both engines.
pub fn xtime(a: u128) -> (r: u128)
    ensures
        r == spec_xtime(a),
{
    if a >= HIGH_BIT {
        (a << 1) ^ REDUCTION_POLY_LOW
    } else {
        a << 1
    }
}

/// Portable field multiplication engine: walks the bits of `b` from least
/// to most significant, XOR-ing in the x-scaled copies of `a`, reducing as
/// it doubles.
pub fn gf_mul_portable(a: u128, b: u128) -> (r: u128)
    ensures
        r == spec_gf_mul(a, b),
{
    let mut acc: u128 = 0;
    let mut aa = a;
    let mut bb = b;
    proof {
        lemma_xor_algebra();
    }
    while bb != 0
        invariant
            acc ^ spec_gf_mul(aa, bb) == spec_gf_mul(a, b),
        decreases bb,
    {
        proof {
            lemma_xor_algebra();
            lemma_bit_basics();
        }
        if bb & 1 == 1 {
            acc = acc ^ aa;
        }
        aa = xtime(aa);
        bb = bb >> 1;
    }
    proof {
        lemma_xor_algebra();
    }
    acc
}

/// A 128-bit field element split into two 64-bit halves, the layout a
/// hardware carry-less-multiply routine consumes: the first field holds the
/// low 64 bits, the second the high 64 bits.
#[allow(non_camel_case_types)]
#[derive(Clone, Copy, Debug, PartialEq, Eq, Structural)]
pub struct u64x2(pub u64, pub u64);

/// The 128-bit value that a pair of 64-bit halves stands for.
pub open spec fn combine64(hi: u64, lo: u64) -> u128 {
    ((hi as u128) << 64) | (lo as u128)
}

/// The 128-bit value of a split element.
pub open spec fn u64x2_val(v: u64x2) -> u128 {
    combine64(v.1, v.0)
}

/// How the half-word operations relate to the corresponding whole-word
/// operations on the combined 128-bit value.
proof fn lemma_halves()
    by (bit_vector)
    ensures
        forall|xh: u64, xl: u64, yh: u64, yl: u64|
            #[trigger] combine64(xh ^ yh, xl ^ yl) == combine64(xh, xl) ^ combine64(yh, yl),
        forall|h: u64, l: u64|
            combine64(h >> 1, #[trigger] ((l >> 1) | (h << 63))) == combine64(h, l) >> 1,
        forall|h: u64, l: u64| (#[trigger] combine64(h, l) % 2) == ((l & 1) as u128),
        forall|h: u64, l: u64| (#[trigger] combine64(h, l) == 0) <==> (h == 0 && l == 0),
{
}

/// XOR of split elements: the field's addition on the half representation.
pub fn xor_u64x2(x: u64x2, y: u64x2) -> (r: u64x2)
    ensures
        u64x2_val(r) == u64x2_val(x) ^ u64x2_val(y),
{
    proof {
        lemma_halves();
    }
    u64x2(x.0 ^ y.0, x.1 ^ y.1)
}

/// Multiply a split element by x, carrying the top bit of the low half into
/// the high half and folding the reduction polynomial in at the top.
pub fn xtime_u64x2(v: u64x2) -> (r: u64x2)
    ensures
        u64x2_val(r) == spec_xtime(u64x2_val(v)),
{
    let h = v.1;
    let l = v.0;
    let nh = (h << 1) | (l >> 63);
    let nl = l << 1;
    if h >> 63 == 1 {
        proof {
            assert(combine64((h << 1) | (l >> 63), (l << 1) ^ 0x87u64) == spec_xtime(
                combine64(h, l),
            )) by (bit_vector)
                requires
                    h >> 63 == 1u64,
            ;
        }
        u64x2(nl ^ 0x87, nh)
    } else {
        proof {
            assert(combine64((h << 1) | (l >> 63), l << 1) == spec_xtime(combine64(h, l)))
                by (bit_vector)
                requires
                    h >> 63 != 1u64,
            ;
        }
        u64x2(nl, nh)
    }
}

/// Field multiplication engine on the split representation: the same
/// bit-walk as the portable engine, carried out on 64-bit halves.
pub fn gfmul_u64x2(a: u64x2, b: u64x2) -> (r: u64x2)
    ensures
        u64x2_val(r) == spec_gf_mul(u64x2_val(a), u64x2_val(b)),
{
    let mut acc = u64x2(0, 0);
    let mut aa = a;
    let mut blo = b.0;
    let mut bhi = b.1;
    proof {
        lemma_xor_algebra();
        lemma_halves();
    }
    while blo != 0 || bhi != 0
        invariant
            u64x2_val(acc) ^ spec_gf_mul(u64x2_val(aa), combine64(bhi, blo)) == spec_gf_mul(
                u64x2_val(a),
                u64x2_val(b),
            ),
        decreases combine64(bhi, blo),
    {
        proof {
            lemma_xor_algebra();
            lemma_halves();
        }
        let ghost rem0 = combine64(bhi, blo);
        if blo & 1 == 1 {
            acc = xor_u64x2(acc, aa);
        }
        aa = xtime_u64x2(aa);
        let nlo = (blo >> 1) | (bhi << 63);
        bhi = bhi >> 1;
        blo = nlo;
        proof {
            assert(combine64(bhi, blo) == rem0 / 2) by {
                lemma_halves();
                lemma_bit_basics();
            }
        }
    }
    acc
}

/// Multiplication by x distributes over the field's addition.
proof fn lemma_xtime_linear(x: u128, y: u128)
    ensures
        spec_xtime(x ^ y) == spec_xtime(x) ^ spec_xtime(y),
{
    assert(spec_xtime(x ^ y) == spec_xtime(x) ^ spec_xtime(y)) by (bit_vector);
}

/// Multiplying the zero element gives zero.
proof fn lemma_mul_zero_left(b: u128)
    ensures
        spec_gf_mul(0, b) == 0,
    decreases b,
{
    if b != 0 {
        assert(spec_xtime(0) == 0) by (bit_vector);
        lemma_mul_zero_left(b / 2);
        lemma_xor_algebra();
    }
}

/// Scaling the left operand by x scales the product by x.
proof fn lemma_mul_xtime_left(a: u128, b: u128)
    ensures
        spec_gf_mul(spec_xtime(a), b) == spec_xtime(spec_gf_mul(a, b)),
    decreases b,
{
    if b == 0 {
        assert(spec_xtime(0) == 0) by (bit_vector);
    } else {
        lemma_mul_xtime_left(spec_xtime(a), b / 2);
        lemma_xtime_linear(if b % 2 == 1 { a } else { 0u128 }, spec_gf_mul(spec_xtime(a), b / 2));
        assert(spec_xtime(0) == 0) by (bit_vector);
        lemma_xor_algebra();
    }
}

/// Multiplication distributes over the field's addition in its left operand.
proof fn lemma_mul_linear_left(a1: u128, a2: u128, b: u128)
    ensures
        spec_gf_mul(a1 ^ a2, b) == spec_gf_mul(a1, b) ^ spec_gf_mul(a2, b),
    decreases b,
{
    if b == 0 {
        lemma_xor_algebra();
    } else {
        lemma_xtime_linear(a1, a2);
        lemma_mul_linear_left(spec_xtime(a1), spec_xtime(a2), b / 2);
        lemma_xor_algebra();
    }
}

/// The value 1 is the multiplicative identity on the left.
proof fn lemma_mul_one_left(b: u128)
    ensures
        spec_gf_mul(1, b) == b,
    decreases b,
{
    if b != 0 {
        lemma_mul_one_left(b / 2);
        lemma_mul_xtime_left(1, b / 2);
        assert((if b % 2 == 1 {
            1u128
        } else {
            0u128
        }) ^ spec_xtime((b / 2) as u128) == b) by (bit_vector);
    }
}

/// Law: multiplying by the field's multiplicative identity (the 128-bit
/// value 1) returns the other operand unchanged, on either side.
pub proof fn lemma_gf_mul_identity(a: u128)
    ensures
        spec_gf_mul(a, 1) == a,
        spec_gf_mul(1, a) == a,
{
    lemma_xor_algebra();
    lemma_mul_one_left(a);
    assert(spec_gf_mul(spec_xtime(a), 0) == 0);
}

/// Law: multiplying by zero gives zero, on either side.
pub proof fn lemma_gf_mul_zero(a: u128)
    ensures
        spec_gf_mul(a, 0) == 0,
        spec_gf_mul(0, a) == 0,
{
    lemma_mul_zero_left(a);
}

/// Law: field multiplication is commutative.
pub proof fn lemma_gf_mul_comm(a: u128, b: u128)
    ensures
        spec_gf_mul(a, b) == spec_gf_mul(b, a),
    decreases b,
{
    if b == 0 {
        lemma_mul_zero_left(a);
    } else {
        let low: u128 = b % 2;
        let high2: u128 = spec_xtime(b / 2);
        assert(spec_xtime(b / 2) == (b / 2) << 1 && (spec_xtime(b / 2) ^ (b % 2)) == b)
            by (bit_vector);
        lemma_gf_mul_comm(a, b / 2);
        lemma_mul_xtime_left(a, b / 2);
        lemma_mul_xtime_left(b / 2, a);
        lemma_mul_linear_left(high2, low, a);
        if low == 1 {
            lemma_mul_one_left(a);
        } else {
            lemma_mul_zero_left(a);
        }
        lemma_xor_algebra();
    }
}

/// The unsigned value of a byte string read big-endian.
pub open spec fn be_val(s: Seq<u8>) -> nat
    decreases s.len(),
{
    if s.len() == 0 {
        0
    } else {
        be_val(s.drop_last()) * 256 + (s.last() as nat)
    }
}

/// 256 raised to `n`: the weight of a byte position.
pub open spec fn pow256(n: nat) -> nat
    decreases n,
{
    if n == 0 {
        1nat
    } else {
        256 * pow256((n - 1) as nat)
    }
}

/// The 128-bit value of a 16-byte big-endian string.
pub open spec fn be_u128(s: Seq<u8>) -> u128 {
    be_val(s) as u128
}

/// The 16-byte big-endian encoding of a 128-bit value.
pub open spec fn be_bytes16(v: u128) -> Seq<u8> {
    Seq::new(16, |i: int| (v >> ((120 - 8 * i) as u128)) as u8)
}

pub proof fn lemma_pow256_pos(n: nat)
    ensures
        pow256(n) >= 1,
    decreases n,
{
    if n > 0 {
        lemma_pow256_pos((n - 1) as nat);
    }
}

pub proof fn lemma_pow256_mono(i: nat, j: nat)
    requires
        i <= j,
    ensures
        pow256(i) <= pow256(j),
    decreases j,
{
    if i < j {
        lemma_pow256_mono(i, (j - 1) as nat);
        lemma_pow256_pos((j - 1) as nat);
    }
}

/// A byte string of length `n` reads as a value below 256^n.
pub proof fn lemma_be_val_bound(s: Seq<u8>)
    ensures
        be_val(s) < pow256(s.len()),
    decreases s.len(),
{
    if s.len() > 0 {
        lemma_be_val_bound(s.drop_last());
    }
}

proof fn lemma_shift8_u128()
    by (bit_vector)
    ensures
        forall|v: u128, b: u8|
            v < 0x0100_0000_0000_0000_0000_0000_0000_0000u128 ==> #[trigger] ((v << 8) | (
            b as u128)) == v * 256 + (b as u128),
{
}

/// Read the 16 bytes at `off` as a big-endian 128-bit value.
pub fn be_u128_at(s: &[u8], off: usize) -> (r: u128)
    requires
        off + 16 <= s@.len(),
    ensures
        r == be_u128(s@.subrange(off as int, off as int + 16)),
        r as nat == be_val(s@.subrange(off as int, off as int + 16)),
{
    let mut v: u128 = 0;
    let mut i: usize = 0;
    let sl: usize = s.len();
    proof {
        lemma_shift8_u128();
    }
    while i < 16
        invariant
            i <= 16,
            off + 16 <= s@.len(),
            sl == s@.len(),
            v as nat == be_val(s@.subrange(off as int, off as int + i as int)),
            (v as nat) < pow256(i as nat),
        decreases 16 - i,
    {
        let b = *vstd::slice::slice_index_get(s, off + i);
        proof {
            lemma_shift8_u128();
            lemma_pow256_mono(i as nat, 15);
            assert(pow256(15) == 0x0100_0000_0000_0000_0000_0000_0000_0000nat) by {
                reveal_with_fuel(pow256, 17);
            }
            assert(s@.subrange(off as int, off as int + i as int + 1).drop_last() =~= s@.subrange(
                off as int,
                off as int + i as int,
            ));
            assert(s@.subrange(off as int, off as int + i as int + 1).last() == b);
        }
        v = (v << 8) | (b as u128);
        i = i + 1;
    }
    proof {
        lemma_be_val_bound(s@.subrange(off as int, off as int + 16));
        lemma_pow256_mono(16, 16);
        assert(pow256(16) == 0x1_0000_0000_0000_0000_0000_0000_0000_0000nat) by {
            reveal_with_fuel(pow256, 17);
        }
    }
    v
}

/// Write a 128-bit value as its 16 big-endian bytes.
pub fn be_bytes16_of(v: u128) -> (r: Vec<u8>)
    ensures
        r@ == be_bytes16(v),
        r@.len() == 16,
{
    let mut r: Vec<u8> = Vec::new();
    let mut i: usize = 0;
    while i < 16
        invariant
            i <= 16,
            r@ =~= be_bytes16(v).take(i as int),
        decreases 16 - i,
    {
        let sh: u128 = 120 - 8 * (i as u128);
        r.push((v >> sh) as u8);
        proof {
            assert(r@ =~= be_bytes16(v).take(i as int + 1));
        }
        i = i + 1;
    }
    proof {
        assert(r@ =~= be_bytes16(v));
    }
    r
}

/// Field multiplication on 16-byte big-endian operands through the
/// half-word engine: the byte interface of the accelerated strategy.
pub fn gfmul_simd(a: &[u8], b: &[u8]) -> (r: Vec<u8>)
    requires
        a@.len() == 16,
        b@.len() == 16,
    ensures
        r@ == be_bytes16(spec_gf_mul(be_u128(a@), be_u128(b@))),
        r@.len() == 16,
{
    let av = be_u128_at(a, 0);
    let bv = be_u128_at(b, 0);
    proof {
        assert(a@.subrange(0, 16) =~= a@);
        assert(b@.subrange(0, 16) =~= b@);
    }
    let ah = u64x2(av as u64, (av >> 64) as u64);
    let bh = u64x2(bv as u64, (bv >> 64) as u64);
    proof {
        assert(combine64((av >> 64) as u64, av as u64) == av) by (bit_vector);
        assert(combine64((bv >> 64) as u64, bv as u64) == bv) by (bit_vector);
    }
    let p = gfmul_u64x2(ah, bh);
    let pv: u128 = ((p.1 as u128) << 64) | (p.0 as u128);
    be_bytes16_of(pv)
}

} // verus!
