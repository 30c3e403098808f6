//! Word-level helpers: the SHA-256 bit functions and byte (de)composition.
use vstd::prelude::*;

use crate::builder::{fadd, fe, fmul, lemma_fe_add, lemma_fe_mul};
use crate::encoder::Encoder;
use crate::sha_spec::{big_sigma0, big_sigma1, ch_word, maj_word, rotr};

verus! {

/// The little-endian bytes of a word.
pub open spec fn le_bytes(x: u32) -> Seq<u8> {
    seq![(x & 0xff) as u8, ((x >> 8u32) & 0xff) as u8, ((x >> 16u32) & 0xff) as u8, ((x >> 24u32) & 0xff) as u8]
}

/// The value of four little-endian limbs of 8 bits.
pub open spec fn limbs_value(b: Seq<u32>) -> int {
    b[0] + 0x100 * b[1] + 0x1_0000 * b[2] + 0x100_0000 * b[3]
}

/// The little-endian bytes of a word, each held in a `u32` cell.
pub open spec fn byte_limbs(x: u32) -> Seq<u32> {
    le_bytes(x).map_values(|b: u8| b as u32)
}

/// All four limbs hold a byte.
pub open spec fn are_bytes(b: Seq<u32>) -> bool {
    b.len() == 4 && forall|i: int| 0 <= i < 4 ==> #[trigger] b[i] < 256
}

/// A word is the value of its little-endian bytes.
pub proof fn lemma_le_bytes_value(x: u32)
    ensures
        limbs_value(byte_limbs(x)) == x as int,
        are_bytes(byte_limbs(x)),
{
    assert(x == (x & 0xff) + 0x100 * ((x >> 8u32) & 0xff) + 0x1_0000 * ((x >> 16u32) & 0xff)
        + 0x100_0000 * ((x >> 24u32) & 0xff) && (x & 0xff) < 256 && ((x >> 8u32) & 0xff) < 256
        && ((x >> 16u32) & 0xff) < 256 && ((x >> 24u32) & 0xff) < 256) by (bit_vector);
}

/// Bytes are the little-endian bytes of their value.
pub proof fn lemma_le_value_bytes(b0: u8, b1: u8, b2: u8, b3: u8, x: u32)
    requires
        x as int == b0 + 0x100 * b1 + 0x1_0000 * b2 + 0x100_0000 * b3,
    ensures
        le_bytes(x) == seq![b0, b1, b2, b3],
{
    assert((x & 0xff) as u8 == b0 && ((x >> 8u32) & 0xff) as u8 == b1 && ((x >> 16u32) & 0xff) as u8
        == b2 && ((x >> 24u32) & 0xff) as u8 == b3) by (bit_vector)
        requires
            x == b0 + 0x100 * b1 + 0x1_0000 * b2 + 0x100_0000 * b3,
    ;
    assert(le_bytes(x) =~= seq![b0, b1, b2, b3]);
}

/// Limbs that hold bytes are the limbs of their value.
pub proof fn lemma_limbs_value_bytes(b: Seq<u32>, x: u32)
    requires
        are_bytes(b),
        x as int == limbs_value(b),
    ensures
        byte_limbs(x) == b,
{
    lemma_le_value_bytes(b[0] as u8, b[1] as u8, b[2] as u8, b[3] as u8, x);
    assert(byte_limbs(x) =~= b);
}

/// `x.to_le_bytes()`.
pub fn u32_to_le_bytes(x: u32) -> (r: [u8; 4])
    ensures
        r@ == le_bytes(x),
{
    let r = [(x & 0xff) as u8, ((x >> 8) & 0xff) as u8, ((x >> 16) & 0xff) as u8, ((x >> 24) & 0xff) as u8];
    assert(r@ =~= le_bytes(x));
    r
}

/// `x.to_le_bytes()`, each byte held in a `u32` cell.
pub fn u32_to_byte_limbs(x: u32) -> (r: [u32; 4])
    ensures
        r@ == byte_limbs(x),
        are_bytes(r@),
        limbs_value(r@) == x as int,
{
    let r = [x & 0xff, (x >> 8) & 0xff, (x >> 16) & 0xff, (x >> 24) & 0xff];
    proof {
        lemma_le_bytes_value(x);
        assert(((x & 0xff) as u8) as u32 == x & 0xff && (((x >> 8u32) & 0xff) as u8) as u32 == (x
            >> 8u32) & 0xff && (((x >> 16u32) & 0xff) as u8) as u32 == (x >> 16u32) & 0xff && (((x
            >> 24u32) & 0xff) as u8) as u32 == (x >> 24u32) & 0xff) by (bit_vector);
    }
    assert(r@ =~= byte_limbs(x));
    r
}

/// `x.rotate_right(n)`.
pub fn rotate_right(x: u32, n: u32) -> (r: u32)
    ensures
        r == rotr(x, n),
{
    let s = n % 32;
    (x >> s) | (x << ((32 - s) % 32))
}

/// The limbs of `s`, most significant last, folded with `limb_bits`-bit shifts.
pub open spec fn limbs_fold(s: Seq<u32>, limb_bits: u32) -> u32
    decreases s.len(),
{
    if s.len() == 0 {
        0
    } else {
        (limbs_fold(s.drop_first(), limb_bits) << limb_bits) | s[0]
    }
}

/// Convert a list of limbs in little endian into a u32
pub fn limbs_into_u32<const NUM_LIMBS: usize>(limbs: [u32; NUM_LIMBS]) -> (r: u32)
    requires
        2 <= NUM_LIMBS,
    ensures
        r == limbs_fold(limbs@, (32usize / NUM_LIMBS) as u32),
{
    assert(32usize / NUM_LIMBS <= 16) by (nonlinear_arith)
        requires
            2 <= NUM_LIMBS,
    ;
    let limb_bits: u32 = (32 / NUM_LIMBS) as u32;
    let mut acc: u32 = 0;
    let mut i: usize = NUM_LIMBS;
    while i > 0
        invariant
            i <= NUM_LIMBS,
            limb_bits == (32usize / NUM_LIMBS) as u32,
            limb_bits < 32,
            acc == limbs_fold(limbs@.skip(i as int), limb_bits),
        decreases i,
    {
        i = i - 1;
        assert(limbs@.skip(i as int).drop_first() =~= limbs@.skip(i + 1));
        acc = (acc << limb_bits) | limbs[i];
    }
    assert(limbs@.skip(0) =~= limbs@);
    acc
}

/// Limbs of 8 bits folded with 8-bit shifts give their value.
pub proof fn lemma_limbs_fold_bytes(s: Seq<u32>)
    requires
        are_bytes(s),
    ensures
        limbs_fold(s, 8) as int == limbs_value(s),
{
    let (b0, b1, b2, b3) = (s[0], s[1], s[2], s[3]);
    assert(s.drop_first().drop_first().drop_first().drop_first().len() == 0);
    reveal_with_fuel(limbs_fold, 5);
    assert(s.drop_first()[0] == b1);
    assert(s.drop_first().drop_first()[0] == b2);
    assert(s.drop_first().drop_first().drop_first()[0] == b3);
    assert((((((((0u32 << 8u32) | b3) << 8u32) | b2) << 8u32) | b1) << 8u32) | b0
        == b0 + 0x100 * b1 + 0x1_0000 * b2 + 0x100_0000 * b3) by (bit_vector)
        requires
            b0 < 256 && b1 < 256 && b2 < 256 && b3 < 256,
    ;
}

/// The bitwise composition of four limbs, most significant last.
pub open spec fn compose_bits(b: Seq<u32>) -> u32 {
    (b[3] << 24u32) | (b[2] << 16u32) | (b[1] << 8u32) | b[0]
}

/// Compose four little-endian limbs into a word.
pub fn compose(bytes: [u32; 4]) -> (r: u32)
    ensures
        r == compose_bits(bytes@),
        are_bytes(bytes@) ==> r as int == limbs_value(bytes@),
{
    let r = (bytes[3] << 24) | (bytes[2] << 16) | (bytes[1] << 8) | bytes[0];
    proof {
        let (b0, b1, b2, b3) = (bytes[0], bytes[1], bytes[2], bytes[3]);
        if are_bytes(bytes@) {
            assert((b3 << 24u32) | (b2 << 16u32) | (b1 << 8u32) | b0 == b0 + 0x100 * b1 + 0x1_0000
                * b2 + 0x100_0000 * b3) by (bit_vector)
                requires
                    b0 < 256 && b1 < 256 && b2 < 256 && b3 < 256,
            ;
        }
    }
    r
}

/// Big sigma_0 function from SHA256
pub fn big_sig0(x: u32) -> (r: u32)
    ensures
        r == big_sigma0(x),
{
    rotate_right(x, 2) ^ rotate_right(x, 13) ^ rotate_right(x, 22)
}

/// Big sigma_1 function from SHA256
pub fn big_sig1(x: u32) -> (r: u32)
    ensures
        r == big_sigma1(x),
{
    rotate_right(x, 6) ^ rotate_right(x, 11) ^ rotate_right(x, 25)
}

/// Majority function from SHA256
pub fn maj(x: u32, y: u32, z: u32) -> (r: u32)
    ensures
        r == maj_word(x, y, z),
{
    (x & y) ^ (x & z) ^ (y & z)
}

/// Choose function from SHA256
pub fn ch(x: u32, y: u32, z: u32) -> (r: u32)
    ensures
        r == ch_word(x, y, z),
{
    (x & y) ^ ((!x) & z)
}

/// Wrapper of `get_flag_pt` to get the flag pointer as an array
pub fn get_flag_pt_array<const N: usize>(encoder: &Encoder, flag_idx: usize) -> (r: [u32; N])
    requires
        flag_idx < encoder.flag_cnt,
        encoder.wf(),
        encoder.var_cnt == N,
    ensures
        r@ == encoder.flag_pt(flag_idx as int),
{
    let v = encoder.get_flag_pt(flag_idx);
    assert(v@.len() == N) by {
        assert(crate::encoder::is_point(encoder.points()[flag_idx + encoder.offset()], N as nat, encoder.max_flag_degree));
    }
    let mut r = [0u32; N];
    let mut i: usize = 0;
    while i < N
        invariant
            i <= N,
            v@.len() == N,
            forall|j: int| 0 <= j < i ==> #[trigger] r@[j] == v@[j],
        decreases N - i,
    {
        r[i] = v[i];
        i = i + 1;
    }
    assert(r@ =~= v@);
    r
}

/// `2^24 b[3] + 2^16 b[2] + 2^8 b[1] + b[0]` in the field with modulus `p`.
pub fn compose_le(bytes: &[u32], p: u32) -> (r: u32)
    requires
        bytes@.len() >= 4,
        p > 0,
    ensures
        r == fe(0x100_0000 * bytes@[3] + 0x1_0000 * bytes@[2] + 0x100 * bytes@[1] + bytes@[0], p),
{
    compose_field(bytes[3], bytes[2], bytes[1], bytes[0], p)
}

/// `2^24 b[0] + 2^16 b[1] + 2^8 b[2] + b[3]` in the field with modulus `p`.
pub fn compose_be(bytes: &[u32], p: u32) -> (r: u32)
    requires
        bytes@.len() >= 4,
        p > 0,
    ensures
        r == fe(0x100_0000 * bytes@[0] + 0x1_0000 * bytes@[1] + 0x100 * bytes@[2] + bytes@[3], p),
{
    compose_field(bytes[0], bytes[1], bytes[2], bytes[3], p)
}

/// `2^24 a + 2^16 b + 2^8 c + d` in the field with modulus `p`.
fn compose_field(a: u32, b: u32, c: u32, d: u32, p: u32) -> (r: u32)
    requires
        p > 0,
    ensures
        r == fe(0x100_0000 * a + 0x1_0000 * b + 0x100 * c + d, p),
{
    let x = fmul(a, 0x100_0000 % p, p);
    let y = fmul(b, 0x1_0000 % p, p);
    let z = fmul(c, 0x100 % p, p);
    let s1 = fadd(x, y, p);
    let s2 = fadd(s1, z, p);
    let r = fadd(s2, d, p);
    proof {
        let pi = p as int;
        vstd::arithmetic::div_mod::lemma_mod_twice(0x100_0000, pi);
        vstd::arithmetic::div_mod::lemma_mod_twice(0x1_0000, pi);
        vstd::arithmetic::div_mod::lemma_mod_twice(0x100, pi);
        lemma_fe_mul(a as int, 0x100_0000, p);
        lemma_fe_mul(a as int, 0x100_0000int % pi, p);
        lemma_fe_mul(b as int, 0x1_0000, p);
        lemma_fe_mul(b as int, 0x1_0000int % pi, p);
        lemma_fe_mul(c as int, 0x100, p);
        lemma_fe_mul(c as int, 0x100int % pi, p);
        vstd::arithmetic::div_mod::lemma_mod_twice(a as int, pi);
        vstd::arithmetic::div_mod::lemma_mod_twice(b as int, pi);
        vstd::arithmetic::div_mod::lemma_mod_twice(c as int, pi);
        let xa = a * 0x100_0000;
        let yb = b * 0x1_0000;
        let zc = c * 0x100;
        lemma_fe_add(xa, yb, p);
        lemma_fe_add(fe(xa, p), yb, p);
        lemma_fe_add(xa + yb, zc, p);
        lemma_fe_add(fe(xa + yb, p), zc, p);
        lemma_fe_add(xa + yb + zc, d as int, p);
        lemma_fe_add(fe(xa + yb + zc, p), d as int, p);
        assert(0x100_0000 * a + 0x1_0000 * b + 0x100 * c + d == xa + yb + zc + d);
    }
    r
}

} // verus!
