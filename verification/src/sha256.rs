//! A direct SHA-256 over bytes, word by word, against which the trace is
//! compared.
use vstd::prelude::*;

use crate::constants::{SHA256_H, SHA256_K};
use crate::sha_spec::{
    be_bytes64, be_word, big_sigma0, big_sigma1, ch_word, compress, hash_blocks, maj_word, pad_message,
    round_step, rounds, schedule_word, sha256_digest, small_sigma0, small_sigma1, initial_hash, word_modulus,
    words_be_bytes,
};
use crate::utils::{big_sig0, big_sig1, ch, maj, rotate_right};

verus! {

/// A wrapping sum of words is their sum modulo 2^32.
proof fn lemma_wrapping_add(a: u32, b: u32)
    ensures
        a.wrapping_add(b) as int == (a + b) % word_modulus(),
{
    if a + b > u32::MAX {
        vstd::arithmetic::div_mod::lemma_fundamental_div_mod_converse(a + b, word_modulus(), 1, a + b - word_modulus());
    } else {
        vstd::arithmetic::div_mod::lemma_small_mod((a + b) as nat, word_modulus() as nat);
    }
}

/// Reducing a partial sum modulo 2^32 does not change the final residue.
proof fn lemma_mod_sum(x: int, y: int)
    ensures
        (x % word_modulus() + y) % word_modulus() == (x + y) % word_modulus(),
{
    vstd::arithmetic::div_mod::lemma_add_mod_noop(x, y, word_modulus());
    vstd::arithmetic::div_mod::lemma_mod_twice(x, word_modulus());
    vstd::arithmetic::div_mod::lemma_add_mod_noop(x % word_modulus(), y, word_modulus());
}

/// `σ0` on a word.
fn small_sig0(x: u32) -> (r: u32)
    ensures
        r == small_sigma0(x),
{
    rotate_right(x, 7) ^ rotate_right(x, 18) ^ (x >> 3)
}

/// `σ1` on a word.
fn small_sig1(x: u32) -> (r: u32)
    ensures
        r == small_sigma1(x),
{
    rotate_right(x, 17) ^ rotate_right(x, 19) ^ (x >> 10)
}

/// The message schedule of a block.
fn message_schedule(bytes: &[u8]) -> (w: [u32; 64])
    requires
        bytes@.len() >= 64,
    ensures
        forall|i: int| 0 <= i < 64 ==> #[trigger] w[i] == schedule_word(bytes@.take(64), i as nat),
{
    let ghost block = bytes@.take(64);
    let mut w = [0u32; 64];
    let mut i: usize = 0;
    while i < 16
        invariant
            i <= 16,
            bytes@.len() >= 64,
            block == bytes@.take(64),
            forall|j: int| 0 <= j < i ==> #[trigger] w[j] == schedule_word(block, j as nat),
        decreases 16 - i,
    {
        let j = i * 4;
        let (b0, b1, b2, b3) = (bytes[j], bytes[j + 1], bytes[j + 2], bytes[j + 3]);
        w[i] = (b0 as u32) << 24 | (b1 as u32) << 16 | (b2 as u32) << 8 | (b3 as u32);
        proof {
            assert(((b0 as u32) << 24u32) | ((b1 as u32) << 16u32) | ((b2 as u32) << 8u32) | (b3 as u32) == b0
                * 0x100_0000 + b1 * 0x1_0000 + b2 * 0x100 + b3) by (bit_vector);
            assert(w[i as int] == be_word(block, i as int));
        }
        i = i + 1;
    }
    while i < 64
        invariant
            16 <= i <= 64,
            block == bytes@.take(64),
            forall|j: int| 0 <= j < i ==> #[trigger] w[j] == schedule_word(block, j as nat),
        decreases 64 - i,
    {
        let v1 = w[i - 2];
        let t1 = small_sig1(v1);
        let v2 = w[i - 15];
        let t2 = small_sig0(v2);
        let (w7, w16) = (w[i - 7], w[i - 16]);
        w[i] = t1.wrapping_add(w7).wrapping_add(t2).wrapping_add(w16);
        proof {
            lemma_wrapping_add(t1, w7);
            lemma_wrapping_add(t1.wrapping_add(w7), t2);
            lemma_wrapping_add(t1.wrapping_add(w7).wrapping_add(t2), w16);
            lemma_mod_sum(t1 + w7, t2 as int);
            lemma_mod_sum(t1 + w7 + t2, w16 as int);
            assert(w[i as int] == schedule_word(block, i as nat));
        }
        i = i + 1;
    }
    w
}

/// One round on the working state.
fn round(s: [u32; 8], k: u32, w: u32) -> (r: [u32; 8])
    ensures
        r@ == round_step(s@, k, w),
{
    let t1 = s[7].wrapping_add(big_sig1(s[4])).wrapping_add(ch(s[4], s[5], s[6])).wrapping_add(k).wrapping_add(w);
    let t2 = big_sig0(s[0]).wrapping_add(maj(s[0], s[1], s[2]));
    let r = [t1.wrapping_add(t2), s[0], s[1], s[2], s[3].wrapping_add(t1), s[4], s[5], s[6]];
    proof {
        let (x0, x1, x2) = (s[7], big_sigma1(s[4]), ch_word(s[4], s[5], s[6]));
        lemma_wrapping_add(x0, x1);
        lemma_wrapping_add(x0.wrapping_add(x1), x2);
        lemma_wrapping_add(x0.wrapping_add(x1).wrapping_add(x2), k);
        lemma_wrapping_add(x0.wrapping_add(x1).wrapping_add(x2).wrapping_add(k), w);
        lemma_mod_sum(x0 + x1, x2 as int);
        lemma_mod_sum(x0 + x1 + x2, k as int);
        lemma_mod_sum(x0 + x1 + x2 + k, w as int);
        lemma_wrapping_add(big_sigma0(s[0]), maj_word(s[0], s[1], s[2]));
        lemma_wrapping_add(t1, t2);
        lemma_wrapping_add(s[3], t1);
        assert(r@ =~= round_step(s@, k, w));
    }
    r
}

/// Compress one 64-byte block into the chaining value `seed`.
pub fn permute(seed: &mut [u32; 8], bytes: &[u8])
    requires
        bytes@.len() >= 64,
    ensures
        final(seed)@ == compress(old(seed)@, bytes@.take(64)),
{
    let ghost block = bytes@.take(64);
    let w = message_schedule(bytes);
    let mut s = *seed;
    let mut i: usize = 0;
    while i < 64
        invariant
            i <= 64,
            forall|j: int| 0 <= j < 64 ==> #[trigger] w[j] == schedule_word(block, j as nat),
            s@ == rounds(seed@, block, i as nat),
            block == bytes@.take(64),
        decreases 64 - i,
    {
        s = round(s, SHA256_K[i], w[i]);
        i = i + 1;
    }
    let ghost h = seed@;
    let mut j: usize = 0;
    while j < 8
        invariant
            j <= 8,
            h.len() == 8,
            s@ == rounds(h, block, 64),
            forall|t: int| j <= t < 8 ==> #[trigger] seed[t] == h[t],
            forall|t: int| 0 <= t < j ==> #[trigger] seed[t] == compress(h, block)[t],
        decreases 8 - j,
    {
        proof {
            lemma_wrapping_add(seed[j as int], s[j as int]);
        }
        seed[j] = seed[j].wrapping_add(s[j]);
        j = j + 1;
    }
    assert(seed@ =~= compress(h, block));
}

/// The SHA-256 digest of `bytes`: the message padded to whole blocks, each
/// block compressed in turn from the initial chaining value, and the final
/// chaining value written as big-endian bytes.
pub fn sha256(bytes: &[u8]) -> (r: Vec<u8>)
    requires
        bytes@.len() + 128 <= usize::MAX,
    ensures
        r@ == sha256_digest(bytes@),
{
    let len: usize = bytes.len();
    let pad_len: usize = if len % 64 < 56 {
        56 - len % 64
    } else {
        64 + 56 - len % 64
    };
    let mut padded: Vec<u8> = Vec::new();
    let mut i: usize = 0;
    while i < len
        invariant
            i <= len,
            len == bytes@.len(),
            padded@ == bytes@.subrange(0, i as int),
        decreases len - i,
    {
        padded.push(bytes[i]);
        i = i + 1;
        assert(padded@ =~= bytes@.subrange(0, i as int));
    }
    padded.push(0x80);
    let mut z: usize = 1;
    while z < pad_len
        invariant
            1 <= z <= pad_len,
            pad_len <= 64,
            len == bytes@.len(),
            padded@ == bytes@ + seq![0x80u8] + Seq::new((z - 1) as nat, |t: int| 0u8),
        decreases pad_len - z,
    {
        padded.push(0);
        z = z + 1;
        assert(padded@ =~= bytes@ + seq![0x80u8] + Seq::new((z - 1) as nat, |t: int| 0u8));
    }
    let bit_len: u64 = (len as u64).wrapping_mul(8);
    assert(bit_len == ((len * 8) % 0x1_0000_0000_0000_0000) as u64);
    let ghost prefix = padded@;
    let mut b: usize = 0;
    while b < 8
        invariant
            b <= 8,
            padded@ == prefix + be_bytes64(bit_len).subrange(0, b as int),
        decreases 8 - b,
    {
        padded.push(((bit_len >> (8 * (7 - b) as u64)) & 0xff) as u8);
        b = b + 1;
        assert(padded@ =~= prefix + be_bytes64(bit_len).subrange(0, b as int));
    }
    proof {
        assert(be_bytes64(bit_len).subrange(0, 8) =~= be_bytes64(bit_len));
        assert(pad_len == crate::sha_spec::pad_len(len as nat));
        assert(padded@ =~= pad_message(bytes@));
    }
    let ghost p = padded@;
    let num_blocks = padded.len() / 64;
    let mut seed = SHA256_H;
    let mut k: usize = 0;
    while k < num_blocks
        invariant
            k <= num_blocks,
            p == padded@,
            p.len() <= usize::MAX,
            num_blocks == p.len() / 64,
            seed@ == hash_blocks(initial_hash(), p, k as nat),
        decreases num_blocks - k,
    {
        let mut buf = [0u8; 64];
        let mut t: usize = 0;
        while t < 64
            invariant
                t <= 64,
                k < num_blocks,
                p == padded@,
                p.len() <= usize::MAX,
                num_blocks == p.len() / 64,
                forall|u: int| 0 <= u < t ==> #[trigger] buf[u] == p[64 * k + u],
            decreases 64 - t,
        {
            assert(k * 64 + t < p.len()) by (nonlinear_arith)
                requires
                    k < num_blocks,
                    num_blocks == p.len() / 64,
                    t < 64,
            ;
            buf[t] = padded[k * 64 + t];
            t = t + 1;
        }
        assert(buf@ =~= p.subrange(64 * k, 64 * (k + 1)));
        permute(&mut seed, buf.as_slice());
        assert(buf@.take(64) =~= buf@);
        k = k + 1;
    }
    let mut digest: Vec<u8> = Vec::new();
    let mut j: usize = 0;
    while j < 32
        invariant
            j <= 32,
            seed@ == hash_blocks(initial_hash(), p, num_blocks as nat),
            digest@ == words_be_bytes(seed@).subrange(0, j as int),
        decreases 32 - j,
    {
        digest.push(((seed[j / 4] >> (8 * (3 - j % 4)) as u32) & 0xff) as u8);
        j = j + 1;
        assert(digest@ =~= words_be_bytes(seed@).subrange(0, j as int));
    }
    assert(digest@ =~= words_be_bytes(seed@));
    digest
}

} // verus!
