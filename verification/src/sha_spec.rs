//! Mathematical description of SHA-256 (FIPS 180-4), over which the
//! contracts of the trace generator and of the reference implementation
//! are stated.
use vstd::prelude::*;

use crate::constants::{SHA256_H, SHA256_K};

verus! {

/// 2^32.
pub open spec fn word_modulus() -> int {
    0x1_0000_0000
}

/// Addition of words modulo 2^32.
pub open spec fn wadd(a: u32, b: u32) -> u32 {
    ((a as int + b as int) % word_modulus()) as u32
}

/// Right rotation of a word by `n` bit positions (taken modulo 32).
pub open spec fn rotr(x: u32, n: u32) -> u32 {
    (x >> (n % 32)) | (x << ((32 - n % 32) % 32) as u32)
}

/// The `Σ0` function of SHA-256.
pub open spec fn big_sigma0(x: u32) -> u32 {
    rotr(x, 2) ^ rotr(x, 13) ^ rotr(x, 22)
}

/// The `Σ1` function of SHA-256.
pub open spec fn big_sigma1(x: u32) -> u32 {
    rotr(x, 6) ^ rotr(x, 11) ^ rotr(x, 25)
}

/// The `σ0` function of SHA-256.
pub open spec fn small_sigma0(x: u32) -> u32 {
    rotr(x, 7) ^ rotr(x, 18) ^ (x >> 3u32)
}

/// The `σ1` function of SHA-256.
pub open spec fn small_sigma1(x: u32) -> u32 {
    rotr(x, 17) ^ rotr(x, 19) ^ (x >> 10u32)
}

/// The `Ch` function of SHA-256.
pub open spec fn ch_word(x: u32, y: u32, z: u32) -> u32 {
    (x & y) ^ (!x & z)
}

/// The `Maj` function of SHA-256.
pub open spec fn maj_word(x: u32, y: u32, z: u32) -> u32 {
    (x & y) ^ (x & z) ^ (y & z)
}

/// The big-endian word formed by bytes `4i .. 4i + 4` of `b`.
pub open spec fn be_word(b: Seq<u8>, i: int) -> u32 {
    (b[4 * i] as int * 0x100_0000 + b[4 * i + 1] as int * 0x1_0000 + b[4 * i + 2] as int * 0x100
        + b[4 * i + 3] as int) as u32
}

/// Word `i` of the message schedule of a 64-byte block.
pub open spec fn schedule_word(block: Seq<u8>, i: nat) -> u32
    decreases i,
{
    if i < 16 {
        be_word(block, i as int)
    } else {
        ((small_sigma1(schedule_word(block, (i - 2) as nat)) as int + schedule_word(
            block,
            (i - 7) as nat,
        ) as int + small_sigma0(schedule_word(block, (i - 15) as nat)) as int + schedule_word(
            block,
            (i - 16) as nat,
        ) as int) % word_modulus()) as u32
    }
}

/// Temporary value `T1` of a compression round.
pub open spec fn round_t1(s: Seq<u32>, k: u32, w: u32) -> int {
    (s[7] as int + big_sigma1(s[4]) as int + ch_word(s[4], s[5], s[6]) as int + k as int
        + w as int) % word_modulus()
}

/// Temporary value `T2` of a compression round.
pub open spec fn round_t2(s: Seq<u32>) -> int {
    (big_sigma0(s[0]) as int + maj_word(s[0], s[1], s[2]) as int) % word_modulus()
}

/// One round of the compression function on the working state `a, b, .., h`.
pub open spec fn round_step(s: Seq<u32>, k: u32, w: u32) -> Seq<u32> {
    let t1 = round_t1(s, k, w);
    let t2 = round_t2(s);
    seq![
        ((t1 + t2) % word_modulus()) as u32,
        s[0],
        s[1],
        s[2],
        ((s[3] as int + t1) % word_modulus()) as u32,
        s[4],
        s[5],
        s[6],
    ]
}

/// The working state after the first `n` rounds on `block`, starting from `s0`.
pub open spec fn rounds(s0: Seq<u32>, block: Seq<u8>, n: nat) -> Seq<u32>
    decreases n,
{
    if n == 0 {
        s0
    } else {
        round_step(
            rounds(s0, block, (n - 1) as nat),
            SHA256_K[n - 1],
            schedule_word(block, (n - 1) as nat),
        )
    }
}

/// The SHA-256 compression function: the chaining value `h` updated by one block.
pub open spec fn compress(h: Seq<u32>, block: Seq<u8>) -> Seq<u32> {
    let s = rounds(h, block, 64);
    Seq::new(8, |i: int| wadd(h[i], s[i]))
}

/// The chaining value after the first `n` 64-byte blocks of `data`.
pub open spec fn hash_blocks(h: Seq<u32>, data: Seq<u8>, n: nat) -> Seq<u32>
    decreases n,
{
    if n == 0 {
        h
    } else {
        compress(hash_blocks(h, data, (n - 1) as nat), data.subrange(64 * (n - 1), 64 * n as int))
    }
}

/// Number of `0x80, 0x00, ..` bytes that padding appends to a message of `len` bytes.
pub open spec fn pad_len(len: nat) -> nat {
    if len % 64 < 56 {
        (56 - len % 64) as nat
    } else {
        (120 - len % 64) as nat
    }
}

/// The big-endian bytes of a 64-bit value.
pub open spec fn be_bytes64(v: u64) -> Seq<u8> {
    Seq::new(8, |i: int| ((v >> (8 * (7 - i)) as u64) & 0xff) as u8)
}

/// A message followed by the SHA-256 padding: one `0x80` byte, zero bytes up
/// to 56 modulo 64, and the bit length (modulo 2^64) as a big-endian 64-bit value.
pub open spec fn pad_message(msg: Seq<u8>) -> Seq<u8> {
    msg + seq![0x80u8] + Seq::new((pad_len(msg.len()) - 1) as nat, |i: int| 0u8) + be_bytes64(
        ((msg.len() * 8) % 0x1_0000_0000_0000_0000) as u64,
    )
}

/// The big-endian bytes of a sequence of words.
pub open spec fn words_be_bytes(h: Seq<u32>) -> Seq<u8> {
    Seq::new(4 * h.len(), |i: int| ((h[i / 4] >> (8 * (3 - i % 4)) as u32) & 0xff) as u8)
}

/// The initial chaining value.
pub open spec fn initial_hash() -> Seq<u32> {
    SHA256_H@
}

/// The SHA-256 digest of a message.
pub open spec fn sha256_digest(msg: Seq<u8>) -> Seq<u8> {
    let p = pad_message(msg);
    words_be_bytes(hash_blocks(initial_hash(), p, p.len() / 64))
}

} // verus!
