//! The SHA-256 AIR: its round-index encoder, its trace of random blocks
//! followed by the padding block, and its constraints.
use vstd::prelude::*;

use crate::chips::byte::{apply_requests, ByteLookupChip};
use crate::columns::{ShaCols, NUM_SHA_COLS};
use crate::rng::{rng_fill_block, std_rng_from_seed};
use crate::encoder::{binomial_upto, Encoder};
use crate::generation::{
    chain_hash, concat_blocks, generate_trace_rows, is_block_row, is_round_encoder, is_trace,
    lemma_chain_hash_blocks, next_pow2, padded_blocks, trace_requests, zero_block,
};
use crate::sha_spec::{be_bytes64, hash_blocks, initial_hash, pad_message, sha256_digest, words_be_bytes};
use crate::utils::{byte_limbs, le_bytes};

pub mod completeness;
pub mod constraints;
pub mod lookups;

verus! {

/// The bus of the byte lookups that the SHA-256 AIR sends.
pub const BUS_INDEX: u16 = 10;

/// The SHA-256 AIR. Assumes the field size is at least 16 bits.
pub struct ShaAir {
    pub round_idx_encoder: Encoder,
}

/// The block that pads a message of `n` whole blocks: `0x80`, zeros, and the
/// bit length `512 n` (modulo 2^64) as a big-endian 64-bit value.
pub open spec fn padding_block(n: nat) -> Seq<u8> {
    seq![0x80u8] + Seq::new(55, |j: int| 0u8) + be_bytes64(((n * 512) % 0x1_0000_0000_0000_0000) as u64)
}

/// The 64-byte blocks as byte sequences.
pub open spec fn block_seqs(inputs: Seq<[u8; 64]>) -> Seq<Seq<u8>> {
    inputs.map_values(|b: [u8; 64]| b@)
}

/// The blocks of the trace of `inputs`: the inputs, the padding block, then
/// zero blocks up to a power of two.
pub open spec fn air_blocks(inputs: Seq<[u8; 64]>) -> Seq<Seq<u8>> {
    let n = inputs.len();
    Seq::new(next_pow2(n + 1), |i: int| if i < n {
        inputs[i]@
    } else if i == n {
        padding_block(n)
    } else {
        zero_block()
    })
}

/// The digest that the trace shows after block `n`: the final hash on the
/// last row of that block, word by word, most significant byte first.
pub open spec fn trace_digest(rows: Seq<ShaCols<u32>>, n: nat) -> Seq<u8> {
    Seq::new(32, |k: int| rows[64 * n as int + 63].final_hash[k / 4][3 - k % 4] as u8)
}

impl ShaAir {
    /// Number of columns.
    pub fn width(&self) -> (r: usize)
        ensures
            r == NUM_SHA_COLS,
    {
        NUM_SHA_COLS
    }

    /// The encoder holds a point of ten coordinates for each of the 64 rounds.
    pub open spec fn wf(&self) -> bool {
        &&& is_round_encoder(self.round_idx_encoder)
        &&& self.round_idx_encoder.flag_cnt == 64
        &&& self.round_idx_encoder.max_flag_degree == 2
        &&& !self.round_idx_encoder.reserve_invalid
    }

    /// The AIR with an encoder of the 64 rounds as points of degree two.
    pub fn new() -> (r: Self)
        ensures
            r.wf(),
    {
        let enc = Encoder::new(64, 2, false);
        proof {
            let k = enc.var_cnt;
            assert forall|x: u32| binomial_upto(x, 2, 2) == (x + 1) * (x + 2) / 2 by {
                lemma_binomial_two(x);
            }
            if k < 10 {
                assert((k + 1) * (k + 2) <= 110) by (nonlinear_arith)
                    requires
                        k < 10,
                ;
            }
            if k > 10 {
                assert(binomial_upto(10, 2, 2) < 64);
            }
            assert(k == 10);
        }
        ShaAir { round_idx_encoder: enc }
    }
}

/// The binomial count of degree two.
proof fn lemma_binomial_two(x: u32)
    ensures
        binomial_upto(x, 2, 2) == (x + 1) * (x + 2) / 2,
{
    reveal_with_fuel(binomial_upto, 3);
    assert(binomial_upto(x, 2, 1) == 1 * (x + 1) / 1);
    assert(1 * (x + 1) / 1 == x + 1);
}

/// The padding block of a message of `n` whole blocks.
fn padding_for(n: usize) -> (r: [u8; 64])
    ensures
        r@ == padding_block(n as nat),
{
    let mut padding = [0u8; 64];
    padding[0] = 0x80;
    let bit_len: u64 = (n as u64).wrapping_mul(512);
    assert(bit_len == ((n * 512) % 0x1_0000_0000_0000_0000) as u64);
    let mut b: usize = 0;
    while b < 8
        invariant
            b <= 8,
            padding[0] == 0x80,
            forall|j: int| 1 <= j < 56 ==> #[trigger] padding[j] == 0,
            forall|j: int| 0 <= j < b ==> #[trigger] padding[56 + j] == be_bytes64(bit_len)[j],
        decreases 8 - b,
    {
        padding[56 + b] = ((bit_len >> (8 * (7 - b)) as u64) & 0xff) as u8;
        b = b + 1;
    }
    assert(padding@ =~= padding_block(n as nat)) by {
        assert forall|j: int| 0 <= j < 64 implies #[trigger] padding@[j] == padding_block(n as nat)[j] by {
            if j >= 56 {
                assert(padding[56 + (j - 56)] == be_bytes64(bit_len)[j - 56]);
            }
        }
    }
    padding
}

impl ShaAir {
    /// The trace of the blocks `inputs` followed by the block that pads them
    /// as one message, and by zero blocks up to a power of two; the byte
    /// lookups of every row are counted in `byte_lookup`.
    pub fn generate_trace_rows_for_blocks(&self, byte_lookup: &mut ByteLookupChip, inputs: Vec<[u8; 64]>) -> (r: Vec<ShaCols<u32>>)
        requires
            self.wf(),
            old(byte_lookup).wf(),
            inputs@.len() + 1 <= usize::MAX / 128,
        ensures
            is_trace(r@, self.round_idx_encoder, air_blocks(inputs@)),
            final(byte_lookup).wf(),
            final(byte_lookup).air == old(byte_lookup).air,
            final(byte_lookup).counts() == apply_requests(
                old(byte_lookup).counts(),
                trace_requests(air_blocks(inputs@), next_pow2(inputs@.len() + 1)),
            ),
    {
        let ghost orig = inputs@;
        let n = inputs.len();
        let padding = padding_for(n);
        let mut inputs = inputs;
        inputs.push(padding);
        assert(padded_blocks(inputs@, next_pow2(n as nat + 1)) =~= air_blocks(orig));
        generate_trace_rows(inputs, &self.round_idx_encoder, byte_lookup)
    }

    /// The trace of `num_hashes` blocks of random bytes, drawn from a
    /// generator of fixed seed, then padded as one message: the trace of
    /// some `num_hashes` blocks.
    pub fn generate_trace_rows(&self, byte_lookup: &mut ByteLookupChip, num_hashes: usize) -> (r: Vec<ShaCols<u32>>)
        requires
            self.wf(),
            old(byte_lookup).wf(),
            num_hashes + 1 <= usize::MAX / 128,
        ensures
            exists|inputs: Seq<[u8; 64]>|
                {
                    &&& inputs.len() == num_hashes
                    &&& is_trace(r@, self.round_idx_encoder, air_blocks(inputs))
                    &&& final(byte_lookup).counts() == apply_requests(
                        old(byte_lookup).counts(),
                        trace_requests(air_blocks(inputs), next_pow2(num_hashes as nat + 1)),
                    )
                },
            final(byte_lookup).wf(),
            final(byte_lookup).air == old(byte_lookup).air,
    {
        let mut rng = std_rng_from_seed(1);
        let mut inputs: Vec<[u8; 64]> = Vec::new();
        let mut i: usize = 0;
        while i < num_hashes
            invariant
                i <= num_hashes,
                inputs@.len() == i,
            decreases num_hashes - i,
        {
            let mut bytes = [0u8; 64];
            rng_fill_block(&mut rng, &mut bytes);
            inputs.push(bytes);
            i = i + 1;
        }
        let ghost drawn = inputs@;
        let r = self.generate_trace_rows_for_blocks(byte_lookup, inputs);
        assert(drawn.len() == num_hashes);
        r
    }
}

/// Data that agree on their first `i` blocks have the same chaining value after them.
proof fn lemma_hash_blocks_prefix(h: Seq<u32>, d1: Seq<u8>, d2: Seq<u8>, i: nat)
    requires
        d1.len() >= 64 * i,
        d2.len() >= 64 * i,
        forall|k: int| 0 <= k < 64 * i ==> #[trigger] d1[k] == d2[k],
    ensures
        hash_blocks(h, d1, i) == hash_blocks(h, d2, i),
    decreases i,
{
    if i > 0 {
        lemma_hash_blocks_prefix(h, d1, d2, (i - 1) as nat);
        assert(d1.subrange(64 * (i - 1), 64 * i as int) =~= d2.subrange(64 * (i - 1), 64 * i as int));
    }
}

/// A message of `n` whole blocks padded is the message followed by the padding block.
proof fn lemma_pad_whole_blocks(msg: Seq<u8>, n: nat)
    requires
        msg.len() == 64 * n,
    ensures
        pad_message(msg) == msg + padding_block(n),
{
    assert(msg.len() % 64 == 0) by (nonlinear_arith)
        requires
            msg.len() == 64 * n,
    ;
    assert(pad_message(msg) =~= msg + padding_block(n));
}

/// The byte at offset `l` of a word's little-endian bytes, by shift.
proof fn lemma_le_byte_shift(x: u32, l: int)
    requires
        0 <= l < 4,
    ensures
        le_bytes(x)[l] == ((x >> (8 * l) as u32) & 0xff) as u8,
{
    assert(x >> 0u32 == x) by (bit_vector);
}

/// The chaining value after the padding block of the trace is that of
/// SHA-256 on the bytes of the input blocks.
proof fn lemma_air_chain(inputs: Seq<[u8; 64]>)
    ensures
        pad_message(concat_blocks(block_seqs(inputs))).len() == 64 * inputs.len() + 64,
        chain_hash(air_blocks(inputs), inputs.len() + 1) == hash_blocks(
            initial_hash(),
            pad_message(concat_blocks(block_seqs(inputs))),
            inputs.len() + 1,
        ),
{
    let n = inputs.len();
    let bs = air_blocks(inputs);
    let msg = concat_blocks(block_seqs(inputs));
    crate::generation::lemma_next_pow2_ge(n + 1);
    assert forall|b: int| 0 <= b < bs.len() implies (#[trigger] bs[b]).len() == 64 by {}
    lemma_chain_hash_blocks(bs, n + 1);
    lemma_pad_whole_blocks(msg, n);
    let p = pad_message(msg);
    let cb = concat_blocks(bs);
    assert(cb.len() >= 64 * (n + 1)) by (nonlinear_arith)
        requires
            cb.len() == 64 * bs.len(),
            bs.len() >= n + 1,
    ;
    assert forall|k: int| 0 <= k < 64 * (n + 1) implies #[trigger] cb[k] == p[k] by {
        let q = k / 64;
        let r = k % 64;
        vstd::arithmetic::div_mod::lemma_fundamental_div_mod(k, 64);
        if q < n {
            assert(64 * q + r < 64 * n) by (nonlinear_arith)
                requires
                    q < n,
                    0 <= r < 64,
            ;
            assert(msg[k] == block_seqs(inputs)[q][r]);
        } else {
            assert(q == n) by (nonlinear_arith)
                requires
                    k == 64 * q + r,
                    0 <= r < 64,
                    k < 64 * (n + 1),
                    q >= n,
            ;
        }
    }
    lemma_hash_blocks_prefix(initial_hash(), cb, p, n + 1);
}

/// The last row of a block holds the chaining value after the block.
proof fn lemma_last_row_final_hash(row: ShaCols<u32>, pt: Seq<u32>, block: Seq<u8>, h: Seq<u32>)
    requires
        is_block_row(row, pt, block, h, 63),
    ensures
        forall|j: int, l: int| 0 <= j < 8 && 0 <= l < 4 ==> #[trigger] row.final_hash[j][l] == byte_limbs(
            crate::sha_spec::compress(h, block)[j],
        )[l],
{
    reveal(is_block_row);
}

/// The trace of `inputs` computes SHA-256: the final hash on the last row of
/// the padding block is the digest of the bytes of the input blocks.
#[verifier::rlimit(30)]
pub proof fn lemma_trace_digest(rows: Seq<ShaCols<u32>>, encoder: Encoder, inputs: Seq<[u8; 64]>)
    requires
        is_trace(rows, encoder, air_blocks(inputs)),
    ensures
        trace_digest(rows, inputs.len()) == sha256_digest(concat_blocks(block_seqs(inputs))),
{
    let n = inputs.len();
    let bs = air_blocks(inputs);
    crate::generation::lemma_next_pow2_ge(n + 1);
    lemma_air_chain(inputs);
    let hv = chain_hash(bs, n + 1);
    let p = pad_message(concat_blocks(block_seqs(inputs)));
    assert(p.len() / 64 == n + 1);
    let row = rows[64 * n as int + 63];
    assert(is_block_row(rows[64 * n as int + 63], encoder.flag_pt(63), bs[n as int], chain_hash(bs, n as nat), 63));
    lemma_last_row_final_hash(row, encoder.flag_pt(63), bs[n as int], chain_hash(bs, n as nat));
    assert forall|k: int| 0 <= k < 32 implies #[trigger] trace_digest(rows, n)[k] == words_be_bytes(hv)[k] by {
        let j = k / 4;
        let l = 3 - k % 4;
        lemma_le_byte_shift(hv[j], l);
        assert(row.final_hash[j][l] == byte_limbs(hv[j])[l]);
    }
    assert(trace_digest(rows, n) =~= words_be_bytes(hv));
}

} // verus!
