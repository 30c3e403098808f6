//! Trace generation: the rows of the SHA-256 AIR, one per round, 64 per block.
use vstd::prelude::*;

use crate::bits_air::big_sig_air::{big_sigma_requests, is_big_sigma_of, BigSigma0Cols, BigSigma1Cols};
use crate::bits_air::ch_air::{ch_requests, is_ch_of, ChooseCols};
use crate::bits_air::maj_air::{is_maj_of, maj_requests, MajorCols};
use crate::bits_air::small_sig_air::{
    generate_sig0_trace_rows, generate_sig1_trace_rows, is_small_sigma_of, small_sigma_requests,
};
use crate::chips::byte::{apply_requests, lemma_apply_requests_concat, ByteLookupChip, ByteRequest};
use crate::columns::ShaCols;
use crate::constants::SHA256_K;
use crate::encoder::Encoder;
use crate::gadgets::add::{add_requests, is_add_of, sum_words, wrapping_sum, AddGadget};
use crate::sha_spec::{
    be_word, compress, hash_blocks, initial_hash, rounds, big_sigma0, big_sigma1, ch_word, maj_word,
    round_step, round_t1, round_t2, schedule_word, small_sigma0, small_sigma1, word_modulus,
};
use crate::utils::{
    are_bytes, byte_limbs, compose, get_flag_pt_array, lemma_limbs_fold_bytes, limbs_into_u32, limbs_value,
    u32_to_byte_limbs,
};

verus! {

/// The word held by four limbs, most significant last, folded with 8-bit
/// shifts and ORs as `limbs_into_u32` does.
pub open spec fn word_of(l: [u32; 4]) -> u32 {
    crate::utils::limbs_fold(l@, 8)
}

/// The eight words held by a state of limbs.
pub open spec fn state_words(s: [[u32; 4]; 8]) -> Seq<u32> {
    Seq::new(8, |j: int| word_of(s[j]))
}

/// Every limb of the words holds a byte.
pub open spec fn limbs_are_bytes<const M: usize>(s: [[u32; 4]; M]) -> bool {
    forall|j: int| 0 <= j < M ==> are_bytes(#[trigger] s[j]@)
}

/// The summands of `T1`: the round constant, the schedule word, `h`, `Σ1(e)` and `Ch(e, f, g)`.
pub open spec fn t1_inputs(s: Seq<u32>, w: u32, round: int) -> Seq<u32> {
    seq![SHA256_K[round], w, s[7], big_sigma1(s[4]), ch_word(s[4], s[5], s[6])]
}

/// The summands of `T2`: `Σ0(a)` and `Maj(a, b, c)`.
pub open spec fn t2_inputs(s: Seq<u32>) -> Seq<u32> {
    seq![big_sigma0(s[0]), maj_word(s[0], s[1], s[2])]
}

/// The requests that filling the row of a round makes, in order.
pub open spec fn round_requests(s: Seq<u32>, w: u32, round: int) -> Seq<ByteRequest> {
    let t1 = wrapping_sum(t1_inputs(s, w, round));
    let t2 = wrapping_sum(t2_inputs(s));
    big_sigma_requests(s[4], 6, 11, 25) + ch_requests(s[4], s[5], s[6]) + add_requests(t1_inputs(s, w, round))
        + big_sigma_requests(s[0], 2, 13, 22) + maj_requests(s[0], s[1], s[2]) + add_requests(t2_inputs(s))
        + add_requests(seq![s[3], t1]) + add_requests(seq![t1, t2])
}

/// The gadgets of the row hold the computation of the round on state `s` and word `w`.
pub open spec fn is_round_row(row: ShaCols<u32>, s: Seq<u32>, w: u32, round: int) -> bool {
    let t1 = wrapping_sum(t1_inputs(s, w, round));
    let t2 = wrapping_sum(t2_inputs(s));
    &&& is_big_sigma_of(row.big_sig1.rrots, row.big_sig1.xor3, s[4], 6, 11, 25)
    &&& is_ch_of(row.ch, s[4], s[5], s[6])
    &&& is_add_of(row.sum_t1, t1_inputs(s, w, round))
    &&& is_big_sigma_of(row.big_sig0.rrots, row.big_sig0.xor3, s[0], 2, 13, 22)
    &&& is_maj_of(row.maj, s[0], s[1], s[2])
    &&& is_add_of(row.sum_t2, t2_inputs(s))
    &&& is_add_of(row.sum_e, seq![s[3], t1])
    &&& is_add_of(row.sum_a, seq![t1, t2])
}

/// Sums of two, four and five words.
pub proof fn lemma_sum_words_small(a: u32, b: u32, c: u32, d: u32, e: u32)
    ensures
        sum_words(seq![a, b]) == a + b,
        sum_words(seq![a, b, c, d]) == a + b + c + d,
        sum_words(seq![a, b, c, d, e]) == a + b + c + d + e,
{
    assert(seq![a, b].drop_last() =~= seq![a]);
    assert(seq![a].drop_last() =~= Seq::<u32>::empty());
    assert(seq![a, b, c].drop_last() =~= seq![a, b]);
    assert(seq![a, b, c, d].drop_last() =~= seq![a, b, c]);
    assert(seq![a, b, c, d, e].drop_last() =~= seq![a, b, c, d]);
    reveal_with_fuel(sum_words, 6);
}

/// The word of byte limbs is their value.
pub(crate) proof fn lemma_limbs_word(l: [u32; 4])
    requires
        are_bytes(l@),
    ensures
        limbs_value(l@) == word_of(l) as int,
{
    lemma_limbs_fold_bytes(l@);
}

/// The limbs of the bytes of a word hold that word.
pub(crate) proof fn lemma_word_of_limbs(l: [u32; 4], w: u32)
    requires
        l@ == byte_limbs(w),
    ensures
        word_of(l) == w,
        are_bytes(l@),
{
    crate::utils::lemma_le_bytes_value(w);
    lemma_limbs_fold_bytes(l@);
}

/// Fill the gadgets of `T1 = h + Σ1(e) + Ch(e, f, g) + k + w` and return `T1`.
fn populate_t1(
    big_sig1: &mut BigSigma1Cols<u32>,
    ch: &mut ChooseCols<u32>,
    sum_t1: &mut AddGadget<u32, 5>,
    byte_lookup: &mut ByteLookupChip,
    s: Ghost<Seq<u32>>,
    p4: u32,
    p5: u32,
    p6: u32,
    p7: u32,
    k: u32,
    w: u32,
    round: Ghost<int>,
) -> (t1: u32)
    requires
        old(byte_lookup).wf(),
        s@.len() == 8,
        p4 == s@[4] && p5 == s@[5] && p6 == s@[6] && p7 == s@[7],
        0 <= round@ < 64,
        k == SHA256_K[round@],
    ensures
        t1 == wrapping_sum(t1_inputs(s@, w, round@)),
        t1 as int == round_t1(s@, k, w),
        is_big_sigma_of(final(big_sig1).rrots, final(big_sig1).xor3, p4, 6, 11, 25),
        is_ch_of(*final(ch), p4, p5, p6),
        is_add_of(*final(sum_t1), t1_inputs(s@, w, round@)),
        final(byte_lookup).wf(),
        final(byte_lookup).air == old(byte_lookup).air,
        final(byte_lookup).counts() == apply_requests(
            old(byte_lookup).counts(),
            big_sigma_requests(p4, 6, 11, 25) + ch_requests(p4, p5, p6) + add_requests(t1_inputs(s@, w, round@)),
        ),
{
    let ghost c0 = byte_lookup.counts();
    let big1 = big_sig1.populate(byte_lookup, p4);
    let chv = ch.populate(byte_lookup, p4, p5, p6);
    let t1 = [k, w, p7, big1, chv];
    assert(t1@ =~= t1_inputs(s@, w, round@));
    let t1_sum: u32 = sum_t1.populate(byte_lookup, t1);
    proof {
        let q1 = big_sigma_requests(p4, 6, 11, 25);
        let q2 = ch_requests(p4, p5, p6);
        let q3 = add_requests(t1@);
        lemma_apply_requests_concat(c0, q1, q2);
        lemma_apply_requests_concat(c0, q1 + q2, q3);
        lemma_sum_words_small(k, w, p7, big1, chv);
    }
    t1_sum
}

/// Fill the gadgets of `T2 = Σ0(a) + Maj(a, b, c)` and return `T2`.
fn populate_t2(
    big_sig0: &mut BigSigma0Cols<u32>,
    maj: &mut MajorCols<u32>,
    sum_t2: &mut AddGadget<u32, 2>,
    byte_lookup: &mut ByteLookupChip,
    s: Ghost<Seq<u32>>,
    p0: u32,
    p1: u32,
    p2: u32,
) -> (t2: u32)
    requires
        old(byte_lookup).wf(),
        s@.len() == 8,
        p0 == s@[0] && p1 == s@[1] && p2 == s@[2],
    ensures
        t2 == wrapping_sum(t2_inputs(s@)),
        t2 as int == round_t2(s@),
        is_big_sigma_of(final(big_sig0).rrots, final(big_sig0).xor3, p0, 2, 13, 22),
        is_maj_of(*final(maj), p0, p1, p2),
        is_add_of(*final(sum_t2), t2_inputs(s@)),
        final(byte_lookup).wf(),
        final(byte_lookup).air == old(byte_lookup).air,
        final(byte_lookup).counts() == apply_requests(
            old(byte_lookup).counts(),
            big_sigma_requests(p0, 2, 13, 22) + maj_requests(p0, p1, p2) + add_requests(t2_inputs(s@)),
        ),
{
    let ghost c0 = byte_lookup.counts();
    let big0 = big_sig0.populate(byte_lookup, p0);
    let mj = maj.populate(byte_lookup, p0, p1, p2);
    let t2 = [big0, mj];
    assert(t2@ =~= t2_inputs(s@));
    let t2_sum: u32 = sum_t2.populate(byte_lookup, t2);
    proof {
        let q1 = big_sigma_requests(p0, 2, 13, 22);
        let q2 = maj_requests(p0, p1, p2);
        let q3 = add_requests(t2@);
        lemma_apply_requests_concat(c0, q1, q2);
        lemma_apply_requests_concat(c0, q1 + q2, q3);
        lemma_sum_words_small(big0, mj, 0, 0, 0);
    }
    t2_sum
}

/// Fill the gadget of the sum of two words and return the sum.
fn populate_sum2(sum: &mut AddGadget<u32, 2>, byte_lookup: &mut ByteLookupChip, x: u32, y: u32) -> (r: u32)
    requires
        old(byte_lookup).wf(),
    ensures
        r == wrapping_sum(seq![x, y]),
        r as int == (x + y) % word_modulus(),
        is_add_of(*final(sum), seq![x, y]),
        final(byte_lookup).wf(),
        final(byte_lookup).air == old(byte_lookup).air,
        final(byte_lookup).counts() == apply_requests(old(byte_lookup).counts(), add_requests(seq![x, y])),
{
    let t = [x, y];
    assert(t@ =~= seq![x, y]);
    proof {
        lemma_sum_words_small(x, y, 0, 0, 0);
    }
    sum.populate(byte_lookup, t)
}

/// Fill the row of round `round` of a block: its flags, its round index, and
/// the gadgets of the round, from the working state `prev_seed` and the
/// schedule word `buf[round]` that the row already holds; the state after the
/// round goes to `seed`.
pub fn generate_trace_row_for_round(row: &mut ShaCols<u32>, encoder: &Encoder, byte_lookup: &mut ByteLookupChip, round: usize)
    requires
        old(byte_lookup).wf(),
        round < 64,
        encoder.wf(),
        encoder.var_cnt == 10,
        round < encoder.flag_cnt,
    ensures
        is_round_row(*final(row), state_words(old(row).prev_seed), word_of(old(row).buf[round as int]), round as int),
        state_words(final(row).seed) == round_step(
            state_words(old(row).prev_seed),
            SHA256_K[round as int],
            word_of(old(row).buf[round as int]),
        ),
        limbs_are_bytes(old(row).prev_seed) ==> limbs_are_bytes(final(row).seed),
        final(row).step_flags@ == old(row).step_flags@.update(round as int, 1),
        final(row).first_16_steps == (if round < 16 {
            1
        } else {
            old(row).first_16_steps
        }),
        forall|j: int, l: int| 0 <= j < 8 && 0 <= l < 4 ==> #[trigger] final(row).final_hash[j][l] == 0,
        final(row).round_idx@ == encoder.flag_pt(round as int),
        final(row).prev_seed == old(row).prev_seed,
        final(row).buf == old(row).buf,
        final(row).input_block == old(row).input_block,
        final(row).prev_block_seed == old(row).prev_block_seed,
        final(row).small_sig0 == old(row).small_sig0,
        final(row).small_sig1 == old(row).small_sig1,
        final(row).sum_small_sig == old(row).sum_small_sig,
        final(row).sum_final == old(row).sum_final,
        final(row).export == old(row).export,
        final(byte_lookup).wf(),
        final(byte_lookup).air == old(byte_lookup).air,
        final(byte_lookup).counts() == apply_requests(
            old(byte_lookup).counts(),
            round_requests(state_words(old(row).prev_seed), word_of(old(row).buf[round as int]), round as int),
        ),
{
    let ghost s = state_words(row.prev_seed);
    let ghost w0 = word_of(row.buf[round as int]);
    assert((32usize / 4usize) as u32 == 8u32);
    row.step_flags[round] = 1;
    if round < 16 {
        row.first_16_steps = 1;
    }
    row.final_hash = [[0u32; 4]; 8];
    row.round_idx = get_flag_pt_array(encoder, round);

    let p0 = limbs_into_u32(row.prev_seed[0]);
    let p1 = limbs_into_u32(row.prev_seed[1]);
    let p2 = limbs_into_u32(row.prev_seed[2]);
    let p3 = limbs_into_u32(row.prev_seed[3]);
    let p4 = limbs_into_u32(row.prev_seed[4]);
    let p5 = limbs_into_u32(row.prev_seed[5]);
    let p6 = limbs_into_u32(row.prev_seed[6]);
    let p7 = limbs_into_u32(row.prev_seed[7]);
    let w = limbs_into_u32(row.buf[round]);

    let ghost c0 = byte_lookup.counts();
    let t1_sum = populate_t1(&mut row.big_sig1, &mut row.ch, &mut row.sum_t1, byte_lookup, Ghost(s), p4, p5, p6, p7, SHA256_K[round], w, Ghost(round as int));
    let t2_sum = populate_t2(&mut row.big_sig0, &mut row.maj, &mut row.sum_t2, byte_lookup, Ghost(s), p0, p1, p2);
    let e_word = populate_sum2(&mut row.sum_e, byte_lookup, p3, t1_sum);
    let e = u32_to_byte_limbs(e_word);
    let a_word = populate_sum2(&mut row.sum_a, byte_lookup, t1_sum, t2_sum);
    let a = u32_to_byte_limbs(a_word);

    row.seed = [a, row.prev_seed[0], row.prev_seed[1], row.prev_seed[2], e, row.prev_seed[4], row.prev_seed[5], row.prev_seed[6]];

    proof {
        let q12 = big_sigma_requests(s[4], 6, 11, 25) + ch_requests(s[4], s[5], s[6]) + add_requests(t1_inputs(s, w0, round as int));
        let q45 = big_sigma_requests(s[0], 2, 13, 22) + maj_requests(s[0], s[1], s[2]) + add_requests(t2_inputs(s));
        let q7 = add_requests(seq![s[3], t1_sum]);
        let q8 = add_requests(seq![t1_sum, t2_sum]);
        lemma_apply_requests_concat(c0, q12, q45);
        lemma_apply_requests_concat(c0, q12 + q45, q7);
        lemma_apply_requests_concat(c0, q12 + q45 + q7, q8);
        assert(round_requests(s, w0, round as int) =~= q12 + q45 + q7 + q8);
        lemma_round_state(row.seed, old(row).prev_seed, s, w0, round as int, t1_sum, t2_sum, e_word, a_word);
        assert(row.step_flags@ =~= old(row).step_flags@.update(round as int, 1));
    }
}

/// The state after a round, from the sums of its gadgets.
proof fn lemma_round_state(
    seed: [[u32; 4]; 8],
    prev: [[u32; 4]; 8],
    s: Seq<u32>,
    w: u32,
    round: int,
    t1: u32,
    t2: u32,
    e_word: u32,
    a_word: u32,
)
    requires
        0 <= round < 64,
        s == state_words(prev),
        t1 as int == round_t1(s, SHA256_K[round], w),
        t2 as int == round_t2(s),
        e_word as int == (s[3] + t1) % word_modulus(),
        a_word as int == (t1 + t2) % word_modulus(),
        seed[0]@ == crate::utils::byte_limbs(a_word),
        seed[4]@ == crate::utils::byte_limbs(e_word),
        seed[1] == prev[0],
        seed[2] == prev[1],
        seed[3] == prev[2],
        seed[5] == prev[4],
        seed[6] == prev[5],
        seed[7] == prev[6],
    ensures
        state_words(seed) == round_step(s, SHA256_K[round], w),
        limbs_are_bytes(prev) ==> limbs_are_bytes(seed),
{
    lemma_word_of_limbs(seed[0], a_word);
    lemma_word_of_limbs(seed[4], e_word);
    let next = round_step(s, SHA256_K[round], w);
    let sw = state_words(seed);
    assert(sw[0] == next[0]);
    assert(sw[4] == next[4]);
    assert(sw =~= next);
    if limbs_are_bytes(prev) {
        assert forall|j: int| 0 <= j < 8 implies are_bytes(#[trigger] seed[j]@) by {
            if j != 0 && j != 4 {
                assert(are_bytes(prev[j - 1]@));
            }
        }
    }
}

/// The input of `σ1` on the row of schedule word `i` (zero on the first 16 rows).
pub open spec fn sched_sig1_input(block: Seq<u8>, i: int) -> u32 {
    if i < 16 {
        0
    } else {
        schedule_word(block, (i - 2) as nat)
    }
}

/// The input of `σ0` on the row of schedule word `i` (zero on the first 16 rows).
pub open spec fn sched_sig0_input(block: Seq<u8>, i: int) -> u32 {
    if i < 16 {
        0
    } else {
        schedule_word(block, (i - 15) as nat)
    }
}

/// The summands of schedule word `i` (zeros on the first 16 rows).
pub open spec fn sched_sum_inputs(block: Seq<u8>, i: int) -> Seq<u32> {
    if i < 16 {
        seq![0u32, 0, 0, 0]
    } else {
        seq![
            schedule_word(block, (i - 7) as nat),
            schedule_word(block, (i - 16) as nat),
            small_sigma1(schedule_word(block, (i - 2) as nat)),
            small_sigma0(schedule_word(block, (i - 15) as nat)),
        ]
    }
}

/// The requests that filling the schedule gadgets of row `i` makes.
pub open spec fn schedule_row_requests(block: Seq<u8>, i: int) -> Seq<ByteRequest> {
    small_sigma_requests(sched_sig1_input(block, i), 17, 19, 10) + small_sigma_requests(
        sched_sig0_input(block, i),
        7,
        18,
        3,
    ) + add_requests(sched_sum_inputs(block, i))
}

/// The requests that filling the schedule gadgets of the first `n` rows makes.
pub open spec fn schedule_requests(block: Seq<u8>, n: nat) -> Seq<ByteRequest>
    decreases n,
{
    if n == 0 {
        Seq::empty()
    } else {
        schedule_requests(block, (n - 1) as nat) + schedule_row_requests(block, n - 1)
    }
}

/// The schedule gadgets of the row hold the computation of schedule word `i`.
pub open spec fn is_schedule_row(row: ShaCols<u32>, block: Seq<u8>, i: int) -> bool {
    &&& is_small_sigma_of(row.small_sig1, sched_sig1_input(block, i), 17, 19, 10)
    &&& is_small_sigma_of(row.small_sig0, sched_sig0_input(block, i), 7, 18, 3)
    &&& is_add_of(row.sum_small_sig, sched_sum_inputs(block, i))
}

/// A big-endian word by shifts.
proof fn lemma_be_word_bits(b0: u8, b1: u8, b2: u8, b3: u8)
    ensures
        ((b0 as u32) << 24u32) | ((b1 as u32) << 16u32) | ((b2 as u32) << 8u32) | (b3 as u32) == (b0 as int
            * 0x100_0000 + b1 as int * 0x1_0000 + b2 as int * 0x100 + b3 as int) as u32,
{
    assert(((b0 as u32) << 24u32) | ((b1 as u32) << 16u32) | ((b2 as u32) << 8u32) | (b3 as u32) == b0
        * 0x100_0000 + b1 * 0x1_0000 + b2 * 0x100 + b3) by (bit_vector);
}

/// A fresh row whose schedule gadgets hold the computation of schedule word
/// `i` of the block, from the words before it; returns the row and the word.
#[verifier::rlimit(30)]
fn fill_schedule_row(byte_lookup: &mut ByteLookupChip, input_block: &[u8; 64], buf: &[u32; 64], i: usize) -> (r: (ShaCols<u32>, u32))
    requires
        old(byte_lookup).wf(),
        i < 64,
        forall|j: int| 0 <= j < i ==> #[trigger] buf[j] == schedule_word(input_block@, j as nat),
    ensures
        r.1 == schedule_word(input_block@, i as nat),
        is_schedule_row(r.0, input_block@, i as int),
        forall|l: int| 0 <= l < 64 ==> #[trigger] r.0.step_flags[l] == 0,
        r.0.first_16_steps == 0,
        r.0.export == 0,
        final(byte_lookup).wf(),
        final(byte_lookup).air == old(byte_lookup).air,
        final(byte_lookup).counts() == apply_requests(old(byte_lookup).counts(), schedule_row_requests(input_block@, i as int)),
{
    let ghost block = input_block@;
    let mut row = ShaCols::new();
    let ghost before = byte_lookup.counts();
    let word: u32;
    if i < 16 {
        let j = i * 4;
        word = (input_block[j] as u32) << 24 | (input_block[j + 1] as u32) << 16 | (input_block[j + 2] as u32) << 8
            | (input_block[j + 3] as u32);
        proof {
            lemma_be_word_bits(input_block[j as int], input_block[j + 1], input_block[j + 2], input_block[j + 3]);
            assert(word == be_word(block, i as int));
        }
        generate_sig1_trace_rows(&mut row.small_sig1, byte_lookup, 0);
        generate_sig0_trace_rows(&mut row.small_sig0, byte_lookup, 0);
        let zeros = [0u32, 0, 0, 0];
        assert(zeros@ =~= sched_sum_inputs(block, i as int));
        row.sum_small_sig.populate(byte_lookup, zeros);
    } else {
        let v1 = buf[i - 2];
        let v2 = buf[i - 15];

        // update value to columns
        let t1 = generate_sig1_trace_rows(&mut row.small_sig1, byte_lookup, v1);
        let t2 = generate_sig0_trace_rows(&mut row.small_sig0, byte_lookup, v2);
        let summands = [buf[i - 7], buf[i - 16], t1, t2];
        assert(summands@ =~= sched_sum_inputs(block, i as int));
        word = row.sum_small_sig.populate(byte_lookup, summands);
        proof {
            lemma_sum_words_small(buf[i - 7], buf[i - 16], t1, t2, 0);
            assert(word == schedule_word(block, i as nat));
        }
    }
    proof {
        let q1 = small_sigma_requests(sched_sig1_input(block, i as int), 17, 19, 10);
        let q2 = small_sigma_requests(sched_sig0_input(block, i as int), 7, 18, 3);
        let q3 = add_requests(sched_sum_inputs(block, i as int));
        lemma_apply_requests_concat(before, q1, q2);
        lemma_apply_requests_concat(before, q1 + q2, q3);
    }
    (row, word)
}

/// The 64 rows of a block that hold its schedule gadgets, and no round yet.
#[verifier::opaque]
pub open spec fn is_schedule_rows(rows: Seq<ShaCols<u32>>, block: Seq<u8>) -> bool {
    &&& rows.len() == 64
    &&& forall|i: int| 0 <= i < 64 ==> is_schedule_row(#[trigger] rows[i], block, i)
    &&& forall|i: int, j: int| 0 <= i < 64 && 0 <= j < 64 ==> #[trigger] rows[i].step_flags[j] == 0
    &&& forall|i: int| 0 <= i < 64 ==> #[trigger] rows[i].first_16_steps == 0
    &&& forall|i: int| 0 <= i < 64 ==> #[trigger] rows[i].export == 0
}

/// The cells of the bytes of a block, the limbs of its schedule and the
/// limbs of the chaining value `h`.
#[verifier::opaque]
pub open spec fn is_block_inputs(
    input_cells: [u32; 64],
    buf_limbs: [[u32; 4]; 64],
    prev_limbs: [[u32; 4]; 8],
    block: Seq<u8>,
    h: Seq<u32>,
) -> bool {
    &&& forall|j: int| 0 <= j < 64 ==> #[trigger] input_cells[j] == block[j] as u32
    &&& forall|j: int| 0 <= j < 64 ==> #[trigger] buf_limbs[j]@ == byte_limbs(schedule_word(block, j as nat))
    &&& forall|j: int| 0 <= j < 8 ==> #[trigger] prev_limbs[j]@ == byte_limbs(h[j])
}

/// Fill the schedule gadgets of the 64 rows of a block and compute its
/// message schedule.
fn generate_schedule_rows(byte_lookup: &mut ByteLookupChip, input_block: [u8; 64]) -> (r: (Vec<ShaCols<u32>>, [u32; 64]))
    requires
        old(byte_lookup).wf(),
    ensures
        r.0@.len() == 64,
        forall|i: int| 0 <= i < 64 ==> #[trigger] r.1[i] == schedule_word(input_block@, i as nat),
        is_schedule_rows(r.0@, input_block@),
        final(byte_lookup).wf(),
        final(byte_lookup).air == old(byte_lookup).air,
        final(byte_lookup).counts() == apply_requests(old(byte_lookup).counts(), schedule_requests(input_block@, 64)),
{
    let ghost block = input_block@;
    let ghost c0 = byte_lookup.counts();
    let mut buf = [0u32; 64];
    let mut rows: Vec<ShaCols<u32>> = Vec::new();
    let mut i: usize = 0;
    while i < 64
        invariant
            i <= 64,
            block == input_block@,
            rows@.len() == i,
            forall|j: int| 0 <= j < i ==> #[trigger] buf[j] == schedule_word(block, j as nat),
            forall|j: int| 0 <= j < i ==> is_schedule_row(#[trigger] rows@[j], block, j),
            forall|j: int, l: int| 0 <= j < i && 0 <= l < 64 ==> #[trigger] rows@[j].step_flags[l] == 0,
            forall|j: int| 0 <= j < i ==> #[trigger] rows@[j].first_16_steps == 0,
            forall|j: int| 0 <= j < i ==> #[trigger] rows@[j].export == 0,
            byte_lookup.wf(),
            byte_lookup.air == old(byte_lookup).air,
            byte_lookup.counts() == apply_requests(c0, schedule_requests(block, i as nat)),
        decreases 64 - i,
    {
        let ghost before = byte_lookup.counts();
        let (row, word) = fill_schedule_row(byte_lookup, &input_block, &buf, i);
        buf[i] = word;
        proof {
            lemma_apply_requests_concat(c0, schedule_requests(block, i as nat), schedule_row_requests(block, i as int));
        }
        let ghost filled = row;
        rows.push(row);
        proof {
            assert(rows@[i as int] == filled);
            assert forall|j: int, l: int| 0 <= j < i + 1 && 0 <= l < 64 implies #[trigger] rows@[j].step_flags[l] == 0 by {
                if j == i {
                    assert(filled.step_flags[l] == 0);
                }
            }
        }
        i = i + 1;
    }
    proof {
        reveal(is_schedule_rows);
    }
    (rows, buf)
}

/// The requests of the final sums of the first `n` words: word `j` of the
/// state plus word `j` of the chaining value.
pub open spec fn final_requests(st: Seq<u32>, h: Seq<u32>, n: nat) -> Seq<ByteRequest>
    decreases n,
{
    if n == 0 {
        Seq::empty()
    } else {
        final_requests(st, h, (n - 1) as nat) + add_requests(seq![st[n - 1], h[n - 1]])
    }
}

/// The requests of the round gadgets and final sums of the first `n` rows of a block.
pub open spec fn block_round_requests(block: Seq<u8>, h: Seq<u32>, n: nat) -> Seq<ByteRequest>
    decreases n,
{
    if n == 0 {
        Seq::empty()
    } else {
        block_round_requests(block, h, (n - 1) as nat) + round_requests(
            rounds(h, block, (n - 1) as nat),
            schedule_word(block, (n - 1) as nat),
            n - 1,
        ) + final_requests(rounds(h, block, n), h, 8)
    }
}

/// The requests that filling the 64 rows of a block makes.
#[verifier::opaque]
pub open spec fn block_requests(block: Seq<u8>, h: Seq<u32>) -> Seq<ByteRequest> {
    schedule_requests(block, 64) + block_round_requests(block, h, 64)
}

/// The row of round `r` of the block `block` started from the chaining value
/// `h`, but for its round index and its final hash.
#[verifier::opaque]
pub open spec fn is_block_row_body(row: ShaCols<u32>, block: Seq<u8>, h: Seq<u32>, r: int) -> bool {
    &&& forall|j: int| 0 <= j < 64 ==> #[trigger] row.step_flags[j] == (if j == r {
        1u32
    } else {
        0u32
    })
    &&& row.first_16_steps == (if r < 16 {
        1u32
    } else {
        0u32
    })
    &&& row.export == 0
    &&& forall|j: int| 0 <= j < 64 ==> #[trigger] row.input_block[j] == block[j] as u32
    &&& forall|j: int| 0 <= j < 64 ==> #[trigger] row.buf[j]@ == byte_limbs(schedule_word(block, j as nat))
    &&& forall|j: int| 0 <= j < 8 ==> #[trigger] row.prev_block_seed[j]@ == byte_limbs(h[j])
    &&& state_words(row.prev_seed) == rounds(h, block, r as nat)
    &&& limbs_are_bytes(row.prev_seed)
    &&& state_words(row.seed) == rounds(h, block, (r + 1) as nat)
    &&& limbs_are_bytes(row.seed)
    &&& is_schedule_row(row, block, r)
    &&& is_round_row(row, rounds(h, block, r as nat), schedule_word(block, r as nat), r)
    &&& forall|j: int| 0 <= j < 8 ==> is_add_of(#[trigger] row.sum_final[j], seq![rounds(h, block, (r + 1) as nat)[j], h[j]])
}

/// The row of round `r` of the block `block` started from the chaining value `h`.
#[verifier::opaque]
pub open spec fn is_block_row(row: ShaCols<u32>, pt: Seq<u32>, block: Seq<u8>, h: Seq<u32>, r: int) -> bool {
    &&& is_block_row_body(row, block, h, r)
    &&& row.round_idx@ == pt
    &&& forall|j: int, l: int| 0 <= j < 8 && 0 <= l < 4 ==> #[trigger] row.final_hash[j][l] == (if r == 63 {
        byte_limbs(compress(h, block)[j])[l]
    } else {
        0u32
    })
}

/// Fill the row of round `round`: the block, its schedule, the chaining value
/// and the working state before the round, then the round gadgets and the
/// final sums.
fn fill_round_row(
    row: &mut ShaCols<u32>,
    encoder: &Encoder,
    byte_lookup: &mut ByteLookupChip,
    input_block: &[u8; 64],
    input_cells: &[u32; 64],
    buf_limbs: &[[u32; 4]; 64],
    prev_block_seed: &[u32; 8],
    prev_limbs: &[[u32; 4]; 8],
    prev_seed: [[u32; 4]; 8],
    round: usize,
)
    requires
        old(byte_lookup).wf(),
        round < 64,
        encoder.wf(),
        encoder.var_cnt == 10,
        round < encoder.flag_cnt,
        round + encoder.offset() < encoder.points().len(),
        forall|j: int| 0 <= j < 64 ==> #[trigger] input_cells[j] == input_block@[j] as u32,
        forall|j: int| 0 <= j < 64 ==> #[trigger] buf_limbs[j]@ == byte_limbs(schedule_word(input_block@, j as nat)),
        forall|j: int| 0 <= j < 8 ==> #[trigger] prev_limbs[j]@ == byte_limbs(prev_block_seed[j]),
        state_words(prev_seed) == rounds(prev_block_seed@, input_block@, round as nat),
        limbs_are_bytes(prev_seed),
        is_schedule_row(*old(row), input_block@, round as int),
        forall|l: int| 0 <= l < 64 ==> #[trigger] old(row).step_flags[l] == 0,
        old(row).first_16_steps == 0,
        old(row).export == 0,
    ensures
        is_block_row_body(*final(row), input_block@, prev_block_seed@, round as int),
        state_words(final(row).seed) == rounds(prev_block_seed@, input_block@, (round + 1) as nat),
        limbs_are_bytes(final(row).seed),
        final(row).round_idx@ == encoder.flag_pt(round as int),
        forall|j: int, l: int| 0 <= j < 8 && 0 <= l < 4 ==> #[trigger] final(row).final_hash[j][l] == 0,
        final(byte_lookup).wf(),
        final(byte_lookup).air == old(byte_lookup).air,
        final(byte_lookup).counts() == apply_requests(
            old(byte_lookup).counts(),
            round_requests(rounds(prev_block_seed@, input_block@, round as nat), schedule_word(input_block@, round as nat), round as int)
                + final_requests(rounds(prev_block_seed@, input_block@, (round + 1) as nat), prev_block_seed@, 8),
        ),
{
    let ghost block = input_block@;
    let ghost h = prev_block_seed@;
    row.prev_seed = prev_seed;
    row.input_block = *input_cells;
    row.buf = *buf_limbs;
    row.prev_block_seed = *prev_limbs;
    proof {
        lemma_word_of_limbs(row.buf[round as int], schedule_word(block, round as nat));
    }
    let ghost c0 = byte_lookup.counts();
    generate_trace_row_for_round(row, encoder, byte_lookup, round);
    let ghost c1 = byte_lookup.counts();
    let ghost st = rounds(h, block, (round + 1) as nat);
    populate_final_sums(&mut row.sum_final, byte_lookup, &row.seed, &row.prev_block_seed, Ghost(st), Ghost(h));
    proof {
        lemma_apply_requests_concat(
            c0,
            round_requests(rounds(h, block, round as nat), schedule_word(block, round as nat), round as int),
            final_requests(st, h, 8),
        );
        assert(row.step_flags@[round as int] == 1);
        assert forall|j: int| 0 <= j < 64 implies #[trigger] row.step_flags[j] == (if j == round as int {
            1u32
        } else {
            0u32
        }) by {
            assert(row.step_flags[j] == row.step_flags@[j]);
        }
        reveal(is_block_row_body);
    }
}

/// Fill the gadgets of the final sums: word `j` of the state after the round
/// plus word `j` of the chaining value.
fn populate_final_sums(
    sum_final: &mut [AddGadget<u32, 2>; 8],
    byte_lookup: &mut ByteLookupChip,
    seed: &[[u32; 4]; 8],
    prev_limbs: &[[u32; 4]; 8],
    st: Ghost<Seq<u32>>,
    h: Ghost<Seq<u32>>,
)
    requires
        old(byte_lookup).wf(),
        state_words(*seed) == st@,
        limbs_are_bytes(*seed),
        h@.len() == 8,
        forall|j: int| 0 <= j < 8 ==> #[trigger] prev_limbs[j]@ == byte_limbs(h@[j]),
    ensures
        forall|j: int| 0 <= j < 8 ==> is_add_of(#[trigger] final(sum_final)[j], seq![st@[j], h@[j]]),
        final(byte_lookup).wf(),
        final(byte_lookup).air == old(byte_lookup).air,
        final(byte_lookup).counts() == apply_requests(old(byte_lookup).counts(), final_requests(st@, h@, 8)),
{
    let ghost c1 = byte_lookup.counts();
    let mut i: usize = 0;
    while i < 8
        invariant
            i <= 8,
            state_words(*seed) == st@,
            limbs_are_bytes(*seed),
            h@.len() == 8,
            forall|j: int| 0 <= j < 8 ==> #[trigger] prev_limbs[j]@ == byte_limbs(h@[j]),
            forall|j: int| 0 <= j < i ==> is_add_of(#[trigger] sum_final[j], seq![st@[j], h@[j]]),
            byte_lookup.wf(),
            byte_lookup.air == old(byte_lookup).air,
            byte_lookup.counts() == apply_requests(c1, final_requests(st@, h@, i as nat)),
        decreases 8 - i,
    {
        proof {
            assert(are_bytes(seed[i as int]@));
            lemma_limbs_word(seed[i as int]);
            crate::utils::lemma_le_bytes_value(h@[i as int]);
        }
        let x = compose(seed[i]);
        let y = compose(prev_limbs[i]);
        let t = [x, y];
        assert(t@ =~= seq![st@[i as int], h@[i as int]]);
        let mut g = sum_final[i];
        g.populate(byte_lookup, t);
        sum_final[i] = g;
        proof {
            lemma_apply_requests_concat(c1, final_requests(st@, h@, i as nat), add_requests(seq![st@[i as int], h@[i as int]]));
        }
        i = i + 1;
    }
}

/// The little-endian byte limbs of each word.
fn words_to_limbs<const M: usize>(words: &[u32; M]) -> (r: [[u32; 4]; M])
    ensures
        forall|j: int| 0 <= j < M ==> #[trigger] r[j]@ == byte_limbs(words[j]),
{
    let mut r = [[0u32; 4]; M];
    let mut i: usize = 0;
    while i < M
        invariant
            i <= M,
            forall|j: int| 0 <= j < i ==> #[trigger] r[j]@ == byte_limbs(words[j]),
        decreases M - i,
    {
        r[i] = u32_to_byte_limbs(words[i]);
        i = i + 1;
    }
    r
}

/// The bytes of a block as cells.
fn bytes_to_cells(input_block: &[u8; 64]) -> (r: [u32; 64])
    ensures
        forall|j: int| 0 <= j < 64 ==> #[trigger] r[j] == input_block@[j] as u32,
{
    let mut r = [0u32; 64];
    let mut i: usize = 0;
    while i < 64
        invariant
            i <= 64,
            forall|j: int| 0 <= j < i ==> #[trigger] r[j] == input_block@[j] as u32,
        decreases 64 - i,
    {
        r[i] = input_block[i] as u32;
        i = i + 1;
    }
    r
}

/// Append to `rows` the 64 rows of the block `input_block` compressed from
/// the chaining value `prev_block_seed`: row `r` holds round `r` with its
/// schedule word, and the last row holds the chaining value after the block.
#[verifier::rlimit(30)]
pub fn generate_trace_rows_for_block(
    rows: &mut Vec<ShaCols<u32>>,
    encoder: &Encoder,
    byte_lookup: &mut ByteLookupChip,
    input_block: [u8; 64],
    prev_block_seed: [u32; 8],
)
    requires
        old(byte_lookup).wf(),
        encoder.wf(),
        encoder.var_cnt == 10,
        encoder.flag_cnt >= 64,
        64 + encoder.offset() <= encoder.points().len(),
    ensures
        final(rows)@.len() == old(rows)@.len() + 64,
        forall|j: int| 0 <= j < old(rows)@.len() ==> #[trigger] final(rows)@[j] == old(rows)@[j],
        forall|r: int|
            0 <= r < 64 ==> is_block_row(
                #[trigger] final(rows)@[old(rows)@.len() + r],
                encoder.flag_pt(r),
                input_block@,
                prev_block_seed@,
                r,
            ),
        final(byte_lookup).wf(),
        final(byte_lookup).air == old(byte_lookup).air,
        final(byte_lookup).counts() == apply_requests(old(byte_lookup).counts(), block_requests(input_block@, prev_block_seed@)),
{
    let ghost block = input_block@;
    let ghost h = prev_block_seed@;
    let ghost n0 = rows@.len();
    let ghost c0 = byte_lookup.counts();
    let (sched_rows, buf) = generate_schedule_rows(byte_lookup, input_block);
    let ghost c1 = byte_lookup.counts();
    let buf_limbs = words_to_limbs(&buf);
    let input_cells = bytes_to_cells(&input_block);
    let prev_limbs = words_to_limbs(&prev_block_seed);
    let mut prev_seed = prev_limbs;
    proof {
        assert forall|j: int| 0 <= j < 64 implies #[trigger] buf_limbs[j]@ == byte_limbs(schedule_word(block, j as nat)) by {
            assert(buf[j] == schedule_word(block, j as nat));
        }
        assert forall|j: int| 0 <= j < 8 implies are_bytes(#[trigger] prev_seed[j]@) by {
            crate::utils::lemma_le_bytes_value(h[j]);
        }
        assert(state_words(prev_seed) =~= h) by {
            assert forall|j: int| 0 <= j < 8 implies state_words(prev_seed)[j] == h[j] by {
                lemma_word_of_limbs(prev_seed[j], h[j]);
            }
        }
        reveal(is_block_inputs);
    }
    let mut round: usize = 0;
    while round < 64
        invariant
            round <= 64,
            block == input_block@,
            h == prev_block_seed@,
            is_schedule_rows(sched_rows@, block),
            is_block_inputs(input_cells, buf_limbs, prev_limbs, block, h),
            state_words(prev_seed) == rounds(h, block, round as nat),
            limbs_are_bytes(prev_seed),
            encoder.wf(),
            encoder.var_cnt == 10,
            encoder.flag_cnt >= 64,
            64 + encoder.offset() <= encoder.points().len(),
            rows@.len() == n0 + round,
            forall|j: int| 0 <= j < n0 ==> #[trigger] rows@[j] == old(rows)@[j],
            forall|r: int|
                0 <= r < round ==> is_block_row(#[trigger] rows@[n0 + r], encoder.flag_pt(r), block, h, r),
            byte_lookup.wf(),
            byte_lookup.air == old(byte_lookup).air,
            byte_lookup.counts() == apply_requests(c1, block_round_requests(block, h, round as nat)),
        decreases 64 - round,
    {
        let row = block_row(
            &sched_rows,
            encoder,
            byte_lookup,
            &input_block,
            &input_cells,
            &buf_limbs,
            &prev_block_seed,
            &prev_limbs,
            prev_seed,
            round,
        );
        prev_seed = row.seed;
        proof {
            lemma_apply_requests_concat(
                c1,
                block_round_requests(block, h, round as nat),
                round_requests(rounds(h, block, round as nat), schedule_word(block, round as nat), round as int)
                    + final_requests(rounds(h, block, (round + 1) as nat), h, 8),
            );
            assert(block_round_requests(block, h, (round + 1) as nat) =~= block_round_requests(block, h, round as nat)
                + (round_requests(rounds(h, block, round as nat), schedule_word(block, round as nat), round as int)
                + final_requests(rounds(h, block, (round + 1) as nat), h, 8)));
        }
        let ghost filled = row;
        rows.push(row);
        proof {
            assert(rows@[n0 + round] == filled);
            assert forall|r: int| 0 <= r < round + 1 implies is_block_row(#[trigger] rows@[n0 + r], encoder.flag_pt(r), block, h, r) by {
                if r == round {
                    assert(rows@[n0 + r] == filled);
                }
            }
        }
        round = round + 1;
    }
    proof {
        reveal(block_requests);
        lemma_apply_requests_concat(c0, schedule_requests(block, 64), block_round_requests(block, h, 64));
    }
}

/// The least power of two that is at least `n`, searched from `p` upward.
pub open spec fn pow2_from(n: nat, p: nat) -> nat
    decreases 2 * n - p,
{
    if p == 0 || p >= n {
        p
    } else {
        pow2_from(n, 2 * p)
    }
}

/// The least power of two that is at least `n` (one for zero).
pub open spec fn next_pow2(n: nat) -> nat {
    pow2_from(n, 1)
}

/// The block of 64 zero bytes.
pub open spec fn zero_block() -> Seq<u8> {
    Seq::new(64, |j: int| 0u8)
}

/// The blocks of a trace of `m` blocks: the inputs, then zero blocks.
pub open spec fn padded_blocks(inputs: Seq<[u8; 64]>, m: nat) -> Seq<Seq<u8>> {
    Seq::new(m, |i: int| if i < inputs.len() {
        inputs[i]@
    } else {
        zero_block()
    })
}

/// The chaining value before block `i` of a sequence of blocks.
pub open spec fn chain_hash(blocks: Seq<Seq<u8>>, i: nat) -> Seq<u32>
    decreases i,
{
    if i == 0 {
        initial_hash()
    } else {
        compress(chain_hash(blocks, (i - 1) as nat), blocks[i - 1])
    }
}

/// The requests that filling the rows of the first `i` blocks makes.
pub open spec fn trace_requests(blocks: Seq<Seq<u8>>, i: nat) -> Seq<ByteRequest>
    decreases i,
{
    if i == 0 {
        Seq::empty()
    } else {
        trace_requests(blocks, (i - 1) as nat) + block_requests(blocks[i - 1], chain_hash(blocks, (i - 1) as nat))
    }
}

/// `rows` is the trace of `blocks`: 64 rows per block, row `r` of block `i`
/// holding round `r` of the compression of block `i` from the chaining value
/// of the blocks before it.
pub open spec fn is_trace(rows: Seq<ShaCols<u32>>, encoder: Encoder, blocks: Seq<Seq<u8>>) -> bool {
    &&& rows.len() == 64 * blocks.len()
    &&& forall|i: int, r: int|
        0 <= i < blocks.len() && 0 <= r < 64 ==> is_block_row(
            #[trigger] rows[64 * i + r],
            encoder.flag_pt(r),
            blocks[i],
            chain_hash(blocks, i as nat),
            r,
        )
}

/// The encoder holds a point for each of the 64 rounds, of 10 coordinates.
pub open spec fn is_round_encoder(encoder: Encoder) -> bool {
    &&& encoder.wf()
    &&& encoder.var_cnt == 10
    &&& encoder.flag_cnt >= 64
    &&& 64 + encoder.offset() <= encoder.points().len()
}

/// Doubling from a positive `p` reaches at least `n`.
proof fn lemma_pow2_from_ge(n: nat, p: nat)
    requires
        p >= 1,
    ensures
        pow2_from(n, p) >= n,
        pow2_from(n, p) >= p,
    decreases 2 * n - p,
{
    if p < n {
        lemma_pow2_from_ge(n, 2 * p);
    }
}

/// The least power of two at least `n` is at least `n` and at least one.
pub proof fn lemma_next_pow2_ge(n: nat)
    ensures
        next_pow2(n) >= n,
        next_pow2(n) >= 1,
{
    lemma_pow2_from_ge(n, 1);
}

/// The power of two reached from `p` by doubling is the one reached from 1.
proof fn lemma_pow2_from_step(n: nat, p: nat)
    requires
        p >= 1,
        p < n,
    ensures
        pow2_from(n, p) == pow2_from(n, 2 * p),
{
}

/// The trace of `inputs`, padded with zero blocks up to a power of two
/// blocks: `64 * next_pow2(inputs.len())` rows, block after block, each
/// block compressed from the chaining value that the one before it left.
#[verifier::rlimit(40)]
pub fn generate_trace_rows(inputs: Vec<[u8; 64]>, encoder: &Encoder, byte_lookup: &mut ByteLookupChip) -> (r: Vec<ShaCols<u32>>)
    requires
        old(byte_lookup).wf(),
        is_round_encoder(*encoder),
        1 <= inputs@.len() <= usize::MAX / 128,
    ensures
        is_trace(r@, *encoder, padded_blocks(inputs@, next_pow2(inputs@.len() as nat))),
        final(byte_lookup).wf(),
        final(byte_lookup).air == old(byte_lookup).air,
        final(byte_lookup).counts() == apply_requests(
            old(byte_lookup).counts(),
            trace_requests(padded_blocks(inputs@, next_pow2(inputs@.len() as nat)), next_pow2(inputs@.len() as nat)),
        ),
{
    let n = inputs.len();
    let mut num_blocks: usize = 1;
    while num_blocks < n
        invariant
            1 <= num_blocks,
            num_blocks < 2 * n,
            n <= usize::MAX / 128,
            pow2_from(n as nat, num_blocks as nat) == next_pow2(n as nat),
        decreases 2 * n - num_blocks,
    {
        proof {
            lemma_pow2_from_step(n as nat, num_blocks as nat);
        }
        num_blocks = num_blocks * 2;
    }
    let ghost blocks = padded_blocks(inputs@, num_blocks as nat);
    let ghost c0 = byte_lookup.counts();
    let mut rows: Vec<ShaCols<u32>> = Vec::new();
    let mut prev_block_seed = crate::constants::SHA256_H;
    let mut i: usize = 0;
    while i < num_blocks
        invariant
            i <= num_blocks,
            num_blocks == next_pow2(n as nat),
            num_blocks < 2 * n,
            n <= usize::MAX / 128,
            n == inputs@.len(),
            blocks == padded_blocks(inputs@, num_blocks as nat),
            prev_block_seed@ == chain_hash(blocks, i as nat),
            is_round_encoder(*encoder),
            rows@.len() == 64 * i,
            forall|b: int, r: int|
                0 <= b < i && 0 <= r < 64 ==> is_block_row(
                    #[trigger] rows@[64 * b + r],
                    encoder.flag_pt(r),
                    blocks[b],
                    chain_hash(blocks, b as nat),
                    r,
                ),
            byte_lookup.wf(),
            byte_lookup.air == old(byte_lookup).air,
            byte_lookup.counts() == apply_requests(c0, trace_requests(blocks, i as nat)),
        decreases num_blocks - i,
    {
        let input = if i < n {
            inputs[i]
        } else {
            [0u8; 64]
        };
        assert(input@ =~= blocks[i as int]);
        let ghost before = rows@;
        generate_trace_rows_for_block(&mut rows, encoder, byte_lookup, input, prev_block_seed);
        proof {
            lemma_trace_extend(before, rows@, *encoder, blocks, i as nat);
            lemma_apply_requests_concat(c0, trace_requests(blocks, i as nat), block_requests(blocks[i as int], chain_hash(blocks, i as nat)));
        }
        let last = rows.len() - 1;
        assert(last as int == 64 * (i as nat) as int + 63);
        let next = final_hash_words(&rows[last], Ghost(chain_hash(blocks, (i + 1) as nat)));
        prev_block_seed = next;
        i = i + 1;
    }
    rows
}

/// The rows of one more block extend a trace of the blocks before it.
proof fn lemma_trace_extend(before: Seq<ShaCols<u32>>, rows: Seq<ShaCols<u32>>, encoder: Encoder, blocks: Seq<Seq<u8>>, i: nat)
    requires
        i < blocks.len(),
        before.len() == 64 * i,
        rows.len() == before.len() + 64,
        forall|j: int| 0 <= j < before.len() ==> #[trigger] rows[j] == before[j],
        forall|b: int, r: int|
            0 <= b < i && 0 <= r < 64 ==> is_block_row(
                #[trigger] before[64 * b + r],
                encoder.flag_pt(r),
                blocks[b],
                chain_hash(blocks, b as nat),
                r,
            ),
        forall|r: int|
            0 <= r < 64 ==> is_block_row(
                #[trigger] rows[before.len() + r],
                encoder.flag_pt(r),
                blocks[i as int],
                chain_hash(blocks, i),
                r,
            ),
    ensures
        forall|b: int, r: int|
            0 <= b < i + 1 && 0 <= r < 64 ==> is_block_row(
                #[trigger] rows[64 * b + r],
                encoder.flag_pt(r),
                blocks[b],
                chain_hash(blocks, b as nat),
                r,
            ),
        forall|j: int, l: int|
            0 <= j < 8 && 0 <= l < 4 ==> #[trigger] rows[64 * i as int + 63].final_hash[j][l] == byte_limbs(
                chain_hash(blocks, i + 1)[j],
            )[l],
{
    assert forall|b: int, r: int|
        0 <= b < i + 1 && 0 <= r < 64 implies is_block_row(
            #[trigger] rows[64 * b + r],
            encoder.flag_pt(r),
            blocks[b],
            chain_hash(blocks, b as nat),
            r,
        ) by {
        if b < i {
            assert(rows[64 * b + r] == before[64 * b + r]);
        } else {
            assert(rows[64 * b + r] == rows[before.len() + r]);
        }
    }
    reveal(is_block_row);
    assert(is_block_row(rows[before.len() as int + 63], encoder.flag_pt(63), blocks[i as int], chain_hash(blocks, i), 63));
}

/// The words whose byte limbs the final hash of a row holds.
fn final_hash_words(row: &ShaCols<u32>, hw: Ghost<Seq<u32>>) -> (r: [u32; 8])
    requires
        hw@.len() == 8,
        forall|j: int, l: int| 0 <= j < 8 && 0 <= l < 4 ==> #[trigger] row.final_hash[j][l] == byte_limbs(hw@[j])[l],
    ensures
        r@ == hw@,
{
    let mut next = [0u32; 8];
    let mut j: usize = 0;
    while j < 8
        invariant
            j <= 8,
            hw@.len() == 8,
            forall|j: int, l: int| 0 <= j < 8 && 0 <= l < 4 ==> #[trigger] row.final_hash[j][l] == byte_limbs(hw@[j])[l],
            forall|t: int| 0 <= t < j ==> #[trigger] next[t] == hw@[t],
        decreases 8 - j,
    {
        proof {
            crate::utils::lemma_le_bytes_value(hw@[j as int]);
            assert(row.final_hash[j as int]@ =~= byte_limbs(hw@[j as int]));
        }
        next[j] = compose(row.final_hash[j]);
        j = j + 1;
    }
    assert(next@ =~= hw@);
    next
}

/// The bytes of a sequence of 64-byte blocks, one after the other.
pub open spec fn concat_blocks(blocks: Seq<Seq<u8>>) -> Seq<u8> {
    Seq::new(64 * blocks.len(), |k: int| blocks[k / 64][k % 64])
}

/// Block `i` of the concatenation is block `i` of the sequence.
proof fn lemma_concat_blocks_block(blocks: Seq<Seq<u8>>, i: int)
    requires
        0 <= i < blocks.len(),
        blocks[i].len() == 64,
    ensures
        concat_blocks(blocks).subrange(64 * i, 64 * i + 64) == blocks[i],
{
    let c = concat_blocks(blocks);
    assert forall|j: int| 0 <= j < 64 implies #[trigger] c.subrange(64 * i, 64 * i + 64)[j] == blocks[i][j] by {
        assert(64 * i + j < 64 * blocks.len()) by (nonlinear_arith)
            requires
                0 <= j < 64,
                0 <= i < blocks.len(),
        ;
        vstd::arithmetic::div_mod::lemma_fundamental_div_mod_converse(64 * i + j, 64, i, j);
    }
    assert(c.subrange(64 * i, 64 * i + 64) =~= blocks[i]);
}

/// The chaining values of a sequence of 64-byte blocks are those of SHA-256
/// on their concatenation: the trace of the blocks computes the hash of
/// their bytes.
pub proof fn lemma_chain_hash_blocks(blocks: Seq<Seq<u8>>, i: nat)
    requires
        i <= blocks.len(),
        forall|b: int| 0 <= b < blocks.len() ==> (#[trigger] blocks[b]).len() == 64,
    ensures
        chain_hash(blocks, i) == hash_blocks(initial_hash(), concat_blocks(blocks), i),
    decreases i,
{
    if i > 0 {
        lemma_chain_hash_blocks(blocks, (i - 1) as nat);
        lemma_concat_blocks_block(blocks, i - 1);
        assert(64 * (i - 1) + 64 == 64 * i);
    }
}

/// On the last row of a block, the final hash takes the final sums: the
/// chaining value after the block.
fn set_final_hash(row: &mut ShaCols<u32>, block: Ghost<Seq<u8>>, h: Ghost<Seq<u32>>)
    requires
        h@.len() == 8,
        is_block_row_body(*old(row), block@, h@, 63),
    ensures
        is_block_row_body(*final(row), block@, h@, 63),
        *final(row) == (ShaCols { final_hash: final(row).final_hash, ..*old(row) }),
        forall|j: int, l: int| 0 <= j < 8 && 0 <= l < 4 ==> #[trigger] final(row).final_hash[j][l] == byte_limbs(compress(h@, block@)[j])[l],
{
    reveal(is_block_row_body);
    let mut i: usize = 0;
    while i < 8
        invariant
            i <= 8,
            h@.len() == 8,
            *row == (ShaCols { final_hash: row.final_hash, ..*old(row) }),
            forall|j: int| 0 <= j < 8 ==> is_add_of(#[trigger] row.sum_final[j], seq![rounds(h@, block@, 64)[j], h@[j]]),
            forall|j: int, l: int| 0 <= j < i && 0 <= l < 4 ==> #[trigger] row.final_hash[j][l] == byte_limbs(compress(h@, block@)[j])[l],
        decreases 8 - i,
    {
        proof {
            let st = rounds(h@, block@, 64);
            lemma_sum_words_small(st[i as int], h@[i as int], 0, 0, 0);
            assert(wrapping_sum(seq![st[i as int], h@[i as int]]) == compress(h@, block@)[i as int]);
        }
        row.final_hash[i] = row.sum_final[i].value;
        i = i + 1;
    }
}

/// The complete row of round `round` of a block, from the row that holds
/// its schedule gadgets: the round, the final sums and, on the last row, the
/// final hash.
fn block_row(
    sched_rows: &Vec<ShaCols<u32>>,
    encoder: &Encoder,
    byte_lookup: &mut ByteLookupChip,
    input_block: &[u8; 64],
    input_cells: &[u32; 64],
    buf_limbs: &[[u32; 4]; 64],
    prev_block_seed: &[u32; 8],
    prev_limbs: &[[u32; 4]; 8],
    prev_seed: [[u32; 4]; 8],
    round: usize,
) -> (r: ShaCols<u32>)
    requires
        old(byte_lookup).wf(),
        round < 64,
        encoder.wf(),
        encoder.var_cnt == 10,
        round < encoder.flag_cnt,
        round + encoder.offset() < encoder.points().len(),
        is_block_inputs(*input_cells, *buf_limbs, *prev_limbs, input_block@, prev_block_seed@),
        state_words(prev_seed) == rounds(prev_block_seed@, input_block@, round as nat),
        limbs_are_bytes(prev_seed),
        is_schedule_rows(sched_rows@, input_block@),
    ensures
        is_block_row(r, encoder.flag_pt(round as int), input_block@, prev_block_seed@, round as int),
        state_words(r.seed) == rounds(prev_block_seed@, input_block@, (round + 1) as nat),
        limbs_are_bytes(r.seed),
        final(byte_lookup).wf(),
        final(byte_lookup).air == old(byte_lookup).air,
        final(byte_lookup).counts() == apply_requests(
            old(byte_lookup).counts(),
            round_requests(rounds(prev_block_seed@, input_block@, round as nat), schedule_word(input_block@, round as nat), round as int)
                + final_requests(rounds(prev_block_seed@, input_block@, (round + 1) as nat), prev_block_seed@, 8),
        ),
{
    proof {
        reveal(is_block_inputs);
        reveal(is_schedule_rows);
        assert(is_schedule_row(sched_rows@[round as int], input_block@, round as int));
    }
    let mut row = sched_rows[round];
    fill_round_row(
        &mut row,
        encoder,
        byte_lookup,
        input_block,
        input_cells,
        buf_limbs,
        prev_block_seed,
        prev_limbs,
        prev_seed,
        round,
    );
    if round == 63 {
        set_final_hash(&mut row, Ghost(input_block@), Ghost(prev_block_seed@));
    }
    proof {
        reveal(is_block_row);
    }
    row
}

/// Every chaining value has eight words.
pub proof fn lemma_chain_hash_len(blocks: Seq<Seq<u8>>, i: nat)
    ensures
        chain_hash(blocks, i).len() == 8,
    decreases i,
{
    if i > 0 {
        lemma_chain_hash_len(blocks, (i - 1) as nat);
    }
}

} // verus!
