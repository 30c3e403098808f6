//! The trace that the AIR generates meets its constraints on every pair of
//! consecutive rows.
use vstd::prelude::*;

use crate::air::constraints::{
    fz, is_round_index_encoder, k_input, k_pairs, round_flag_constraints, round_gadget_constraints,
    sched_input, sched_pairs, sched_sum_limbs, schedule_gadget_constraints, schedule_link_constraints,
    seed_links, state_link_constraints, t1_limbs, w_input, w_pairs, final_constraints, final_word_constraints,
    sha_constraints,
};
use crate::air::ShaAir;
use crate::bits_air::big_sig_air::lemma_big_sigma_complete;
use crate::air::BUS_INDEX;
use crate::bits_air::small_sig_air::{is_small_sigma_of, lemma_small_sigma_complete};
use crate::columns::ShaCols;
use crate::builder::{fe, lemma_fe_small};
use crate::encoder::flags::{
    encoder_constraints, has_small_inverses, lemma_encoder_complete, lemma_flag_combination_at_flag,
    lemma_flag_selected_run, pairs_in_range, vals_in_field,
};
use crate::encoder::Encoder;
use crate::gadgets::add::{
    carry_in, carry_out, is_add_of, lemma_add_complete, limb_col_sum, words_limbs, wrapping_sum,
};
use crate::generation::{
    chain_hash, is_block_row, is_block_row_body, is_round_row, is_schedule_row, is_trace,
    lemma_sum_words_small, limbs_are_bytes, sched_sig0_input, sched_sig1_input, sched_sum_inputs, state_words,
    t1_inputs, t2_inputs, word_of,
};
use crate::constants::{SHA256_H, SHA256_K};
use crate::sha_spec::{
    be_word, compress, rotr, round_step, round_t1, round_t2, rounds, schedule_word, small_sigma0,
    small_sigma1, initial_hash,
};
use crate::utils::{
    are_bytes, byte_limbs, le_bytes, lemma_le_value_bytes, lemma_limbs_value_bytes, limbs_value,
};

verus! {

/// Limbs that hold bytes are the byte limbs of the words they hold.
proof fn lemma_state_limbs(s: [[u32; 4]; 8], w: Seq<u32>)
    requires
        state_words(s) == w,
        limbs_are_bytes(s),
    ensures
        forall|i: int| 0 <= i < 8 ==> (#[trigger] s[i])@ == byte_limbs(w[i]),
{
    assert forall|i: int| 0 <= i < 8 implies (#[trigger] s[i])@ == byte_limbs(w[i]) by {
        assert(are_bytes(s[i]@));
        assert(state_words(s)[i] == word_of(s[i]));
        crate::generation::lemma_limbs_word(s[i]);
        lemma_limbs_value_bytes(s[i]@, word_of(s[i]));
    }
}

/// What a row of round `r` of a block holds, column by column.
pub(crate) proof fn lemma_block_row_facts(row: ShaCols<u32>, pt: Seq<u32>, block: Seq<u8>, h: Seq<u32>, r: int)
    requires
        is_block_row(row, pt, block, h, r),
    ensures
        forall|j: int| 0 <= j < 64 ==> #[trigger] row.step_flags[j] == (if j == r {
            1u32
        } else {
            0u32
        }),
        row.first_16_steps == (if r < 16 {
            1u32
        } else {
            0u32
        }),
        row.export == 0,
        row.round_idx@ == pt,
        forall|j: int| 0 <= j < 64 ==> #[trigger] row.input_block[j] == block[j] as u32,
        forall|j: int| 0 <= j < 64 ==> #[trigger] row.buf[j]@ == byte_limbs(schedule_word(block, j as nat)),
        forall|j: int| 0 <= j < 8 ==> #[trigger] row.prev_block_seed[j]@ == byte_limbs(h[j]),
        forall|j: int| 0 <= j < 8 ==> #[trigger] row.prev_seed[j]@ == byte_limbs(rounds(h, block, r as nat)[j]),
        forall|j: int| 0 <= j < 8 ==> #[trigger] row.seed[j]@ == byte_limbs(rounds(h, block, (r + 1) as nat)[j]),
        is_schedule_row(row, block, r),
        is_round_row(row, rounds(h, block, r as nat), schedule_word(block, r as nat), r),
        forall|j: int| 0 <= j < 8 ==> is_add_of(#[trigger] row.sum_final[j], seq![rounds(h, block, (r + 1) as nat)[j], h[j]]),
        forall|j: int, l: int| 0 <= j < 8 && 0 <= l < 4 ==> #[trigger] row.final_hash[j][l] == (if r == 63 {
            byte_limbs(compress(h, block)[j])[l]
        } else {
            0u32
        }),
{
    reveal(is_block_row);
    reveal(is_block_row_body);
    lemma_state_limbs(row.prev_seed, rounds(h, block, r as nat));
    lemma_state_limbs(row.seed, rounds(h, block, (r + 1) as nat));
}

/// The step flags of a row of round `r`.
proof fn lemma_row_flags(row: ShaCols<u32>, pt: Seq<u32>, block: Seq<u8>, h: Seq<u32>, r: int)
    requires
        is_block_row(row, pt, block, h, r),
    ensures
        forall|j: int| 0 <= j < 64 ==> #[trigger] row.step_flags[j] == (if j == r {
            1u32
        } else {
            0u32
        }),
{
    reveal(is_block_row);
    reveal(is_block_row_body);
}

/// The states before and after the round of a row of round `r`.
pub(crate) proof fn lemma_row_states(row: ShaCols<u32>, pt: Seq<u32>, block: Seq<u8>, h: Seq<u32>, r: int)
    requires
        is_block_row(row, pt, block, h, r),
    ensures
        forall|j: int| 0 <= j < 8 ==> #[trigger] row.prev_seed[j]@ == byte_limbs(rounds(h, block, r as nat)[j]),
        forall|j: int| 0 <= j < 8 ==> #[trigger] row.seed[j]@ == byte_limbs(rounds(h, block, (r + 1) as nat)[j]),
{
    reveal(is_block_row);
    reveal(is_block_row_body);
    lemma_state_limbs(row.prev_seed, rounds(h, block, r as nat));
    lemma_state_limbs(row.seed, rounds(h, block, (r + 1) as nat));
}

/// The round index, the schedule words and the schedule gadgets of a row of round `r`.
pub(crate) proof fn lemma_row_schedule(row: ShaCols<u32>, pt: Seq<u32>, block: Seq<u8>, h: Seq<u32>, r: int)
    requires
        is_block_row(row, pt, block, h, r),
    ensures
        row.round_idx@ == pt,
        forall|j: int| 0 <= j < 64 ==> #[trigger] row.buf[j]@ == byte_limbs(schedule_word(block, j as nat)),
        is_schedule_row(row, block, r),
{
    reveal(is_block_row);
    reveal(is_block_row_body);
}

/// The round gadgets and the states of a row of round `r`.
pub(crate) proof fn lemma_row_round(row: ShaCols<u32>, pt: Seq<u32>, block: Seq<u8>, h: Seq<u32>, r: int)
    requires
        is_block_row(row, pt, block, h, r),
    ensures
        is_round_row(row, rounds(h, block, r as nat), schedule_word(block, r as nat), r),
        forall|j: int| 0 <= j < 8 ==> #[trigger] row.prev_block_seed[j]@ == byte_limbs(h[j]),
        forall|j: int| 0 <= j < 8 ==> is_add_of(#[trigger] row.sum_final[j], seq![rounds(h, block, (r + 1) as nat)[j], h[j]]),
{
    reveal(is_block_row);
    reveal(is_block_row_body);
}

/// The step flags rotate from each row to the next and start at round 0.
proof fn lemma_round_flags_hold(
    p: u32,
    local: ShaCols<u32>,
    next: ShaCols<u32>,
    r: int,
    is_first_row: bool,
    is_transition: bool,
)
    requires
        p >= 2,
        0 <= r < 64,
        forall|j: int| 0 <= j < 64 ==> #[trigger] local.step_flags[j] == (if j == r {
            1u32
        } else {
            0u32
        }),
        is_transition ==> forall|j: int| 0 <= j < 64 ==> #[trigger] next.step_flags[j] == (if j == (r + 1) % 64 {
            1u32
        } else {
            0u32
        }),
        is_first_row ==> r == 0,
    ensures
        round_flag_constraints(p, local, next, is_first_row, is_transition),
{
    vstd::arithmetic::div_mod::lemma_small_mod(0, p as nat);
    vstd::arithmetic::div_mod::lemma_small_mod(1, p as nat);
    if is_transition {
        assert forall|i: int| 0 <= i < 64 implies #[trigger] fz(local.step_flags[i] - next.step_flags[(i + 1) % 64], p) by {
            let t = (i + 1) % 64;
            assert(next.step_flags[t] == (if t == (r + 1) % 64 {
                1u32
            } else {
                0u32
            }));
            assert((t == (r + 1) % 64) == (i == r));
        }
    }
}

/// Off the last round the state flows to the next row, the final hash and
/// export flag are zero, and the round index is a round's point.
proof fn lemma_state_links_hold(
    enc: Encoder,
    p: u32,
    local: ShaCols<u32>,
    next: ShaCols<u32>,
    block: Seq<u8>,
    h: Seq<u32>,
    r: int,
    is_transition: bool,
)
    requires
        enc.wf(),
        enc.flag_cnt == 64,
        64 + enc.offset() <= enc.points().len(),
        has_small_inverses(p),
        0 <= r < 64,
        is_block_row(local, enc.flag_pt(r), block, h, r),
        is_transition && r < 63 ==> forall|j: int| 0 <= j < 8 ==> #[trigger] next.prev_seed[j]@ == local.seed[j]@,
    ensures
        state_link_constraints(p, local, next, is_transition, encoder_constraints(enc, local.round_idx@, p)),
{
    lemma_block_row_facts(local, enc.flag_pt(r), block, h, r);
    vstd::arithmetic::div_mod::lemma_small_mod(0, p as nat);
    let nf = 1 - local.step_flags[63];
    assert forall|i: int, j: int| 0 <= i < 8 && 0 <= j < 4 implies (is_transition ==> #[trigger] fz(
        nf * (local.seed[i][j] - next.prev_seed[i][j]),
        p,
    )) by {
        if is_transition {
            if r < 63 {
                assert(next.prev_seed[i]@ == local.seed[i]@);
                assert(next.prev_seed[i][j] == next.prev_seed[i]@[j] && local.seed[i][j] == local.seed[i]@[j]);
                assert(nf * 0 == 0);
            } else {
                assert(nf == 0);
                assert(0 * (local.seed[i][j] - next.prev_seed[i][j]) == 0);
            }
        }
    }
    assert forall|i: int, j: int| 0 <= i < 8 && 0 <= j < 4 implies #[trigger] fz(nf * local.final_hash[i][j], p) by {
        if r == 63 {
            assert(nf == 0);
            assert(0 * local.final_hash[i][j] == 0);
        } else {
            assert(local.final_hash[i][j] == 0);
            assert(nf * 0 == 0);
        }
    }
    assert(local.export * (local.export - 1) == 0);
    assert(nf * local.export == 0);
    lemma_encoder_complete(enc, r, p);
}

/// The little-endian bytes of a big-endian word of a block are its bytes in
/// reverse order.
proof fn lemma_be_word_limbs(block: Seq<u8>, i: int)
    requires
        0 <= i < 16,
        block.len() == 64,
    ensures
        forall|j: int| 0 <= j < 4 ==> #[trigger] byte_limbs(be_word(block, i))[3 - j] == block[4 * i + j] as u32,
{
    let (b0, b1, b2, b3) = (block[4 * i], block[4 * i + 1], block[4 * i + 2], block[4 * i + 3]);
    let x = be_word(block, i);
    assert(x as int == b3 + 0x100 * b2 + 0x1_0000 * b1 + 0x100_0000 * b0);
    lemma_le_value_bytes(b3, b2, b1, b0, x);
    assert forall|j: int| 0 <= j < 4 implies #[trigger] byte_limbs(be_word(block, i))[3 - j] == block[4 * i + j] as u32 by {
        assert(le_bytes(x)[3 - j] == block[4 * i + j]);
    }
}

/// A schedule word past the first 16 is the wrapping sum of its summands.
proof fn lemma_sched_sum_word(block: Seq<u8>, r: int)
    requires
        16 <= r < 64,
    ensures
        wrapping_sum(sched_sum_inputs(block, r)) == schedule_word(block, r as nat),
{
    let s = sched_sum_inputs(block, r);
    lemma_sum_words_small(s[0], s[1], s[2], s[3], 0);
    assert(s =~= seq![s[0], s[1], s[2], s[3]]);
}

/// The schedule words hold the block on the first 16 rounds and the sum of
/// the schedule gadget on the round of each later row.
proof fn lemma_schedule_links_hold(p: u32, local: ShaCols<u32>, pt: Seq<u32>, block: Seq<u8>, h: Seq<u32>, r: int)
    requires
        p >= 2,
        0 <= r < 64,
        block.len() == 64,
        is_block_row(local, pt, block, h, r),
    ensures
        schedule_link_constraints(p, local),
{
    lemma_block_row_facts(local, pt, block, h, r);
    vstd::arithmetic::div_mod::lemma_small_mod(0, p as nat);
    let f = local.first_16_steps as int;
    assert forall|i: int, j: int| 0 <= i < 16 && 0 <= j < 4 implies #[trigger] fz(
        f * (local.buf[i][3 - j] - local.input_block[4 * i + j]),
        p,
    ) by {
        if r < 16 {
            lemma_be_word_limbs(block, i);
            assert(local.buf[i]@ == byte_limbs(schedule_word(block, i as nat)));
            assert(local.buf[i][3 - j] == local.buf[i]@[3 - j]);
            assert(local.buf[i][3 - j] - local.input_block[4 * i + j] == 0);
            assert(f * 0 == 0);
        } else {
            assert(0 * (local.buf[i][3 - j] - local.input_block[4 * i + j]) == 0);
        }
    }
    assert forall|i: int, j: int| 16 <= i < 64 && 0 <= j < 4 implies #[trigger] fz(
        ((1 - f) * local.step_flags[i]) * (local.buf[i][j] - local.sum_small_sig.value[j]),
        p,
    ) by {
        if r < 16 || i != r {
            assert((1 - f) * local.step_flags[i] == 0);
            assert(0 * (local.buf[i][j] - local.sum_small_sig.value[j]) == 0);
        } else {
            lemma_sched_sum_word(block, r);
            assert(local.sum_small_sig.value@ == byte_limbs(wrapping_sum(sched_sum_inputs(block, r))));
            assert(local.buf[i][j] == local.buf[i]@[j]);
            assert(local.sum_small_sig.value[j] == local.sum_small_sig.value@[j]);
            assert(((1 - f) * local.step_flags[i]) * 0 == 0);
        }
    }
}

/// The byte limbs of zero.
pub(crate) proof fn lemma_zero_limbs()
    ensures
        byte_limbs(0) == seq![0u32, 0, 0, 0],
{
    crate::utils::lemma_le_bytes_value(0);
    assert(byte_limbs(0) =~= seq![0u32, 0, 0, 0]);
}

/// `σ0` and `σ1` of zero are zero.
pub(crate) proof fn lemma_small_sigmas_zero()
    ensures
        small_sigma0(0) == 0,
        small_sigma1(0) == 0,
        rotr(0, 7) ^ rotr(0, 18) ^ (0u32 >> 3u32) == 0,
        rotr(0, 17) ^ rotr(0, 19) ^ (0u32 >> 10u32) == 0,
{
    assert(((0u32 >> 7u32) | (0u32 << 25u32)) ^ ((0u32 >> 18u32) | (0u32 << 14u32)) ^ (0u32 >> 3u32) == 0u32) by (bit_vector);
    assert(((0u32 >> 17u32) | (0u32 << 15u32)) ^ ((0u32 >> 19u32) | (0u32 << 13u32)) ^ (0u32 >> 10u32) == 0u32) by (bit_vector);
}

/// The schedule word `back` rounds before the row's round, as the round
/// index selects it: zero on the first 16 rounds.
pub(crate) proof fn lemma_sched_input(enc: Encoder, p: u32, local: ShaCols<u32>, block: Seq<u8>, r: int, back: int)
    requires
        is_round_index_encoder(enc),
        has_small_inverses(p),
        p >= 256,
        0 <= r < 64,
        2 <= back <= 16,
        local.round_idx@ == enc.flag_pt(r),
        forall|j: int| 0 <= j < 64 ==> #[trigger] local.buf[j]@ == byte_limbs(schedule_word(block, j as nat)),
    ensures
        sched_input(enc, p, local, back) == byte_limbs(
            if r >= 16 {
                schedule_word(block, (r - back) as nat)
            } else {
                0
            },
        ),
{
    let w = if r >= 16 {
        schedule_word(block, (r - back) as nat)
    } else {
        0
    };
    crate::utils::lemma_le_bytes_value(w);
    lemma_zero_limbs();
    assert forall|j: int| 0 <= j < 4 implies #[trigger] sched_input(enc, p, local, back)[j] == byte_limbs(w)[j] by {
        let pairs = sched_pairs(local, back, j);
        assert(pairs_in_range(enc, pairs));
        lemma_flag_combination_at_flag(enc, r, pairs, p);
        assert forall|k: int| 0 <= k < pairs.len() implies #[trigger] pairs[k].0 == 16 + k by {}
        lemma_flag_selected_run(pairs, r, 16, p);
        if r >= 16 {
            assert(pairs[r - 16].1 == local.buf[r - back][j]);
            assert(local.buf[r - back]@ == byte_limbs(schedule_word(block, (r - back) as nat)));
            assert(local.buf[r - back][j] == local.buf[r - back]@[j]);
            crate::builder::lemma_fe_small(local.buf[r - back][j] as int, p);
        }
    }
    assert(sched_input(enc, p, local, back) =~= byte_limbs(w));
}

/// Sums of limb columns that agree give the same carries.
proof fn lemma_carries_agree(a: Seq<Seq<u32>>, b: Seq<Seq<u32>>, i: nat)
    requires
        forall|t: int| 0 <= t < 4 ==> #[trigger] limb_col_sum(a, t) == limb_col_sum(b, t),
        i < 4,
    ensures
        carry_out(a, i) == carry_out(b, i),
        carry_in(a, i) == carry_in(b, i),
    decreases i,
{
    if i > 0 {
        lemma_carries_agree(a, b, (i - 1) as nat);
    }
    assert(limb_col_sum(a, i as int) == limb_col_sum(b, i as int));
}

/// The sum of four words with the last two swapped is filled by the same columns.
pub(crate) proof fn lemma_add_swap_last(cols: crate::gadgets::add::AddGadget<u32, 4>, a: u32, b: u32, c: u32, d: u32)
    requires
        is_add_of(cols, seq![a, b, c, d]),
    ensures
        is_add_of(cols, seq![a, b, d, c]),
{
    let s1 = seq![a, b, c, d];
    let s2 = seq![a, b, d, c];
    lemma_sum_words_small(a, b, c, d, 0);
    lemma_sum_words_small(a, b, d, c, 0);
    let w1 = words_limbs(s1);
    let w2 = words_limbs(s2);
    assert forall|t: int| 0 <= t < 4 implies #[trigger] limb_col_sum(w1, t) == limb_col_sum(w2, t) by {
        assert(w1.drop_last().drop_last() =~= w2.drop_last().drop_last());
        reveal_with_fuel(limb_col_sum, 3);
        assert(w1.drop_last().last() == w2.last());
        assert(w2.drop_last().last() == w1.last());
        assert(limb_col_sum(w1, t) == limb_col_sum(w1.drop_last().drop_last(), t) + w1.drop_last().last()[t] + w1.last()[t]);
        assert(limb_col_sum(w2, t) == limb_col_sum(w2.drop_last().drop_last(), t) + w2.drop_last().last()[t] + w2.last()[t]);
    }
    assert forall|i: int| 0 <= i < 4 implies #[trigger] cols.carry[i] == carry_out(w2, i as nat) by {
        lemma_carries_agree(w1, w2, i as nat);
    }
    assert forall|j: int, i: int| 0 <= j < 4 && 0 <= i < 4 implies #[trigger] cols.is_carry[j][i] == (if carry_out(w2, i as nat) == j {
        1u32
    } else {
        0u32
    }) by {
        lemma_carries_agree(w1, w2, i as nat);
    }
}

/// The summands of the schedule gadget as the constraints read them.
proof fn lemma_sched_sum_holds(enc: Encoder, p: u32, local: ShaCols<u32>, block: Seq<u8>, r: int)
    requires
        is_round_index_encoder(enc),
        has_small_inverses(p),
        p >= 0x1_0000,
        0 <= r < 64,
        local.round_idx@ == enc.flag_pt(r),
        forall|j: int| 0 <= j < 64 ==> #[trigger] local.buf[j]@ == byte_limbs(schedule_word(block, j as nat)),
        is_small_sigma_of(local.small_sig1, sched_sig1_input(block, r), 17, 19, 10),
        is_small_sigma_of(local.small_sig0, sched_sig0_input(block, r), 7, 18, 3),
        is_add_of(local.sum_small_sig, sched_sum_inputs(block, r)),
    ensures
        crate::gadgets::add::add_constraints(p, sched_sum_limbs(enc, p, local), local.sum_small_sig),
{
    let i1 = sched_sig1_input(block, r);
    let i0 = sched_sig0_input(block, r);
    lemma_sched_input(enc, p, local, block, r, 7);
    lemma_sched_input(enc, p, local, block, r, 16);
    let w7 = if r >= 16 {
        schedule_word(block, (r - 7) as nat)
    } else {
        0
    };
    let w16 = if r >= 16 {
        schedule_word(block, (r - 16) as nat)
    } else {
        0
    };
    let s = seq![w7, w16, small_sigma0(i0), small_sigma1(i1)];
    lemma_small_sigmas_zero();
    assert(sched_sum_inputs(block, r) =~= seq![w7, w16, small_sigma1(i1), small_sigma0(i0)]);
    lemma_add_swap_last(local.sum_small_sig, w7, w16, small_sigma1(i1), small_sigma0(i0));
    lemma_add_complete(p, BUS_INDEX, local.sum_small_sig, s);
    assert(local.small_sig0.xor3.value@ == byte_limbs(small_sigma0(i0)));
    assert(local.small_sig1.xor3.value@ == byte_limbs(small_sigma1(i1)));
    assert(sched_sum_limbs(enc, p, local) =~= words_limbs(s));
}

/// On the row of round `r`, the schedule gadgets meet their constraints.
proof fn lemma_schedule_gadgets_hold(enc: Encoder, p: u32, local: ShaCols<u32>, block: Seq<u8>, h: Seq<u32>, r: int)
    requires
        is_round_index_encoder(enc),
        has_small_inverses(p),
        p >= 0x1_0000,
        0 <= r < 64,
        block.len() == 64,
        is_block_row(local, enc.flag_pt(r), block, h, r),
    ensures
        schedule_gadget_constraints(enc, p, local),
{
    lemma_block_row_facts(local, enc.flag_pt(r), block, h, r);
    lemma_small_sigma_complete(p, BUS_INDEX, local.small_sig1, sched_sig1_input(block, r), 17, 19, 10);
    lemma_small_sigma_complete(p, BUS_INDEX, local.small_sig0, sched_sig0_input(block, r), 7, 18, 3);
    lemma_sched_sum_holds(enc, p, local, block, r);
}

/// The bytes of the round constant and the schedule word of the round, as
/// the round index selects them.
pub(crate) proof fn lemma_k_w_inputs(enc: Encoder, p: u32, local: ShaCols<u32>, block: Seq<u8>, r: int)
    requires
        is_round_index_encoder(enc),
        has_small_inverses(p),
        p >= 256,
        0 <= r < 64,
        local.round_idx@ == enc.flag_pt(r),
        forall|j: int| 0 <= j < 64 ==> #[trigger] local.buf[j]@ == byte_limbs(schedule_word(block, j as nat)),
    ensures
        k_input(enc, p, local) == byte_limbs(SHA256_K[r]),
        w_input(enc, p, local) == byte_limbs(schedule_word(block, r as nat)),
{
    assert forall|j: int| 0 <= j < 4 implies #[trigger] k_input(enc, p, local)[j] == byte_limbs(SHA256_K[r])[j] by {
        let pairs = vals_in_field(k_pairs(j), p);
        assert(pairs_in_range(enc, pairs));
        lemma_flag_combination_at_flag(enc, r, pairs, p);
        assert forall|k: int| 0 <= k < pairs.len() implies #[trigger] pairs[k].0 == 0 + k by {}
        lemma_flag_selected_run(pairs, r, 0, p);
        let b = crate::utils::le_bytes(SHA256_K[r])[j];
        crate::builder::lemma_fe_small(b as int, p);
        assert(pairs[r].1 == (b as int % (p as int)) as u32);
    }
    assert(k_input(enc, p, local) =~= byte_limbs(SHA256_K[r]));
    assert forall|j: int| 0 <= j < 4 implies #[trigger] w_input(enc, p, local)[j] == byte_limbs(schedule_word(block, r as nat))[j] by {
        let pairs = w_pairs(local, j);
        assert(pairs_in_range(enc, pairs));
        lemma_flag_combination_at_flag(enc, r, pairs, p);
        assert forall|k: int| 0 <= k < pairs.len() implies #[trigger] pairs[k].0 == 0 + k by {}
        lemma_flag_selected_run(pairs, r, 0, p);
        crate::utils::lemma_le_bytes_value(schedule_word(block, r as nat));
        assert(local.buf[r][j] == local.buf[r]@[j]);
        crate::builder::lemma_fe_small(local.buf[r][j] as int, p);
    }
    assert(w_input(enc, p, local) =~= byte_limbs(schedule_word(block, r as nat)));
}

/// The wrapping sums of the summands of `T1` and `T2` are `T1` and `T2`.
pub(crate) proof fn lemma_t1_t2_words(s: Seq<u32>, w: u32, r: int)
    requires
        0 <= r < 64,
        s.len() == 8,
    ensures
        wrapping_sum(t1_inputs(s, w, r)) as int == round_t1(s, SHA256_K[r], w),
        wrapping_sum(t2_inputs(s)) as int == round_t2(s),
{
    let t = t1_inputs(s, w, r);
    lemma_sum_words_small(t[0], t[1], t[2], t[3], t[4]);
    assert(t =~= seq![t[0], t[1], t[2], t[3], t[4]]);
    let u = t2_inputs(s);
    lemma_sum_words_small(u[0], u[1], 0, 0, 0);
    assert(u =~= seq![u[0], u[1]]);
}

/// The sums of `T1` and `T2` as the constraints read their summands.
proof fn lemma_t_sums_hold(enc: Encoder, p: u32, local: ShaCols<u32>, block: Seq<u8>, st: Seq<u32>, r: int)
    requires
        is_round_index_encoder(enc),
        has_small_inverses(p),
        p >= 0x1_0000,
        0 <= r < 64,
        st.len() == 8,
        local.round_idx@ == enc.flag_pt(r),
        forall|j: int| 0 <= j < 64 ==> #[trigger] local.buf[j]@ == byte_limbs(schedule_word(block, j as nat)),
        forall|j: int| 0 <= j < 8 ==> #[trigger] local.prev_seed[j]@ == byte_limbs(st[j]),
        is_round_row(local, st, schedule_word(block, r as nat), r),
    ensures
        crate::gadgets::add::add_constraints(p, t1_limbs(enc, p, local), local.sum_t1),
        crate::gadgets::add::add_constraints(p, seq![local.big_sig0.xor3.value@, local.maj.xor3.value@], local.sum_t2),
{
    let w = schedule_word(block, r as nat);
    lemma_k_w_inputs(enc, p, local, block, r);
    assert(t1_limbs(enc, p, local) =~= words_limbs(t1_inputs(st, w, r)));
    lemma_add_complete(p, BUS_INDEX, local.sum_t1, t1_inputs(st, w, r));
    assert(seq![local.big_sig0.xor3.value@, local.maj.xor3.value@] =~= words_limbs(t2_inputs(st)));
    lemma_add_complete(p, BUS_INDEX, local.sum_t2, t2_inputs(st));
}

/// The sums of `e` and `a`, and the new state linked to them and to the state before.
proof fn lemma_state_sums_hold(p: u32, local: ShaCols<u32>, st: Seq<u32>, w: u32, next: Seq<u32>, r: int)
    requires
        p >= 0x1_0000,
        0 <= r < 64,
        st.len() == 8,
        next == round_step(st, SHA256_K[r], w),
        forall|j: int| 0 <= j < 8 ==> #[trigger] local.prev_seed[j]@ == byte_limbs(st[j]),
        forall|j: int| 0 <= j < 8 ==> #[trigger] local.seed[j]@ == byte_limbs(next[j]),
        is_round_row(local, st, w, r),
    ensures
        crate::gadgets::add::add_constraints(p, seq![local.prev_seed[3]@, local.sum_t1.value@], local.sum_e),
        crate::gadgets::add::add_constraints(p, seq![local.sum_t1.value@, local.sum_t2.value@], local.sum_a),
        forall|i: int| 0 <= i < 4 ==> #[trigger] seed_links(p, local, i),
{
    let t1 = wrapping_sum(t1_inputs(st, w, r));
    let t2 = wrapping_sum(t2_inputs(st));
    assert(seq![local.prev_seed[3]@, local.sum_t1.value@] =~= words_limbs(seq![st[3], t1]));
    lemma_add_complete(p, BUS_INDEX, local.sum_e, seq![st[3], t1]);
    assert(seq![local.sum_t1.value@, local.sum_t2.value@] =~= words_limbs(seq![t1, t2]));
    lemma_add_complete(p, BUS_INDEX, local.sum_a, seq![t1, t2]);
    lemma_t1_t2_words(st, w, r);
    lemma_sum_words_small(st[3], t1, 0, 0, 0);
    lemma_sum_words_small(t1, t2, 0, 0, 0);
    assert(local.seed[0]@ == local.sum_a.value@);
    assert(local.seed[4]@ == local.sum_e.value@);
    assert(local.seed[1]@ == local.prev_seed[0]@);
    assert(local.seed[2]@ == local.prev_seed[1]@);
    assert(local.seed[3]@ == local.prev_seed[2]@);
    assert(local.seed[5]@ == local.prev_seed[4]@);
    assert(local.seed[6]@ == local.prev_seed[5]@);
    assert(local.seed[7]@ == local.prev_seed[6]@);
    assert forall|i: int| 0 <= i < 4 implies #[trigger] seed_links(p, local, i) by {
        assert(local.seed[0][i] == local.seed[0]@[i] && local.sum_a.value[i] == local.sum_a.value@[i]);
        assert(local.seed[4][i] == local.seed[4]@[i] && local.sum_e.value[i] == local.sum_e.value@[i]);
        assert(local.seed[1][i] == local.seed[1]@[i] && local.prev_seed[0][i] == local.prev_seed[0]@[i]);
        assert(local.seed[2][i] == local.seed[2]@[i] && local.prev_seed[1][i] == local.prev_seed[1]@[i]);
        assert(local.seed[3][i] == local.seed[3]@[i] && local.prev_seed[2][i] == local.prev_seed[2]@[i]);
        assert(local.seed[5][i] == local.seed[5]@[i] && local.prev_seed[4][i] == local.prev_seed[4]@[i]);
        assert(local.seed[6][i] == local.seed[6]@[i] && local.prev_seed[5][i] == local.prev_seed[5]@[i]);
        assert(local.seed[7][i] == local.seed[7]@[i] && local.prev_seed[6][i] == local.prev_seed[6]@[i]);
    }
}

/// On the row of round `r`, the round gadgets meet their constraints and
/// the new state is linked to their sums and to the state before.
proof fn lemma_round_gadgets_hold(enc: Encoder, p: u32, local: ShaCols<u32>, block: Seq<u8>, h: Seq<u32>, r: int)
    requires
        is_round_index_encoder(enc),
        has_small_inverses(p),
        p >= 0x1_0000,
        0 <= r < 64,
        h.len() == 8,
        is_block_row(local, enc.flag_pt(r), block, h, r),
    ensures
        round_gadget_constraints(enc, p, local),
{
    lemma_block_row_facts(local, enc.flag_pt(r), block, h, r);
    let st = rounds(h, block, r as nat);
    let w = schedule_word(block, r as nat);
    lemma_rounds_len(h, block, r as nat);
    lemma_big_sigma_complete(p, BUS_INDEX, local.big_sig1.rrots, local.big_sig1.xor3, st[4], 6, 11, 25);
    lemma_big_sigma_complete(p, BUS_INDEX, local.big_sig0.rrots, local.big_sig0.xor3, st[0], 2, 13, 22);
    lemma_t_sums_hold(enc, p, local, block, st, r);
    lemma_state_sums_hold(p, local, st, w, rounds(h, block, (r + 1) as nat), r);
}

/// Every working state has eight words.
pub(crate) proof fn lemma_rounds_len(h: Seq<u32>, block: Seq<u8>, n: nat)
    requires
        h.len() == 8,
    ensures
        rounds(h, block, n).len() == 8,
    decreases n,
{
    if n > 0 {
        lemma_rounds_len(h, block, (n - 1) as nat);
    }
}

/// Word `i` of the final sums meets its constraints.
proof fn lemma_final_word_holds(p: u32, local: ShaCols<u32>, block: Seq<u8>, h: Seq<u32>, r: int, is_first_row: bool, i: int)
    requires
        p >= 0x1_0000,
        0 <= r < 64,
        0 <= i < 8,
        h.len() == 8,
        is_first_row ==> r == 0 && h == initial_hash(),
        local.step_flags[63] == (if r == 63 {
            1u32
        } else {
            0u32
        }),
        local.seed[i]@ == byte_limbs(rounds(h, block, (r + 1) as nat)[i]),
        local.prev_seed[i]@ == byte_limbs(rounds(h, block, r as nat)[i]),
        local.prev_block_seed[i]@ == byte_limbs(h[i]),
        is_add_of(local.sum_final[i], seq![rounds(h, block, (r + 1) as nat)[i], h[i]]),
        forall|j: int| 0 <= j < 4 ==> #[trigger] local.final_hash[i][j] == (if r == 63 {
            byte_limbs(compress(h, block)[i])[j]
        } else {
            0u32
        }),
    ensures
        final_word_constraints(p, local, is_first_row, i),
{
    let st1 = rounds(h, block, (r + 1) as nat);
    vstd::arithmetic::div_mod::lemma_small_mod(0, p as nat);
    assert(seq![local.seed[i]@, local.prev_block_seed[i]@] =~= words_limbs(seq![st1[i], h[i]]));
    lemma_add_complete(p, BUS_INDEX, local.sum_final[i], seq![st1[i], h[i]]);
    assert forall|j: int| 0 <= j < 4 implies (is_first_row ==> #[trigger] crate::builder::fe(local.prev_seed[i][j] as int, p)
        == crate::builder::fe(le_bytes(SHA256_H[i])[j] as int, p)) by {
        if is_first_row {
            assert(local.prev_seed[i][j] == local.prev_seed[i]@[j]);
        }
    }
    assert forall|j: int| 0 <= j < 4 implies #[trigger] fz(local.step_flags[63] * (local.final_hash[i][j] - local.sum_final[i].value[j]), p) by {
        if r == 63 {
            lemma_sum_words_small(st1[i], h[i], 0, 0, 0);
            assert(wrapping_sum(seq![st1[i], h[i]]) == compress(h, block)[i]);
            assert(local.sum_final[i].value[j] == local.sum_final[i].value@[j]);
            assert(local.final_hash[i][j] - local.sum_final[i].value[j] == 0);
            assert(local.step_flags[63] * 0 == 0);
        } else {
            assert(0 * (local.final_hash[i][j] - local.sum_final[i].value[j]) == 0);
        }
    }
}

/// The final sums, the initial chaining value on the first row and the
/// final hash on the last round meet their constraints.
proof fn lemma_final_holds(p: u32, local: ShaCols<u32>, pt: Seq<u32>, block: Seq<u8>, h: Seq<u32>, r: int, is_first_row: bool)
    requires
        p >= 0x1_0000,
        0 <= r < 64,
        h.len() == 8,
        is_block_row(local, pt, block, h, r),
        is_first_row ==> r == 0 && h == initial_hash(),
    ensures
        final_constraints(p, local, is_first_row),
{
    lemma_block_row_facts(local, pt, block, h, r);
    assert forall|i: int| 0 <= i < 8 implies #[trigger] final_word_constraints(p, local, is_first_row, i) by {
        lemma_final_word_holds(p, local, block, h, r, is_first_row, i);
    }
}

/// The trace that the AIR generates for any 64-byte blocks meets its
/// constraints on every row followed by the next (the first row after the
/// last, where no transition is constrained), in every field of at least 16
/// bits that has the inverses of 2 and 3.
#[verifier::rlimit(30)]
pub proof fn lemma_trace_satisfies_air(air: ShaAir, p: u32, rows: Seq<ShaCols<u32>>, blocks: Seq<Seq<u8>>, k: int)
    requires
        air.wf(),
        p >= 0x1_0000,
        has_small_inverses(p),
        is_trace(rows, air.round_idx_encoder, blocks),
        forall|b: int| 0 <= b < blocks.len() ==> (#[trigger] blocks[b]).len() == 64,
        0 <= k < rows.len(),
    ensures
        sha_constraints(
            air.round_idx_encoder,
            p,
            rows[k],
            rows[(k + 1) % (rows.len() as int)],
            k == 0,
            k + 1 < rows.len(),
        ),
{
    let enc = air.round_idx_encoder;
    let n = rows.len() as int;
    let b = k / 64;
    let r = k % 64;
    assert(k == 64 * b + r);
    assert(0 <= b < blocks.len()) by (nonlinear_arith)
        requires
            k == 64 * b + r,
            0 <= r < 64,
            0 <= k < n,
            n == 64 * blocks.len(),
    ;
    let block = blocks[b];
    let h = chain_hash(blocks, b as nat);
    crate::generation::lemma_chain_hash_len(blocks, b as nat);
    let local = rows[k];
    let next = rows[(k + 1) % n];
    assert(is_block_row(rows[64 * b + r], enc.flag_pt(r), block, h, r));
    let is_first_row = k == 0;
    let is_transition = k + 1 < n;
    if is_transition {
        vstd::arithmetic::div_mod::lemma_small_mod((k + 1) as nat, n as nat);
        if r < 63 {
            assert(is_block_row(rows[64 * b + (r + 1)], enc.flag_pt(r + 1), block, h, r + 1));
            lemma_row_flags(next, enc.flag_pt(r + 1), block, h, r + 1);
            lemma_row_states(next, enc.flag_pt(r + 1), block, h, r + 1);
            lemma_row_states(local, enc.flag_pt(r), block, h, r);
        } else {
            assert(b + 1 < blocks.len()) by (nonlinear_arith)
                requires
                    k == 64 * b + 63,
                    k + 1 < n,
                    n == 64 * blocks.len(),
            ;
            assert(is_block_row(rows[64 * (b + 1) + 0], enc.flag_pt(0), blocks[b + 1], chain_hash(blocks, (b + 1) as nat), 0));
            lemma_row_flags(next, enc.flag_pt(0), blocks[b + 1], chain_hash(blocks, (b + 1) as nat), 0);
        }
    }
    lemma_row_flags(local, enc.flag_pt(r), block, h, r);
    lemma_round_flags_hold(p, local, next, r, is_first_row, is_transition);
    lemma_state_links_hold(enc, p, local, next, block, h, r, is_transition);
    lemma_schedule_links_hold(p, local, enc.flag_pt(r), block, h, r);
    lemma_schedule_gadgets_hold(enc, p, local, block, h, r);
    lemma_round_gadgets_hold(enc, p, local, block, h, r);
    lemma_final_holds(p, local, enc.flag_pt(r), block, h, r, is_first_row);
}

/// Row `m` of a trace meets the constraints of the step flags with the row
/// after it (the first row after the last).
pub open spec fn flags_hold_at(p: u32, rows: Seq<ShaCols<u32>>, m: int) -> bool {
    round_flag_constraints(p, rows[m], rows[(m + 1) % (rows.len() as int)], m == 0, m + 1 < rows.len())
}

/// The step flags of a row: exactly the flag of round `r`.
pub open spec fn flags_one_hot(row: ShaCols<u32>, r: int) -> bool {
    forall|j: int| 0 <= j < 64 ==> #[trigger] row.step_flags[j] == (if j == r {
        1u32
    } else {
        0u32
    })
}

/// The flags of a first row are those of round 0.
proof fn lemma_flags_first(p: u32, row: ShaCols<u32>, next: ShaCols<u32>, is_transition: bool)
    requires
        p >= 2,
        round_flag_constraints(p, row, next, true, is_transition),
        forall|j: int| 0 <= j < 64 ==> #[trigger] row.step_flags[j] < p,
    ensures
        flags_one_hot(row, 0),
{
    assert forall|j: int| 0 <= j < 64 implies #[trigger] row.step_flags[j] == (if j == 0 {
        1u32
    } else {
        0u32
    }) by {
        vstd::arithmetic::div_mod::lemma_small_mod(row.step_flags[j] as nat, p as nat);
        if j != 0 {
            assert(fz(row.step_flags[j] as int, p));
        }
    }
}

/// Across a transition the flags rotate forward by one round.
proof fn lemma_flags_step(p: u32, prev: ShaCols<u32>, cur: ShaCols<u32>, first: bool, r: int)
    requires
        p >= 2,
        0 <= r < 64,
        round_flag_constraints(p, prev, cur, first, true),
        flags_one_hot(prev, r),
        forall|j: int| 0 <= j < 64 ==> #[trigger] cur.step_flags[j] < p,
    ensures
        flags_one_hot(cur, (r + 1) % 64),
{
    assert forall|j: int| 0 <= j < 64 implies #[trigger] cur.step_flags[j] == (if j == (r + 1) % 64 {
        1u32
    } else {
        0u32
    }) by {
        let i = (j + 63) % 64;
        assert((i + 1) % 64 == j);
        let a = prev.step_flags[i];
        let b = cur.step_flags[j];
        assert(a <= 1);
        assert(fz(a - cur.step_flags[(i + 1) % 64], p));
        lemma_fe_small(0, p);
        crate::bits_air::rotr_air::lemma_fe_eq_small(a - b, 0, p);
        assert((i == r) == (j == (r + 1) % 64));
    }
}

/// Soundness of the step flags: on a trace of canonical cells whose every
/// row meets the constraints of the step flags with the row after it, row
/// `k` has exactly the flag of round `k % 64` set.
pub proof fn lemma_round_flags_sound(p: u32, rows: Seq<ShaCols<u32>>, k: int)
    requires
        p >= 2,
        0 <= k < rows.len(),
        forall|m: int| 0 <= m < rows.len() ==> #[trigger] flags_hold_at(p, rows, m),
        forall|m: int, j: int| 0 <= m < rows.len() && 0 <= j < 64 ==> #[trigger] rows[m].step_flags[j] < p,
    ensures
        flags_one_hot(rows[k], k % 64),
    decreases k,
{
    let n = rows.len() as int;
    assert(forall|j: int| 0 <= j < 64 ==> #[trigger] rows[k].step_flags[j] < p);
    if k == 0 {
        assert(flags_hold_at(p, rows, 0));
        lemma_flags_first(p, rows[0], rows[(0int + 1) % n], (0int + 1) < n);
    } else {
        lemma_round_flags_sound(p, rows, k - 1);
        assert(flags_hold_at(p, rows, k - 1));
        vstd::arithmetic::div_mod::lemma_small_mod(k as nat, n as nat);
        assert((k - 1 + 1) % n == k);
        lemma_flags_step(p, rows[k - 1], rows[k], k - 1 == 0, (k - 1) % 64);
        assert(((k - 1) % 64 + 1) % 64 == k % 64);
    }
}

/// Soundness of the state links in a prime field: on canonical cells, off the last round of
/// a block (the flag of round 63 off), the constraints hold only if the next
/// row starts from this row's state, the final hash is zero and the export
/// flag is off; and on any row only if the export flag is a bit.
pub proof fn lemma_state_links_sound(
    p: u32,
    local: ShaCols<u32>,
    next: ShaCols<u32>,
    is_transition: bool,
    encoder_ok: bool,
)
    requires
        crate::builder::is_prime(p as int),
        state_link_constraints(p, local, next, is_transition, encoder_ok),
        local.export < p,
        local.step_flags[63] < p,
        forall|i: int, j: int| 0 <= i < 8 && 0 <= j < 4 ==> #[trigger] local.seed[i][j] < p,
        forall|i: int, j: int| 0 <= i < 8 && 0 <= j < 4 ==> #[trigger] next.prev_seed[i][j] < p,
        forall|i: int, j: int| 0 <= i < 8 && 0 <= j < 4 ==> #[trigger] local.final_hash[i][j] < p,
    ensures
        encoder_ok,
        local.export <= 1,
        local.step_flags[63] == 0 ==> local.export == 0,
        local.step_flags[63] == 0 ==> forall|i: int, j: int|
            0 <= i < 8 && 0 <= j < 4 ==> #[trigger] local.final_hash[i][j] == 0,
        local.step_flags[63] == 0 && is_transition ==> forall|i: int, j: int|
            0 <= i < 8 && 0 <= j < 4 ==> #[trigger] next.prev_seed[i][j] == local.seed[i][j],
{
    let x = local.export as int;
    lemma_fe_small(x, p);
    lemma_fe_small(0, p);
    if x >= 1 {
        lemma_fe_small(x - 1, p);
        crate::builder::lemma_prime_divides(p as int, x, x - 1);
    }
    if local.step_flags[63] == 0 {
        assert(1 * x == x);
        assert forall|i: int, j: int| 0 <= i < 8 && 0 <= j < 4 implies #[trigger] local.final_hash[i][j] == 0 by {
            assert(fz(1 * local.final_hash[i][j], p));
            lemma_fe_small(local.final_hash[i][j] as int, p);
        }
        if is_transition {
            assert forall|i: int, j: int| 0 <= i < 8 && 0 <= j < 4 implies #[trigger] next.prev_seed[i][j]
                == local.seed[i][j] by {
                let d = local.seed[i][j] - next.prev_seed[i][j];
                assert(fz(1 * d, p));
                assert(1 * d == d);
                crate::bits_air::rotr_air::lemma_fe_eq_small(d, 0, p);
            }
        }
    }
}

/// Soundness of the final constraints: on canonical cells they hold only if,
/// on the first row, the state before the round is the initial chaining
/// value, and on the last round of a block (the flag of round 63 set), the
/// final hash is the final sums.
pub proof fn lemma_final_sound(p: u32, local: ShaCols<u32>, is_first_row: bool)
    requires
        p >= 0x1_0000,
        final_constraints(p, local, is_first_row),
        forall|i: int, j: int| 0 <= i < 8 && 0 <= j < 4 ==> #[trigger] local.prev_seed[i][j] < p,
        forall|i: int, j: int| 0 <= i < 8 && 0 <= j < 4 ==> #[trigger] local.final_hash[i][j] < p,
        forall|i: int, j: int| 0 <= i < 8 && 0 <= j < 4 ==> #[trigger] local.sum_final[i].value[j] < p,
    ensures
        is_first_row ==> forall|i: int| 0 <= i < 8 ==> #[trigger] local.prev_seed[i]@ == byte_limbs(SHA256_H[i]),
        local.step_flags[63] == 1 ==> forall|i: int| 0 <= i < 8 ==> #[trigger] local.final_hash[i] == local.sum_final[i].value,
{
    if is_first_row {
        assert forall|i: int| 0 <= i < 8 implies #[trigger] local.prev_seed[i]@ == byte_limbs(SHA256_H[i]) by {
            assert(final_word_constraints(p, local, true, i));
            crate::utils::lemma_le_bytes_value(SHA256_H[i]);
            assert forall|j: int| 0 <= j < 4 implies local.prev_seed[i]@[j] == #[trigger] byte_limbs(SHA256_H[i])[j] by {
                let b = le_bytes(SHA256_H[i])[j] as int;
                assert(fe(local.prev_seed[i][j] as int, p) == fe(b, p));
                lemma_fe_small(b, p);
                lemma_fe_small(local.prev_seed[i][j] as int, p);
            }
            assert(local.prev_seed[i]@ =~= byte_limbs(SHA256_H[i]));
        }
    }
    if local.step_flags[63] == 1 {
        assert forall|i: int| 0 <= i < 8 implies #[trigger] local.final_hash[i] == local.sum_final[i].value by {
            assert(final_word_constraints(p, local, is_first_row, i));
            assert forall|j: int| 0 <= j < 4 implies local.final_hash[i]@[j] == #[trigger] local.sum_final[i].value@[j] by {
                let d = local.final_hash[i][j] - local.sum_final[i].value[j];
                assert(fz(local.step_flags[63] * d, p));
                assert(1 * d == d);
                lemma_fe_small(0, p);
                crate::bits_air::rotr_air::lemma_fe_eq_small(d, 0, p);
            }
            assert(local.final_hash[i]@ =~= local.sum_final[i].value@);
        }
    }
}

} // verus!
