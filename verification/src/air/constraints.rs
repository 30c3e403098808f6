//! The constraints of the SHA-256 AIR on a pair of consecutive rows, and the
//! lookups that they send.
use vstd::prelude::*;

use crate::air::{ShaAir, BUS_INDEX};
use crate::bits_air::big_sig_air::{
    big_sigma_constraints, big_sigma_interactions, BigSigma0Cols, BigSigma1Cols,
};
use crate::bits_air::ch_air::{ch_interactions, ChooseCols};
use crate::bits_air::maj_air::{maj_interactions, MajorCols};
use crate::bits_air::small_sig_air::{eval_small_sigma, small_sigma_constraints, small_sigma_interactions};
use crate::builder::{fe, fmul, fsub, lemma_fe_mul, lemma_fe_small, ConstraintChecker, Interaction};
use crate::columns::ShaCols;
use crate::constants::{SHA256_H, SHA256_K};
use crate::encoder::flags::{
    encoder_constraints, flag_combination, has_small_inverses, pairs_in_range, vals_in_field,
};
use crate::encoder::Encoder;
use crate::gadgets::add::{add_constraints, add_interactions, inputs_limbs, AddGadget};
use crate::utils::{le_bytes, u32_to_le_bytes};

verus! {

/// `x` is zero in the field with modulus `p`.
pub open spec fn fz(x: int, p: u32) -> bool {
    fe(x, p) == 0
}

/// The step flags: on the first row only the flag of round 0 is set, and
/// from each row to the next the flags rotate forward by one round.
pub open spec fn round_flag_constraints(
    p: u32,
    local: ShaCols<u32>,
    next: ShaCols<u32>,
    is_first_row: bool,
    is_transition: bool,
) -> bool {
    &&& is_first_row ==> fe(local.step_flags[0] as int, p) == 1
    &&& is_first_row ==> forall|i: int| 1 <= i < 64 ==> #[trigger] fz(local.step_flags[i] as int, p)
    &&& is_transition ==> forall|i: int|
        0 <= i < 64 ==> #[trigger] fz(local.step_flags[i] - next.step_flags[(i + 1) % 64], p)
}

/// Off the last round of a block: the next row starts from this row's
/// state, the final hash is zero and the export flag is off; the export
/// flag is a bit and the round index is the point of a round.
pub open spec fn state_link_constraints(
    p: u32,
    local: ShaCols<u32>,
    next: ShaCols<u32>,
    is_transition: bool,
    encoder_ok: bool,
) -> bool {
    let nf = 1 - local.step_flags[63];
    &&& forall|i: int, j: int|
        0 <= i < 8 && 0 <= j < 4 ==> (is_transition ==> #[trigger] fz(nf * (local.seed[i][j] - next.prev_seed[i][j]), p))
    &&& forall|i: int, j: int| 0 <= i < 8 && 0 <= j < 4 ==> #[trigger] fz(nf * local.final_hash[i][j], p)
    &&& fz(local.export * (local.export - 1), p)
    &&& encoder_ok
    &&& fz(nf * local.export, p)
}

/// The schedule words of the row: on the first 16 rounds, word `i` holds
/// bytes `4 i .. 4 i + 4` of the block, most significant first; on the
/// round `i` of the others, word `i` is the sum of the schedule gadget.
pub open spec fn schedule_link_constraints(p: u32, local: ShaCols<u32>) -> bool {
    &&& forall|i: int, j: int|
        0 <= i < 16 && 0 <= j < 4 ==> #[trigger] fz(local.first_16_steps * (local.buf[i][3 - j] - local.input_block[4 * i + j]), p)
    &&& forall|i: int, j: int|
        16 <= i < 64 && 0 <= j < 4 ==> #[trigger] fz(
            ((1 - local.first_16_steps) * local.step_flags[i]) * (local.buf[i][j] - local.sum_small_sig.value[j]),
            p,
        )
}

/// `when(cond).assert_zero(x)`: assert `cond * x = 0` in the field.
fn assert_zero_when(builder: &mut ConstraintChecker, cond: u32, x: u32, ci: Ghost<int>, xi: Ghost<int>)
    requires
        old(builder).wf(),
        fe(cond as int, old(builder).modulus) == fe(ci@, old(builder).modulus),
        fe(x as int, old(builder).modulus) == fe(xi@, old(builder).modulus),
    ensures
        final(builder).wf(),
        final(builder).modulus == old(builder).modulus,
        final(builder).interactions == old(builder).interactions,
        final(builder).holds == (old(builder).holds && fz(ci@ * xi@, old(builder).modulus)),
{
    let p = builder.modulus;
    let r = fmul(cond, x, p);
    proof {
        lemma_fe_mul(cond as int, x as int, p);
        lemma_fe_mul(ci@, xi@, p);
        lemma_fe_small(r as int, p);
    }
    builder.assert_zero(r);
}

/// Assert the constraints of the step flags.
pub fn eval_round_flags(
    builder: &mut ConstraintChecker,
    local: &ShaCols<u32>,
    next: &ShaCols<u32>,
    is_first_row: bool,
    is_transition: bool,
)
    requires
        old(builder).wf(),
    ensures
        final(builder).wf(),
        final(builder).modulus == old(builder).modulus,
        final(builder).interactions == old(builder).interactions,
        final(builder).holds == (old(builder).holds && round_flag_constraints(
            old(builder).modulus,
            *local,
            *next,
            is_first_row,
            is_transition,
        )),
{
    let p = builder.modulus;
    let ghost h0 = builder.holds;
    if is_first_row {
        builder.assert_one(local.step_flags[0]);
        let mut i: usize = 1;
        while i < 64
            invariant
                1 <= i <= 64,
                builder.wf(),
                builder.modulus == p,
                builder.interactions == old(builder).interactions,
                builder.holds == (h0 && fe(local.step_flags[0] as int, p) == 1 && forall|t: int|
                    1 <= t < i ==> #[trigger] fz(local.step_flags[t] as int, p)),
            decreases 64 - i,
        {
            builder.assert_zero(local.step_flags[i]);
            proof {
                assert((forall|t: int| 1 <= t < i + 1 ==> #[trigger] fz(local.step_flags[t] as int, p)) == ((forall|t: int|
                    1 <= t < i ==> #[trigger] fz(local.step_flags[t] as int, p)) && fz(local.step_flags[i as int] as int, p)));
            }
            i = i + 1;
        }
    }
    let ghost h1 = builder.holds;
    if is_transition {
        let mut i: usize = 0;
        while i < 64
            invariant
                i <= 64,
                builder.wf(),
                builder.modulus == p,
                builder.interactions == old(builder).interactions,
                builder.holds == (h1 && forall|t: int|
                    0 <= t < i ==> #[trigger] fz(local.step_flags[t] - next.step_flags[(t + 1) % 64], p)),
            decreases 64 - i,
        {
            let d = fsub(local.step_flags[i], next.step_flags[(i + 1) % 64], p);
            proof {
                lemma_fe_small(d as int, p);
            }
            builder.assert_zero(d);
            proof {
                assert((forall|t: int| 0 <= t < i + 1 ==> #[trigger] fz(local.step_flags[t] - next.step_flags[(t + 1) % 64], p))
                    == ((forall|t: int| 0 <= t < i ==> #[trigger] fz(local.step_flags[t] - next.step_flags[(t + 1) % 64], p))
                    && fz(local.step_flags[i as int] - next.step_flags[(i + 1) % 64], p)));
            }
            i = i + 1;
        }
    }
}

/// Assert the links of the state between rows, the final hash and export
/// flag off the last round, and that the round index is a round's point.
pub fn eval_state_links(
    builder: &mut ConstraintChecker,
    encoder: &Encoder,
    local: &ShaCols<u32>,
    next: &ShaCols<u32>,
    is_transition: bool,
)
    requires
        old(builder).wf(),
        has_small_inverses(old(builder).modulus),
        encoder.wf(),
        encoder.var_cnt == 10,
    ensures
        final(builder).wf(),
        final(builder).modulus == old(builder).modulus,
        final(builder).interactions == old(builder).interactions,
        final(builder).holds == (old(builder).holds && state_link_constraints(
            old(builder).modulus,
            *local,
            *next,
            is_transition,
            encoder_constraints(*encoder, local.round_idx@, old(builder).modulus),
        )),
{
    let p = builder.modulus;
    let ghost h0 = builder.holds;
    let ghost nfi = 1 - local.step_flags[63];
    let nf = fsub(1, local.step_flags[63], p);
    let mut i: usize = 0;
    while i < 8
        invariant
            i <= 8,
            builder.wf(),
            builder.modulus == p,
            builder.interactions == old(builder).interactions,
            nfi == 1 - local.step_flags[63],
            nf == fe(nfi, p),
            builder.holds == (h0 && (forall|a: int, b: int|
                0 <= a < i && 0 <= b < 4 ==> (is_transition ==> #[trigger] fz(nfi * (local.seed[a][b] - next.prev_seed[a][b]), p)))
                && (forall|a: int, b: int| 0 <= a < i && 0 <= b < 4 ==> #[trigger] fz(nfi * local.final_hash[a][b], p))),
        decreases 8 - i,
    {
        let ghost hi = builder.holds;
        let mut j: usize = 0;
        while j < 4
            invariant
                i < 8,
                j <= 4,
                builder.wf(),
                builder.modulus == p,
                builder.interactions == old(builder).interactions,
                nfi == 1 - local.step_flags[63],
                nf == fe(nfi, p),
                builder.holds == (hi && (forall|b: int|
                    0 <= b < j ==> (is_transition ==> #[trigger] fz(nfi * (local.seed[i as int][b] - next.prev_seed[i as int][b]), p)))
                    && (forall|b: int| 0 <= b < j ==> #[trigger] fz(nfi * local.final_hash[i as int][b], p))),
            decreases 4 - j,
        {
            let ghost hj = builder.holds;
            if is_transition {
                let d = fsub(local.seed[i][j], next.prev_seed[i][j], p);
                proof {
                    lemma_fe_small(nf as int, p);
                    vstd::arithmetic::div_mod::lemma_mod_twice(nfi, p as int);
                    lemma_fe_small(d as int, p);
                    vstd::arithmetic::div_mod::lemma_mod_twice(local.seed[i as int][j as int] - next.prev_seed[i as int][j as int], p as int);
                }
                assert_zero_when(builder, nf, d, Ghost(nfi), Ghost(local.seed[i as int][j as int] - next.prev_seed[i as int][j as int]));
            }
            proof {
                lemma_fe_small(nf as int, p);
                vstd::arithmetic::div_mod::lemma_mod_twice(nfi, p as int);
            }
            assert_zero_when(builder, nf, local.final_hash[i][j], Ghost(nfi), Ghost(local.final_hash[i as int][j as int] as int));
            proof {
                assert((forall|b: int| 0 <= b < j + 1 ==> (is_transition ==> #[trigger] fz(nfi * (local.seed[i as int][b] - next.prev_seed[i as int][b]), p)))
                    == ((forall|b: int| 0 <= b < j ==> (is_transition ==> #[trigger] fz(nfi * (local.seed[i as int][b] - next.prev_seed[i as int][b]), p)))
                    && (is_transition ==> fz(nfi * (local.seed[i as int][j as int] - next.prev_seed[i as int][j as int]), p))));
                assert((forall|b: int| 0 <= b < j + 1 ==> #[trigger] fz(nfi * local.final_hash[i as int][b], p))
                    == ((forall|b: int| 0 <= b < j ==> #[trigger] fz(nfi * local.final_hash[i as int][b], p))
                    && fz(nfi * local.final_hash[i as int][j as int], p)));
            }
            j = j + 1;
        }
        proof {
            assert((forall|a: int, b: int| 0 <= a < i + 1 && 0 <= b < 4 ==> (is_transition ==> #[trigger] fz(nfi * (local.seed[a][b] - next.prev_seed[a][b]), p)))
                == ((forall|a: int, b: int| 0 <= a < i && 0 <= b < 4 ==> (is_transition ==> #[trigger] fz(nfi * (local.seed[a][b] - next.prev_seed[a][b]), p)))
                && (forall|b: int| 0 <= b < 4 ==> (is_transition ==> #[trigger] fz(nfi * (local.seed[i as int][b] - next.prev_seed[i as int][b]), p)))));
            assert((forall|a: int, b: int| 0 <= a < i + 1 && 0 <= b < 4 ==> #[trigger] fz(nfi * local.final_hash[a][b], p))
                == ((forall|a: int, b: int| 0 <= a < i && 0 <= b < 4 ==> #[trigger] fz(nfi * local.final_hash[a][b], p))
                && (forall|b: int| 0 <= b < 4 ==> #[trigger] fz(nfi * local.final_hash[i as int][b], p))));
        }
        i = i + 1;
    }
    let ghost h1 = builder.holds;
    // The export flag must be 0 or 1.
    builder.assert_bool(local.export);
    proof {
        lemma_fe_mul(local.export as int, local.export - 1, p);
    }
    encoder.eval(builder, &local.round_idx);
    // If this is not the final step, the export flag must be off.
    proof {
        lemma_fe_small(nf as int, p);
        vstd::arithmetic::div_mod::lemma_mod_twice(nfi, p as int);
    }
    assert_zero_when(builder, nf, local.export, Ghost(nfi), Ghost(local.export as int));
}

/// Assert the links of the schedule words to the block and to the schedule gadget.
pub fn eval_schedule_links(builder: &mut ConstraintChecker, local: &ShaCols<u32>)
    requires
        old(builder).wf(),
    ensures
        final(builder).wf(),
        final(builder).modulus == old(builder).modulus,
        final(builder).interactions == old(builder).interactions,
        final(builder).holds == (old(builder).holds && schedule_link_constraints(old(builder).modulus, *local)),
{
    let p = builder.modulus;
    let ghost h0 = builder.holds;
    let first16 = local.first_16_steps;
    let ghost first16_int = local.first_16_steps as int;
    let not_first16 = fsub(1, first16, p);
    let mut i: usize = 0;
    while i < 16
        invariant
            i <= 16,
            builder.wf(),
            builder.modulus == p,
            builder.interactions == old(builder).interactions,
            first16 == local.first_16_steps,
            builder.holds == (h0 && forall|a: int, b: int|
                0 <= a < i && 0 <= b < 4 ==> #[trigger] fz(first16 * (local.buf[a][3 - b] - local.input_block[4 * a + b]), p)),
        decreases 16 - i,
    {
        let ghost hi = builder.holds;
        let mut j: usize = 0;
        while j < 4
            invariant
                i < 16,
                j <= 4,
                builder.wf(),
                builder.modulus == p,
                builder.interactions == old(builder).interactions,
                first16 == local.first_16_steps,
                builder.holds == (hi && forall|b: int|
                    0 <= b < j ==> #[trigger] fz(first16 * (local.buf[i as int][3 - b] - local.input_block[4 * i + b]), p)),
            decreases 4 - j,
        {
            let d = fsub(local.buf[i][3 - j], local.input_block[i * 4 + j], p);
            proof {
                lemma_fe_small(d as int, p);
                vstd::arithmetic::div_mod::lemma_mod_twice(local.buf[i as int][3 - j] - local.input_block[4 * i + j], p as int);
            }
            assert_zero_when(builder, first16, d, Ghost(first16 as int), Ghost(local.buf[i as int][3 - j] - local.input_block[4 * i + j]));
            proof {
                assert((forall|b: int| 0 <= b < j + 1 ==> #[trigger] fz(first16 * (local.buf[i as int][3 - b] - local.input_block[4 * i + b]), p))
                    == ((forall|b: int| 0 <= b < j ==> #[trigger] fz(first16 * (local.buf[i as int][3 - b] - local.input_block[4 * i + b]), p))
                    && fz(first16 * (local.buf[i as int][3 - j] - local.input_block[4 * i + j]), p)));
            }
            j = j + 1;
        }
        proof {
            assert((forall|a: int, b: int| 0 <= a < i + 1 && 0 <= b < 4 ==> #[trigger] fz(first16 * (local.buf[a][3 - b] - local.input_block[4 * a + b]), p))
                == ((forall|a: int, b: int| 0 <= a < i && 0 <= b < 4 ==> #[trigger] fz(first16 * (local.buf[a][3 - b] - local.input_block[4 * a + b]), p))
                && (forall|b: int| 0 <= b < 4 ==> #[trigger] fz(first16 * (local.buf[i as int][3 - b] - local.input_block[4 * i + b]), p))));
        }
        i = i + 1;
    }
    let ghost h1 = builder.holds;
    while i < 64
        invariant
            16 <= i <= 64,
            builder.wf(),
            builder.modulus == p,
            builder.interactions == old(builder).interactions,
            first16_int == local.first_16_steps,
            not_first16 == fe(1 - first16_int, p),
            builder.holds == (h1 && forall|a: int, b: int|
                16 <= a < i && 0 <= b < 4 ==> #[trigger] fz(
                    ((1 - first16_int) * local.step_flags[a]) * (local.buf[a][b] - local.sum_small_sig.value[b]),
                    p,
                )),
        decreases 64 - i,
    {
        let ghost hi = builder.holds;
        let c = fmul(not_first16, local.step_flags[i], p);
        proof {
            let a = 1 - first16_int;
            let b = local.step_flags[i as int] as int;
            lemma_fe_mul(a, b, p);
            lemma_fe_mul(fe(a, p), b, p);
            vstd::arithmetic::div_mod::lemma_mod_twice(a, p as int);
            lemma_fe_small(c as int, p);
            vstd::arithmetic::div_mod::lemma_mod_twice(a * b, p as int);
        }
        let mut j: usize = 0;
        while j < 4
            invariant
                16 <= i < 64,
                j <= 4,
                builder.wf(),
                builder.modulus == p,
                builder.interactions == old(builder).interactions,
                first16_int == local.first_16_steps,
                fe(c as int, p) == fe((1 - first16_int) * local.step_flags[i as int], p),
                builder.holds == (hi && forall|b: int|
                    0 <= b < j ==> #[trigger] fz(
                        ((1 - first16_int) * local.step_flags[i as int]) * (local.buf[i as int][b] - local.sum_small_sig.value[b]),
                        p,
                    )),
            decreases 4 - j,
        {
            let d = fsub(local.buf[i][j], local.sum_small_sig.value[j], p);
            proof {
                lemma_fe_small(d as int, p);
                vstd::arithmetic::div_mod::lemma_mod_twice(local.buf[i as int][j as int] - local.sum_small_sig.value[j as int], p as int);
            }
            assert_zero_when(
                builder,
                c,
                d,
                Ghost((1 - first16_int) * local.step_flags[i as int]),
                Ghost(local.buf[i as int][j as int] - local.sum_small_sig.value[j as int]),
            );
            proof {
                assert((forall|b: int| 0 <= b < j + 1 ==> #[trigger] fz(
                    ((1 - first16_int) * local.step_flags[i as int]) * (local.buf[i as int][b] - local.sum_small_sig.value[b]),
                    p,
                )) == ((forall|b: int| 0 <= b < j ==> #[trigger] fz(
                    ((1 - first16_int) * local.step_flags[i as int]) * (local.buf[i as int][b] - local.sum_small_sig.value[b]),
                    p,
                )) && fz(((1 - first16_int) * local.step_flags[i as int]) * (local.buf[i as int][j as int] - local.sum_small_sig.value[j as int]), p)));
            }
            j = j + 1;
        }
        proof {
            assert((forall|a: int, b: int| 16 <= a < i + 1 && 0 <= b < 4 ==> #[trigger] fz(
                ((1 - first16_int) * local.step_flags[a]) * (local.buf[a][b] - local.sum_small_sig.value[b]),
                p,
            )) == ((forall|a: int, b: int| 16 <= a < i && 0 <= b < 4 ==> #[trigger] fz(
                ((1 - first16_int) * local.step_flags[a]) * (local.buf[a][b] - local.sum_small_sig.value[b]),
                p,
            )) && (forall|b: int| 0 <= b < 4 ==> #[trigger] fz(
                ((1 - first16_int) * local.step_flags[i as int]) * (local.buf[i as int][b] - local.sum_small_sig.value[b]),
                p,
            ))));
        }
        i = i + 1;
    }
}

/// The encoder holds the points of the 64 rounds, of ten coordinates.
pub open spec fn is_round_index_encoder(enc: Encoder) -> bool {
    &&& enc.wf()
    &&& enc.var_cnt == 10
    &&& enc.flag_cnt == 64
    &&& 64 + enc.offset() <= enc.points().len()
}

/// The pairs `(r, limb j of schedule word r - back)` for the rounds 16..64.
pub open spec fn sched_pairs(local: ShaCols<u32>, back: int, j: int) -> Seq<(usize, u32)> {
    Seq::new(48, |k: int| ((k + 16) as usize, local.buf[k + 16 - back][j]))
}

/// The limbs of the schedule word `back` rounds before the round of the
/// row, selected by the round index (zero on the first 16 rounds).
pub open spec fn sched_input(enc: Encoder, p: u32, local: ShaCols<u32>, back: int) -> Seq<u32> {
    Seq::new(4, |j: int| flag_combination(enc, local.round_idx@, sched_pairs(local, back, j), p) as u32)
}

/// The pairs `(r, byte j of the round constant of r)`.
pub open spec fn k_pairs(j: int) -> Seq<(usize, usize)> {
    Seq::new(64, |r: int| (r as usize, le_bytes(SHA256_K[r])[j] as usize))
}

/// The bytes of the round constant, selected by the round index.
pub open spec fn k_input(enc: Encoder, p: u32, local: ShaCols<u32>) -> Seq<u32> {
    Seq::new(4, |j: int| flag_combination(enc, local.round_idx@, vals_in_field(k_pairs(j), p), p) as u32)
}

/// The pairs `(r, limb j of schedule word r)`.
pub open spec fn w_pairs(local: ShaCols<u32>, j: int) -> Seq<(usize, u32)> {
    Seq::new(64, |r: int| (r as usize, local.buf[r][j]))
}

/// The limbs of the schedule word of the round, selected by the round index.
pub open spec fn w_input(enc: Encoder, p: u32, local: ShaCols<u32>) -> Seq<u32> {
    Seq::new(4, |j: int| flag_combination(enc, local.round_idx@, w_pairs(local, j), p) as u32)
}

/// The summands of the schedule word: words `r - 7` and `r - 16`, `σ0` and `σ1`.
pub open spec fn sched_sum_limbs(enc: Encoder, p: u32, local: ShaCols<u32>) -> Seq<Seq<u32>> {
    seq![
        sched_input(enc, p, local, 7),
        sched_input(enc, p, local, 16),
        local.small_sig0.xor3.value@,
        local.small_sig1.xor3.value@,
    ]
}

/// The summands of `T1`: `k`, `w`, `h`, `Σ1(e)` and `Ch(e, f, g)`.
pub open spec fn t1_limbs(enc: Encoder, p: u32, local: ShaCols<u32>) -> Seq<Seq<u32>> {
    seq![
        k_input(enc, p, local),
        w_input(enc, p, local),
        local.prev_seed[7]@,
        local.big_sig1.xor3.value@,
        local.ch.value@,
    ]
}

/// The constraints of the schedule gadgets.
pub open spec fn schedule_gadget_constraints(enc: Encoder, p: u32, local: ShaCols<u32>) -> bool {
    &&& small_sigma_constraints(p, local.small_sig1, 17, 19, 10)
    &&& small_sigma_constraints(p, local.small_sig0, 7, 18, 3)
    &&& add_constraints(p, sched_sum_limbs(enc, p, local), local.sum_small_sig)
}

/// The lookups of the schedule gadgets.
pub open spec fn schedule_gadget_interactions(enc: Encoder, p: u32, local: ShaCols<u32>) -> Seq<Interaction> {
    small_sigma_interactions(BUS_INDEX, sched_input(enc, p, local, 2), local.small_sig1, 17, 19, 10)
        + small_sigma_interactions(BUS_INDEX, sched_input(enc, p, local, 15), local.small_sig0, 7, 18, 3)
        + add_interactions(BUS_INDEX, sched_sum_limbs(enc, p, local), local.sum_small_sig)
}

/// A vector of integer pairs as a sequence.
fn sched_pairs_exec(local: &ShaCols<u32>, back: usize, j: usize) -> (r: Vec<(usize, u32)>)
    requires
        2 <= back <= 16,
        j < 4,
    ensures
        r@ == sched_pairs(*local, back as int, j as int),
{
    let mut v: Vec<(usize, u32)> = Vec::new();
    let mut k: usize = 0;
    while k < 48
        invariant
            k <= 48,
            2 <= back <= 16,
            j < 4,
            v@ == sched_pairs(*local, back as int, j as int).take(k as int),
        decreases 48 - k,
    {
        v.push((k + 16, local.buf[k + 16 - back][j]));
        k = k + 1;
        assert(v@ =~= sched_pairs(*local, back as int, j as int).take(k as int));
    }
    assert(v@ =~= sched_pairs(*local, back as int, j as int));
    v
}

/// The limbs of the schedule word `back` rounds before the row's round.
fn sched_input_exec(encoder: &Encoder, p: u32, local: &ShaCols<u32>, back: usize) -> (r: [u32; 4])
    requires
        is_round_index_encoder(*encoder),
        has_small_inverses(p),
        2 <= back <= 16,
    ensures
        r@ == sched_input(*encoder, p, *local, back as int),
{
    let mut r = [0u32; 4];
    let mut j: usize = 0;
    while j < 4
        invariant
            j <= 4,
            is_round_index_encoder(*encoder),
            has_small_inverses(p),
            2 <= back <= 16,
            forall|t: int| 0 <= t < j ==> #[trigger] r[t] == sched_input(*encoder, p, *local, back as int)[t],
        decreases 4 - j,
    {
        let pairs = sched_pairs_exec(local, back, j);
        assert(pairs_in_range(*encoder, pairs@));
        r[j] = encoder.flag_with_expr(&local.round_idx, pairs.as_slice(), p);
        j = j + 1;
    }
    assert(r@ =~= sched_input(*encoder, p, *local, back as int));
    r
}

/// Assert the constraints of the schedule gadgets and send their lookups.
pub fn eval_schedule_gadgets(builder: &mut ConstraintChecker, encoder: &Encoder, local: &ShaCols<u32>)
    requires
        old(builder).wf(),
        has_small_inverses(old(builder).modulus),
        is_round_index_encoder(*encoder),
    ensures
        final(builder).wf(),
        final(builder).modulus == old(builder).modulus,
        final(builder).holds == (old(builder).holds && schedule_gadget_constraints(*encoder, old(builder).modulus, *local)),
        final(builder).interactions@ == old(builder).interactions@ + schedule_gadget_interactions(
            *encoder,
            old(builder).modulus,
            *local,
        ),
{
    let p = builder.modulus;
    let in2 = sched_input_exec(encoder, p, local, 2);
    let in7 = sched_input_exec(encoder, p, local, 7);
    let in15 = sched_input_exec(encoder, p, local, 15);
    let in16 = sched_input_exec(encoder, p, local, 16);
    eval_small_sigma(builder, BUS_INDEX, in2, &local.small_sig1, 17, 19, 10);
    eval_small_sigma(builder, BUS_INDEX, in15, &local.small_sig0, 7, 18, 3);
    let inputs = [in7, in16, local.small_sig0.xor3.value, local.small_sig1.xor3.value];
    assert(inputs_limbs(inputs) =~= sched_sum_limbs(*encoder, p, *local));
    AddGadget::eval(builder, BUS_INDEX, inputs, &local.sum_small_sig);
    assert(builder.interactions@ =~= old(builder).interactions@ + schedule_gadget_interactions(*encoder, p, *local));
}

/// The constraints of the round gadgets, and the new state: `a` and `e` from
/// their sums, the other words shifted down from the state before.
pub open spec fn round_gadget_constraints(enc: Encoder, p: u32, local: ShaCols<u32>) -> bool {
    &&& big_sigma_constraints(p, local.big_sig1.rrots, 6, 11, 25)
    &&& add_constraints(p, t1_limbs(enc, p, local), local.sum_t1)
    &&& big_sigma_constraints(p, local.big_sig0.rrots, 2, 13, 22)
    &&& add_constraints(p, seq![local.big_sig0.xor3.value@, local.maj.xor3.value@], local.sum_t2)
    &&& add_constraints(p, seq![local.prev_seed[3]@, local.sum_t1.value@], local.sum_e)
    &&& add_constraints(p, seq![local.sum_t1.value@, local.sum_t2.value@], local.sum_a)
    &&& forall|i: int| 0 <= i < 4 ==> #[trigger] seed_links(p, local, i)
}

/// Limb `i` of the new state: `a` and `e` from their sums, the others shifted.
pub open spec fn seed_links(p: u32, local: ShaCols<u32>, i: int) -> bool {
    &&& fe(local.seed[0][i] as int, p) == fe(local.sum_a.value[i] as int, p)
    &&& fe(local.seed[1][i] as int, p) == fe(local.prev_seed[0][i] as int, p)
    &&& fe(local.seed[2][i] as int, p) == fe(local.prev_seed[1][i] as int, p)
    &&& fe(local.seed[3][i] as int, p) == fe(local.prev_seed[2][i] as int, p)
    &&& fe(local.seed[4][i] as int, p) == fe(local.sum_e.value[i] as int, p)
    &&& fe(local.seed[5][i] as int, p) == fe(local.prev_seed[4][i] as int, p)
    &&& fe(local.seed[6][i] as int, p) == fe(local.prev_seed[5][i] as int, p)
    &&& fe(local.seed[7][i] as int, p) == fe(local.prev_seed[6][i] as int, p)
}

/// The lookups of the round gadgets.
pub open spec fn round_gadget_interactions(enc: Encoder, p: u32, local: ShaCols<u32>) -> Seq<Interaction> {
    big_sigma_interactions(BUS_INDEX, local.prev_seed[4]@, local.big_sig1.rrots, local.big_sig1.xor3, 6, 11, 25)
        + ch_interactions(BUS_INDEX, p, local.prev_seed[4]@, local.prev_seed[5]@, local.prev_seed[6]@, local.ch)
        + add_interactions(BUS_INDEX, t1_limbs(enc, p, local), local.sum_t1) + big_sigma_interactions(
        BUS_INDEX,
        local.prev_seed[0]@,
        local.big_sig0.rrots,
        local.big_sig0.xor3,
        2,
        13,
        22,
    ) + maj_interactions(BUS_INDEX, local.prev_seed[0]@, local.prev_seed[1]@, local.prev_seed[2]@, local.maj)
        + add_interactions(BUS_INDEX, seq![local.big_sig0.xor3.value@, local.maj.xor3.value@], local.sum_t2)
        + add_interactions(BUS_INDEX, seq![local.prev_seed[3]@, local.sum_t1.value@], local.sum_e)
        + add_interactions(BUS_INDEX, seq![local.sum_t1.value@, local.sum_t2.value@], local.sum_a)
}

/// The bytes of the round constant of the row's round.
fn k_input_exec(encoder: &Encoder, p: u32, local: &ShaCols<u32>) -> (r: [u32; 4])
    requires
        is_round_index_encoder(*encoder),
        has_small_inverses(p),
    ensures
        r@ == k_input(*encoder, p, *local),
{
    let mut r = [0u32; 4];
    let mut j: usize = 0;
    while j < 4
        invariant
            j <= 4,
            is_round_index_encoder(*encoder),
            has_small_inverses(p),
            forall|t: int| 0 <= t < j ==> #[trigger] r[t] == k_input(*encoder, p, *local)[t],
        decreases 4 - j,
    {
        let mut pairs: Vec<(usize, usize)> = Vec::new();
        let mut k: usize = 0;
        while k < 64
            invariant
                k <= 64,
                j < 4,
                pairs@ == k_pairs(j as int).take(k as int),
            decreases 64 - k,
        {
            let b = u32_to_le_bytes(SHA256_K[k]);
            pairs.push((k, b[j] as usize));
            k = k + 1;
            assert(pairs@ =~= k_pairs(j as int).take(k as int));
        }
        assert(pairs@ =~= k_pairs(j as int));
        assert(pairs_in_range(*encoder, vals_in_field(pairs@, p)));
        r[j] = encoder.flag_with_val(&local.round_idx, pairs.as_slice(), p);
        j = j + 1;
    }
    assert(r@ =~= k_input(*encoder, p, *local));
    r
}

/// The limbs of the schedule word of the row's round.
fn w_input_exec(encoder: &Encoder, p: u32, local: &ShaCols<u32>) -> (r: [u32; 4])
    requires
        is_round_index_encoder(*encoder),
        has_small_inverses(p),
    ensures
        r@ == w_input(*encoder, p, *local),
{
    let mut r = [0u32; 4];
    let mut j: usize = 0;
    while j < 4
        invariant
            j <= 4,
            is_round_index_encoder(*encoder),
            has_small_inverses(p),
            forall|t: int| 0 <= t < j ==> #[trigger] r[t] == w_input(*encoder, p, *local)[t],
        decreases 4 - j,
    {
        let mut pairs: Vec<(usize, u32)> = Vec::new();
        let mut k: usize = 0;
        while k < 64
            invariant
                k <= 64,
                j < 4,
                pairs@ == w_pairs(*local, j as int).take(k as int),
            decreases 64 - k,
        {
            pairs.push((k, local.buf[k][j]));
            k = k + 1;
            assert(pairs@ =~= w_pairs(*local, j as int).take(k as int));
        }
        assert(pairs@ =~= w_pairs(*local, j as int));
        assert(pairs_in_range(*encoder, pairs@));
        r[j] = encoder.flag_with_expr(&local.round_idx, pairs.as_slice(), p);
        j = j + 1;
    }
    assert(r@ =~= w_input(*encoder, p, *local));
    r
}

/// Assert the constraints of the round gadgets and of the new state, and
/// send the lookups of the gadgets.
pub fn eval_round_gadgets(builder: &mut ConstraintChecker, encoder: &Encoder, local: &ShaCols<u32>)
    requires
        old(builder).wf(),
        has_small_inverses(old(builder).modulus),
        is_round_index_encoder(*encoder),
    ensures
        final(builder).wf(),
        final(builder).modulus == old(builder).modulus,
        final(builder).holds == (old(builder).holds && round_gadget_constraints(*encoder, old(builder).modulus, *local)),
        final(builder).interactions@ == old(builder).interactions@ + round_gadget_interactions(
            *encoder,
            old(builder).modulus,
            *local,
        ),
{
    let p = builder.modulus;
    let ghost h0 = builder.holds;
    let ghost i0 = builder.interactions@;
    BigSigma1Cols::eval(builder, BUS_INDEX, local.prev_seed[4], &local.big_sig1);
    ChooseCols::eval(builder, BUS_INDEX, local.prev_seed[4], local.prev_seed[5], local.prev_seed[6], &local.ch);
    let k = k_input_exec(encoder, p, local);
    let w = w_input_exec(encoder, p, local);
    let t1 = [k, w, local.prev_seed[7], local.big_sig1.xor3.value, local.ch.value];
    assert(inputs_limbs(t1) =~= t1_limbs(*encoder, p, *local));
    AddGadget::eval(builder, BUS_INDEX, t1, &local.sum_t1);
    BigSigma0Cols::eval(builder, BUS_INDEX, local.prev_seed[0], &local.big_sig0);
    MajorCols::eval(builder, BUS_INDEX, local.prev_seed[0], local.prev_seed[1], local.prev_seed[2], &local.maj);
    let t2 = [local.big_sig0.xor3.value, local.maj.xor3.value];
    assert(inputs_limbs(t2) =~= seq![local.big_sig0.xor3.value@, local.maj.xor3.value@]);
    AddGadget::eval(builder, BUS_INDEX, t2, &local.sum_t2);
    let te = [local.prev_seed[3], local.sum_t1.value];
    assert(inputs_limbs(te) =~= seq![local.prev_seed[3]@, local.sum_t1.value@]);
    AddGadget::eval(builder, BUS_INDEX, te, &local.sum_e);
    let ta = [local.sum_t1.value, local.sum_t2.value];
    assert(inputs_limbs(ta) =~= seq![local.sum_t1.value@, local.sum_t2.value@]);
    AddGadget::eval(builder, BUS_INDEX, ta, &local.sum_a);
    assert(builder.interactions@ =~= i0 + round_gadget_interactions(*encoder, p, *local));
    let ghost h1 = builder.holds;
    let mut i: usize = 0;
    while i < 4
        invariant
            i <= 4,
            builder.wf(),
            builder.modulus == p,
            builder.interactions@ == i0 + round_gadget_interactions(*encoder, p, *local),
            builder.holds == (h1 && forall|t: int| 0 <= t < i ==> #[trigger] seed_links(p, *local, t)),
        decreases 4 - i,
    {
        builder.assert_eq(local.seed[0][i], local.sum_a.value[i]);
        builder.assert_eq(local.seed[1][i], local.prev_seed[0][i]);
        builder.assert_eq(local.seed[2][i], local.prev_seed[1][i]);
        builder.assert_eq(local.seed[3][i], local.prev_seed[2][i]);
        builder.assert_eq(local.seed[4][i], local.sum_e.value[i]);
        builder.assert_eq(local.seed[5][i], local.prev_seed[4][i]);
        builder.assert_eq(local.seed[6][i], local.prev_seed[5][i]);
        builder.assert_eq(local.seed[7][i], local.prev_seed[6][i]);
        proof {
            assert((forall|t: int| 0 <= t < i + 1 ==> #[trigger] seed_links(p, *local, t)) == ((forall|t: int|
                0 <= t < i ==> #[trigger] seed_links(p, *local, t)) && seed_links(p, *local, i as int)));
        }
        i = i + 1;
    }
}

/// Word `i` of the final sums: the constraints of its gadget, the initial
/// chaining value on the first row, and the final hash on the last round.
pub open spec fn final_word_constraints(p: u32, local: ShaCols<u32>, is_first_row: bool, i: int) -> bool {
    &&& add_constraints(p, seq![local.seed[i]@, local.prev_block_seed[i]@], local.sum_final[i])
    &&& forall|j: int|
        0 <= j < 4 ==> (is_first_row ==> #[trigger] fe(local.prev_seed[i][j] as int, p) == fe(
            le_bytes(SHA256_H[i])[j] as int,
            p,
        ))
    &&& forall|j: int|
        0 <= j < 4 ==> #[trigger] fz(local.step_flags[63] * (local.final_hash[i][j] - local.sum_final[i].value[j]), p)
}

/// The constraints of the final sums.
pub open spec fn final_constraints(p: u32, local: ShaCols<u32>, is_first_row: bool) -> bool {
    forall|i: int| 0 <= i < 8 ==> #[trigger] final_word_constraints(p, local, is_first_row, i)
}

/// The lookups of the first `n` final sums.
pub open spec fn final_interactions(local: ShaCols<u32>, n: nat) -> Seq<Interaction>
    decreases n,
{
    if n == 0 {
        Seq::empty()
    } else {
        final_interactions(local, (n - 1) as nat) + add_interactions(
            BUS_INDEX,
            seq![local.seed[n - 1]@, local.prev_block_seed[n - 1]@],
            local.sum_final[n - 1],
        )
    }
}

/// Assert the constraints of the final sums and send their lookups.
pub fn eval_final(builder: &mut ConstraintChecker, local: &ShaCols<u32>, is_first_row: bool)
    requires
        old(builder).wf(),
    ensures
        final(builder).wf(),
        final(builder).modulus == old(builder).modulus,
        final(builder).holds == (old(builder).holds && final_constraints(old(builder).modulus, *local, is_first_row)),
        final(builder).interactions@ == old(builder).interactions@ + final_interactions(*local, 8),
{
    let p = builder.modulus;
    let ghost h0 = builder.holds;
    let ghost i0 = builder.interactions@;
    let final_step = local.step_flags[63];
    let mut i: usize = 0;
    while i < 8
        invariant
            i <= 8,
            builder.wf(),
            builder.modulus == p,
            final_step == local.step_flags[63],
            builder.interactions@ == i0 + final_interactions(*local, i as nat),
            builder.holds == (h0 && forall|t: int| 0 <= t < i ==> #[trigger] final_word_constraints(p, *local, is_first_row, t)),
        decreases 8 - i,
    {
        let ghost hi = builder.holds;
        let pair = [local.seed[i], local.prev_block_seed[i]];
        assert(inputs_limbs(pair) =~= seq![local.seed[i as int]@, local.prev_block_seed[i as int]@]);
        AddGadget::eval(builder, BUS_INDEX, pair, &local.sum_final[i]);
        let ghost ha = builder.holds;
        let h = u32_to_le_bytes(SHA256_H[i]);
        let mut j: usize = 0;
        while j < 4
            invariant
                i < 8,
                j <= 4,
                builder.wf(),
                builder.modulus == p,
                final_step == local.step_flags[63],
                h@ == le_bytes(SHA256_H[i as int]),
                builder.interactions@ == i0 + final_interactions(*local, (i + 1) as nat),
                builder.holds == (ha && (forall|b: int|
                    0 <= b < j ==> (is_first_row ==> #[trigger] fe(local.prev_seed[i as int][b] as int, p) == fe(
                        le_bytes(SHA256_H[i as int])[b] as int,
                        p,
                    ))) && (forall|b: int|
                    0 <= b < j ==> #[trigger] fz(
                        local.step_flags[63] * (local.final_hash[i as int][b] - local.sum_final[i as int].value[b]),
                        p,
                    ))),
            decreases 4 - j,
        {
            if is_first_row {
                builder.assert_eq(local.prev_seed[i][j], h[j] as u32);
            }
            let d = fsub(local.final_hash[i][j], local.sum_final[i].value[j], p);
            proof {
                lemma_fe_small(d as int, p);
                vstd::arithmetic::div_mod::lemma_mod_twice(
                    local.final_hash[i as int][j as int] - local.sum_final[i as int].value[j as int],
                    p as int,
                );
            }
            assert_zero_when(
                builder,
                final_step,
                d,
                Ghost(final_step as int),
                Ghost(local.final_hash[i as int][j as int] - local.sum_final[i as int].value[j as int]),
            );
            proof {
                assert((forall|b: int| 0 <= b < j + 1 ==> (is_first_row ==> #[trigger] fe(local.prev_seed[i as int][b] as int, p)
                    == fe(le_bytes(SHA256_H[i as int])[b] as int, p))) == ((forall|b: int|
                    0 <= b < j ==> (is_first_row ==> #[trigger] fe(local.prev_seed[i as int][b] as int, p) == fe(
                        le_bytes(SHA256_H[i as int])[b] as int,
                        p,
                    ))) && (is_first_row ==> fe(local.prev_seed[i as int][j as int] as int, p) == fe(
                    le_bytes(SHA256_H[i as int])[j as int] as int,
                    p,
                ))));
                assert((forall|b: int| 0 <= b < j + 1 ==> #[trigger] fz(
                    local.step_flags[63] * (local.final_hash[i as int][b] - local.sum_final[i as int].value[b]),
                    p,
                )) == ((forall|b: int| 0 <= b < j ==> #[trigger] fz(
                    local.step_flags[63] * (local.final_hash[i as int][b] - local.sum_final[i as int].value[b]),
                    p,
                )) && fz(local.step_flags[63] * (local.final_hash[i as int][j as int] - local.sum_final[i as int].value[j as int]), p)));
            }
            j = j + 1;
        }
        proof {
            assert((forall|t: int| 0 <= t < i + 1 ==> #[trigger] final_word_constraints(p, *local, is_first_row, t)) == ((
            forall|t: int| 0 <= t < i ==> #[trigger] final_word_constraints(p, *local, is_first_row, t))
                && final_word_constraints(p, *local, is_first_row, i as int)));
        }
        i = i + 1;
    }
}

/// The constraints of the SHA-256 AIR on the row `local` followed by `next`.
pub open spec fn sha_constraints(
    enc: Encoder,
    p: u32,
    local: ShaCols<u32>,
    next: ShaCols<u32>,
    is_first_row: bool,
    is_transition: bool,
) -> bool {
    &&& round_flag_constraints(p, local, next, is_first_row, is_transition)
    &&& state_link_constraints(p, local, next, is_transition, encoder_constraints(enc, local.round_idx@, p))
    &&& schedule_link_constraints(p, local)
    &&& schedule_gadget_constraints(enc, p, local)
    &&& round_gadget_constraints(enc, p, local)
    &&& final_constraints(p, local, is_first_row)
}

/// The lookups that the SHA-256 AIR sends for the row `local`.
pub open spec fn sha_interactions(enc: Encoder, p: u32, local: ShaCols<u32>) -> Seq<Interaction> {
    schedule_gadget_interactions(enc, p, local) + round_gadget_interactions(enc, p, local) + final_interactions(local, 8)
}

impl ShaAir {
    /// Assert the constraints of the AIR on the row `local` followed by the
    /// row `next` (`is_first_row` on the first row of the trace,
    /// `is_transition` on every row but the last), and send its lookups.
    pub fn eval(
        &self,
        builder: &mut ConstraintChecker,
        local: &ShaCols<u32>,
        next: &ShaCols<u32>,
        is_first_row: bool,
        is_transition: bool,
    )
        requires
            self.wf(),
            old(builder).wf(),
            has_small_inverses(old(builder).modulus),
        ensures
            final(builder).wf(),
            final(builder).modulus == old(builder).modulus,
            final(builder).holds == (old(builder).holds && sha_constraints(
                self.round_idx_encoder,
                old(builder).modulus,
                *local,
                *next,
                is_first_row,
                is_transition,
            )),
            final(builder).interactions@ == old(builder).interactions@ + sha_interactions(
                self.round_idx_encoder,
                old(builder).modulus,
                *local,
            ),
    {
        let ghost i0 = builder.interactions@;
        let ghost p = builder.modulus;
        eval_round_flags(builder, local, next, is_first_row, is_transition);
        eval_state_links(builder, &self.round_idx_encoder, local, next, is_transition);
        eval_schedule_links(builder, local);
        eval_schedule_gadgets(builder, &self.round_idx_encoder, local);
        eval_round_gadgets(builder, &self.round_idx_encoder, local);
        eval_final(builder, local, is_first_row);
        assert(builder.interactions@ =~= i0 + sha_interactions(self.round_idx_encoder, p, *local));
    }
}

} // verus!
