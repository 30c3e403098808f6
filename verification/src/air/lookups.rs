//! The byte lookups that the AIR's constraints send on a generated trace are
//! the requests that generating it made, so the byte table, whose
//! multiplicities the chip counted, answers each of them.
use vstd::prelude::*;

use crate::air::completeness::{
    lemma_k_w_inputs, lemma_row_round, lemma_row_schedule, lemma_row_states, lemma_rounds_len,
    lemma_sched_input, lemma_small_sigmas_zero,
};
use crate::air::constraints::{
    final_interactions, is_round_index_encoder, round_gadget_interactions, sched_input, sched_sum_limbs,
    schedule_gadget_interactions, sha_interactions, t1_limbs,
};
use crate::air::{ShaAir, BUS_INDEX};
use crate::bits_air::big_sig_air::{big_sigma_interactions, big_sigma_requests, lemma_big_sigma_complete};
use crate::bits_air::ch_air::{ch_interactions, ch_requests, lemma_ch_complete};
use crate::bits_air::maj_air::{lemma_maj_complete, maj_interactions, maj_requests};
use crate::bits_air::small_sig_air::{
    is_small_sigma_of, lemma_small_sigma_complete, small_sigma_interactions, small_sigma_requests,
};
use crate::builder::{request_key, request_keys, Interaction};
use crate::chips::byte::{range_check_requests, request_count, ByteRequest};
use crate::columns::ShaCols;
use crate::encoder::flags::has_small_inverses;
use crate::encoder::Encoder;
use crate::gadgets::add::{
    add_interactions, add_requests, add_word_bytes, is_add_of, lemma_add_complete, words_limbs, wrapping_sum,
};
use crate::generation::{
    final_requests, is_block_row, is_round_row, round_requests, sched_sig0_input, sched_sig1_input,
    sched_sum_inputs, t1_inputs, t2_inputs, block_requests, block_round_requests, chain_hash, is_trace,
    schedule_requests, schedule_row_requests, trace_requests, lemma_sum_words_small,
};
use crate::sha_spec::{rounds, schedule_word, small_sigma0, small_sigma1};
use crate::utils::byte_limbs;

verus! {

/// The keys of two sequences of requests, one after the other.
pub proof fn lemma_request_keys_add(bus: u16, a: Seq<ByteRequest>, b: Seq<ByteRequest>)
    ensures
        request_keys(bus, a + b) == request_keys(bus, a) + request_keys(bus, b),
{
    assert(request_keys(bus, a + b) =~= request_keys(bus, a) + request_keys(bus, b));
}

/// The summands of the schedule word in the order in which the constraints
/// read them: words `r - 7` and `r - 16`, `σ0` and `σ1` (zeros on the first 16 rounds).
pub open spec fn sched_eval_summands(block: Seq<u8>, r: int) -> Seq<u32> {
    let w7 = if r >= 16 {
        schedule_word(block, (r - 7) as nat)
    } else {
        0
    };
    let w16 = if r >= 16 {
        schedule_word(block, (r - 16) as nat)
    } else {
        0
    };
    seq![w7, w16, small_sigma0(sched_sig0_input(block, r)), small_sigma1(sched_sig1_input(block, r))]
}

/// The requests whose keys the constraints of the schedule gadgets send on
/// the row of round `r`.
pub open spec fn sched_eval_requests(block: Seq<u8>, r: int) -> Seq<ByteRequest> {
    small_sigma_requests(sched_sig1_input(block, r), 17, 19, 10) + small_sigma_requests(
        sched_sig0_input(block, r),
        7,
        18,
        3,
    ) + add_requests(sched_eval_summands(block, r))
}

/// The requests whose keys the constraints send on the row of round `r` of
/// the block `block` compressed from `h`.
pub open spec fn row_eval_requests(block: Seq<u8>, h: Seq<u32>, r: int) -> Seq<ByteRequest> {
    sched_eval_requests(block, r) + round_requests(rounds(h, block, r as nat), schedule_word(block, r as nat), r)
        + final_requests(rounds(h, block, (r + 1) as nat), h, 8)
}

/// The lookups of the two small sigma gadgets of a row of round `r`.
proof fn lemma_sigma_sends(enc: Encoder, p: u32, local: ShaCols<u32>, block: Seq<u8>, r: int)
    requires
        is_round_index_encoder(enc),
        has_small_inverses(p),
        p >= 0x1_0000,
        0 <= r < 64,
        local.round_idx@ == enc.flag_pt(r),
        forall|j: int| 0 <= j < 64 ==> #[trigger] local.buf[j]@ == byte_limbs(schedule_word(block, j as nat)),
        is_small_sigma_of(local.small_sig1, sched_sig1_input(block, r), 17, 19, 10),
        is_small_sigma_of(local.small_sig0, sched_sig0_input(block, r), 7, 18, 3),
    ensures
        small_sigma_interactions(BUS_INDEX, sched_input(enc, p, local, 2), local.small_sig1, 17, 19, 10) == request_keys(
            BUS_INDEX,
            small_sigma_requests(sched_sig1_input(block, r), 17, 19, 10),
        ),
        small_sigma_interactions(BUS_INDEX, sched_input(enc, p, local, 15), local.small_sig0, 7, 18, 3) == request_keys(
            BUS_INDEX,
            small_sigma_requests(sched_sig0_input(block, r), 7, 18, 3),
        ),
{
    lemma_small_sigma_complete(p, BUS_INDEX, local.small_sig1, sched_sig1_input(block, r), 17, 19, 10);
    lemma_small_sigma_complete(p, BUS_INDEX, local.small_sig0, sched_sig0_input(block, r), 7, 18, 3);
    lemma_sched_input(enc, p, local, block, r, 2);
    lemma_sched_input(enc, p, local, block, r, 15);
}

/// The lookups of the schedule sum of a row of round `r`.
proof fn lemma_sched_add_sends(enc: Encoder, p: u32, local: ShaCols<u32>, block: Seq<u8>, r: int)
    requires
        is_round_index_encoder(enc),
        has_small_inverses(p),
        p >= 0x1_0000,
        0 <= r < 64,
        local.round_idx@ == enc.flag_pt(r),
        forall|j: int| 0 <= j < 64 ==> #[trigger] local.buf[j]@ == byte_limbs(schedule_word(block, j as nat)),
        is_small_sigma_of(local.small_sig1, sched_sig1_input(block, r), 17, 19, 10),
        is_small_sigma_of(local.small_sig0, sched_sig0_input(block, r), 7, 18, 3),
        is_add_of(local.sum_small_sig, sched_sum_inputs(block, r)),
    ensures
        add_interactions(BUS_INDEX, sched_sum_limbs(enc, p, local), local.sum_small_sig) == request_keys(
            BUS_INDEX,
            add_requests(sched_eval_summands(block, r)),
        ),
{
    lemma_sched_input(enc, p, local, block, r, 7);
    lemma_sched_input(enc, p, local, block, r, 16);
    lemma_small_sigmas_zero();
    let s = sched_eval_summands(block, r);
    assert(local.small_sig0.xor3.value@ == byte_limbs(s[2]));
    assert(local.small_sig1.xor3.value@ == byte_limbs(s[3]));
    assert(sched_sum_limbs(enc, p, local) =~= words_limbs(s));
    assert(seq![s[0], s[1], s[3], s[2]] =~= sched_sum_inputs(block, r));
    crate::air::completeness::lemma_add_swap_last(local.sum_small_sig, s[0], s[1], s[3], s[2]);
    assert(seq![s[0], s[1], s[2], s[3]] =~= s);
    lemma_add_complete(p, BUS_INDEX, local.sum_small_sig, s);
}

/// The lookups of the schedule gadgets of a row of round `r`.
proof fn lemma_sched_sends(enc: Encoder, p: u32, local: ShaCols<u32>, block: Seq<u8>, h: Seq<u32>, r: int)
    requires
        is_round_index_encoder(enc),
        has_small_inverses(p),
        p >= 0x1_0000,
        0 <= r < 64,
        is_block_row(local, enc.flag_pt(r), block, h, r),
    ensures
        schedule_gadget_interactions(enc, p, local) == request_keys(BUS_INDEX, sched_eval_requests(block, r)),
{
    lemma_row_schedule(local, enc.flag_pt(r), block, h, r);
    lemma_sigma_sends(enc, p, local, block, r);
    lemma_sched_add_sends(enc, p, local, block, r);
    let i1 = sched_sig1_input(block, r);
    let i0 = sched_sig0_input(block, r);
    lemma_request_keys_add(BUS_INDEX, small_sigma_requests(i1, 17, 19, 10), small_sigma_requests(i0, 7, 18, 3));
    lemma_request_keys_add(
        BUS_INDEX,
        small_sigma_requests(i1, 17, 19, 10) + small_sigma_requests(i0, 7, 18, 3),
        add_requests(sched_eval_summands(block, r)),
    );
}

/// The lookups of `Σ1`, `Ch` and `T1` on a row of round `r`.
proof fn lemma_t1_sends(enc: Encoder, p: u32, local: ShaCols<u32>, block: Seq<u8>, st: Seq<u32>, r: int)
    requires
        is_round_index_encoder(enc),
        has_small_inverses(p),
        p >= 0x1_0000,
        0 <= r < 64,
        st.len() == 8,
        local.round_idx@ == enc.flag_pt(r),
        forall|j: int| 0 <= j < 64 ==> #[trigger] local.buf[j]@ == byte_limbs(schedule_word(block, j as nat)),
        forall|j: int| 0 <= j < 8 ==> #[trigger] local.prev_seed[j]@ == byte_limbs(st[j]),
        is_round_row(local, st, schedule_word(block, r as nat), r),
    ensures
        big_sigma_interactions(BUS_INDEX, local.prev_seed[4]@, local.big_sig1.rrots, local.big_sig1.xor3, 6, 11, 25)
            + ch_interactions(BUS_INDEX, p, local.prev_seed[4]@, local.prev_seed[5]@, local.prev_seed[6]@, local.ch)
            + add_interactions(BUS_INDEX, t1_limbs(enc, p, local), local.sum_t1) == request_keys(
            BUS_INDEX,
            big_sigma_requests(st[4], 6, 11, 25) + ch_requests(st[4], st[5], st[6]) + add_requests(
                t1_inputs(st, schedule_word(block, r as nat), r),
            ),
        ),
{
    let w = schedule_word(block, r as nat);
    lemma_big_sigma_complete(p, BUS_INDEX, local.big_sig1.rrots, local.big_sig1.xor3, st[4], 6, 11, 25);
    lemma_ch_complete(BUS_INDEX, p, local.ch, st[4], st[5], st[6]);
    lemma_k_w_inputs(enc, p, local, block, r);
    assert(t1_limbs(enc, p, local) =~= words_limbs(t1_inputs(st, w, r)));
    lemma_add_complete(p, BUS_INDEX, local.sum_t1, t1_inputs(st, w, r));
    lemma_request_keys_add(BUS_INDEX, big_sigma_requests(st[4], 6, 11, 25), ch_requests(st[4], st[5], st[6]));
    lemma_request_keys_add(
        BUS_INDEX,
        big_sigma_requests(st[4], 6, 11, 25) + ch_requests(st[4], st[5], st[6]),
        add_requests(t1_inputs(st, w, r)),
    );
}

/// The lookups of `Σ0`, `Maj`, `T2`, `e` and `a` on a row of round `r`.
proof fn lemma_t2_sends(p: u32, local: ShaCols<u32>, st: Seq<u32>, w: u32, r: int)
    requires
        p >= 0x1_0000,
        0 <= r < 64,
        st.len() == 8,
        forall|j: int| 0 <= j < 8 ==> #[trigger] local.prev_seed[j]@ == byte_limbs(st[j]),
        is_round_row(local, st, w, r),
    ensures
        big_sigma_interactions(BUS_INDEX, local.prev_seed[0]@, local.big_sig0.rrots, local.big_sig0.xor3, 2, 13, 22)
            + maj_interactions(BUS_INDEX, local.prev_seed[0]@, local.prev_seed[1]@, local.prev_seed[2]@, local.maj)
            + add_interactions(BUS_INDEX, seq![local.big_sig0.xor3.value@, local.maj.xor3.value@], local.sum_t2)
            + add_interactions(BUS_INDEX, seq![local.prev_seed[3]@, local.sum_t1.value@], local.sum_e)
            + add_interactions(BUS_INDEX, seq![local.sum_t1.value@, local.sum_t2.value@], local.sum_a) == request_keys(
            BUS_INDEX,
            big_sigma_requests(st[0], 2, 13, 22) + maj_requests(st[0], st[1], st[2]) + add_requests(t2_inputs(st))
                + add_requests(seq![st[3], wrapping_sum(t1_inputs(st, w, r))]) + add_requests(
                seq![wrapping_sum(t1_inputs(st, w, r)), wrapping_sum(t2_inputs(st))],
            ),
        ),
{
    let t1 = wrapping_sum(t1_inputs(st, w, r));
    let t2 = wrapping_sum(t2_inputs(st));
    lemma_big_sigma_complete(p, BUS_INDEX, local.big_sig0.rrots, local.big_sig0.xor3, st[0], 2, 13, 22);
    lemma_maj_complete(BUS_INDEX, local.maj, st[0], st[1], st[2]);
    assert(seq![local.big_sig0.xor3.value@, local.maj.xor3.value@] =~= words_limbs(t2_inputs(st)));
    lemma_add_complete(p, BUS_INDEX, local.sum_t2, t2_inputs(st));
    assert(seq![local.prev_seed[3]@, local.sum_t1.value@] =~= words_limbs(seq![st[3], t1]));
    lemma_add_complete(p, BUS_INDEX, local.sum_e, seq![st[3], t1]);
    assert(seq![local.sum_t1.value@, local.sum_t2.value@] =~= words_limbs(seq![t1, t2]));
    lemma_add_complete(p, BUS_INDEX, local.sum_a, seq![t1, t2]);
    let a = big_sigma_requests(st[0], 2, 13, 22);
    let b = maj_requests(st[0], st[1], st[2]);
    let c = add_requests(t2_inputs(st));
    let d = add_requests(seq![st[3], t1]);
    let e = add_requests(seq![t1, t2]);
    lemma_request_keys_add(BUS_INDEX, a, b);
    lemma_request_keys_add(BUS_INDEX, a + b, c);
    lemma_request_keys_add(BUS_INDEX, a + b + c, d);
    lemma_request_keys_add(BUS_INDEX, a + b + c + d, e);
}

/// The lookups of the round gadgets of a row of round `r`.
#[verifier::rlimit(30)]
proof fn lemma_round_sends(enc: Encoder, p: u32, local: ShaCols<u32>, block: Seq<u8>, h: Seq<u32>, r: int)
    requires
        is_round_index_encoder(enc),
        has_small_inverses(p),
        p >= 0x1_0000,
        0 <= r < 64,
        h.len() == 8,
        is_block_row(local, enc.flag_pt(r), block, h, r),
    ensures
        round_gadget_interactions(enc, p, local) == request_keys(
            BUS_INDEX,
            round_requests(rounds(h, block, r as nat), schedule_word(block, r as nat), r),
        ),
{
    let st = rounds(h, block, r as nat);
    let w = schedule_word(block, r as nat);
    lemma_rounds_len(h, block, r as nat);
    lemma_row_schedule(local, enc.flag_pt(r), block, h, r);
    lemma_row_round(local, enc.flag_pt(r), block, h, r);
    lemma_row_states(local, enc.flag_pt(r), block, h, r);
    lemma_t1_sends(enc, p, local, block, st, r);
    lemma_t2_sends(p, local, st, w, r);
    let x = big_sigma_requests(st[4], 6, 11, 25) + ch_requests(st[4], st[5], st[6]) + add_requests(t1_inputs(st, w, r));
    let t1 = wrapping_sum(t1_inputs(st, w, r));
    let t2 = wrapping_sum(t2_inputs(st));
    let y = big_sigma_requests(st[0], 2, 13, 22) + maj_requests(st[0], st[1], st[2]) + add_requests(t2_inputs(st))
        + add_requests(seq![st[3], t1]) + add_requests(seq![t1, t2]);
    lemma_request_keys_add(BUS_INDEX, x, y);
    assert(round_requests(st, w, r) =~= x + y);
}

/// The lookups of the first `n` final sums of a row of round `r`.
proof fn lemma_final_sends(local: ShaCols<u32>, st1: Seq<u32>, h: Seq<u32>, n: nat)
    requires
        n <= 8,
        forall|j: int| 0 <= j < 8 ==> #[trigger] local.seed[j]@ == byte_limbs(st1[j]),
        forall|j: int| 0 <= j < 8 ==> #[trigger] local.prev_block_seed[j]@ == byte_limbs(h[j]),
        forall|j: int| 0 <= j < 8 ==> is_add_of(#[trigger] local.sum_final[j], seq![st1[j], h[j]]),
    ensures
        final_interactions(local, n) == request_keys(BUS_INDEX, final_requests(st1, h, n)),
    decreases n,
{
    if n > 0 {
        lemma_final_sends(local, st1, h, (n - 1) as nat);
        let j = n - 1;
        assert(seq![local.seed[j]@, local.prev_block_seed[j]@] =~= words_limbs(seq![st1[j], h[j]]));
        lemma_add_complete(0x1_0000, BUS_INDEX, local.sum_final[j], seq![st1[j], h[j]]);
        lemma_request_keys_add(BUS_INDEX, final_requests(st1, h, (n - 1) as nat), add_requests(seq![st1[j], h[j]]));
    } else {
        assert(request_keys(BUS_INDEX, final_requests(st1, h, 0)) =~= Seq::<Interaction>::empty());
    }
}

/// The lookups that the constraints send on a row of round `r` are the keys
/// of the requests of that row, the summands of the schedule word taken in
/// the order in which the constraints read them.
pub proof fn lemma_row_sends(enc: Encoder, p: u32, local: ShaCols<u32>, block: Seq<u8>, h: Seq<u32>, r: int)
    requires
        is_round_index_encoder(enc),
        has_small_inverses(p),
        p >= 0x1_0000,
        0 <= r < 64,
        h.len() == 8,
        is_block_row(local, enc.flag_pt(r), block, h, r),
    ensures
        sha_interactions(enc, p, local) == request_keys(BUS_INDEX, row_eval_requests(block, h, r)),
{
    lemma_sched_sends(enc, p, local, block, h, r);
    lemma_round_sends(enc, p, local, block, h, r);
    lemma_row_states(local, enc.flag_pt(r), block, h, r);
    lemma_row_round(local, enc.flag_pt(r), block, h, r);
    lemma_final_sends(local, rounds(h, block, (r + 1) as nat), h, 8);
    let a = sched_eval_requests(block, r);
    let b = round_requests(rounds(h, block, r as nat), schedule_word(block, r as nat), r);
    let c = final_requests(rounds(h, block, (r + 1) as nat), h, 8);
    lemma_request_keys_add(BUS_INDEX, a, b);
    lemma_request_keys_add(BUS_INDEX, a + b, c);
}

/// Number of times the key `k` is sent among the interactions `s`.
pub open spec fn key_count(s: Seq<Interaction>, k: Interaction) -> nat
    decreases s.len(),
{
    if s.len() == 0 {
        0
    } else {
        key_count(s.drop_last(), k) + if s.last() == k {
            1nat
        } else {
            0nat
        }
    }
}

/// Counts of requests add up over a concatenation.
pub proof fn lemma_request_count_add(a: Seq<ByteRequest>, b: Seq<ByteRequest>, q: ByteRequest)
    ensures
        request_count(a + b, q) == request_count(a, q) + request_count(b, q),
    decreases b.len(),
{
    if b.len() == 0 {
        assert(a + b =~= a);
    } else {
        assert((a + b).drop_last() =~= a + b.drop_last());
        lemma_request_count_add(a, b.drop_last(), q);
    }
}

/// Counts of keys add up over a concatenation.
pub proof fn lemma_key_count_add(a: Seq<Interaction>, b: Seq<Interaction>, k: Interaction)
    ensures
        key_count(a + b, k) == key_count(a, k) + key_count(b, k),
    decreases b.len(),
{
    if b.len() == 0 {
        assert(a + b =~= a);
    } else {
        assert((a + b).drop_last() =~= a + b.drop_last());
        lemma_key_count_add(a, b.drop_last(), k);
    }
}

/// Distinct requests send distinct keys.
proof fn lemma_request_key_injective(bus: u16, a: ByteRequest, b: ByteRequest)
    requires
        request_key(bus, a) == request_key(bus, b),
    ensures
        a == b,
{
    let ka = request_key(bus, a);
    let kb = request_key(bus, b);
    assert(ka.fields[0] == kb.fields[0] && ka.fields[1] == kb.fields[1] && ka.fields[2] == kb.fields[2]);
    assert(a.2.code() == b.2.code());
}

/// The key of a request is sent as often as the request occurs.
pub proof fn lemma_key_count_requests(bus: u16, reqs: Seq<ByteRequest>, q: ByteRequest)
    ensures
        key_count(request_keys(bus, reqs), request_key(bus, q)) == request_count(reqs, q),
    decreases reqs.len(),
{
    if reqs.len() > 0 {
        assert(request_keys(bus, reqs).drop_last() =~= request_keys(bus, reqs.drop_last()));
        lemma_key_count_requests(bus, reqs.drop_last(), q);
        if request_key(bus, reqs.last()) == request_key(bus, q) {
            lemma_request_key_injective(bus, reqs.last(), q);
        }
    }
}

/// The range checks of the words of a sum and of the sum, word by word.
proof fn lemma_add_requests_4(s: Seq<u32>)
    requires
        s.len() == 4,
    ensures
        add_requests(s) == range_check_requests(add_word_bytes(s, 0)) + range_check_requests(add_word_bytes(s, 1))
            + range_check_requests(add_word_bytes(s, 2)) + range_check_requests(add_word_bytes(s, 3))
            + range_check_requests(add_word_bytes(s, 4)),
{
    assert(add_requests(s) =~= range_check_requests(add_word_bytes(s, 0)) + range_check_requests(add_word_bytes(s, 1))
        + range_check_requests(add_word_bytes(s, 2)) + range_check_requests(add_word_bytes(s, 3))
        + range_check_requests(add_word_bytes(s, 4)));
}

/// Swapping the last two of four summands changes the order of the range
/// checks, not how often each is requested.
proof fn lemma_add_requests_swap_count(a: u32, b: u32, c: u32, d: u32, q: ByteRequest)
    ensures
        request_count(add_requests(seq![a, b, c, d]), q) == request_count(add_requests(seq![a, b, d, c]), q),
{
    let s1 = seq![a, b, c, d];
    let s2 = seq![a, b, d, c];
    lemma_add_requests_4(s1);
    lemma_add_requests_4(s2);
    lemma_sum_words_small(a, b, c, d, 0);
    lemma_sum_words_small(a, b, d, c, 0);
    let r0 = range_check_requests(add_word_bytes(s1, 0));
    let r1 = range_check_requests(add_word_bytes(s1, 1));
    let r2 = range_check_requests(add_word_bytes(s1, 2));
    let r3 = range_check_requests(add_word_bytes(s1, 3));
    let r4 = range_check_requests(add_word_bytes(s1, 4));
    assert(add_word_bytes(s2, 4) == add_word_bytes(s1, 4));
    lemma_request_count_add(r0, r1, q);
    lemma_request_count_add(r0 + r1, r2, q);
    lemma_request_count_add(r0 + r1 + r2, r3, q);
    lemma_request_count_add(r0 + r1 + r2 + r3, r4, q);
    lemma_request_count_add(r0 + r1, r3, q);
    lemma_request_count_add(r0 + r1 + r3, r2, q);
    lemma_request_count_add(r0 + r1 + r3 + r2, r4, q);
}

/// The schedule requests of a row, read in the constraints' order, are
/// those that filling the row made.
proof fn lemma_sched_eval_count(block: Seq<u8>, r: int, q: ByteRequest)
    ensures
        request_count(sched_eval_requests(block, r), q) == request_count(schedule_row_requests(block, r), q),
{
    let i1 = sched_sig1_input(block, r);
    let i0 = sched_sig0_input(block, r);
    let s = sched_eval_summands(block, r);
    lemma_small_sigmas_zero();
    assert(crate::generation::sched_sum_inputs(block, r) =~= seq![s[0], s[1], s[3], s[2]]);
    assert(s =~= seq![s[0], s[1], s[2], s[3]]);
    lemma_add_requests_swap_count(s[0], s[1], s[2], s[3], q);
    let x = small_sigma_requests(i1, 17, 19, 10) + small_sigma_requests(i0, 7, 18, 3);
    lemma_request_count_add(x, add_requests(s), q);
    lemma_request_count_add(x, add_requests(crate::generation::sched_sum_inputs(block, r)), q);
}

/// The lookups that the constraints send on the first `k` rows, row after row.
pub open spec fn trace_sends(enc: Encoder, p: u32, rows: Seq<ShaCols<u32>>, k: nat) -> Seq<Interaction>
    decreases k,
{
    if k == 0 {
        Seq::empty()
    } else {
        trace_sends(enc, p, rows, (k - 1) as nat) + sha_interactions(enc, p, rows[k - 1])
    }
}

/// The requests, in the order in which the constraints send their keys, of
/// the first `k` rows of the trace of `blocks`.
pub open spec fn trace_eval_requests(blocks: Seq<Seq<u8>>, k: nat) -> Seq<ByteRequest>
    decreases k,
{
    if k == 0 {
        Seq::empty()
    } else {
        trace_eval_requests(blocks, (k - 1) as nat) + row_eval_requests(
            blocks[(k - 1) / 64],
            chain_hash(blocks, ((k - 1) / 64) as nat),
            (k - 1) % 64,
        )
    }
}

/// The lookups of the first `k` rows of a trace are the keys of their requests.
proof fn lemma_trace_sends_keys(enc: Encoder, p: u32, rows: Seq<ShaCols<u32>>, blocks: Seq<Seq<u8>>, k: nat)
    requires
        is_round_index_encoder(enc),
        has_small_inverses(p),
        p >= 0x1_0000,
        is_trace(rows, enc, blocks),
        k <= rows.len(),
    ensures
        trace_sends(enc, p, rows, k) == request_keys(BUS_INDEX, trace_eval_requests(blocks, k)),
    decreases k,
{
    if k == 0 {
        assert(request_keys(BUS_INDEX, trace_eval_requests(blocks, 0)) =~= Seq::<Interaction>::empty());
    } else {
        lemma_trace_sends_keys(enc, p, rows, blocks, (k - 1) as nat);
        let i = k - 1;
        let b = i / 64;
        let r = i % 64;
        assert(i == 64 * b + r);
        assert(0 <= b < blocks.len()) by (nonlinear_arith)
            requires
                i == 64 * b + r,
                0 <= r < 64,
                0 <= i < rows.len(),
                rows.len() == 64 * blocks.len(),
        ;
        assert(is_block_row(rows[64 * b + r], enc.flag_pt(r), blocks[b], chain_hash(blocks, b as nat), r));
        crate::generation::lemma_chain_hash_len(blocks, b as nat);
        lemma_row_sends(enc, p, rows[i], blocks[b], chain_hash(blocks, b as nat), r);
        lemma_request_keys_add(
            BUS_INDEX,
            trace_eval_requests(blocks, (k - 1) as nat),
            row_eval_requests(blocks[b], chain_hash(blocks, b as nat), r),
        );
    }
}

/// The requests of a row in the constraints' order count as the schedule,
/// round and final requests that filling the row made.
proof fn lemma_row_eval_count(block: Seq<u8>, h: Seq<u32>, r: int, q: ByteRequest)
    ensures
        request_count(row_eval_requests(block, h, r), q) == request_count(schedule_row_requests(block, r), q)
            + request_count(round_requests(rounds(h, block, r as nat), schedule_word(block, r as nat), r), q)
            + request_count(final_requests(rounds(h, block, (r + 1) as nat), h, 8), q),
{
    let a = sched_eval_requests(block, r);
    let c = round_requests(rounds(h, block, r as nat), schedule_word(block, r as nat), r);
    let d = final_requests(rounds(h, block, (r + 1) as nat), h, 8);
    lemma_request_count_add(a, c, q);
    lemma_request_count_add(a + c, d, q);
    lemma_sched_eval_count(block, r, q);
}

/// Within block `b`, the requests of its first `n` rows in the constraints'
/// order are those that filling them made.
#[verifier::rlimit(60)]
proof fn lemma_block_eval_count(blocks: Seq<Seq<u8>>, b: nat, n: nat, q: ByteRequest)
    requires
        n <= 64,
    ensures
        request_count(trace_eval_requests(blocks, 64 * b + n), q) == request_count(trace_eval_requests(blocks, 64 * b), q)
            + request_count(schedule_requests(blocks[b as int], n), q) + request_count(
            block_round_requests(blocks[b as int], chain_hash(blocks, b), n),
            q,
        ),
    decreases n,
{
    let block = blocks[b as int];
    let h = chain_hash(blocks, b);
    if n == 0 {
        assert(request_count(Seq::<ByteRequest>::empty(), q) == 0);
    } else {
        lemma_block_eval_count(blocks, b, (n - 1) as nat, q);
        let i = 64 * b + n - 1;
        assert(i / 64 == b && i % 64 == n - 1) by {
            vstd::arithmetic::div_mod::lemma_fundamental_div_mod_converse(i, 64, b as int, n - 1);
        }
        let r = n - 1;
        let c = round_requests(rounds(h, block, r as nat), schedule_word(block, r as nat), r);
        let d = final_requests(rounds(h, block, (r + 1) as nat), h, 8);
        let prev = trace_eval_requests(blocks, (64 * b + n - 1) as nat);
        assert(trace_eval_requests(blocks, (64 * b + n) as nat) == prev + row_eval_requests(block, h, r));
        lemma_request_count_add(prev, row_eval_requests(block, h, r), q);
        lemma_row_eval_count(block, h, r, q);
        lemma_request_count_add(schedule_requests(block, (n - 1) as nat), schedule_row_requests(block, r), q);
        lemma_request_count_add(block_round_requests(block, h, (n - 1) as nat), c, q);
        lemma_request_count_add(block_round_requests(block, h, (n - 1) as nat) + c, d, q);
    }
}

/// The requests of the first `b` blocks of rows, in the constraints' order,
/// are those that generating them made.
proof fn lemma_trace_eval_count(blocks: Seq<Seq<u8>>, b: nat, q: ByteRequest)
    ensures
        request_count(trace_eval_requests(blocks, 64 * b), q) == request_count(trace_requests(blocks, b), q),
    decreases b,
{
    if b == 0 {
        assert(request_count(Seq::<ByteRequest>::empty(), q) == 0);
    } else {
        lemma_trace_eval_count(blocks, (b - 1) as nat, q);
        lemma_block_eval_count(blocks, (b - 1) as nat, 64, q);
        assert(64 * (b - 1) + 64 == 64 * b);
        let block = blocks[b - 1];
        let h = chain_hash(blocks, (b - 1) as nat);
        reveal(block_requests);
        lemma_request_count_add(schedule_requests(block, 64), block_round_requests(block, h, 64), q);
        lemma_request_count_add(trace_requests(blocks, (b - 1) as nat), block_requests(block, h), q);
    }
}

/// The lookups of the trace balance the chip: over all the rows of a trace
/// the constraints send only keys of requests, and the key of each entry as
/// often as generating the trace requested that entry, which is what the
/// chip counts and the byte table answers.
pub proof fn lemma_trace_lookups(air: ShaAir, p: u32, rows: Seq<ShaCols<u32>>, blocks: Seq<Seq<u8>>, q: ByteRequest)
    requires
        air.wf(),
        p >= 0x1_0000,
        has_small_inverses(p),
        is_trace(rows, air.round_idx_encoder, blocks),
    ensures
        trace_sends(air.round_idx_encoder, p, rows, rows.len()) == request_keys(
            BUS_INDEX,
            trace_eval_requests(blocks, rows.len()),
        ),
        key_count(trace_sends(air.round_idx_encoder, p, rows, rows.len()), request_key(BUS_INDEX, q)) == request_count(
            trace_requests(blocks, blocks.len()),
            q,
        ),
{
    let enc = air.round_idx_encoder;
    lemma_trace_sends_keys(enc, p, rows, blocks, rows.len());
    lemma_key_count_requests(BUS_INDEX, trace_eval_requests(blocks, rows.len()), q);
    lemma_trace_eval_count(blocks, blocks.len(), q);
}

} // verus!
