use vstd::prelude::*;

use rand::rngs::StdRng;

use crate::chips::byte::{
    apply_requests, lemma_apply_requests_concat, range_check_requests, ByteLookupChip, ByteRequest,
};
use crate::builder::{
    is_prime, lemma_prime_divides,
    fadd, fe, fmul, fsub, is_table_lookup, lemma_fe_add, lemma_fe_mul, lemma_fe_small, lemma_fe_sub,
    range_check_interactions, request_keys, ConstraintChecker, Interaction,
};
use crate::rng::rng_gen_range_u32;
use crate::utils::{are_bytes, byte_limbs, le_bytes, lemma_le_bytes_value, u32_to_byte_limbs, u32_to_le_bytes};

verus! {

/// A set of columns needed to compute the sum of `N` words.
#[derive(Clone, Copy, Debug)]
pub struct AddGadget<T, const N: usize> {
    /// The result of the sum.
    pub value: [T; 4],
    /// `is_carry[j][i]` is one exactly when the carry out of limb `i` is `j`.
    pub is_carry: [[T; 4]; N],
    /// The carry for the `n`th limb.
    pub carry: [T; 4],
}

/// The sum of a sequence of words, as an integer.
pub open spec fn sum_words(s: Seq<u32>) -> int
    decreases s.len(),
{
    if s.len() == 0 {
        0
    } else {
        sum_words(s.drop_last()) + s.last()
    }
}

/// The sum of a sequence of words modulo 2^32.
pub open spec fn wrapping_sum(s: Seq<u32>) -> u32 {
    (sum_words(s) % 0x1_0000_0000) as u32
}

/// The sum of limb `i` over a sequence of limb sequences.
pub open spec fn limb_col_sum(ws: Seq<Seq<u32>>, i: int) -> int
    decreases ws.len(),
{
    if ws.len() == 0 {
        0
    } else {
        limb_col_sum(ws.drop_last(), i) + ws.last()[i]
    }
}

/// The byte limbs of each word.
pub open spec fn words_limbs(s: Seq<u32>) -> Seq<Seq<u32>> {
    s.map_values(|x: u32| byte_limbs(x))
}

/// The carry out of limb `i` when adding the limb sequences `ws`.
pub open spec fn carry_out(ws: Seq<Seq<u32>>, i: nat) -> int
    decreases i,
{
    (limb_col_sum(ws, i as int) + carry_in(ws, i)) / 256
}

/// The carry into limb `i`.
pub open spec fn carry_in(ws: Seq<Seq<u32>>, i: nat) -> int
    decreases i, 0nat,
{
    if i == 0 {
        0
    } else {
        carry_out(ws, (i - 1) as nat)
    }
}

/// The sum of words is the sum over limbs of their column sums.
pub proof fn lemma_sum_by_columns(s: Seq<u32>)
    ensures
        sum_words(s) == limb_col_sum(words_limbs(s), 0) + 0x100 * limb_col_sum(words_limbs(s), 1)
            + 0x1_0000 * limb_col_sum(words_limbs(s), 2) + 0x100_0000 * limb_col_sum(words_limbs(s), 3),
    decreases s.len(),
{
    if s.len() > 0 {
        lemma_sum_by_columns(s.drop_last());
        assert(words_limbs(s).drop_last() =~= words_limbs(s.drop_last()));
        lemma_le_bytes_value(s.last());
    }
}

/// Column sums of byte limbs are bounded by the number of words.
pub proof fn lemma_limb_col_sum_bound(ws: Seq<Seq<u32>>, i: int)
    requires
        forall|k: int| 0 <= k < ws.len() ==> are_bytes(#[trigger] ws[k]),
        0 <= i < 4,
    ensures
        0 <= limb_col_sum(ws, i) <= 255 * ws.len(),
    decreases ws.len(),
{
    if ws.len() > 0 {
        assert(are_bytes(ws[ws.len() - 1]));
        lemma_limb_col_sum_bound(ws.drop_last(), i);
    }
}

/// Carries are bounded by the number of words less one.
pub proof fn lemma_carry_bound(ws: Seq<Seq<u32>>, i: nat)
    requires
        forall|k: int| 0 <= k < ws.len() ==> are_bytes(#[trigger] ws[k]),
        1 <= ws.len(),
        i < 4,
    ensures
        0 <= carry_out(ws, i) <= ws.len() - 1,
        0 <= carry_in(ws, i) <= ws.len() - 1,
    decreases i,
{
    lemma_limb_col_sum_bound(ws, i as int);
    if i > 0 {
        lemma_carry_bound(ws, (i - 1) as nat);
    }
    let n = ws.len() as int;
    let t = limb_col_sum(ws, i as int) + carry_in(ws, i);
    assert(0 <= t <= 256 * n - 1);
    assert(t / 256 <= n - 1) by (nonlinear_arith)
        requires
            0 <= t <= 256 * n - 1,
    ;
    assert(t / 256 >= 0) by (nonlinear_arith)
        requires
            0 <= t,
    ;
}

/// Long addition: the limbs `(col_sum + carry_in) % 256` are the bytes of the
/// sum modulo 2^32.
pub proof fn lemma_long_addition(s: Seq<u32>)
    ensures
        forall|i: int| 0 <= i < 4 ==> #[trigger] byte_limbs(wrapping_sum(s))[i] == (limb_col_sum(words_limbs(s), i)
            + carry_in(words_limbs(s), i as nat)) % 256,
{
    let ws = words_limbs(s);
    lemma_sum_by_columns(s);
    let c0 = limb_col_sum(ws, 0);
    let c1 = limb_col_sum(ws, 1);
    let c2 = limb_col_sum(ws, 2);
    let c3 = limb_col_sum(ws, 3);
    let k0 = carry_out(ws, 0);
    let k1 = carry_out(ws, 1);
    let k2 = carry_out(ws, 2);
    let k3 = carry_out(ws, 3);
    assert(carry_in(ws, 1) == k0);
    assert(carry_in(ws, 2) == k1);
    assert(carry_in(ws, 3) == k2);
    assert(carry_in(ws, 0) == 0);
    let v0 = c0 % 256;
    let v1 = (c1 + k0) % 256;
    let v2 = (c2 + k1) % 256;
    let v3 = (c3 + k2) % 256;
    assert(k0 == c0 / 256);
    assert(k1 == (c1 + k0) / 256);
    assert(k2 == (c2 + k1) / 256);
    assert(k3 == (c3 + k2) / 256);
    let total = sum_words(s);
    assert(total == v0 + 0x100 * v1 + 0x1_0000 * v2 + 0x100_0000 * v3 + 0x1_0000_0000 * k3) by (nonlinear_arith)
        requires
            total == c0 + 0x100 * c1 + 0x1_0000 * c2 + 0x100_0000 * c3,
            c0 == 256 * k0 + v0,
            c1 + k0 == 256 * k1 + v1,
            c2 + k1 == 256 * k2 + v2,
            c3 + k2 == 256 * k3 + v3,
    ;
    assert(0 <= v0 < 256 && 0 <= v1 < 256 && 0 <= v2 < 256 && 0 <= v3 < 256);
    let low = v0 + 0x100 * v1 + 0x1_0000 * v2 + 0x100_0000 * v3;
    assert(0 <= low < 0x1_0000_0000);
    vstd::arithmetic::div_mod::lemma_mod_multiples_vanish(k3, low, 0x1_0000_0000);
    vstd::arithmetic::div_mod::lemma_small_mod(low as nat, 0x1_0000_0000);
    assert(wrapping_sum(s) as int == low);
    let w = wrapping_sum(s);
    let bl = seq![v0 as u32, v1 as u32, v2 as u32, v3 as u32];
    assert(are_bytes(bl));
    crate::utils::lemma_limbs_value_bytes(bl, w);
}

/// The bytes of word `w` among the summands followed by their sum.
pub open spec fn add_word_bytes(s: Seq<u32>, w: int) -> Seq<u8> {
    if w < s.len() {
        le_bytes(s[w])
    } else {
        le_bytes(wrapping_sum(s))
    }
}

/// The requests that adding the words `s` makes: range checks of the bytes of
/// each summand, two at a time, then of the bytes of the sum.
pub open spec fn add_requests(s: Seq<u32>) -> Seq<ByteRequest> {
    Seq::new(2 * (s.len() + 1), |m: int| range_check_requests(add_word_bytes(s, m / 2))[m % 2])
}

/// The columns hold the sum of the words `s`.
pub open spec fn is_add_of<const N: usize>(cols: AddGadget<u32, N>, s: Seq<u32>) -> bool {
    let ws = words_limbs(s);
    &&& s.len() == N
    &&& cols.value@ == byte_limbs(wrapping_sum(s))
    &&& forall|i: int| 0 <= i < 4 ==> #[trigger] cols.carry[i] == carry_out(ws, i as nat)
    &&& forall|j: int, i: int|
        0 <= j < N && 0 <= i < 4 ==> #[trigger] cols.is_carry[j][i] == (if carry_out(ws, i as nat) == j {
            1u32
        } else {
            0u32
        })
}

/// Adding one more word to a wrapping sum.
proof fn lemma_wrapping_sum_push(s: Seq<u32>, x: u32)
    ensures
        wrapping_sum(s.push(x)) == ((wrapping_sum(s) as int + x as int) % 0x1_0000_0000) as u32,
{
    assert(s.push(x).drop_last() =~= s);
    vstd::arithmetic::div_mod::lemma_add_mod_noop(sum_words(s), x as int, 0x1_0000_0000);
    vstd::arithmetic::div_mod::lemma_mod_twice(x as int, 0x1_0000_0000);
    vstd::arithmetic::div_mod::lemma_small_mod(x as nat, 0x1_0000_0000);
}

impl<const N: usize> AddGadget<u32, N> {
    /// All columns zero.
    pub fn new() -> (r: Self)
        ensures
            forall|i: int| 0 <= i < 4 ==> #[trigger] r.value[i] == 0,
            forall|i: int| 0 <= i < 4 ==> #[trigger] r.carry[i] == 0,
            forall|j: int, i: int| 0 <= j < N && 0 <= i < 4 ==> #[trigger] r.is_carry[j][i] == 0,
    {
        AddGadget { value: [0, 0, 0, 0], is_carry: [[0u32; 4]; N], carry: [0, 0, 0, 0] }
    }

    /// Fill the columns with the sum of `inputs_u32` modulo 2^32, requesting
    /// range checks of the bytes of each summand and of the sum, and return the sum.
    pub fn populate(&mut self, lookup: &mut ByteLookupChip, inputs_u32: [u32; N]) -> (r: u32)
        requires
            old(lookup).wf(),
            1 <= N <= 256,
        ensures
            r == wrapping_sum(inputs_u32@),
            is_add_of(*final(self), inputs_u32@),
            final(lookup).wf(),
            final(lookup).air == old(lookup).air,
            final(lookup).counts() == apply_requests(old(lookup).counts(), add_requests(inputs_u32@)),
    {
        let ghost s = inputs_u32@;
        let ghost ws = words_limbs(s);
        let mut expected: u32 = 0;
        let mut k: usize = 0;
        while k < N
            invariant
                k <= N,
                s == inputs_u32@,
                expected == wrapping_sum(s.take(k as int)),
            decreases N - k,
        {
            proof {
                assert(s.take(k + 1) =~= s.take(k as int).push(s[k as int]));
                lemma_wrapping_sum_push(s.take(k as int), s[k as int]);
            }
            expected = expected.wrapping_add(inputs_u32[k]);
            k = k + 1;
        }
        assert(s.take(N as int) =~= s);
        self.value = u32_to_byte_limbs(expected);

        let mut inputs: Vec<[u8; 4]> = Vec::new();
        let mut k: usize = 0;
        while k < N
            invariant
                k <= N,
                s == inputs_u32@,
                inputs@.len() == k,
                forall|m: int| 0 <= m < k ==> #[trigger] inputs@[m]@ == le_bytes(s[m]),
            decreases N - k,
        {
            inputs.push(u32_to_le_bytes(inputs_u32[k]));
            k = k + 1;
        }

        let base: u32 = 256;
        let mut carry = [0u8; 5];
        let mut i: usize = 0;
        while i < 4
            invariant
                i <= 4,
                1 <= N <= 256,
                s == inputs_u32@,
                ws == words_limbs(s),
                base == 256,
                inputs@.len() == N,
                forall|m: int| 0 <= m < N ==> #[trigger] inputs@[m]@ == le_bytes(s[m]),
                self.value@ == byte_limbs(wrapping_sum(s)),
                forall|j: int| 0 <= j < i ==> #[trigger] carry[j] as int == carry_out(ws, j as nat),
                forall|j: int| 0 <= j < i ==> #[trigger] self.carry[j] == carry_out(ws, j as nat),
                forall|j: int, l: int|
                    0 <= j < N && 0 <= l < i ==> #[trigger] self.is_carry[j][l] == (if carry_out(ws, l as nat) == j {
                        1u32
                    } else {
                        0u32
                    }),
            decreases 4 - i,
        {
            let mut column_sum: u32 = 0;
            let mut k: usize = 0;
            while k < N
                invariant
                    k <= N,
                    N <= 256,
                    i < 4,
                    s == inputs_u32@,
                    inputs@.len() == N,
                    forall|m: int| 0 <= m < N ==> #[trigger] inputs@[m]@ == le_bytes(s[m]),
                    column_sum == limb_col_sum(words_limbs(s.take(k as int)), i as int),
                    column_sum <= 255 * k,
                decreases N - k,
            {
                proof {
                    assert(words_limbs(s.take(k + 1)).drop_last() =~= words_limbs(s.take(k as int)));
                    assert(inputs@[k as int]@ == le_bytes(s[k as int]));
                }
                column_sum = column_sum + inputs[k][i] as u32;
                k = k + 1;
            }
            proof {
                assert(s.take(N as int) =~= s);
                let bytes_ok = forall|m: int| 0 <= m < ws.len() ==> are_bytes(#[trigger] ws[m]);
                assert forall|m: int| 0 <= m < ws.len() implies are_bytes(#[trigger] ws[m]) by {
                    lemma_le_bytes_value(s[m]);
                }
                lemma_carry_bound(ws, i as nat);
            }
            if i > 0 {
                column_sum = column_sum + carry[i - 1] as u32;
            }
            assert(column_sum == limb_col_sum(ws, i as int) + carry_in(ws, i as nat));
            carry[i] = (column_sum / base) as u8;
            let mut j: usize = 0;
            while j < N
                invariant
                    j <= N,
                    N <= 256,
                    i < 4,
                    carry[i as int] as int == carry_out(ws, i as nat),
                    forall|jj: int, l: int|
                        0 <= jj < N && 0 <= l < i ==> #[trigger] self.is_carry[jj][l] == (if carry_out(ws, l as nat) == jj {
                            1u32
                        } else {
                            0u32
                        }),
                    forall|jj: int| 0 <= jj < j ==> #[trigger] self.is_carry[jj][i as int] == (if carry_out(ws, i as nat) == jj {
                        1u32
                    } else {
                        0u32
                    }),
                    self.value@ == byte_limbs(wrapping_sum(s)),
                    forall|l: int| 0 <= l < i ==> #[trigger] self.carry[l] == carry_out(ws, l as nat),
                decreases N - j,
            {
                self.is_carry[j][i] = if carry[i] == j as u8 {
                    1
                } else {
                    0
                };
                j = j + 1;
            }
            self.carry[i] = carry[i] as u32;
            i = i + 1;
        }

        // Range check the bytes of each summand and of the sum.
        let ghost c0 = lookup.counts();
        let ghost reqs = add_requests(s);
        let mut k: usize = 0;
        while k < N
            invariant
                k <= N,
                lookup.wf(),
                lookup.air == old(lookup).air,
                s == inputs_u32@,
                reqs == add_requests(s),
                inputs@.len() == N,
                forall|m: int| 0 <= m < N ==> #[trigger] inputs@[m]@ == le_bytes(s[m]),
                lookup.counts() == apply_requests(c0, reqs.take(2 * k as int)),
            decreases N - k,
        {
            proof {
                assert(reqs.take(2 * k + 2) =~= reqs.take(2 * k as int) + range_check_requests(inputs@[k as int]@));
                lemma_apply_requests_concat(c0, reqs.take(2 * k as int), range_check_requests(inputs@[k as int]@));
            }
            lookup.request_u8_range_checks(inputs[k]);
            k = k + 1;
        }
        let out = u32_to_le_bytes(expected);
        proof {
            assert(reqs =~= reqs.take(2 * N as int) + range_check_requests(out@));
            lemma_apply_requests_concat(c0, reqs.take(2 * N as int), range_check_requests(out@));
        }
        lookup.request_u8_range_checks(out);
        expected
    }
}

/// The sum of the flags of limb `i` in the first `n` rows of flags.
pub open spec fn flag_sum(flags: Seq<[u32; 4]>, i: int, n: nat) -> int
    decreases n,
{
    if n == 0 {
        0
    } else {
        flag_sum(flags, i, (n - 1) as nat) + flags[n - 1][i]
    }
}

/// The sum of the flags of limb `i` in the first `n` rows, each weighted by its row.
pub open spec fn flag_weighted(flags: Seq<[u32; 4]>, i: int, n: nat) -> int
    decreases n,
{
    if n == 0 {
        0
    } else {
        flag_weighted(flags, i, (n - 1) as nat) + flags[n - 1][i] * (n - 1)
    }
}

/// `x * (x - 1) = 0` in the field.
pub open spec fn is_bool_fe(x: u32, p: u32) -> bool {
    fe(fe(x as int, p) * fe(x - 1, p), p) == 0
}

/// The carry into limb `i`, as held by the columns.
pub open spec fn carry_prev<const N: usize>(cols: AddGadget<u32, N>, i: int) -> int {
    if i > 0 {
        cols.carry[i - 1] as int
    } else {
        0
    }
}

/// The flags of limb `i` are bits that sum to one.
pub open spec fn add_flags_ok<const N: usize>(p: u32, cols: AddGadget<u32, N>, i: int) -> bool {
    &&& forall|j: int| 0 <= j < N ==> is_bool_fe(#[trigger] cols.is_carry[j][i], p)
    &&& fe(flag_sum(cols.is_carry@, i, N as nat), p) == fe(1, p)
}

/// The carry of limb `i` is the row of its flag.
pub open spec fn add_carry_ok<const N: usize>(p: u32, cols: AddGadget<u32, N>, i: int) -> bool {
    fe(cols.carry[i] as int, p) == fe(flag_weighted(cols.is_carry@, i, N as nat), p)
}

/// Limb `i` of the sum plus 256 times its carry is the sum of limb `i` of the
/// summands plus the carry from the limb below.
pub open spec fn add_sum_ok<const N: usize>(p: u32, inputs: Seq<Seq<u32>>, cols: AddGadget<u32, N>, i: int) -> bool {
    fe(cols.carry[i] * 256, p) == fe(limb_col_sum(inputs, i) - cols.value[i] + carry_prev(cols, i), p)
}

/// The polynomial constraints of `AddGadget` in the field with modulus `p`.
pub open spec fn add_constraints<const N: usize>(p: u32, inputs: Seq<Seq<u32>>, cols: AddGadget<u32, N>) -> bool {
    forall|i: int|
        0 <= i < 4 ==> add_flags_ok(p, cols, i) && add_carry_ok(p, cols, i) && #[trigger] add_sum_ok(
            p,
            inputs,
            cols,
            i,
        )
}

/// The limbs of summand `w`, or of the sum past the summands.
pub open spec fn add_word_limbs<const N: usize>(inputs: Seq<Seq<u32>>, cols: AddGadget<u32, N>, w: int) -> Seq<u32> {
    if w < inputs.len() {
        inputs[w]
    } else {
        cols.value@
    }
}

/// The lookups that the constraints of `AddGadget` send: range checks of the
/// limbs of each summand and of the sum.
pub open spec fn add_interactions<const N: usize>(bus: u16, inputs: Seq<Seq<u32>>, cols: AddGadget<u32, N>) -> Seq<Interaction> {
    Seq::new(
        2 * (inputs.len() + 1),
        |m: int| range_check_interactions(bus, add_word_limbs(inputs, cols, m / 2))[m % 2],
    )
}

/// The limbs of an array of summands.
pub open spec fn inputs_limbs<const N: usize>(inputs: [[u32; 4]; N]) -> Seq<Seq<u32>> {
    inputs@.map_values(|a: [u32; 4]| a@)
}

impl<const N: usize> AddGadget<u32, N> {
    /// Assert the constraints of the sum of `inputs` (each four limbs) and
    /// send the range checks of the limbs of the summands and of the sum.
    pub fn eval(
        builder: &mut ConstraintChecker,
        lookup_bus: u16,
        inputs: [[u32; 4]; N],
        cols: &AddGadget<u32, N>,
    )
        requires
            old(builder).wf(),
        ensures
            final(builder).wf(),
            final(builder).modulus == old(builder).modulus,
            final(builder).holds == (old(builder).holds && add_constraints(
                old(builder).modulus,
                inputs_limbs(inputs),
                *cols,
            )),
            final(builder).interactions@ == old(builder).interactions@ + add_interactions(
                lookup_bus,
                inputs_limbs(inputs),
                *cols,
            ),
    {
        let p = builder.modulus;
        let ghost ins = inputs_limbs(inputs);
        let ghost start = builder.interactions@;
        let ghost all = add_interactions(lookup_bus, ins, *cols);
        let ghost h0 = builder.holds;

        // Range check each byte.
        let mut k: usize = 0;
        while k < N
            invariant
                k <= N,
                builder.wf(),
                builder.modulus == p,
                builder.holds == h0,
                ins == inputs_limbs(inputs),
                all == add_interactions(lookup_bus, ins, *cols),
                builder.interactions@ == start + all.take(2 * k as int),
            decreases N - k,
        {
            builder.slice_range_check_u8(lookup_bus, inputs[k].as_slice());
            assert(all.take(2 * k + 2) =~= all.take(2 * k as int) + range_check_interactions(lookup_bus, inputs[k as int]@));
            k = k + 1;
        }
        builder.slice_range_check_u8(lookup_bus, cols.value.as_slice());
        assert(all =~= all.take(2 * N as int) + range_check_interactions(lookup_bus, cols.value@));

        // Each value in is_carry is 0 or 1, and exactly one of them is 1 per limb.
        let mut i: usize = 0;
        while i < 4
            invariant
                i <= 4,
                builder.wf(),
                builder.modulus == p,
                builder.interactions@ == start + all,
                builder.holds == (h0 && forall|l: int| 0 <= l < i ==> #[trigger] add_flags_ok(p, *cols, l)),
            decreases 4 - i,
        {
            let mut is_carry_sum: u32 = 0;
            proof {
                lemma_fe_small(0, p);
            }
            let mut j: usize = 0;
            while j < N
                invariant
                    j <= N,
                    i < 4,
                    builder.wf(),
                    builder.modulus == p,
                    builder.interactions@ == start + all,
                    is_carry_sum == fe(flag_sum(cols.is_carry@, i as int, j as nat), p),
                    builder.holds == (h0 && (forall|l: int| 0 <= l < i ==> #[trigger] add_flags_ok(p, *cols, l))
                        && forall|jj: int| 0 <= jj < j ==> is_bool_fe(#[trigger] cols.is_carry[jj][i as int], p)),
                decreases N - j,
            {
                let is_carry = cols.is_carry[j][i];
                proof {
                    lemma_fe_add(flag_sum(cols.is_carry@, i as int, j as nat), is_carry as int, p);
                }
                is_carry_sum = fadd(is_carry_sum, is_carry, p);
                builder.assert_bool(is_carry);
                j = j + 1;
            }
            proof {
                lemma_fe_small(is_carry_sum as int, p);
            }
            builder.assert_eq(is_carry_sum, 1);
            proof {
                lemma_fe_small(1, p);
                assert((forall|l: int| 0 <= l < i + 1 ==> #[trigger] add_flags_ok(p, *cols, l)) == ((forall|l: int|
                    0 <= l < i ==> #[trigger] add_flags_ok(p, *cols, l)) && add_flags_ok(p, *cols, i as int)));
            }
            i = i + 1;
        }
        let ghost h1 = builder.holds;

        // Calculates carry from is_carry_{0,1,2,...,N-1}.
        let mut i: usize = 0;
        while i < 4
            invariant
                i <= 4,
                builder.wf(),
                builder.modulus == p,
                builder.interactions@ == start + all,
                builder.holds == (h1 && forall|l: int| 0 <= l < i ==> #[trigger] add_carry_ok(p, *cols, l)),
            decreases 4 - i,
        {
            let mut acc: u32 = 0;
            proof {
                lemma_fe_small(0, p);
            }
            let mut j: usize = 0;
            while j < N
                invariant
                    j <= N,
                        i < 4,
                    acc == fe(flag_weighted(cols.is_carry@, i as int, j as nat), p),
                    p >= 0x1_0000,
                decreases N - j,
            {
                // The row index as a field element.
                let coeff = (j % (p as usize)) as u32;
                let term = fmul(cols.is_carry[j][i], coeff, p);
                proof {
                    let x = cols.is_carry[j as int][i as int] as int;
                    let pi = p as int;
                    assert(coeff as int == fe(j as int, p));
                    lemma_fe_mul(x, j as int, p);
                    lemma_fe_mul(x, coeff as int, p);
                    vstd::arithmetic::div_mod::lemma_mod_twice(j as int, pi);
                    assert(term as int == fe(x * j, p));
                    lemma_fe_add(flag_weighted(cols.is_carry@, i as int, j as nat), x * j, p);
                    lemma_fe_add(flag_weighted(cols.is_carry@, i as int, j as nat), term as int, p);
                    vstd::arithmetic::div_mod::lemma_mod_twice(x * j, pi);
                }
                acc = fadd(acc, term, p);
                j = j + 1;
            }
            proof {
                lemma_fe_small(acc as int, p);
            }
            builder.assert_eq(cols.carry[i], acc);
            proof {
                assert((forall|l: int| 0 <= l < i + 1 ==> #[trigger] add_carry_ok(p, *cols, l)) == ((forall|l: int|
                    0 <= l < i ==> #[trigger] add_carry_ok(p, *cols, l)) && add_carry_ok(p, *cols, i as int)));
            }
            i = i + 1;
        }
        let ghost h2 = builder.holds;

        // Compare the sum and summands by looking at carry.
        let base: u32 = 256;
        let mut i: usize = 0;
        while i < 4
            invariant
                i <= 4,
                base == 256,
                builder.wf(),
                builder.modulus == p,
                ins == inputs_limbs(inputs),
                builder.interactions@ == start + all,
                builder.holds == (h2 && forall|l: int| 0 <= l < i ==> #[trigger] add_sum_ok(p, ins, *cols, l)),
            decreases 4 - i,
        {
            let mut overflow: u32 = 0;
            proof {
                lemma_fe_small(0, p);
            }
            let mut k: usize = 0;
            while k < N
                invariant
                    k <= N,
                    i < 4,
                    p >= 0x1_0000,
                    ins == inputs_limbs(inputs),
                    overflow == fe(limb_col_sum(ins.take(k as int), i as int), p),
                decreases N - k,
            {
                proof {
                    assert(ins.take(k + 1).drop_last() =~= ins.take(k as int));
                    lemma_fe_add(limb_col_sum(ins.take(k as int), i as int), inputs[k as int][i as int] as int, p);
                }
                overflow = fadd(overflow, inputs[k][i], p);
                k = k + 1;
            }
            assert(ins.take(N as int) =~= ins);
            let ghost cs = limb_col_sum(ins, i as int);
            proof {
                lemma_fe_sub(cs, cols.value[i as int] as int, p);
            }
            overflow = fsub(overflow, cols.value[i], p);
            if i > 0 {
                proof {
                    lemma_fe_add(cs - cols.value[i as int], cols.carry[i - 1] as int, p);
                }
                overflow = fadd(overflow, cols.carry[i - 1], p);
            }
            let lhs = fmul(cols.carry[i], base, p);
            proof {
                lemma_fe_small(256, p);
                lemma_fe_mul(cols.carry[i as int] as int, 256, p);
                lemma_fe_small(overflow as int, p);
                lemma_fe_small(lhs as int, p);
            }
            builder.assert_eq(lhs, overflow);
            proof {
                assert((forall|l: int| 0 <= l < i + 1 ==> #[trigger] add_sum_ok(p, ins, *cols, l)) == ((forall|l: int|
                    0 <= l < i ==> #[trigger] add_sum_ok(p, ins, *cols, l)) && add_sum_ok(p, ins, *cols, i as int)));
            }
            i = i + 1;
        }
        proof {
            if builder.holds {
                assert(add_constraints(p, ins, *cols));
            }
            if h0 && add_constraints(p, ins, *cols) {
                assert forall|l: int| 0 <= l < 4 implies #[trigger] add_flags_ok(p, *cols, l) by {
                    assert(add_sum_ok(p, ins, *cols, l));
                }
                assert forall|l: int| 0 <= l < 4 implies #[trigger] add_carry_ok(p, *cols, l) by {
                    assert(add_sum_ok(p, ins, *cols, l));
                }
            }
        }
    }
}

/// With one-hot flags for limb `i` (a one in row `c` only), the flags sum to
/// one and their weighted sum is `c`.
proof fn lemma_one_hot_sums<const N: usize>(cols: AddGadget<u32, N>, i: int, c: int, n: nat)
    requires
        0 <= c < N,
        n <= N,
        forall|j: int| 0 <= j < N ==> #[trigger] cols.is_carry[j][i] == (if c == j {
            1u32
        } else {
            0u32
        }),
    ensures
        flag_sum(cols.is_carry@, i, n) == (if c < n {
            1int
        } else {
            0int
        }),
        flag_weighted(cols.is_carry@, i, n) == (if c < n {
            c
        } else {
            0int
        }),
    decreases n,
{
    if n > 0 {
        lemma_one_hot_sums(cols, i, c, (n - 1) as nat);
        let f = cols.is_carry@[n - 1][i];
        assert(f == cols.is_carry[n - 1][i]);
        if c == n - 1 {
            assert(f == 1);
            assert(f * (n - 1) == n - 1);
        } else {
            assert(f == 0);
            assert(f * (n - 1) == 0);
        }
    }
}

/// Completeness of `AddGadget`: on the columns that `populate` fills, every
/// constraint holds, in every field of at least 16 bits, and the constraints
/// send exactly the keys of the range checks that `populate` requested, each
/// of them an entry of the byte lookup table.
pub proof fn lemma_add_complete<const N: usize>(p: u32, bus: u16, cols: AddGadget<u32, N>, s: Seq<u32>)
    requires
        is_add_of(cols, s),
        1 <= N <= 256,
        p >= 0x1_0000,
    ensures
        add_constraints(p, words_limbs(s), cols),
        add_interactions(bus, words_limbs(s), cols) == request_keys(bus, add_requests(s)),
        forall|k: int| 0 <= k < 2 * (N + 1) ==> is_table_lookup(bus, #[trigger] request_keys(bus, add_requests(s))[k]),
{
    let ws = words_limbs(s);
    assert forall|m: int| 0 <= m < ws.len() implies are_bytes(#[trigger] ws[m]) by {
        lemma_le_bytes_value(s[m]);
    }
    lemma_long_addition(s);
    assert forall|i: int| 0 <= i < 4 implies #[trigger] add_sum_ok(p, ws, cols, i) by {
        lemma_add_limb_complete(p, cols, s, i);
    }
    assert forall|i: int| 0 <= i < 4 implies #[trigger] add_flags_ok(p, cols, i) by {
        lemma_add_limb_complete(p, cols, s, i);
    }
    assert forall|i: int| 0 <= i < 4 implies #[trigger] add_carry_ok(p, cols, i) by {
        lemma_add_limb_complete(p, cols, s, i);
    }
    assert forall|m: int| 0 <= m < 2 * (N + 1) implies #[trigger] add_interactions(bus, ws, cols)[m] == request_keys(bus, add_requests(s))[m] by {
        let w = m / 2;
        if w < N {
            lemma_le_bytes_value(s[w]);
        } else {
            lemma_le_bytes_value(wrapping_sum(s));
        }
    }
    assert(add_interactions(bus, ws, cols) =~= request_keys(bus, add_requests(s)));
}

/// The constraints of one limb hold on the columns that `populate` fills.
proof fn lemma_add_limb_complete<const N: usize>(p: u32, cols: AddGadget<u32, N>, s: Seq<u32>, i: int)
    requires
        is_add_of(cols, s),
        1 <= N <= 256,
        p >= 0x1_0000,
        0 <= i < 4,
    ensures
        add_flags_ok(p, cols, i),
        add_carry_ok(p, cols, i),
        add_sum_ok(p, words_limbs(s), cols, i),
{
    let ws = words_limbs(s);
    assert forall|m: int| 0 <= m < ws.len() implies are_bytes(#[trigger] ws[m]) by {
        lemma_le_bytes_value(s[m]);
    }
    lemma_long_addition(s);
    lemma_carry_bound(ws, i as nat);
    let c = carry_out(ws, i as nat);
    lemma_one_hot_sums(cols, i, c, N as nat);
    assert forall|j: int| 0 <= j < N implies is_bool_fe(#[trigger] cols.is_carry[j][i], p) by {
        let x = cols.is_carry[j][i];
        if x == 0 {
            lemma_fe_small(0, p);
        } else {
            lemma_fe_small(1, p);
            lemma_fe_small(0, p);
        }
    }
    let col = limb_col_sum(ws, i);
    let cin = carry_in(ws, i as nat);
    assert(cols.value[i] == (col + cin) % 256);
    assert(c == (col + cin) / 256);
    assert(carry_prev(cols, i) == cin);
    assert(cols.carry[i] * 256 == col - cols.value[i] + carry_prev(cols, i));
}

/// The bus of the byte lookups of the example addition AIR.
pub const BYTE_XOR_BUS: u16 = 10;

/// The requests `reqs` made `n` times over.
pub open spec fn repeated_requests(reqs: Seq<ByteRequest>, n: nat) -> Seq<ByteRequest>
    decreases n,
{
    if n == 0 {
        Seq::empty()
    } else {
        repeated_requests(reqs, (n - 1) as nat) + reqs
    }
}

/// Number of rows of the example addition trace.
pub const EXAMPLE_NUM_ROWS: usize = 524288;

/// An AIR whose rows each add the same `N` words.
#[derive(Debug)]
pub struct ExampleAir<const N: usize> {
    pub inputs: [u32; N],
}

impl<const N: usize> ExampleAir<N> {
    /// Number of columns: the sum, one carry flag per summand and limb, and the carries.
    pub fn width(&self) -> (r: usize)
        requires
            4 * N + 8 <= usize::MAX,
        ensures
            r == 4 * N + 8,
    {
        4 * N + 8
    }

    /// Draw `N` words below `u32::MAX / N - 1` and fill every row with their
    /// sum; the words drawn become the AIR's inputs.
    pub fn generate_trace_rows(&mut self, rng: &mut StdRng, byte_lookup: &mut ByteLookupChip) -> (r: Vec<AddGadget<u32, N>>)
        requires
            old(byte_lookup).wf(),
            1 <= N <= 256,
        ensures
            r@.len() == EXAMPLE_NUM_ROWS,
            forall|i: int| 0 <= i < N ==> #[trigger] final(self).inputs[i] < u32::MAX / (N as u32) - 1,
            forall|i: int| 0 <= i < EXAMPLE_NUM_ROWS ==> is_add_of(#[trigger] r@[i], final(self).inputs@),
            final(byte_lookup).wf(),
            final(byte_lookup).air == old(byte_lookup).air,
            final(byte_lookup).counts() == apply_requests(
                old(byte_lookup).counts(),
                repeated_requests(add_requests(final(self).inputs@), EXAMPLE_NUM_ROWS as nat),
            ),
    {
        let mut inputs = [0u32; N];
        assert(u32::MAX / (N as u32) >= 2) by (nonlinear_arith)
            requires
                1 <= N <= 256,
        ;
        let hi: u32 = u32::MAX / (N as u32) - 1;
        let mut k: usize = 0;
        while k < N
            invariant
                k <= N,
                1 <= N <= 256,
                hi == u32::MAX / (N as u32) - 1,
                hi >= 1,
                forall|i: int| 0 <= i < k ==> #[trigger] inputs[i] < hi,
            decreases N - k,
        {
            inputs[k] = rng_gen_range_u32(rng, 0, hi);
            k = k + 1;
        }
        let ghost c0 = byte_lookup.counts();
        let mut rows: Vec<AddGadget<u32, N>> = Vec::new();
        let mut j: usize = 0;
        while j < EXAMPLE_NUM_ROWS
            invariant
                j <= EXAMPLE_NUM_ROWS,
                1 <= N <= 256,
                rows@.len() == j,
                forall|i: int| 0 <= i < j ==> is_add_of(#[trigger] rows@[i], inputs@),
                byte_lookup.wf(),
                byte_lookup.air == old(byte_lookup).air,
                byte_lookup.counts() == apply_requests(c0, repeated_requests(add_requests(inputs@), j as nat)),
            decreases EXAMPLE_NUM_ROWS - j,
        {
            let mut row = AddGadget::new();
            row.populate(byte_lookup, inputs);
            proof {
                lemma_apply_requests_concat(c0, repeated_requests(add_requests(inputs@), j as nat), add_requests(inputs@));
            }
            rows.push(row);
            j = j + 1;
        }
        self.inputs = inputs;
        rows
    }

    /// The constraints of the sum of the AIR's words on `local`.
    pub fn eval(&self, builder: &mut ConstraintChecker, local: &AddGadget<u32, N>)
        requires
            old(builder).wf(),
        ensures
            final(builder).wf(),
            final(builder).modulus == old(builder).modulus,
            final(builder).holds == (old(builder).holds && add_constraints(
                old(builder).modulus,
                words_limbs(self.inputs@),
                *local,
            )),
            final(builder).interactions@ == old(builder).interactions@ + add_interactions(
                BYTE_XOR_BUS,
                words_limbs(self.inputs@),
                *local,
            ),
    {
        let mut inputs = [[0u32; 4]; N];
        let mut k: usize = 0;
        while k < N
            invariant
                k <= N,
                forall|i: int| 0 <= i < k ==> #[trigger] inputs[i]@ == byte_limbs(self.inputs[i]),
            decreases N - k,
        {
            inputs[k] = u32_to_byte_limbs(self.inputs[k]);
            k = k + 1;
        }
        assert(inputs_limbs(inputs) =~= words_limbs(self.inputs@));
        AddGadget::eval(builder, BYTE_XOR_BUS, inputs, local);
    }
}

/// Soundness of `AddGadget`: where the summands' limbs and the sum's limbs
/// are bytes and each carry is below the number of summands, in a field
/// larger than `1024 N`, the constraints hold only if the sum's limbs are the
/// bytes of the wrapping sum of the summands (and the top carry is the
/// overflow).
pub proof fn lemma_add_sound<const N: usize>(p: u32, cols: AddGadget<u32, N>, s: Seq<u32>)
    requires
        s.len() == N,
        1 <= N,
        1024 * N < p,
        add_constraints(p, words_limbs(s), cols),
        are_bytes(cols.value@),
        forall|i: int| 0 <= i < 4 ==> #[trigger] cols.carry[i] < N,
    ensures
        cols.value@ == byte_limbs(wrapping_sum(s)),
        cols.carry[3] == sum_words(s) / 0x1_0000_0000,
{
    let ws = words_limbs(s);
    assert forall|m: int| 0 <= m < ws.len() implies are_bytes(#[trigger] ws[m]) by {
        lemma_le_bytes_value(s[m]);
    }
    let n = N as int;
    assert forall|i: int| 0 <= i < 4 implies #[trigger] cols.carry[i] * 256 == limb_col_sum(ws, i) - cols.value[i]
        + carry_prev(cols, i) by {
        assert(add_sum_ok(p, ws, cols, i));
        lemma_limb_col_sum_bound(ws, i);
        let lhs = cols.carry[i] * 256;
        let rhs = limb_col_sum(ws, i) - cols.value[i] + carry_prev(cols, i);
        assert(cols.value@[i] < 256);
        assert(0 <= lhs < 256 * n) by (nonlinear_arith)
            requires
                lhs == cols.carry[i] * 256,
                0 <= cols.carry[i] < n,
        ;
        assert(-256 < rhs < 256 * n + n) by (nonlinear_arith)
            requires
                rhs == limb_col_sum(ws, i) - cols.value[i] + carry_prev(cols, i),
                0 <= limb_col_sum(ws, i) <= 255 * n,
                0 <= cols.value[i] < 256,
                0 <= carry_prev(cols, i) < n,
        ;
        crate::bits_air::rotr_air::lemma_fe_eq_small(lhs, rhs, p);
    }
    lemma_sum_by_columns(s);
    let (c0, c1, c2, c3) = (limb_col_sum(ws, 0), limb_col_sum(ws, 1), limb_col_sum(ws, 2), limb_col_sum(ws, 3));
    let (v0, v1, v2, v3) = (cols.value[0] as int, cols.value[1] as int, cols.value[2] as int, cols.value[3] as int);
    let (k0, k1, k2, k3) = (cols.carry[0] as int, cols.carry[1] as int, cols.carry[2] as int, cols.carry[3] as int);
    assert(cols.value@[0] == cols.value[0] && cols.value@[1] == cols.value[1] && cols.value@[2] == cols.value[2]
        && cols.value@[3] == cols.value[3]);
    let total = sum_words(s);
    let low = v0 + 0x100 * v1 + 0x1_0000 * v2 + 0x100_0000 * v3;
    assert(total == low + 0x1_0000_0000 * k3) by (nonlinear_arith)
        requires
            total == c0 + 0x100 * c1 + 0x1_0000 * c2 + 0x100_0000 * c3,
            k0 * 256 == c0 - v0,
            k1 * 256 == c1 - v1 + k0,
            k2 * 256 == c2 - v2 + k1,
            k3 * 256 == c3 - v3 + k2,
            low == v0 + 0x100 * v1 + 0x1_0000 * v2 + 0x100_0000 * v3,
    ;
    assert(0 <= low < 0x1_0000_0000);
    vstd::arithmetic::div_mod::lemma_fundamental_div_mod_converse(total, 0x1_0000_0000, k3, low);
    assert(wrapping_sum(s) as int == low);
    crate::utils::lemma_limbs_value_bytes(cols.value@, wrapping_sum(s));
}

/// In a prime field, a canonical cell that is a bit in the field is 0 or 1.
proof fn lemma_bool_fe(x: u32, p: u32)
    requires
        is_prime(p as int),
        x < p,
        is_bool_fe(x, p),
    ensures
        x <= 1,
{
    let pi = p as int;
    lemma_fe_small(x as int, p);
    if x >= 1 {
        lemma_fe_small(x - 1, p);
        lemma_prime_divides(pi, x as int, x - 1);
        lemma_fe_small(x - 1, p);
    }
}

/// Bits sum to at most their number, and weighted by their rows to at most
/// the last row times their sum.
proof fn lemma_flag_bounds(flags: Seq<[u32; 4]>, i: int, n: nat)
    requires
        n <= flags.len(),
        forall|j: int| 0 <= j < n ==> #[trigger] flags[j][i] <= 1,
    ensures
        0 <= flag_sum(flags, i, n) <= n,
        0 <= flag_weighted(flags, i, n),
        n >= 1 ==> flag_weighted(flags, i, n) <= (n - 1) * flag_sum(flags, i, n),
    decreases n,
{
    if n > 0 {
        lemma_flag_bounds(flags, i, (n - 1) as nat);
        let f = flags[n - 1][i] as int;
        let w = flag_weighted(flags, i, (n - 1) as nat);
        let m = flag_sum(flags, i, (n - 1) as nat);
        assert(0 <= f * (n - 1)) by (nonlinear_arith)
            requires
                0 <= f,
                n >= 1,
        ;
        if n >= 2 {
            assert(w + f * (n - 1) <= (n - 1) * (m + f)) by (nonlinear_arith)
                requires
                    w <= (n - 2) * m,
                    0 <= m,
                    0 <= f,
                    n >= 2,
            ;
        } else {
            assert(f * 0 == 0);
        }
    }
}

/// In a prime field larger than `N`, the flag and carry constraints make
/// each carry a row of the flags: below `N`.
pub proof fn lemma_add_carries_small<const N: usize>(p: u32, cols: AddGadget<u32, N>, i: int)
    requires
        is_prime(p as int),
        N < p,
        0 <= i < 4,
        add_flags_ok(p, cols, i),
        add_carry_ok(p, cols, i),
        forall|j: int| 0 <= j < N ==> #[trigger] cols.is_carry[j][i] < p,
        cols.carry[i] < p,
    ensures
        cols.carry[i] < N,
{
    let pi = p as int;
    assert forall|j: int| 0 <= j < N implies #[trigger] cols.is_carry@[j][i] <= 1 by {
        assert(cols.is_carry@[j] == cols.is_carry[j]);
        lemma_bool_fe(cols.is_carry[j][i], p);
    }
    lemma_flag_bounds(cols.is_carry@, i, N as nat);
    let m = flag_sum(cols.is_carry@, i, N as nat);
    let w = flag_weighted(cols.is_carry@, i, N as nat);
    lemma_fe_small(m, p);
    lemma_fe_small(1, p);
    assert(m == 1);
    assert(N >= 1);
    assert(w <= N - 1);
    lemma_fe_small(w, p);
    lemma_fe_small(cols.carry[i] as int, p);
}

/// Soundness of `AddGadget` in a prime field larger than `1024 N`: on
/// canonical cells whose sum limbs are bytes, the constraints hold only if
/// the sum's limbs are the bytes of the wrapping sum of the summands.
pub proof fn lemma_add_sound_prime<const N: usize>(p: u32, cols: AddGadget<u32, N>, s: Seq<u32>)
    requires
        is_prime(p as int),
        s.len() == N,
        1 <= N,
        1024 * N < p,
        add_constraints(p, words_limbs(s), cols),
        are_bytes(cols.value@),
        forall|j: int, i: int| 0 <= j < N && 0 <= i < 4 ==> #[trigger] cols.is_carry[j][i] < p,
        forall|i: int| 0 <= i < 4 ==> #[trigger] cols.carry[i] < p,
    ensures
        cols.value@ == byte_limbs(wrapping_sum(s)),
        cols.carry[3] == sum_words(s) / 0x1_0000_0000,
{
    assert forall|i: int| 0 <= i < 4 implies #[trigger] cols.carry[i] < N by {
        assert(add_sum_ok(p, words_limbs(s), cols, i));
        lemma_add_carries_small(p, cols, i);
    }
    lemma_add_sound(p, cols, s);
}

} // verus!
