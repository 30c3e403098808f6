use vstd::prelude::*;

use crate::builder::{
    fadd,
    fe,
    fmul,
    is_table_lookup,
    lookup_send,
    request_keys,
    ConstraintChecker,
    Interaction,
    send_lookup,
};
use crate::chips::byte::utils::shr_carry_spec;
use crate::chips::byte::{apply_requests, ByteLookupChip, ByteLookupOp, ByteRequest};
use crate::sha_spec::rotr;
use crate::utils::{byte_limbs, le_bytes, lemma_le_bytes_value, u32_to_byte_limbs};

verus! {

/// Columns that compute the right rotation of a word byte by byte with
/// shift-and-carry lookups.
#[derive(Clone, Copy, Debug)]
pub struct RightRotateCols<T> {
    /// The output value.
    pub value: [T; 4],
    /// The shift output of `shrcarry` on each byte of a word.
    pub shift: [T; 4],
    /// The carry output of `shrcarry` on each byte of a word.
    pub carry: [T; 4],
}

/// Number of columns of `RightRotateCols`.
pub const NUM_RIGHT_ROTATE_COLS: usize = 12;

/// Byte `j` of `x` by shifts.
pub open spec fn byte_at(x: u32, j: u32) -> u8 {
    ((x >> (8 * j)) & 0xff) as u8
}

/// The bytes of a word by shifts.
pub proof fn lemma_le_bytes_byte_at(x: u32)
    ensures
        forall|j: int| 0 <= j < 4 ==> #[trigger] le_bytes(x)[j] == byte_at(x, j as u32),
{
    assert forall|j: int| 0 <= j < 4 implies #[trigger] le_bytes(x)[j] == byte_at(x, j as u32) by {
        if j == 0 {
            assert(x >> 0u32 == x) by (bit_vector);
        }
    }
}

/// Byte `i` of `rotr(x, 8k + s)` is made of byte `i + k` of `x` shifted right
/// by `s`, and the low `s` bits of byte `i + k + 1` moved to the top.
pub proof fn lemma_rotr_byte(x: u32, k: u32, s: u32, i: u32)
    by (bit_vector)
    requires
        k < 4,
        s < 8,
        i < 4,
    ensures
        byte_at(rotr(x, (8 * k + s) as u32), i) as u32 == ((byte_at(x, ((i + k) % 4) as u32) >> (
        s as u8)) as u32) + ((byte_at(x, ((i + 1 + k) % 4) as u32) & (((1u8 << (s as u8)) as int
        - 1) as u8)) as u32) * (1u32 << (8 - s) as u32),
{
}

/// The requests that rotating `input` makes: a shift-and-carry of each
/// rotated byte, from the most significant one down.
pub open spec fn rotr_requests(input: u32, rotation: usize) -> Seq<ByteRequest> {
    let k = (rotation / 8) % 4;
    let s = (rotation % 8) as u8;
    Seq::new(4, |j: int| (le_bytes(input)[(3 - j + k) % 4], s, ByteLookupOp::ShrCarry))
}

/// The columns hold the right rotation of `input` by `rotation`.
pub open spec fn is_rotr_of(cols: RightRotateCols<u32>, input: u32, rotation: usize) -> bool {
    let k = (rotation / 8) % 4;
    let s = (rotation % 8) as u8;
    &&& forall|i: int|
        0 <= i < 4 ==> #[trigger] cols.shift[i] == shr_carry_spec(le_bytes(input)[(i + k) % 4], s).0
            as u32
    &&& forall|i: int|
        0 <= i < 4 ==> #[trigger] cols.carry[i] == shr_carry_spec(le_bytes(input)[(i + k) % 4], s).1
            as u32
    &&& cols.value@ == byte_limbs(rotr(input, rotation as u32))
}

/// The polynomial constraints of `RightRotateCols` in the field with modulus `p`:
/// each output byte is its shifted byte plus the next carry times `2^(8 - s)`.
pub open spec fn rotr_constraints(p: u32, rotation: usize, cols: RightRotateCols<u32>) -> bool {
    let mult = 1u32 << (8 - rotation % 8) as u32;
    forall|i: int|
        0 <= i < 4 ==> fe(#[trigger] cols.value[i] as int, p) == fe(
            cols.shift[i] + cols.carry[(i + 1) % 4] * mult,
            p,
        )
}

/// The lookups that the constraints of `RightRotateCols` send, for an input given as limbs.
pub open spec fn rotr_interactions(bus: u16, input: Seq<u32>, rotation: usize, cols: RightRotateCols<u32>) -> Seq<Interaction> {
    let k = (rotation / 8) % 4;
    let s = (rotation % 8) as u8;
    Seq::new(
        4,
        |j: int|
            lookup_send(
                bus,
                input[(3 - j + k) % 4],
                s as u32,
                ByteLookupOp::ShrCarry,
                cols.shift[3 - j],
                cols.carry[3 - j],
            ),
    )
}

/// The rotation is taken modulo 32, in whole bytes and remaining bits.
proof fn lemma_rotation_split(rotation: usize)
    ensures
        (rotation as u32) % 32 == 8 * ((rotation / 8) % 4) + rotation % 8,
{
    assert((rotation as u32) % 32 == 8 * ((rotation / 8) % 4) + rotation % 8) by (bit_vector);
}

impl RightRotateCols<u32> {
    /// All columns zero.
    pub fn new() -> (r: Self)
        ensures
            r.value@ == seq![0u32, 0, 0, 0],
            r.shift@ == seq![0u32, 0, 0, 0],
            r.carry@ == seq![0u32, 0, 0, 0],
    {
        let r = RightRotateCols { value: [0, 0, 0, 0], shift: [0, 0, 0, 0], carry: [0, 0, 0, 0] };
        assert(r.value@ =~= seq![0u32, 0, 0, 0]);
        assert(r.shift@ =~= seq![0u32, 0, 0, 0]);
        assert(r.carry@ =~= seq![0u32, 0, 0, 0]);
        r
    }

    pub fn nb_bytes_to_shift(rotation: usize) -> (r: usize)
        ensures
            r == rotation / 8,
    {
        rotation / 8
    }

    pub fn nb_bits_to_shift(rotation: usize) -> (r: usize)
        ensures
            r == rotation % 8,
    {
        rotation % 8
    }

    pub fn carry_multiplier(rotation: usize) -> (r: u32)
        ensures
            r == 1u32 << (8 - rotation % 8) as u32,
            r == crate::bits_air::rotr_air::carry_multiplier_of(rotation as int),
            2 <= r <= 256,
            (r == 256) == (rotation % 8 == 0),
            r & (r - 1) as u32 == 0,
    {
        let nb_bits_to_shift = Self::nb_bits_to_shift(rotation);
        let sh = (8 - nb_bits_to_shift) as u32;
        assert(1 <= sh <= 8);
        assert(2 <= (1u32 << sh) <= 256) by (bit_vector)
            requires
                1 <= sh <= 8,
        ;
        proof {
            crate::bits_air::rotr_air::lemma_carry_multiplier(rotation as int);
        }
        1 << sh
    }

    /// Fill the columns with the right rotation of `input` by `rotation`,
    /// requesting the lookups that it needs, and return the rotated word.
    pub fn populate(&mut self, lookup: &mut ByteLookupChip, input: u32, rotation: usize) -> (r: u32)
        requires
            old(lookup).wf(),
        ensures
            r == rotr(input, rotation as u32),
            is_rotr_of(*final(self), input, rotation),
            final(lookup).wf(),
            final(lookup).air == old(lookup).air,
            final(lookup).counts() == apply_requests(old(lookup).counts(), rotr_requests(input, rotation)),
    {
        let input_bytes = u32_to_byte_limbs(input);
        let expected = crate::utils::rotate_right(input, rotation as u32);

        // Compute some constants with respect to the rotation needed for the rotation.
        let nb_bytes_to_shift = Self::nb_bytes_to_shift(rotation);
        let nb_bits_to_shift = Self::nb_bits_to_shift(rotation);
        let carry_multiplier = Self::carry_multiplier(rotation);
        let ghost k = (rotation / 8) % 4;
        let ghost sh = (rotation % 8) as u8;
        proof {
            lemma_le_bytes_byte_at(input);
            lemma_le_bytes_value(input);
            lemma_rotation_split(rotation);
        }

        // Perform the byte shift.
        let input_bytes_rotated: [u32; 4] = [
            input_bytes[nb_bytes_to_shift % 4],
            input_bytes[(1 + nb_bytes_to_shift) % 4],
            input_bytes[(2 + nb_bytes_to_shift) % 4],
            input_bytes[(3 + nb_bytes_to_shift) % 4],
        ];
        assert forall|i: int| 0 <= i < 4 implies #[trigger] input_bytes_rotated[i] == le_bytes(input)[(i + k) % 4] as u32 by {
            vstd::arithmetic::div_mod::lemma_add_mod_noop(i, nb_bytes_to_shift as int, 4);
            vstd::arithmetic::div_mod::lemma_add_mod_noop(i, k as int, 4);
            vstd::arithmetic::div_mod::lemma_mod_twice(nb_bytes_to_shift as int, 4);
            assert(input_bytes_rotated[i] == input_bytes[(i + nb_bytes_to_shift) % 4]);
        }

        let ghost c0 = lookup.counts();
        let ghost reqs = rotr_requests(input, rotation);

        // For each byte, calculate the shift and carry. If it's not the first byte, calculate the
        // new byte value using the current shifted byte and the last carry.
        let mut first_shift: u32 = 0;
        let mut last_carry: u32 = 0;
        let mut i: usize = 4;
        while i > 0
            invariant
                i <= 4,
                lookup.wf(),
                lookup.air == old(lookup).air,
                reqs == rotr_requests(input, rotation),
                k == (rotation / 8) % 4,
                sh == (rotation % 8) as u8,
                nb_bits_to_shift == rotation % 8,
                carry_multiplier == 1u32 << (8 - rotation % 8) as u32,
                2 <= carry_multiplier <= 256,
                forall|j: int| 0 <= j < 4 ==> #[trigger] input_bytes_rotated[j] == le_bytes(input)[(j + k) % 4] as u32,
                lookup.counts() == apply_requests(c0, reqs.take(4 - i)),
                forall|j: int| i <= j < 4 ==> #[trigger] self.shift[j] == shr_carry_spec(le_bytes(input)[(j + k) % 4], sh).0 as u32,
                forall|j: int| i <= j < 4 ==> #[trigger] self.carry[j] == shr_carry_spec(le_bytes(input)[(j + k) % 4], sh).1 as u32,
                forall|j: int| i <= j < 3 ==> #[trigger] self.value[j] == self.shift[j] + self.carry[j + 1] * carry_multiplier,
                i < 4 ==> first_shift == self.shift[3],
                i < 4 ==> last_carry == self.carry[i as int],
                forall|j: int| i <= j < 4 ==> #[trigger] self.carry[j] < 256,
            decreases i,
        {
            i = i - 1;
            let b = input_bytes_rotated[i] as u8;
            let c = nb_bits_to_shift as u8;
            let ghost before = lookup.counts();
            let req = lookup.request(b, c, ByteLookupOp::ShrCarry);
            let shift = req[0];
            let carry = req[1];
            proof {
                assert(reqs[3 - i] == (b, c, ByteLookupOp::ShrCarry));
                assert(reqs.take(4 - i).drop_last() =~= reqs.take(3 - i));
                assert(carry as u32 * carry_multiplier <= 255 * 256) by (nonlinear_arith)
                    requires
                        carry < 256,
                        carry_multiplier <= 256,
                ;
            }

            self.shift[i] = shift as u32;
            self.carry[i] = carry as u32;

            if i == 3 {
                first_shift = self.shift[i];
            } else {
                assert(last_carry * carry_multiplier <= 255 * 256) by (nonlinear_arith)
                    requires
                        last_carry < 256,
                        carry_multiplier <= 256,
                ;
                self.value[i] = self.shift[i] + last_carry * carry_multiplier;
            }
            last_carry = self.carry[i];
        }

        // For the first byte, we didn't know the last carry so compute the rotated byte here.
        assert(last_carry * carry_multiplier <= 255 * 256) by (nonlinear_arith)
            requires
                last_carry < 256,
                carry_multiplier <= 256,
        ;
        self.value[3] = first_shift + last_carry * carry_multiplier;

        proof {
            assert(reqs.take(4) =~= reqs);
            let kk = k as u32;
            let ss = (rotation % 8) as u32;
            assert(sh & 7 == sh) by (bit_vector)
                requires
                    sh < 8,
            ;
            assert(ss as u8 == sh);
            assert((8 * kk + ss) as u32 % 32 == (rotation as u32) % 32);
            assert(rotr(input, rotation as u32) == rotr(input, (8 * kk + ss) as u32));
            lemma_le_bytes_byte_at(rotr(input, rotation as u32));
            assert forall|i: int| 0 <= i < 4 implies #[trigger] self.value@[i] == byte_limbs(rotr(input, rotation as u32))[i] by {
                lemma_rotr_byte(input, kk, ss, i as u32);
                assert(((i + 1) % 4 + k) % 4 == (i + 1 + k) % 4) by {
                    vstd::arithmetic::div_mod::lemma_add_mod_noop(i + 1, k as int, 4);
                    vstd::arithmetic::div_mod::lemma_mod_twice(i + 1, 4);
                }
                let i1 = (i + 1) % 4;
                assert(le_bytes(input)[(i + k) % 4] == byte_at(input, ((i + kk) % 4) as u32));
                assert(le_bytes(input)[(i1 + k) % 4] == byte_at(input, ((i + 1 + kk) % 4) as u32));
                assert(self.value@[i] == self.shift[i] + self.carry[i1] * carry_multiplier);
            }
            assert(self.value@ =~= byte_limbs(rotr(input, rotation as u32)));
        }
        expected
    }

    /// Assert the constraints of the right rotation of `input` (four limbs) by
    /// `rotation`, and send its shift-and-carry lookups.
    pub fn eval(
        builder: &mut ConstraintChecker,
        lookup_bus: u16,
        input: [u32; 4],
        rotation: usize,
        cols: &RightRotateCols<u32>,
    )
        requires
            old(builder).wf(),
        ensures
            final(builder).wf(),
            final(builder).modulus == old(builder).modulus,
            final(builder).holds == (old(builder).holds && rotr_constraints(
                old(builder).modulus,
                rotation,
                *cols,
            )),
            final(builder).interactions@ == old(builder).interactions@ + rotr_interactions(
                lookup_bus,
                input@,
                rotation,
                *cols,
            ),
    {
        let p = builder.modulus;
        // Compute some constants with respect to the rotation needed for the rotation.
        let nb_bytes_to_shift = Self::nb_bytes_to_shift(rotation);
        let nb_bits_to_shift = Self::nb_bits_to_shift(rotation);
        let carry_multiplier = Self::carry_multiplier(rotation);
        let ghost k = (rotation / 8) % 4;
        let ghost start = builder.interactions@;
        let ghost all = rotr_interactions(lookup_bus, input@, rotation, *cols);

        // Perform the byte shift.
        let input_bytes_rotated: [u32; 4] = [
            input[nb_bytes_to_shift % 4],
            input[(1 + nb_bytes_to_shift) % 4],
            input[(2 + nb_bytes_to_shift) % 4],
            input[(3 + nb_bytes_to_shift) % 4],
        ];
        assert forall|i: int| 0 <= i < 4 implies #[trigger] input_bytes_rotated[i] == input[(i + k) % 4] by {
            vstd::arithmetic::div_mod::lemma_add_mod_noop(i, nb_bytes_to_shift as int, 4);
            vstd::arithmetic::div_mod::lemma_add_mod_noop(i, k as int, 4);
            vstd::arithmetic::div_mod::lemma_mod_twice(nb_bytes_to_shift as int, 4);
            assert(input_bytes_rotated[i] == input[(i + nb_bytes_to_shift) % 4]);
        }

        // For each byte, send the shift-and-carry lookup; tie each output byte
        // to its shift and to the carry of the byte above.
        let mut first_shift: u32 = 0;
        let mut last_carry: u32 = 0;
        let mut i: usize = 4;
        while i > 0
            invariant
                i <= 4,
                builder.wf(),
                builder.modulus == p,
                p == old(builder).modulus,
                k == (rotation / 8) % 4,
                nb_bits_to_shift == rotation % 8,
                carry_multiplier == 1u32 << (8 - rotation % 8) as u32,
                forall|j: int| 0 <= j < 4 ==> #[trigger] input_bytes_rotated[j] == input[(j + k) % 4],
                all == rotr_interactions(lookup_bus, input@, rotation, *cols),
                builder.interactions@ == start + all.take(4 - i),
                builder.holds == (old(builder).holds && forall|j: int| i <= j < 3 ==> fe(
                    #[trigger] cols.value[j] as int,
                    p,
                ) == fe(cols.shift[j] + cols.carry[j + 1] * carry_multiplier, p)),
                i < 4 ==> first_shift == cols.shift[3],
                i < 4 ==> last_carry == cols.carry[i as int],
            decreases i,
        {
            i = i - 1;
            let b = input_bytes_rotated[i];
            let c = nb_bits_to_shift as u8;
            send_lookup(builder, lookup_bus, b, c as u32, ByteLookupOp::ShrCarry, cols.shift[i], cols.carry[i]);
            assert(all.take(4 - i) =~= all.take(3 - i).push(all[3 - i]));
            if i == 3 {
                first_shift = cols.shift[i];
            } else {
                let prod = fmul(last_carry, carry_multiplier, p);
                let rhs = fadd(cols.shift[i], prod, p);
                proof {
                    vstd::arithmetic::div_mod::lemma_add_mod_noop(cols.shift[i as int] as int, last_carry * carry_multiplier, p as int);
                    vstd::arithmetic::div_mod::lemma_mod_twice(cols.shift[i as int] as int, p as int);
                    vstd::arithmetic::div_mod::lemma_mod_twice(last_carry * carry_multiplier, p as int);
                    vstd::arithmetic::div_mod::lemma_mod_twice(cols.shift[i as int] + last_carry * carry_multiplier, p as int);
                    vstd::arithmetic::div_mod::lemma_add_mod_noop(cols.shift[i as int] as int, prod as int, p as int);
                }
                builder.assert_eq(cols.value[i], rhs);
            }
            last_carry = cols.carry[i];
        }

        // For the first byte, we didn't know the last carry so compute the rotated byte here.
        let prod = fmul(last_carry, carry_multiplier, p);
        let rhs = fadd(first_shift, prod, p);
        proof {
            vstd::arithmetic::div_mod::lemma_add_mod_noop(first_shift as int, last_carry * carry_multiplier, p as int);
            vstd::arithmetic::div_mod::lemma_mod_twice(first_shift as int, p as int);
            vstd::arithmetic::div_mod::lemma_mod_twice(last_carry * carry_multiplier, p as int);
            vstd::arithmetic::div_mod::lemma_mod_twice(first_shift + last_carry * carry_multiplier, p as int);
            vstd::arithmetic::div_mod::lemma_add_mod_noop(first_shift as int, prod as int, p as int);
        }
        builder.assert_eq(cols.value[3], rhs);
        proof {
            assert(all.take(4) =~= all);
            let phi = rotr_constraints(p, rotation, *cols);
            if builder.holds {
                assert forall|j: int| 0 <= j < 4 implies fe(#[trigger] cols.value[j] as int, p) == fe(
                    cols.shift[j] + cols.carry[(j + 1) % 4] * carry_multiplier,
                    p,
                ) by {
                    if j < 3 {
                        assert((j + 1) % 4 == j + 1);
                    }
                }
            }
        }
    }
}

/// Completeness of `RightRotateCols`: on the columns that `populate` fills,
/// every constraint holds, in every field of at least 16 bits, and the
/// constraints send exactly the keys of the requests that `populate` made,
/// each of them an entry of the byte lookup table.
pub proof fn lemma_rotr_complete(p: u32, bus: u16, cols: RightRotateCols<u32>, input: u32, rotation: usize)
    requires
        is_rotr_of(cols, input, rotation),
        p >= 0x1_0000,
    ensures
        rotr_constraints(p, rotation, cols),
        rotr_interactions(bus, byte_limbs(input), rotation, cols) == request_keys(
            bus,
            rotr_requests(input, rotation),
        ),
        forall|k: int| 0 <= k < 4 ==> is_table_lookup(bus, #[trigger] request_keys(bus, rotr_requests(input, rotation))[k]),
{
    lemma_rotr_sound_values(cols, input, rotation);
    assert(rotr_interactions(bus, byte_limbs(input), rotation, cols) =~= request_keys(
        bus,
        rotr_requests(input, rotation),
    ));
}

/// On columns whose shifts and carries are those of `input`, each output byte
/// that equals its shift plus the next carry times `2^(8 - s)` is the
/// corresponding byte of the rotated word, and conversely.
proof fn lemma_rotr_sound_values(cols: RightRotateCols<u32>, input: u32, rotation: usize)
    requires
        forall|i: int| 0 <= i < 4 ==> #[trigger] cols.shift[i] == shr_carry_spec(le_bytes(input)[(i + (rotation / 8) % 4) % 4], (rotation % 8) as u8).0 as u32,
        forall|i: int| 0 <= i < 4 ==> #[trigger] cols.carry[i] == shr_carry_spec(le_bytes(input)[(i + (rotation / 8) % 4) % 4], (rotation % 8) as u8).1 as u32,
    ensures
        forall|i: int| 0 <= i < 4 ==> #[trigger] byte_limbs(rotr(input, rotation as u32))[i] == cols.shift[i] + cols.carry[(i + 1) % 4] * (1u32 << (8 - rotation % 8) as u32),
{
    let k = (rotation / 8) % 4;
    let sh = (rotation % 8) as u8;
    let kk = k as u32;
    let ss = (rotation % 8) as u32;
    lemma_rotation_split(rotation);
    lemma_le_bytes_byte_at(input);
    assert(sh & 7 == sh) by (bit_vector)
        requires
            sh < 8,
    ;
    assert(rotr(input, rotation as u32) == rotr(input, (8 * kk + ss) as u32));
    lemma_le_bytes_byte_at(rotr(input, rotation as u32));
    assert forall|i: int| 0 <= i < 4 implies #[trigger] byte_limbs(rotr(input, rotation as u32))[i] == cols.shift[i] + cols.carry[(i + 1) % 4] * (1u32 << (8 - rotation % 8) as u32) by {
        lemma_rotr_byte(input, kk, ss, i as u32);
        assert(((i + 1) % 4 + k) % 4 == (i + 1 + k) % 4) by {
            vstd::arithmetic::div_mod::lemma_add_mod_noop(i + 1, k as int, 4);
            vstd::arithmetic::div_mod::lemma_mod_twice(i + 1, 4);
        }
        let i1 = (i + 1) % 4;
        assert(le_bytes(input)[(i + k) % 4] == byte_at(input, ((i + kk) % 4) as u32));
        assert(le_bytes(input)[(i1 + k) % 4] == byte_at(input, ((i + 1 + kk) % 4) as u32));
    }
}

/// The bus of the byte lookups of the example right-rotation AIR.
pub const BYTE_XOR_BUS: u16 = 10;

/// A one-row AIR that rotates a fixed word right by a fixed amount.
#[derive(Debug)]
pub struct ExampleAir {
    pub input: u32,
    pub rotation: usize,
}

impl ExampleAir {
    /// Number of columns.
    pub fn width(&self) -> (r: usize)
        ensures
            r == NUM_RIGHT_ROTATE_COLS,
    {
        NUM_RIGHT_ROTATE_COLS
    }

    /// The row of the rotation of `input` by `rotation`, whose lookups are
    /// counted in `byte_lookup`.
    pub fn generate_trace_rows(&self, byte_lookup: &mut ByteLookupChip, input: u32, rotation: usize) -> (r: RightRotateCols<u32>)
        requires
            old(byte_lookup).wf(),
        ensures
            is_rotr_of(r, input, rotation),
            r.value@ == byte_limbs(rotr(input, rotation as u32)),
            final(byte_lookup).wf(),
            final(byte_lookup).air == old(byte_lookup).air,
            final(byte_lookup).counts() == apply_requests(old(byte_lookup).counts(), rotr_requests(input, rotation)),
    {
        let mut row = RightRotateCols::new();
        row.populate(byte_lookup, input, rotation);
        row
    }

    /// The constraints of the rotation of the AIR's word by its amount on `local`.
    pub fn eval(&self, builder: &mut ConstraintChecker, local: &RightRotateCols<u32>)
        requires
            old(builder).wf(),
        ensures
            final(builder).wf(),
            final(builder).modulus == old(builder).modulus,
            final(builder).holds == (old(builder).holds && rotr_constraints(old(builder).modulus, self.rotation, *local)),
            final(builder).interactions@ == old(builder).interactions@ + rotr_interactions(
                BYTE_XOR_BUS,
                byte_limbs(self.input),
                self.rotation,
                *local,
            ),
    {
        let input = u32_to_byte_limbs(self.input);
        RightRotateCols::eval(builder, BYTE_XOR_BUS, input, self.rotation, local);
    }
}

/// The factor of the carry of a byte rotated by `rotation` bits:
/// `2^(8 - rotation % 8)`.
pub open spec fn carry_multiplier_of(rotation: int) -> u32 {
    1u32 << (8 - rotation % 8) as u32
}

/// The carry factor is a power of two from 2 to 256, 256 exactly on whole
/// bytes, and repeats every 8 bits of rotation.
pub proof fn lemma_carry_multiplier(rotation: int)
    ensures
        2 <= carry_multiplier_of(rotation) <= 256,
        (carry_multiplier_of(rotation) == 256) == (rotation % 8 == 0),
        carry_multiplier_of(rotation) & (carry_multiplier_of(rotation) - 1) as u32 == 0,
        carry_multiplier_of(rotation + 8) == carry_multiplier_of(rotation),
{
    let sh = (8 - rotation % 8) as u32;
    assert((rotation + 8) % 8 == rotation % 8) by {
        vstd::arithmetic::div_mod::lemma_mod_add_multiples_vanish(rotation, 8);
    }
    assert(1 <= sh <= 8);
    assert(2 <= (1u32 << sh) <= 256 && ((1u32 << sh) == 256) == (sh == 8) && (1u32 << sh) & (((1u32 << sh) - 1)
        as u32) == 0) by (bit_vector)
        requires
            1 <= sh <= 8,
    ;
}

/// Equal residues of two integers closer than the modulus are equal integers.
pub proof fn lemma_fe_eq_small(a: int, b: int, p: u32)
    requires
        p > 0,
        fe(a, p) == fe(b, p),
        -(p as int) < a - b < p,
    ensures
        a == b,
{
    let pi = p as int;
    vstd::arithmetic::div_mod::lemma_fundamental_div_mod(a, pi);
    vstd::arithmetic::div_mod::lemma_fundamental_div_mod(b, pi);
    let qa = a / pi;
    let qb = b / pi;
    assert(a - b == pi * (qa - qb)) by (nonlinear_arith)
        requires
            a == pi * qa + a % pi,
            b == pi * qb + b % pi,
            a % pi == b % pi,
    ;
    if qa - qb >= 1 {
        assert(pi * (qa - qb) >= pi) by (nonlinear_arith)
            requires
                qa - qb >= 1,
                pi > 0,
        ;
    } else if qa - qb <= -1 {
        assert(pi * (qa - qb) <= -pi) by (nonlinear_arith)
            requires
                qa - qb <= -1,
                pi > 0,
        ;
    }
}

/// The shifts and carries are those that the shift-and-carry lookups give
/// for the bytes of `input` rotated by whole bytes.
pub open spec fn rotr_lookups_hold(cols: RightRotateCols<u32>, input: u32, rotation: usize) -> bool {
    &&& forall|i: int|
        0 <= i < 4 ==> #[trigger] cols.shift[i] == shr_carry_spec(
            le_bytes(input)[(i + (rotation / 8) % 4) % 4],
            (rotation % 8) as u8,
        ).0 as u32
    &&& forall|i: int|
        0 <= i < 4 ==> #[trigger] cols.carry[i] == shr_carry_spec(
            le_bytes(input)[(i + (rotation / 8) % 4) % 4],
            (rotation % 8) as u8,
        ).1 as u32
}

/// Soundness of the rotation: where the shifts and carries are those that
/// the lookups give for the bytes of `input`, the constraints hold only if
/// every output byte (the top one too) is the byte of `input` rotated right
/// by `rotation`.
pub proof fn lemma_rotr_sound(p: u32, cols: RightRotateCols<u32>, input: u32, rotation: usize)
    requires
        p >= 0x1_0000,
        rotr_constraints(p, rotation, cols),
        rotr_lookups_hold(cols, input, rotation),
        forall|i: int| 0 <= i < 4 ==> #[trigger] cols.value[i] < p,
    ensures
        cols.value@ == byte_limbs(rotr(input, rotation as u32)),
{
    lemma_rotr_sound_values(cols, input, rotation);
    lemma_le_bytes_value(rotr(input, rotation as u32));
    assert forall|i: int| 0 <= i < 4 implies #[trigger] cols.value@[i] == byte_limbs(rotr(input, rotation as u32))[i] by {
        let b = byte_limbs(rotr(input, rotation as u32))[i];
        assert(b < 256);
        assert(fe(cols.value[i] as int, p) == fe(b as int, p));
        lemma_fe_eq_small(cols.value[i] as int, b as int, p);
    }
    assert(cols.value@ =~= byte_limbs(rotr(input, rotation as u32)));
}

} // verus!
