use vstd::prelude::*;

use crate::bits_air::rotr_air::{byte_at, lemma_le_bytes_byte_at};
use crate::builder::{
    fadd,
    fe,
    fmul,
    is_table_lookup,
    lookup_send,
    request_keys,
    ConstraintChecker,
    Interaction,
    send_lookup,
};
use crate::chips::byte::utils::shr_carry_spec;
use crate::chips::byte::{apply_requests, ByteLookupChip, ByteLookupOp, ByteRequest};
use crate::utils::{byte_limbs, le_bytes, lemma_le_bytes_value, u32_to_byte_limbs};

verus! {

/// Columns that compute the right shift of a word byte by byte with
/// shift-and-carry lookups.
#[derive(Clone, Copy, Debug)]
pub struct ShiftRightCols<T> {
    /// The output value.
    pub value: [T; 4],
    /// The shift output of `shrcarry` on each byte of a word.
    pub shift: [T; 4],
    /// The carry output of `shrcarry` on each byte of a word.
    pub carry: [T; 4],
}

/// Number of columns of `ShiftRightCols`.
pub const NUM_SHIFT_RIGHT_COLS: usize = 12;

/// Byte `j` of `x`, or zero above the top byte.
pub open spec fn byte_or_zero(x: u32, j: u32) -> u8 {
    if j < 4 {
        byte_at(x, j)
    } else {
        0
    }
}

/// Byte `j` of the limbs `input`, or zero above the top limb.
pub open spec fn limb_or_zero(input: Seq<u32>, j: int) -> u32 {
    if j < 4 {
        input[j]
    } else {
        0
    }
}

/// Byte `i` of `x >> (8k + s)` is made of byte `i + k` of `x` shifted right by
/// `s`, and the low `s` bits of byte `i + k + 1` moved to the top.
pub proof fn lemma_shr_byte(x: u32, k: u32, s: u32, i: u32)
    by (bit_vector)
    requires
        k < 4,
        s < 8,
        i < 4,
    ensures
        byte_at(x >> (8 * k + s) as u32, i) as u32 == ((byte_or_zero(x, (i + k) as u32) >> (s as u8)) as u32)
            + ((byte_or_zero(x, (i + 1 + k) as u32) & (((1u8 << (s as u8)) as int - 1) as u8)) as u32) * (
        1u32 << (8 - s) as u32),
{
}

/// The requests that shifting `input` makes: a shift-and-carry of each
/// shifted byte, from the most significant one down.
pub open spec fn shr_requests(input: u32, rotation: usize) -> Seq<ByteRequest> {
    let k = rotation / 8;
    let s = (rotation % 8) as u8;
    Seq::new(4, |j: int| (byte_or_zero(input, (3 - j + k) as u32), s, ByteLookupOp::ShrCarry))
}

/// The columns hold the right shift of `input` by `rotation`.
pub open spec fn is_shr_of(cols: ShiftRightCols<u32>, input: u32, rotation: usize) -> bool {
    let k = rotation / 8;
    let s = (rotation % 8) as u8;
    &&& forall|i: int|
        0 <= i < 4 ==> #[trigger] cols.shift[i] == shr_carry_spec(byte_or_zero(input, (i + k) as u32), s).0
            as u32
    &&& forall|i: int|
        0 <= i < 4 ==> #[trigger] cols.carry[i] == shr_carry_spec(byte_or_zero(input, (i + k) as u32), s).1
            as u32
    &&& cols.value@ == byte_limbs(input >> rotation as u32)
}

/// The polynomial constraints of `ShiftRightCols` in the field with modulus `p`:
/// each output byte below the top is its shifted byte plus the next carry
/// times `2^(8 - s)`, and the top byte is its shifted byte.
pub open spec fn shr_constraints(p: u32, rotation: usize, cols: ShiftRightCols<u32>) -> bool {
    let mult = 1u32 << (8 - rotation % 8) as u32;
    &&& forall|i: int|
        0 <= i < 3 ==> fe(#[trigger] cols.value[i] as int, p) == fe(cols.shift[i] + cols.carry[i + 1] * mult, p)
    &&& fe(cols.value[3] as int, p) == fe(cols.shift[3] as int, p)
}

/// The lookups that the constraints of `ShiftRightCols` send, for an input given as limbs.
pub open spec fn shr_interactions(bus: u16, input: Seq<u32>, rotation: usize, cols: ShiftRightCols<u32>) -> Seq<Interaction> {
    let k = rotation / 8;
    let s = (rotation % 8) as u8;
    Seq::new(
        4,
        |j: int|
            lookup_send(
                bus,
                limb_or_zero(input, 3 - j + k),
                s as u32,
                ByteLookupOp::ShrCarry,
                cols.shift[3 - j],
                cols.carry[3 - j],
            ),
    )
}

/// Where the bytes of `x` are its limbs, the limbs or zero are its bytes or zero.
proof fn lemma_limb_or_zero(x: u32, j: int)
    requires
        0 <= j < 16,
    ensures
        limb_or_zero(byte_limbs(x), j) == byte_or_zero(x, j as u32) as u32,
{
    lemma_le_bytes_byte_at(x);
}

impl ShiftRightCols<u32> {
    /// All columns zero.
    pub fn new() -> (r: Self)
        ensures
            r.value@ == seq![0u32, 0, 0, 0],
            r.shift@ == seq![0u32, 0, 0, 0],
            r.carry@ == seq![0u32, 0, 0, 0],
    {
        let r = ShiftRightCols { value: [0, 0, 0, 0], shift: [0, 0, 0, 0], carry: [0, 0, 0, 0] };
        assert(r.value@ =~= seq![0u32, 0, 0, 0]);
        assert(r.shift@ =~= seq![0u32, 0, 0, 0]);
        assert(r.carry@ =~= seq![0u32, 0, 0, 0]);
        r
    }

    pub fn nb_bytes_to_shift(rotation: usize) -> (r: usize)
        ensures
            r == rotation / 8,
    {
        rotation / 8
    }

    pub fn nb_bits_to_shift(rotation: usize) -> (r: usize)
        ensures
            r == rotation % 8,
    {
        rotation % 8
    }

    pub fn carry_multiplier(rotation: usize) -> (r: u32)
        ensures
            r == 1u32 << (8 - rotation % 8) as u32,
            r == crate::bits_air::rotr_air::carry_multiplier_of(rotation as int),
            2 <= r <= 256,
            (r == 256) == (rotation % 8 == 0),
            r & (r - 1) as u32 == 0,
    {
        let nb_bits_to_shift = Self::nb_bits_to_shift(rotation);
        let sh = (8 - nb_bits_to_shift) as u32;
        assert(2 <= (1u32 << sh) <= 256) by (bit_vector)
            requires
                1 <= sh <= 8,
        ;
        proof {
            crate::bits_air::rotr_air::lemma_carry_multiplier(rotation as int);
        }
        1 << sh
    }

    /// Fill the columns with the right shift of `input` by `rotation`,
    /// requesting the lookups that it needs, and return the shifted word.
    pub fn populate(&mut self, lookup: &mut ByteLookupChip, input: u32, rotation: usize) -> (r: u32)
        requires
            old(lookup).wf(),
            rotation < 32,
        ensures
            r == input >> rotation as u32,
            is_shr_of(*final(self), input, rotation),
            final(lookup).wf(),
            final(lookup).air == old(lookup).air,
            final(lookup).counts() == apply_requests(old(lookup).counts(), shr_requests(input, rotation)),
    {
        let input_bytes = u32_to_byte_limbs(input);
        let expected = input >> rotation as u32;

        // Compute some constants with respect to the rotation needed for the rotation.
        let nb_bytes_to_shift = Self::nb_bytes_to_shift(rotation);
        let nb_bits_to_shift = Self::nb_bits_to_shift(rotation);
        let carry_multiplier = Self::carry_multiplier(rotation);
        let ghost k = rotation / 8;
        let ghost sh = (rotation % 8) as u8;
        proof {
            lemma_le_bytes_byte_at(input);
            lemma_le_bytes_value(input);
        }

        let mut input_bytes_rotated: [u32; 4] = [0, 0, 0, 0];
        let mut i: usize = 0;
        while i < 4
            invariant
                i <= 4,
                nb_bytes_to_shift == k,
                k < 4,
                input_bytes@ == byte_limbs(input),
                forall|j: int| 0 <= j < 4 ==> #[trigger] le_bytes(input)[j] == byte_at(input, j as u32),
                forall|j: int| 0 <= j < i ==> #[trigger] input_bytes_rotated[j] == byte_or_zero(input, (j + k) as u32) as u32,
                forall|j: int| i <= j < 4 ==> #[trigger] input_bytes_rotated[j] == 0,
            decreases 4 - i,
        {
            if i + nb_bytes_to_shift < 4 {
                input_bytes_rotated[i] = input_bytes[(i + nb_bytes_to_shift) % 4];
            }
            i = i + 1;
        }

        let ghost c0 = lookup.counts();
        let ghost reqs = shr_requests(input, rotation);

        // For each byte, calculate the shift and carry. If it's not the first byte, calculate the
        // new byte value using the current shifted byte and the last carry.
        let mut first_shift: u32 = 0;
        let mut last_carry: u32 = 0;
        let mut i: usize = 4;
        while i > 0
            invariant
                i <= 4,
                lookup.wf(),
                lookup.air == old(lookup).air,
                reqs == shr_requests(input, rotation),
                k == rotation / 8,
                k < 4,
                sh == (rotation % 8) as u8,
                nb_bits_to_shift == rotation % 8,
                carry_multiplier == 1u32 << (8 - rotation % 8) as u32,
                2 <= carry_multiplier <= 256,
                forall|j: int| 0 <= j < 4 ==> #[trigger] input_bytes_rotated[j] == byte_or_zero(input, (j + k) as u32) as u32,
                lookup.counts() == apply_requests(c0, reqs.take(4 - i)),
                forall|j: int| i <= j < 4 ==> #[trigger] self.shift[j] == shr_carry_spec(byte_or_zero(input, (j + k) as u32), sh).0 as u32,
                forall|j: int| i <= j < 4 ==> #[trigger] self.carry[j] == shr_carry_spec(byte_or_zero(input, (j + k) as u32), sh).1 as u32,
                forall|j: int| i <= j < 3 ==> #[trigger] self.value[j] == self.shift[j] + self.carry[j + 1] * carry_multiplier,
                i < 4 ==> first_shift == self.shift[3],
                i < 4 ==> last_carry == self.carry[i as int],
                forall|j: int| i <= j < 4 ==> #[trigger] self.carry[j] < 256,
            decreases i,
        {
            i = i - 1;
            let b = input_bytes_rotated[i] as u8;
            let c = nb_bits_to_shift as u8;
            let req = lookup.request(b, c, ByteLookupOp::ShrCarry);
            let shift = req[0];
            let carry = req[1];
            proof {
                assert(b == byte_or_zero(input, (i + k) as u32));
                assert(reqs[3 - i] == (b, c, ByteLookupOp::ShrCarry));
                assert(reqs.take(4 - i).drop_last() =~= reqs.take(3 - i));
            }

            self.shift[i] = shift as u32;
            self.carry[i] = carry as u32;

            if i == 3 {
                first_shift = self.shift[i];
            } else {
                assert(last_carry * carry_multiplier <= 255 * 256) by (nonlinear_arith)
                    requires
                        last_carry < 256,
                        carry_multiplier <= 256,
                ;
                self.value[i] = self.shift[i] + last_carry * carry_multiplier;
            }
            last_carry = self.carry[i];
        }

        // The top byte has no byte above it to take a carry from.
        self.value[3] = first_shift;

        proof {
            assert(reqs.take(4) =~= reqs);
            lemma_shr_sound_values(*self, input, rotation);
            assert(self.value@ =~= byte_limbs(input >> rotation as u32));
        }
        expected
    }

    /// Assert the constraints of the right shift of `input` (four limbs) by
    /// `rotation`, and send its shift-and-carry lookups.
    pub fn eval(
        builder: &mut ConstraintChecker,
        lookup_bus: u16,
        input: [u32; 4],
        rotation: usize,
        cols: &ShiftRightCols<u32>,
    )
        requires
            old(builder).wf(),
            rotation < 32,
        ensures
            final(builder).wf(),
            final(builder).modulus == old(builder).modulus,
            final(builder).holds == (old(builder).holds && shr_constraints(
                old(builder).modulus,
                rotation,
                *cols,
            )),
            final(builder).interactions@ == old(builder).interactions@ + shr_interactions(
                lookup_bus,
                input@,
                rotation,
                *cols,
            ),
    {
        let p = builder.modulus;
        let nb_bytes_to_shift = Self::nb_bytes_to_shift(rotation);
        let nb_bits_to_shift = Self::nb_bits_to_shift(rotation);
        let carry_multiplier = Self::carry_multiplier(rotation);
        let ghost k = rotation / 8;
        let ghost start = builder.interactions@;
        let ghost all = shr_interactions(lookup_bus, input@, rotation, *cols);

        // Perform the byte shift.
        let mut input_bytes_rotated: [u32; 4] = [0, 0, 0, 0];
        let mut i: usize = 0;
        while i < 4
            invariant
                i <= 4,
                nb_bytes_to_shift == k,
                k < 4,
                forall|j: int| 0 <= j < i ==> #[trigger] input_bytes_rotated[j] == limb_or_zero(input@, j + k),
                forall|j: int| i <= j < 4 ==> #[trigger] input_bytes_rotated[j] == 0,
            decreases 4 - i,
        {
            if i + nb_bytes_to_shift < 4 {
                input_bytes_rotated[i] = input[(i + nb_bytes_to_shift) % 4];
            }
            i = i + 1;
        }

        let mut first_shift: u32 = 0;
        let mut last_carry: u32 = 0;
        let mut i: usize = 4;
        while i > 0
            invariant
                i <= 4,
                builder.wf(),
                builder.modulus == p,
                p == old(builder).modulus,
                k == rotation / 8,
                nb_bits_to_shift == rotation % 8,
                carry_multiplier == 1u32 << (8 - rotation % 8) as u32,
                forall|j: int| 0 <= j < 4 ==> #[trigger] input_bytes_rotated[j] == limb_or_zero(input@, j + k),
                all == shr_interactions(lookup_bus, input@, rotation, *cols),
                builder.interactions@ == start + all.take(4 - i),
                builder.holds == (old(builder).holds && forall|j: int| i <= j < 3 ==> fe(
                    #[trigger] cols.value[j] as int,
                    p,
                ) == fe(cols.shift[j] + cols.carry[j + 1] * carry_multiplier, p)),
                i < 4 ==> first_shift == cols.shift[3],
                i < 4 ==> last_carry == cols.carry[i as int],
            decreases i,
        {
            i = i - 1;
            let b = input_bytes_rotated[i];
            let c = nb_bits_to_shift as u8;
            send_lookup(builder, lookup_bus, b, c as u32, ByteLookupOp::ShrCarry, cols.shift[i], cols.carry[i]);
            assert(all.take(4 - i) =~= all.take(3 - i).push(all[3 - i]));
            if i == 3 {
                first_shift = cols.shift[i];
            } else {
                let prod = fmul(last_carry, carry_multiplier, p);
                let rhs = fadd(cols.shift[i], prod, p);
                proof {
                    vstd::arithmetic::div_mod::lemma_add_mod_noop(cols.shift[i as int] as int, last_carry * carry_multiplier, p as int);
                    vstd::arithmetic::div_mod::lemma_mod_twice(cols.shift[i as int] as int, p as int);
                    vstd::arithmetic::div_mod::lemma_mod_twice(last_carry * carry_multiplier, p as int);
                    vstd::arithmetic::div_mod::lemma_mod_twice(cols.shift[i as int] + last_carry * carry_multiplier, p as int);
                    vstd::arithmetic::div_mod::lemma_add_mod_noop(cols.shift[i as int] as int, prod as int, p as int);
                }
                builder.assert_eq(cols.value[i], rhs);
            }
            last_carry = cols.carry[i];
        }

        // The top byte has no byte above it to take a carry from.
        builder.assert_eq(cols.value[3], first_shift);
        assert(all.take(4) =~= all);
    }
}

/// On columns whose shifts and carries are those of `input`, each output byte
/// below the top that equals its shift plus the next carry times `2^(8 - s)`,
/// and a top byte that equals its shift, are the bytes of the shifted word.
proof fn lemma_shr_sound_values(cols: ShiftRightCols<u32>, input: u32, rotation: usize)
    requires
        rotation < 32,
        forall|i: int| 0 <= i < 4 ==> #[trigger] cols.shift[i] == shr_carry_spec(byte_or_zero(input, (i + rotation / 8) as u32), (rotation % 8) as u8).0 as u32,
        forall|i: int| 0 <= i < 4 ==> #[trigger] cols.carry[i] == shr_carry_spec(byte_or_zero(input, (i + rotation / 8) as u32), (rotation % 8) as u8).1 as u32,
    ensures
        forall|i: int| 0 <= i < 3 ==> #[trigger] byte_limbs(input >> rotation as u32)[i] == cols.shift[i] + cols.carry[i + 1] * (1u32 << (8 - rotation % 8) as u32),
        byte_limbs(input >> rotation as u32)[3] == cols.shift[3],
{
    let k = rotation / 8;
    let sh = (rotation % 8) as u8;
    let kk = k as u32;
    let ss = (rotation % 8) as u32;
    assert(sh & 7 == sh) by (bit_vector)
        requires
            sh < 8,
    ;
    assert((8 * kk + ss) as u32 == rotation as u32);
    lemma_le_bytes_byte_at(input >> rotation as u32);
    assert forall|i: int| 0 <= i < 3 implies #[trigger] byte_limbs(input >> rotation as u32)[i] == cols.shift[i] + cols.carry[i + 1] * (1u32 << (8 - rotation % 8) as u32) by {
        lemma_shr_byte(input, kk, ss, i as u32);
    }
    lemma_shr_byte(input, kk, ss, 3);
    assert(byte_or_zero(input, (3 + 1 + kk) as u32) == 0);
    assert(ss as u8 == sh);
    assert(0u8 & (((1u8 << sh) as int - 1) as u8) == 0) by (bit_vector);
    assert((3 + kk) as u32 == (3 + rotation / 8) as u32);
    assert(byte_limbs(input >> rotation as u32)[3] == byte_at(input >> rotation as u32, 3) as u32);
    let b = byte_or_zero(input, (3 + kk) as u32);
    let m = 1u32 << (8 - ss) as u32;
    let mask = (((1u8 << (ss as u8)) as int - 1) as u8);
    assert(byte_or_zero(input, (3 + 1 + kk) as u32) == 0u8);
    let z = byte_or_zero(input, (3 + 1 + kk) as u32);
    assert(z & mask == 0) by (bit_vector)
        requires
            z == 0u8,
    ;
    let zm = z & mask;
    assert(zm == 0);
    assert(zm as u32 == 0u32);
    assert((zm as u32) * m == 0) by (nonlinear_arith)
        requires
            zm as u32 == 0u32,
    ;
    assert(byte_at(input >> (8 * kk + ss) as u32, 3) as u32 == (b >> (ss as u8)) as u32);
    assert(cols.shift[3] == (b >> sh) as u32);
}

/// Completeness of `ShiftRightCols`: on the columns that `populate` fills,
/// every constraint holds, in every field of at least 16 bits, and the
/// constraints send exactly the keys of the requests that `populate` made,
/// each of them an entry of the byte lookup table.
pub proof fn lemma_shr_complete(p: u32, bus: u16, cols: ShiftRightCols<u32>, input: u32, rotation: usize)
    requires
        is_shr_of(cols, input, rotation),
        rotation < 32,
        p >= 0x1_0000,
    ensures
        shr_constraints(p, rotation, cols),
        shr_interactions(bus, byte_limbs(input), rotation, cols) == request_keys(
            bus,
            shr_requests(input, rotation),
        ),
        forall|k: int| 0 <= k < 4 ==> is_table_lookup(bus, #[trigger] request_keys(bus, shr_requests(input, rotation))[k]),
{
    lemma_shr_sound_values(cols, input, rotation);
    assert forall|j: int| 0 <= j < 4 implies #[trigger] shr_interactions(bus, byte_limbs(input), rotation, cols)[j] == request_keys(bus, shr_requests(input, rotation))[j] by {
        lemma_limb_or_zero(input, 3 - j + rotation / 8);
    }
    assert(shr_interactions(bus, byte_limbs(input), rotation, cols) =~= request_keys(
        bus,
        shr_requests(input, rotation),
    ));
}

/// The shifts and carries are those that the shift-and-carry lookups give
/// for the bytes of `input` (zero above its top byte) shifted by whole bytes.
pub open spec fn shr_lookups_hold(cols: ShiftRightCols<u32>, input: u32, rotation: usize) -> bool {
    &&& forall|i: int|
        0 <= i < 4 ==> #[trigger] cols.shift[i] == shr_carry_spec(
            byte_or_zero(input, (i + rotation / 8) as u32),
            (rotation % 8) as u8,
        ).0 as u32
    &&& forall|i: int|
        0 <= i < 4 ==> #[trigger] cols.carry[i] == shr_carry_spec(
            byte_or_zero(input, (i + rotation / 8) as u32),
            (rotation % 8) as u8,
        ).1 as u32
}

/// Soundness of the right shift: where the shifts and carries are those
/// that the lookups give for the bytes of `input` (zero above its top byte),
/// the constraints hold only if every output byte is the byte of `input`
/// shifted right by `rotation`.
pub proof fn lemma_shr_sound(p: u32, cols: ShiftRightCols<u32>, input: u32, rotation: usize)
    requires
        p >= 0x1_0000,
        rotation < 32,
        shr_constraints(p, rotation, cols),
        shr_lookups_hold(cols, input, rotation),
        forall|i: int| 0 <= i < 4 ==> #[trigger] cols.value[i] < p,
    ensures
        cols.value@ == byte_limbs(input >> rotation as u32),
{
    lemma_shr_sound_values(cols, input, rotation);
    lemma_le_bytes_value(input >> rotation as u32);
    assert forall|i: int| 0 <= i < 4 implies #[trigger] cols.value@[i] == byte_limbs(input >> rotation as u32)[i] by {
        let b = byte_limbs(input >> rotation as u32)[i];
        assert(b < 256);
        assert(fe(cols.value[i] as int, p) == fe(b as int, p));
        crate::bits_air::rotr_air::lemma_fe_eq_small(cols.value[i] as int, b as int, p);
    }
    assert(cols.value@ =~= byte_limbs(input >> rotation as u32));
}

} // verus!
