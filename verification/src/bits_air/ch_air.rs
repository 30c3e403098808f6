use vstd::prelude::*;

use crate::bits_air::maj_air::lemma_le_bytes_and;
use crate::bits_air::xor_air::lemma_le_bytes_xor;
use crate::builder::{
    fe, fsub, is_table_lookup, lemma_fe_small, lookup_send, request_keys, send_lookup, ConstraintChecker,
    Interaction,
};
use crate::chips::byte::{apply_requests, ByteLookupChip, ByteLookupOp, ByteRequest};
use crate::sha_spec::ch_word;
use crate::utils::{byte_limbs, ch, le_bytes, lemma_le_bytes_value, u32_to_le_bytes};

verus! {

/// Columns that compute the SHA-256 choose function byte by byte: `x & y` and
/// `!x & z` by AND lookups, then their XOR.
#[derive(Clone, Copy, Debug)]
pub struct ChooseCols<T> {
    pub and_xy: [T; 4],
    pub and_not_x_z: [T; 4],
    /// The final result.
    pub value: [T; 4],
}

/// Number of columns of `ChooseCols`.
pub const NUM_CHOOSE_COLS: usize = 12;

/// The bytes of `!x` are the complements of the bytes of `x`.
pub proof fn lemma_le_bytes_not(x: u32)
    ensures
        forall|i: int| 0 <= i < 4 ==> #[trigger] le_bytes(!x)[i] == 255 - le_bytes(x)[i],
{
    assert(((!x) & 0xff) as u8 == 255 - ((x & 0xff) as u8) && (((!x) >> 8u32) & 0xff) as u8 == 255
        - (((x >> 8u32) & 0xff) as u8) && (((!x) >> 16u32) & 0xff) as u8 == 255 - (((x >> 16u32)
        & 0xff) as u8) && (((!x) >> 24u32) & 0xff) as u8 == 255 - (((x >> 24u32) & 0xff) as u8))
        by (bit_vector);
}

/// The requests that computing `ch(x, y, z)` makes: for each byte, `x & y`,
/// `!x & z`, and the XOR of the two.
pub open spec fn ch_requests(x: u32, y: u32, z: u32) -> Seq<ByteRequest> {
    Seq::new(
        12,
        |m: int|
            if m % 3 == 0 {
                (le_bytes(x)[m / 3], le_bytes(y)[m / 3], ByteLookupOp::And)
            } else if m % 3 == 1 {
                (le_bytes(!x)[m / 3], le_bytes(z)[m / 3], ByteLookupOp::And)
            } else {
                (le_bytes(x & y)[m / 3], le_bytes(!x & z)[m / 3], ByteLookupOp::Xor)
            },
    )
}

/// The columns hold the computation of `ch(x, y, z)`.
pub open spec fn is_ch_of(cols: ChooseCols<u32>, x: u32, y: u32, z: u32) -> bool {
    &&& cols.and_xy@ == byte_limbs(x & y)
    &&& cols.and_not_x_z@ == byte_limbs(!x & z)
    &&& cols.value@ == byte_limbs(ch_word(x, y, z))
}

/// The lookups that the constraints of `ChooseCols` send in the field with
/// modulus `p`, for inputs given as limbs; the complement of a byte `b` is `255 - b`.
pub open spec fn ch_interactions(bus: u16, p: u32, x: Seq<u32>, y: Seq<u32>, z: Seq<u32>, cols: ChooseCols<u32>) -> Seq<Interaction> {
    Seq::new(
        12,
        |m: int|
            if m % 3 == 0 {
                lookup_send(bus, x[m / 3], y[m / 3], ByteLookupOp::And, cols.and_xy[m / 3], 0)
            } else if m % 3 == 1 {
                lookup_send(bus, fe(255 - x[m / 3], p) as u32, z[m / 3], ByteLookupOp::And, cols.and_not_x_z[m / 3], 0)
            } else {
                lookup_send(bus, cols.and_xy[m / 3], cols.and_not_x_z[m / 3], ByteLookupOp::Xor, cols.value[m / 3], 0)
            },
    )
}

impl ChooseCols<u32> {
    /// All columns zero.
    pub fn new() -> (r: Self)
        ensures
            r.value@ == seq![0u32, 0, 0, 0],
    {
        let r = ChooseCols { and_xy: [0, 0, 0, 0], and_not_x_z: [0, 0, 0, 0], value: [0, 0, 0, 0] };
        assert(r.value@ =~= seq![0u32, 0, 0, 0]);
        r
    }

    /// Fill the columns with the computation of `ch(x, y, z)`, requesting the
    /// lookups that it needs, and return `ch(x, y, z)`.
    pub fn populate(&mut self, lookup: &mut ByteLookupChip, x: u32, y: u32, z: u32) -> (r: u32)
        requires
            old(lookup).wf(),
        ensures
            r == ch_word(x, y, z),
            is_ch_of(*final(self), x, y, z),
            final(lookup).wf(),
            final(lookup).air == old(lookup).air,
            final(lookup).counts() == apply_requests(old(lookup).counts(), ch_requests(x, y, z)),
    {
        let expected = ch(x, y, z);
        let x_bytes = u32_to_le_bytes(x);
        let not_x_bytes = u32_to_le_bytes(!x);
        let y_bytes = u32_to_le_bytes(y);
        let z_bytes = u32_to_le_bytes(z);
        let ghost c0 = lookup.counts();
        let ghost reqs = ch_requests(x, y, z);
        proof {
            lemma_le_bytes_and(x, y);
            lemma_le_bytes_and(!x, z);
            lemma_le_bytes_xor(x & y, !x & z);
        }
        let mut i: usize = 0;
        while i < 4
            invariant
                i <= 4,
                lookup.wf(),
                lookup.air == old(lookup).air,
                x_bytes@ == le_bytes(x),
                not_x_bytes@ == le_bytes(!x),
                y_bytes@ == le_bytes(y),
                z_bytes@ == le_bytes(z),
                reqs == ch_requests(x, y, z),
                forall|j: int| 0 <= j < 4 ==> #[trigger] le_bytes(x & y)[j] == le_bytes(x)[j] & le_bytes(y)[j],
                forall|j: int| 0 <= j < 4 ==> #[trigger] le_bytes(!x & z)[j] == le_bytes(!x)[j] & le_bytes(z)[j],
                forall|j: int| 0 <= j < 4 ==> #[trigger] le_bytes((x & y) ^ (!x & z))[j] == le_bytes(x & y)[j] ^ le_bytes(!x & z)[j],
                lookup.counts() == apply_requests(c0, reqs.take(3 * i as int)),
                forall|j: int| 0 <= j < i ==> #[trigger] self.and_xy@[j] == byte_limbs(x & y)[j],
                forall|j: int| 0 <= j < i ==> #[trigger] self.and_not_x_z@[j] == byte_limbs(!x & z)[j],
                forall|j: int| 0 <= j < i ==> #[trigger] self.value@[j] == byte_limbs(ch_word(x, y, z))[j],
            decreases 4 - i,
        {
            let req = lookup.request(x_bytes[i], y_bytes[i], ByteLookupOp::And);
            let and_xy = req[0];
            self.and_xy[i] = and_xy as u32;
            let ghost mid1 = lookup.counts();
            let req = lookup.request(not_x_bytes[i], z_bytes[i], ByteLookupOp::And);
            let and_not_x_z = req[0];
            self.and_not_x_z[i] = and_not_x_z as u32;
            let ghost mid2 = lookup.counts();
            let req = lookup.request(and_xy, and_not_x_z, ByteLookupOp::Xor);
            self.value[i] = req[0] as u32;
            proof {
                let t0 = reqs.take(3 * i as int);
                let t1 = reqs.take(3 * i + 1);
                let t2 = reqs.take(3 * i + 2);
                let t3 = reqs.take(3 * i + 3);
                assert(reqs[3 * i as int] == (x_bytes[i as int], y_bytes[i as int], ByteLookupOp::And));
                assert(reqs[3 * i + 1] == (not_x_bytes[i as int], z_bytes[i as int], ByteLookupOp::And));
                assert(reqs[3 * i + 2] == (and_xy, and_not_x_z, ByteLookupOp::Xor));
                assert(t1.drop_last() =~= t0);
                assert(t2.drop_last() =~= t1);
                assert(t3.drop_last() =~= t2);
                assert(apply_requests(c0, t1) == mid1);
                assert(apply_requests(c0, t2) == mid2);
            }
            i = i + 1;
        }
        proof {
            assert(reqs.take(12) =~= reqs);
            assert(self.and_xy@ =~= byte_limbs(x & y));
            assert(self.and_not_x_z@ =~= byte_limbs(!x & z));
            assert(self.value@ =~= byte_limbs(ch_word(x, y, z)));
        }
        expected
    }

    /// Send the lookups that tie the columns to the limbs of `x`, `y` and `z`.
    pub fn eval(
        builder: &mut ConstraintChecker,
        lookup_bus: u16,
        x: [u32; 4],
        y: [u32; 4],
        z: [u32; 4],
        cols: &ChooseCols<u32>,
    )
        requires
            old(builder).wf(),
        ensures
            final(builder).wf(),
            final(builder).modulus == old(builder).modulus,
            final(builder).holds == old(builder).holds,
            final(builder).interactions@ == old(builder).interactions@ + ch_interactions(
                lookup_bus,
                old(builder).modulus,
                x@,
                y@,
                z@,
                *cols,
            ),
    {
        let p = builder.modulus;
        let ghost start = builder.interactions@;
        let ghost all = ch_interactions(lookup_bus, p, x@, y@, z@, *cols);
        let mut i: usize = 0;
        while i < 4
            invariant
                i <= 4,
                builder.wf(),
                builder.modulus == p,
                p == old(builder).modulus,
                builder.holds == old(builder).holds,
                all == ch_interactions(lookup_bus, p, x@, y@, z@, *cols),
                builder.interactions@ == start + all.take(3 * i as int),
            decreases 4 - i,
        {
            let not_x = fsub(255, x[i], p);
            send_lookup(builder, lookup_bus, x[i], y[i], ByteLookupOp::And, cols.and_xy[i], 0);
            send_lookup(builder, lookup_bus, not_x, z[i], ByteLookupOp::And, cols.and_not_x_z[i], 0);
            send_lookup(builder, lookup_bus, cols.and_xy[i], cols.and_not_x_z[i], ByteLookupOp::Xor, cols.value[i], 0);
            assert(all.take(3 * i + 3) =~= all.take(3 * i as int).push(all[3 * i as int]).push(all[3 * i + 1]).push(all[3 * i + 2]));
            i = i + 1;
        }
        assert(all.take(12) =~= all);
    }
}

/// Completeness of `ChooseCols`: on the columns that `populate` fills, the
/// constraints send, in every field of at least 16 bits, exactly the keys of
/// the requests that `populate` made, each of them an entry of the byte lookup table.
pub proof fn lemma_ch_complete(bus: u16, p: u32, cols: ChooseCols<u32>, x: u32, y: u32, z: u32)
    requires
        is_ch_of(cols, x, y, z),
        p >= 0x1_0000,
    ensures
        ch_interactions(bus, p, byte_limbs(x), byte_limbs(y), byte_limbs(z), cols) == request_keys(
            bus,
            ch_requests(x, y, z),
        ),
        forall|k: int| 0 <= k < 12 ==> is_table_lookup(bus, #[trigger] request_keys(bus, ch_requests(x, y, z))[k]),
{
    lemma_le_bytes_and(x, y);
    lemma_le_bytes_and(!x, z);
    lemma_le_bytes_xor(x & y, !x & z);
    lemma_le_bytes_not(x);
    lemma_le_bytes_value(x);
    assert forall|m: int| 0 <= m < 12 implies #[trigger] ch_interactions(bus, p, byte_limbs(x), byte_limbs(y), byte_limbs(z), cols)[m] == request_keys(bus, ch_requests(x, y, z))[m] by {
        let i = m / 3;
        lemma_fe_small(255 - byte_limbs(x)[i], p);
    }
    assert(ch_interactions(bus, p, byte_limbs(x), byte_limbs(y), byte_limbs(z), cols) =~= request_keys(
        bus,
        ch_requests(x, y, z),
    ));
}

} // verus!
