use vstd::prelude::*;

use crate::bits_air::xor_air::{is_xor3_of, lemma_xor3_complete, xor3_interactions, xor3_requests, Xor3Cols};
use crate::builder::{is_table_lookup, lookup_send, request_keys, send_lookup, ConstraintChecker, Interaction};
use crate::chips::byte::{
    apply_requests, lemma_apply_requests_concat, ByteLookupChip, ByteLookupOp, ByteRequest,
};
use crate::sha_spec::maj_word;
use crate::utils::{byte_limbs, le_bytes, maj, u32_to_le_bytes};

verus! {

/// Columns that compute the SHA-256 majority function byte by byte: three AND
/// lookups, then the XOR of the three results.
#[derive(Clone, Copy, Debug)]
pub struct MajorCols<T> {
    pub and_xy: [T; 4],
    pub and_xz: [T; 4],
    pub and_yz: [T; 4],
    pub xor3: Xor3Cols<T>,
}

/// Number of columns of `MajorCols`.
pub const NUM_MAJOR_COLS: usize = 20;

/// The bytes of `x & y` are the ANDs of the bytes of `x` and `y`.
pub proof fn lemma_le_bytes_and(x: u32, y: u32)
    ensures
        forall|i: int| 0 <= i < 4 ==> #[trigger] le_bytes(x & y)[i] == le_bytes(x)[i] & le_bytes(y)[i],
{
    assert(((x & y) & 0xff) as u8 == ((x & 0xff) as u8) & ((y & 0xff) as u8) && (((x & y) >> 8u32)
        & 0xff) as u8 == (((x >> 8u32) & 0xff) as u8) & (((y >> 8u32) & 0xff) as u8) && (((x & y)
        >> 16u32) & 0xff) as u8 == (((x >> 16u32) & 0xff) as u8) & (((y >> 16u32) & 0xff) as u8)
        && (((x & y) >> 24u32) & 0xff) as u8 == (((x >> 24u32) & 0xff) as u8) & (((y >> 24u32)
        & 0xff) as u8)) by (bit_vector);
}

/// The requests that computing `maj(x, y, z)` makes: for each byte, `x & y`,
/// `x & z` and `y & z`, then those of the XOR of the three.
pub open spec fn maj_requests(x: u32, y: u32, z: u32) -> Seq<ByteRequest> {
    Seq::new(
        12,
        |m: int|
            if m % 3 == 0 {
                (le_bytes(x)[m / 3], le_bytes(y)[m / 3], ByteLookupOp::And)
            } else if m % 3 == 1 {
                (le_bytes(x)[m / 3], le_bytes(z)[m / 3], ByteLookupOp::And)
            } else {
                (le_bytes(y)[m / 3], le_bytes(z)[m / 3], ByteLookupOp::And)
            },
    ) + xor3_requests(x & y, x & z, y & z)
}

/// The columns hold the computation of `maj(x, y, z)`.
pub open spec fn is_maj_of(cols: MajorCols<u32>, x: u32, y: u32, z: u32) -> bool {
    &&& cols.and_xy@ == byte_limbs(x & y)
    &&& cols.and_xz@ == byte_limbs(x & z)
    &&& cols.and_yz@ == byte_limbs(y & z)
    &&& is_xor3_of(cols.xor3, x & y, x & z, y & z)
}

/// The lookups that the constraints of `MajorCols` send, for inputs given as limbs.
pub open spec fn maj_interactions(bus: u16, x: Seq<u32>, y: Seq<u32>, z: Seq<u32>, cols: MajorCols<u32>) -> Seq<Interaction> {
    Seq::new(
        12,
        |m: int|
            if m % 3 == 0 {
                lookup_send(bus, x[m / 3], y[m / 3], ByteLookupOp::And, cols.and_xy[m / 3], 0)
            } else if m % 3 == 1 {
                lookup_send(bus, x[m / 3], z[m / 3], ByteLookupOp::And, cols.and_xz[m / 3], 0)
            } else {
                lookup_send(bus, y[m / 3], z[m / 3], ByteLookupOp::And, cols.and_yz[m / 3], 0)
            },
    ) + xor3_interactions(bus, cols.and_xy@, cols.and_xz@, cols.and_yz@, cols.xor3)
}

impl MajorCols<u32> {
    /// All columns zero.
    pub fn new() -> (r: Self)
        ensures
            r.and_xy@ == seq![0u32, 0, 0, 0],
    {
        let r = MajorCols { and_xy: [0, 0, 0, 0], and_xz: [0, 0, 0, 0], and_yz: [0, 0, 0, 0], xor3: Xor3Cols::new() };
        assert(r.and_xy@ =~= seq![0u32, 0, 0, 0]);
        r
    }

    /// Fill the columns with the computation of `maj(x, y, z)`, requesting the
    /// lookups that it needs, and return `maj(x, y, z)`.
    pub fn populate(&mut self, lookup: &mut ByteLookupChip, x: u32, y: u32, z: u32) -> (r: u32)
        requires
            old(lookup).wf(),
        ensures
            r == maj_word(x, y, z),
            is_maj_of(*final(self), x, y, z),
            final(lookup).wf(),
            final(lookup).air == old(lookup).air,
            final(lookup).counts() == apply_requests(old(lookup).counts(), maj_requests(x, y, z)),
    {
        let expected = maj(x, y, z);
        let x_bytes = u32_to_le_bytes(x);
        let y_bytes = u32_to_le_bytes(y);
        let z_bytes = u32_to_le_bytes(z);
        let ghost c0 = lookup.counts();
        let ghost reqs = maj_requests(x, y, z).take(12);
        proof {
            lemma_le_bytes_and(x, y);
            lemma_le_bytes_and(x, z);
            lemma_le_bytes_and(y, z);
        }
        let mut i: usize = 0;
        while i < 4
            invariant
                i <= 4,
                lookup.wf(),
                lookup.air == old(lookup).air,
                x_bytes@ == le_bytes(x),
                y_bytes@ == le_bytes(y),
                z_bytes@ == le_bytes(z),
                reqs == maj_requests(x, y, z).take(12),
                forall|j: int| 0 <= j < 4 ==> #[trigger] le_bytes(x & y)[j] == le_bytes(x)[j] & le_bytes(y)[j],
                forall|j: int| 0 <= j < 4 ==> #[trigger] le_bytes(x & z)[j] == le_bytes(x)[j] & le_bytes(z)[j],
                forall|j: int| 0 <= j < 4 ==> #[trigger] le_bytes(y & z)[j] == le_bytes(y)[j] & le_bytes(z)[j],
                lookup.counts() == apply_requests(c0, reqs.take(3 * i as int)),
                forall|j: int| 0 <= j < i ==> #[trigger] self.and_xy@[j] == byte_limbs(x & y)[j],
                forall|j: int| 0 <= j < i ==> #[trigger] self.and_xz@[j] == byte_limbs(x & z)[j],
                forall|j: int| 0 <= j < i ==> #[trigger] self.and_yz@[j] == byte_limbs(y & z)[j],
            decreases 4 - i,
        {
            let ghost before = lookup.counts();
            let req = lookup.request(x_bytes[i], y_bytes[i], ByteLookupOp::And);
            self.and_xy[i] = req[0] as u32;
            let ghost mid1 = lookup.counts();
            let req = lookup.request(x_bytes[i], z_bytes[i], ByteLookupOp::And);
            self.and_xz[i] = req[0] as u32;
            let ghost mid2 = lookup.counts();
            let req = lookup.request(y_bytes[i], z_bytes[i], ByteLookupOp::And);
            self.and_yz[i] = req[0] as u32;
            proof {
                let t0 = reqs.take(3 * i as int);
                let t1 = reqs.take(3 * i + 1);
                let t2 = reqs.take(3 * i + 2);
                let t3 = reqs.take(3 * i + 3);
                assert(reqs[3 * i as int] == (x_bytes[i as int], y_bytes[i as int], ByteLookupOp::And));
                assert(reqs[3 * i + 1] == (x_bytes[i as int], z_bytes[i as int], ByteLookupOp::And));
                assert(reqs[3 * i + 2] == (y_bytes[i as int], z_bytes[i as int], ByteLookupOp::And));
                assert(t1.drop_last() =~= t0);
                assert(t2.drop_last() =~= t1);
                assert(t3.drop_last() =~= t2);
                assert(apply_requests(c0, t1) == mid1);
                assert(apply_requests(c0, t2) == mid2);
            }
            i = i + 1;
        }
        proof {
            assert(reqs.take(12) =~= reqs);
            assert(maj_requests(x, y, z) =~= reqs + xor3_requests(x & y, x & z, y & z));
            lemma_apply_requests_concat(c0, reqs, xor3_requests(x & y, x & z, y & z));
            assert(self.and_xy@ =~= byte_limbs(x & y));
            assert(self.and_xz@ =~= byte_limbs(x & z));
            assert(self.and_yz@ =~= byte_limbs(y & z));
        }
        self.xor3.populate(lookup, x & y, x & z, y & z);
        expected
    }

    /// Send the lookups that tie the columns to the limbs of `x`, `y` and `z`.
    pub fn eval(
        builder: &mut ConstraintChecker,
        lookup_bus: u16,
        x: [u32; 4],
        y: [u32; 4],
        z: [u32; 4],
        cols: &MajorCols<u32>,
    )
        requires
            old(builder).wf(),
        ensures
            final(builder).wf(),
            final(builder).modulus == old(builder).modulus,
            final(builder).holds == old(builder).holds,
            final(builder).interactions@ == old(builder).interactions@ + maj_interactions(
                lookup_bus,
                x@,
                y@,
                z@,
                *cols,
            ),
    {
        let ghost start = builder.interactions@;
        let ghost all = maj_interactions(lookup_bus, x@, y@, z@, *cols).take(12);
        let mut i: usize = 0;
        while i < 4
            invariant
                i <= 4,
                builder.wf(),
                builder.modulus == old(builder).modulus,
                builder.holds == old(builder).holds,
                all == maj_interactions(lookup_bus, x@, y@, z@, *cols).take(12),
                builder.interactions@ == start + all.take(3 * i as int),
            decreases 4 - i,
        {
            send_lookup(builder, lookup_bus, x[i], y[i], ByteLookupOp::And, cols.and_xy[i], 0);
            send_lookup(builder, lookup_bus, x[i], z[i], ByteLookupOp::And, cols.and_xz[i], 0);
            send_lookup(builder, lookup_bus, y[i], z[i], ByteLookupOp::And, cols.and_yz[i], 0);
            assert(all.take(3 * i + 3) =~= all.take(3 * i as int).push(all[3 * i as int]).push(all[3 * i + 1]).push(all[3 * i + 2]));
            i = i + 1;
        }
        assert(all.take(12) =~= all);
        Xor3Cols::eval(builder, lookup_bus, cols.and_xy, cols.and_xz, cols.and_yz, &cols.xor3);
        assert(maj_interactions(lookup_bus, x@, y@, z@, *cols) =~= all + xor3_interactions(
            lookup_bus,
            cols.and_xy@,
            cols.and_xz@,
            cols.and_yz@,
            cols.xor3,
        ));
    }
}

/// Completeness of `MajorCols`: on the columns that `populate` fills, the
/// constraints send exactly the keys of the requests that `populate` made,
/// each of them an entry of the byte lookup table.
pub proof fn lemma_maj_complete(bus: u16, cols: MajorCols<u32>, x: u32, y: u32, z: u32)
    requires
        is_maj_of(cols, x, y, z),
    ensures
        maj_interactions(bus, byte_limbs(x), byte_limbs(y), byte_limbs(z), cols) == request_keys(
            bus,
            maj_requests(x, y, z),
        ),
        forall|k: int| 0 <= k < 20 ==> is_table_lookup(bus, #[trigger] request_keys(bus, maj_requests(x, y, z))[k]),
{
    lemma_le_bytes_and(x, y);
    lemma_le_bytes_and(x, z);
    lemma_le_bytes_and(y, z);
    lemma_xor3_complete(bus, cols.xor3, x & y, x & z, y & z);
    let first = Seq::new(
        12,
        |m: int|
            if m % 3 == 0 {
                (le_bytes(x)[m / 3], le_bytes(y)[m / 3], ByteLookupOp::And)
            } else if m % 3 == 1 {
                (le_bytes(x)[m / 3], le_bytes(z)[m / 3], ByteLookupOp::And)
            } else {
                (le_bytes(y)[m / 3], le_bytes(z)[m / 3], ByteLookupOp::And)
            },
    );
    let xr = xor3_requests(x & y, x & z, y & z);
    assert(request_keys(bus, first + xr) =~= request_keys(bus, first) + request_keys(bus, xr));
    assert(maj_interactions(bus, byte_limbs(x), byte_limbs(y), byte_limbs(z), cols) =~= request_keys(
        bus,
        maj_requests(x, y, z),
    ));
}

} // verus!
