use vstd::prelude::*;

use crate::builder::{is_table_lookup, lookup_send, request_keys, send_lookup, ConstraintChecker, Interaction};
use crate::chips::byte::{apply_requests, ByteLookupChip, ByteLookupOp, ByteRequest};
use crate::utils::{byte_limbs, le_bytes, u32_to_le_bytes};

verus! {

/// Columns that compute `x ^ y ^ z` byte by byte with two XOR lookups.
#[derive(Clone, Copy, Debug)]
pub struct Xor3Cols<T> {
    /// The result of `x ^ y`.
    pub xor_xy: [T; 4],
    /// The final result.
    pub value: [T; 4],
}

/// Number of columns of `Xor3Cols`.
pub const NUM_XOR_COLS: usize = 8;

/// The bytes of `x ^ y` are the XORs of the bytes of `x` and `y`.
pub proof fn lemma_le_bytes_xor(x: u32, y: u32)
    ensures
        forall|i: int| 0 <= i < 4 ==> #[trigger] le_bytes(x ^ y)[i] == le_bytes(x)[i] ^ le_bytes(y)[i],
{
    assert(((x ^ y) & 0xff) as u8 == ((x & 0xff) as u8) ^ ((y & 0xff) as u8) && (((x ^ y) >> 8u32)
        & 0xff) as u8 == (((x >> 8u32) & 0xff) as u8) ^ (((y >> 8u32) & 0xff) as u8) && (((x ^ y)
        >> 16u32) & 0xff) as u8 == (((x >> 16u32) & 0xff) as u8) ^ (((y >> 16u32) & 0xff) as u8)
        && (((x ^ y) >> 24u32) & 0xff) as u8 == (((x >> 24u32) & 0xff) as u8) ^ (((y >> 24u32)
        & 0xff) as u8)) by (bit_vector);
}

/// The requests that computing `x ^ y ^ z` makes: for each byte, `x ^ y`, then `(x ^ y) ^ z`.
pub open spec fn xor3_requests(x: u32, y: u32, z: u32) -> Seq<ByteRequest> {
    Seq::new(
        8,
        |k: int|
            if k % 2 == 0 {
                (le_bytes(x)[k / 2], le_bytes(y)[k / 2], ByteLookupOp::Xor)
            } else {
                (le_bytes(x ^ y)[k / 2], le_bytes(z)[k / 2], ByteLookupOp::Xor)
            },
    )
}

/// The columns hold the computation of `x ^ y ^ z`.
pub open spec fn is_xor3_of(cols: Xor3Cols<u32>, x: u32, y: u32, z: u32) -> bool {
    &&& cols.xor_xy@ == byte_limbs(x ^ y)
    &&& cols.value@ == byte_limbs(x ^ y ^ z)
}

/// The lookups that the constraints of `Xor3Cols` send, for inputs given as limbs.
pub open spec fn xor3_interactions(bus: u16, x: Seq<u32>, y: Seq<u32>, z: Seq<u32>, cols: Xor3Cols<u32>) -> Seq<Interaction> {
    Seq::new(
        8,
        |k: int|
            if k % 2 == 0 {
                lookup_send(bus, x[k / 2], y[k / 2], ByteLookupOp::Xor, cols.xor_xy[k / 2], 0)
            } else {
                lookup_send(bus, cols.xor_xy[k / 2], z[k / 2], ByteLookupOp::Xor, cols.value[k / 2], 0)
            },
    )
}

impl Xor3Cols<u32> {
    /// All columns zero.
    pub fn new() -> (r: Self)
        ensures
            r.xor_xy@ == seq![0u32, 0, 0, 0],
            r.value@ == seq![0u32, 0, 0, 0],
    {
        let r = Xor3Cols { xor_xy: [0, 0, 0, 0], value: [0, 0, 0, 0] };
        assert(r.xor_xy@ =~= seq![0u32, 0, 0, 0]);
        assert(r.value@ =~= seq![0u32, 0, 0, 0]);
        r
    }

    /// Fill the columns with the computation of `x ^ y ^ z`, requesting the
    /// lookups that it needs, and return `x ^ y ^ z`.
    pub fn populate(&mut self, lookup: &mut ByteLookupChip, x: u32, y: u32, z: u32) -> (r: u32)
        requires
            old(lookup).wf(),
        ensures
            r == x ^ y ^ z,
            is_xor3_of(*final(self), x, y, z),
            final(lookup).wf(),
            final(lookup).air == old(lookup).air,
            final(lookup).counts() == apply_requests(old(lookup).counts(), xor3_requests(x, y, z)),
    {
        let expected = x ^ y ^ z;
        let x_bytes = u32_to_le_bytes(x);
        let y_bytes = u32_to_le_bytes(y);
        let z_bytes = u32_to_le_bytes(z);
        let ghost c0 = lookup.counts();
        let ghost reqs = xor3_requests(x, y, z);
        proof {
            lemma_le_bytes_xor(x, y);
            lemma_le_bytes_xor(x ^ y, z);
        }
        let mut i: usize = 0;
        while i < 4
            invariant
                i <= 4,
                lookup.wf(),
                lookup.air == old(lookup).air,
                x_bytes@ == le_bytes(x),
                y_bytes@ == le_bytes(y),
                z_bytes@ == le_bytes(z),
                reqs == xor3_requests(x, y, z),
                forall|j: int| 0 <= j < 4 ==> #[trigger] le_bytes(x ^ y)[j] == le_bytes(x)[j] ^ le_bytes(y)[j],
                forall|j: int| 0 <= j < 4 ==> #[trigger] le_bytes(x ^ y ^ z)[j] == le_bytes(x ^ y)[j] ^ le_bytes(z)[j],
                lookup.counts() == apply_requests(c0, reqs.take(2 * i as int)),
                forall|j: int| 0 <= j < i ==> #[trigger] self.xor_xy@[j] == byte_limbs(x ^ y)[j],
                forall|j: int| 0 <= j < i ==> #[trigger] self.value@[j] == byte_limbs(x ^ y ^ z)[j],
            decreases 4 - i,
        {
            let ghost before = lookup.counts();
            let req = lookup.request(x_bytes[i], y_bytes[i], ByteLookupOp::Xor);
            let xor_xy = req[0];
            self.xor_xy[i] = req[0] as u32;
            let req = lookup.request(xor_xy, z_bytes[i], ByteLookupOp::Xor);
            self.value[i] = req[0] as u32;
            proof {
                let t0 = reqs.take(2 * i as int);
                let t1 = reqs.take(2 * i + 1);
                let t2 = reqs.take(2 * i + 2);
                assert(reqs[2 * i as int] == (x_bytes[i as int], y_bytes[i as int], ByteLookupOp::Xor));
                assert(reqs[2 * i + 1] == (xor_xy, z_bytes[i as int], ByteLookupOp::Xor));
                assert(t1.drop_last() =~= t0);
                assert(t2.drop_last() =~= t1);
                assert(apply_requests(c0, t1) == crate::chips::byte::after_request(before, reqs[2 * i as int]));
            }
            i = i + 1;
        }
        proof {
            assert(reqs.take(8) =~= reqs);
            assert(self.xor_xy@ =~= byte_limbs(x ^ y));
            assert(self.value@ =~= byte_limbs(x ^ y ^ z));
        }
        expected
    }

    /// Send the lookups that tie the columns to the limbs of `x`, `y` and `z`.
    pub fn eval(
        builder: &mut ConstraintChecker,
        lookup_bus: u16,
        x: [u32; 4],
        y: [u32; 4],
        z: [u32; 4],
        cols: &Xor3Cols<u32>,
    )
        requires
            old(builder).wf(),
        ensures
            final(builder).wf(),
            final(builder).modulus == old(builder).modulus,
            final(builder).holds == old(builder).holds,
            final(builder).interactions@ == old(builder).interactions@ + xor3_interactions(
                lookup_bus,
                x@,
                y@,
                z@,
                *cols,
            ),
    {
        let ghost start = builder.interactions@;
        let ghost all = xor3_interactions(lookup_bus, x@, y@, z@, *cols);
        let mut i: usize = 0;
        while i < 4
            invariant
                i <= 4,
                builder.wf(),
                builder.modulus == old(builder).modulus,
                builder.holds == old(builder).holds,
                all == xor3_interactions(lookup_bus, x@, y@, z@, *cols),
                builder.interactions@ == start + all.take(2 * i as int),
            decreases 4 - i,
        {
            send_lookup(builder, lookup_bus, x[i], y[i], ByteLookupOp::Xor, cols.xor_xy[i], 0);
            send_lookup(builder, lookup_bus, cols.xor_xy[i], z[i], ByteLookupOp::Xor, cols.value[i], 0);
            assert(all.take(2 * i + 2) =~= all.take(2 * i as int).push(all[2 * i as int]).push(all[2 * i + 1]));
            i = i + 1;
        }
        assert(all.take(8) =~= all);
    }
}

/// Completeness of `Xor3Cols`: on the columns that `populate` fills, the
/// constraints send exactly the keys of the requests that `populate` made,
/// each of them an entry of the byte lookup table.
pub proof fn lemma_xor3_complete(bus: u16, cols: Xor3Cols<u32>, x: u32, y: u32, z: u32)
    requires
        is_xor3_of(cols, x, y, z),
    ensures
        xor3_interactions(bus, byte_limbs(x), byte_limbs(y), byte_limbs(z), cols) == request_keys(
            bus,
            xor3_requests(x, y, z),
        ),
        forall|k: int| 0 <= k < 8 ==> is_table_lookup(bus, #[trigger] request_keys(bus, xor3_requests(x, y, z))[k]),
{
    lemma_le_bytes_xor(x, y);
    lemma_le_bytes_xor(x ^ y, z);
    assert(xor3_interactions(bus, byte_limbs(x), byte_limbs(y), byte_limbs(z), cols) =~= request_keys(
        bus,
        xor3_requests(x, y, z),
    ));
}

} // verus!
