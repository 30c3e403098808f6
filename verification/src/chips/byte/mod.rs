use vstd::prelude::*;

use crate::chips::byte::bus::ByteLookupBus;
use crate::chips::byte::constraints::ByteLookupAir;
use crate::chips::byte::utils::{shr_carry, shr_carry_spec};

pub mod bus;
pub mod columns;
pub mod constraints;
pub mod requester;
pub mod utils;

verus! {

/// Number of operations that the byte lookup table serves.
pub const NUM_BYTE_LOOKUP_OPS: usize = 4;

/// Number of (x, y) pairs of bytes.
pub const NUM_BYTE_PAIRS: usize = 65536;

/// Number of multiplicity counters that the byte lookup chip keeps.
pub const NUM_BYTE_LOOKUP_COUNTERS: usize = 262144;

/// An operation of the byte lookup table.
#[derive(Clone, Copy, Debug, PartialEq, Eq, Hash)]
pub enum ByteLookupOp {
    Xor,
    ShrCarry,
    And,
    U8RangeCheck,
}

impl ByteLookupOp {
    /// The number by which the operation is tagged on the bus.
    pub open spec fn code(self) -> u8 {
        match self {
            ByteLookupOp::Xor => 0,
            ByteLookupOp::ShrCarry => 1,
            ByteLookupOp::And => 2,
            ByteLookupOp::U8RangeCheck => 3,
        }
    }

    /// The number by which the operation is tagged on the bus (`op as u8`).
    pub fn as_u8(self) -> (r: u8)
        ensures
            r == self.code(),
            r < NUM_BYTE_LOOKUP_OPS,
    {
        match self {
            ByteLookupOp::Xor => 0,
            ByteLookupOp::ShrCarry => 1,
            ByteLookupOp::And => 2,
            ByteLookupOp::U8RangeCheck => 3,
        }
    }

    /// Get all the byte opcodes.
    pub fn all() -> (r: Vec<Self>)
        ensures
            r@ == seq![
                ByteLookupOp::Xor,
                ByteLookupOp::ShrCarry,
                ByteLookupOp::And,
                ByteLookupOp::U8RangeCheck,
            ],
            r@.len() == NUM_BYTE_LOOKUP_OPS,
            forall|i: int| 0 <= i < r@.len() ==> #[trigger] r@[i].code() == i,
    {
        let r = vec![
            ByteLookupOp::Xor,
            ByteLookupOp::ShrCarry,
            ByteLookupOp::And,
            ByteLookupOp::U8RangeCheck,
        ];
        assert(r@ =~= seq![
            ByteLookupOp::Xor,
            ByteLookupOp::ShrCarry,
            ByteLookupOp::And,
            ByteLookupOp::U8RangeCheck,
        ]);
        r
    }

    /// Convert the opcode to a field element (its canonical value).
    pub fn as_field(self) -> (r: u32)
        ensures
            r == self.code() as u32,
    {
        self.as_u8() as u32
    }
}

/// The two result bytes that the table holds for `op` on `(x, y)`.
pub open spec fn op_result(op: ByteLookupOp, x: u8, y: u8) -> (u8, u8) {
    match op {
        ByteLookupOp::Xor => (x ^ y, 0),
        ByteLookupOp::ShrCarry => shr_carry_spec(x, y),
        ByteLookupOp::And => (x & y, 0),
        ByteLookupOp::U8RangeCheck => (0, 0),
    }
}

/// A request to the byte lookup table: two input bytes and an operation.
pub type ByteRequest = (u8, u8, ByteLookupOp);

/// Position of the counter of `(x, y, op)`: pairs in row-major order of `x`,
/// then `y`, then the operations in the order of their codes.
pub open spec fn counter_index(x: u8, y: u8, op: ByteLookupOp) -> int {
    (x as int * 256 + y as int) * NUM_BYTE_LOOKUP_OPS as int + op.code() as int
}

/// The counters after one more request of `r`: its counter grows by one
/// (wrapping, as an atomic `fetch_add` does).
pub open spec fn after_request(counts: Seq<u32>, r: ByteRequest) -> Seq<u32> {
    let i = counter_index(r.0, r.1, r.2);
    counts.update(i, ((counts[i] as int + 1) % 0x1_0000_0000) as u32)
}

/// The counters after the requests `reqs`, in order.
pub open spec fn apply_requests(counts: Seq<u32>, reqs: Seq<ByteRequest>) -> Seq<u32>
    decreases reqs.len(),
{
    if reqs.len() == 0 {
        counts
    } else {
        after_request(apply_requests(counts, reqs.drop_last()), reqs.last())
    }
}

/// Requests made one sequence after another.
pub proof fn lemma_apply_requests_concat(counts: Seq<u32>, a: Seq<ByteRequest>, b: Seq<ByteRequest>)
    ensures
        apply_requests(counts, a + b) == apply_requests(apply_requests(counts, a), b),
    decreases b.len(),
{
    if b.len() == 0 {
        assert(a + b =~= a);
    } else {
        assert((a + b).drop_last() =~= a + b.drop_last());
        assert((a + b).last() == b.last());
        lemma_apply_requests_concat(counts, a, b.drop_last());
    }
}

/// Every request names a counter of the chip.
pub proof fn lemma_counter_index_bound(x: u8, y: u8, op: ByteLookupOp)
    ensures
        0 <= counter_index(x, y, op) < NUM_BYTE_LOOKUP_COUNTERS,
{
    assert((x as int * 256 + y as int) * 4 + (op.code() as int) < 262144) by (nonlinear_arith)
        requires
            x < 256,
            y < 256,
            op.code() < 4,
    ;
}

/// The number of counters is kept by every request.
pub proof fn lemma_apply_requests_len(counts: Seq<u32>, reqs: Seq<ByteRequest>)
    requires
        counts.len() == NUM_BYTE_LOOKUP_COUNTERS,
    ensures
        apply_requests(counts, reqs).len() == counts.len(),
    decreases reqs.len(),
{
    if reqs.len() > 0 {
        lemma_apply_requests_len(counts, reqs.drop_last());
        let r = reqs.last();
        lemma_counter_index_bound(r.0, r.1, r.2);
    }
}

/// The chip that records how often each entry of the byte lookup table is requested.
pub struct ByteLookupChip {
    pub air: ByteLookupAir,
    pub count: Vec<u32>,
}

impl ByteLookupChip {
    /// One counter for each pair of bytes and each operation.
    pub open spec fn wf(&self) -> bool {
        self.count@.len() == NUM_BYTE_LOOKUP_COUNTERS
    }

    /// The counters.
    pub open spec fn counts(&self) -> Seq<u32> {
        self.count@
    }

    pub fn new(bus: u16) -> (r: Self)
        ensures
            r.wf(),
            r.air.bus == ByteLookupBus(bus),
            forall|i: int| 0 <= i < NUM_BYTE_LOOKUP_COUNTERS ==> #[trigger] r.counts()[i] == 0,
    {
        let mut count: Vec<u32> = Vec::new();
        let mut i: usize = 0;
        while i < NUM_BYTE_LOOKUP_COUNTERS
            invariant
                i <= NUM_BYTE_LOOKUP_COUNTERS,
                count@.len() == i,
                forall|j: int| 0 <= j < i ==> #[trigger] count@[j] == 0,
            decreases NUM_BYTE_LOOKUP_COUNTERS - i,
        {
            count.push(0);
            i = i + 1;
        }
        ByteLookupChip { air: ByteLookupAir::new(ByteLookupBus(bus)), count }
    }

    /// The byte lookup bus this chip interacts with
    pub fn bus(&self) -> (r: ByteLookupBus)
        ensures
            r == self.air.bus,
    {
        self.air.bus
    }

    fn calc_xor(&self, x: u8, y: u8) -> (r: u8)
        ensures
            r == x ^ y,
    {
        x ^ y
    }

    /// Request an operation on inputs x and y.
    /// Increments the count for this (x, y, op) triple and returns the two result bytes.
    pub fn request(&mut self, x: u8, y: u8, op: ByteLookupOp) -> (r: Vec<u8>)
        requires
            old(self).wf(),
        ensures
            final(self).wf(),
            final(self).air == old(self).air,
            final(self).counts() == after_request(old(self).counts(), (x, y, op)),
            r@ == seq![op_result(op, x, y).0, op_result(op, x, y).1],
    {
        proof {
            lemma_counter_index_bound(x, y, op);
        }
        let idx = (x as usize * 256 + y as usize) * NUM_BYTE_LOOKUP_OPS + op.as_u8() as usize;
        let v = self.count[idx];
        self.count.set(idx, v.wrapping_add(1));
        assert(self.counts() =~= after_request(old(self).counts(), (x, y, op)));
        match op {
            ByteLookupOp::Xor => vec![self.calc_xor(x, y), 0],
            ByteLookupOp::ShrCarry => {
                let (shr, carry) = shr_carry(x, y);
                vec![shr, carry]
            },
            ByteLookupOp::And => vec![x & y, 0],
            ByteLookupOp::U8RangeCheck => vec![0, 0],
        }
    }

    /// Request range checks of four bytes, taken two at a time.
    pub fn request_u8_range_checks(&mut self, bytes: [u8; 4])
        requires
            old(self).wf(),
        ensures
            final(self).wf(),
            final(self).air == old(self).air,
            final(self).counts() == apply_requests(old(self).counts(), range_check_requests(bytes@)),
    {
        let ghost c0 = self.counts();
        self.request(bytes[0], bytes[1], ByteLookupOp::U8RangeCheck);
        self.request(bytes[2], bytes[3], ByteLookupOp::U8RangeCheck);
        proof {
            let reqs = range_check_requests(bytes@);
            assert(reqs.drop_last().drop_last() =~= Seq::<ByteRequest>::empty());
            assert(reqs.drop_last().last() == (bytes[0], bytes[1], ByteLookupOp::U8RangeCheck));
            reveal_with_fuel(apply_requests, 3);
        }
    }

    /// Resets all request counters to zero
    pub fn clear(&mut self)
        requires
            old(self).wf(),
        ensures
            final(self).wf(),
            final(self).air == old(self).air,
            forall|i: int| 0 <= i < NUM_BYTE_LOOKUP_COUNTERS ==> #[trigger] final(self).counts()[i] == 0,
    {
        let mut i: usize = 0;
        while i < NUM_BYTE_LOOKUP_COUNTERS
            invariant
                i <= NUM_BYTE_LOOKUP_COUNTERS,
                self.count@.len() == NUM_BYTE_LOOKUP_COUNTERS,
                self.air == old(self).air,
                forall|j: int| 0 <= j < i ==> #[trigger] self.count@[j] == 0,
            decreases NUM_BYTE_LOOKUP_COUNTERS - i,
        {
            self.count.set(i, 0);
            i = i + 1;
        }
    }

    /// Generates the multiplicity trace based on requests: one row per pair of
    /// bytes, one column per operation.
    pub fn generate_trace(&self) -> (r: Vec<u32>)
        requires
            self.wf(),
        ensures
            r@ == self.counts(),
    {
        let mut r: Vec<u32> = Vec::new();
        let mut i: usize = 0;
        while i < NUM_BYTE_LOOKUP_COUNTERS
            invariant
                i <= NUM_BYTE_LOOKUP_COUNTERS,
                self.count@.len() == NUM_BYTE_LOOKUP_COUNTERS,
                r@ == self.count@.take(i as int),
            decreases NUM_BYTE_LOOKUP_COUNTERS - i,
        {
            r.push(self.count[i]);
            i = i + 1;
            assert(r@ =~= self.count@.take(i as int));
        }
        assert(self.count@.take(i as int) =~= self.count@);
        r
    }

    /// Height of the multiplicity trace.
    pub fn current_trace_height(&self) -> (r: usize)
        ensures
            r == NUM_BYTE_PAIRS,
    {
        assert((1usize << 16usize) == 65536) by (bit_vector);
        1 << (2 * 8)
    }

    /// Width of the multiplicity trace.
    pub fn trace_width(&self) -> (r: usize)
        ensures
            r == NUM_BYTE_LOOKUP_OPS,
    {
        NUM_BYTE_LOOKUP_OPS
    }
}

/// The range-check requests for four bytes, two at a time.
pub open spec fn range_check_requests(bytes: Seq<u8>) -> Seq<ByteRequest> {
    seq![(bytes[0], bytes[1], ByteLookupOp::U8RangeCheck), (bytes[2], bytes[3], ByteLookupOp::U8RangeCheck)]
}

/// Number of times the entry `r` is requested among `reqs`.
pub open spec fn request_count(reqs: Seq<ByteRequest>, r: ByteRequest) -> nat
    decreases reqs.len(),
{
    if reqs.len() == 0 {
        0
    } else {
        request_count(reqs.drop_last(), r) + if reqs.last() == r {
            1nat
        } else {
            0nat
        }
    }
}

/// Distinct entries have distinct counters.
proof fn lemma_counter_index_injective(a: ByteRequest, b: ByteRequest)
    requires
        counter_index(a.0, a.1, a.2) == counter_index(b.0, b.1, b.2),
    ensures
        a == b,
{
    let ia = a.0 as int * 256 + a.1 as int;
    let ib = b.0 as int * 256 + b.1 as int;
    vstd::arithmetic::div_mod::lemma_fundamental_div_mod_converse(counter_index(a.0, a.1, a.2), 4, ia, a.2.code() as int);
    vstd::arithmetic::div_mod::lemma_fundamental_div_mod_converse(counter_index(b.0, b.1, b.2), 4, ib, b.2.code() as int);
    vstd::arithmetic::div_mod::lemma_fundamental_div_mod_converse(ia, 256, a.0 as int, a.1 as int);
    vstd::arithmetic::div_mod::lemma_fundamental_div_mod_converse(ib, 256, b.0 as int, b.1 as int);
}

/// What the chip counts: after the requests `reqs`, the counter of each
/// entry has grown by the number of times that entry was requested (modulo
/// 2^32, as the counters wrap).
pub proof fn lemma_apply_requests_count(counts: Seq<u32>, reqs: Seq<ByteRequest>, r: ByteRequest)
    requires
        counts.len() == NUM_BYTE_LOOKUP_COUNTERS,
    ensures
        apply_requests(counts, reqs)[counter_index(r.0, r.1, r.2)] == (counts[counter_index(r.0, r.1, r.2)]
            + request_count(reqs, r)) % 0x1_0000_0000,
    decreases reqs.len(),
{
    let i = counter_index(r.0, r.1, r.2);
    lemma_counter_index_bound(r.0, r.1, r.2);
    if reqs.len() == 0 {
        vstd::arithmetic::div_mod::lemma_small_mod(counts[i] as nat, 0x1_0000_0000);
    } else {
        lemma_apply_requests_count(counts, reqs.drop_last(), r);
        lemma_apply_requests_len(counts, reqs.drop_last());
        let q = reqs.last();
        let before = apply_requests(counts, reqs.drop_last());
        let n = request_count(reqs.drop_last(), r);
        if q == r {
            vstd::arithmetic::div_mod::lemma_add_mod_noop(counts[i] + n, 1, 0x1_0000_0000);
            vstd::arithmetic::div_mod::lemma_mod_twice(counts[i] + n, 0x1_0000_0000);
            vstd::arithmetic::div_mod::lemma_small_mod(1, 0x1_0000_0000);
            vstd::arithmetic::div_mod::lemma_add_mod_noop(before[i] as int, 1, 0x1_0000_0000);
            vstd::arithmetic::div_mod::lemma_small_mod(before[i] as nat, 0x1_0000_0000);
        } else {
            if counter_index(q.0, q.1, q.2) == i {
                lemma_counter_index_injective(q, r);
            }
        }
    }
}

} // verus!
