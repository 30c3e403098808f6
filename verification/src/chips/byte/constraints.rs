use vstd::prelude::*;

use crate::builder::{request_key, ConstraintChecker, Interaction};
use crate::chips::byte::bus::ByteLookupBus;
use crate::chips::byte::columns::{ByteLookupCols, ByteLookupPreprocessedCols, NUM_BYTE_LOOKUP_COLS};
use crate::chips::byte::utils::shr_carry;
use crate::chips::byte::{op_result, ByteLookupOp};

verus! {

/// Number of rows of the byte lookup table: one per pair of bytes.
pub const NUM_ROWS: usize = 65536;

/// The AIR of the byte lookup table.
#[derive(Clone, Copy, Debug)]
pub struct ByteLookupAir {
    pub bus: ByteLookupBus,
}

/// The fixed row of the pair `(x, y)`: the pair and the results of each
/// operation on it.
pub open spec fn is_table_row(row: ByteLookupPreprocessedCols<u32>, x: u8, y: u8) -> bool {
    &&& row.x == x as u32
    &&& row.y == y as u32
    &&& row.xor == op_result(ByteLookupOp::Xor, x, y).0 as u32
    &&& row.shr == op_result(ByteLookupOp::ShrCarry, x, y).0 as u32
    &&& row.shr_carry == op_result(ByteLookupOp::ShrCarry, x, y).1 as u32
    &&& row.and == op_result(ByteLookupOp::And, x, y).0 as u32
}

/// The entry that a table row offers for `op`, received with multiplicity `count`.
pub open spec fn table_receive(bus: u16, row: ByteLookupPreprocessedCols<u32>, op: ByteLookupOp, count: u32) -> Interaction {
    let (r0, r1) = match op {
        ByteLookupOp::Xor => (row.xor, 0u32),
        ByteLookupOp::ShrCarry => (row.shr, row.shr_carry),
        ByteLookupOp::And => (row.and, 0u32),
        ByteLookupOp::U8RangeCheck => (0u32, 0u32),
    };
    Interaction { bus, fields: [row.x, row.y, op.code() as u32, r0, r1], count, is_send: false }
}

/// The entries that a table row offers, one per operation, with the
/// multiplicities of its main columns.
pub open spec fn table_row_interactions(bus: u16, row: ByteLookupPreprocessedCols<u32>, local: ByteLookupCols<u32>) -> Seq<Interaction> {
    seq![
        table_receive(bus, row, ByteLookupOp::Xor, local.muls[0]),
        table_receive(bus, row, ByteLookupOp::ShrCarry, local.muls[1]),
        table_receive(bus, row, ByteLookupOp::And, local.muls[2]),
        table_receive(bus, row, ByteLookupOp::U8RangeCheck, local.muls[3]),
    ]
}

impl ByteLookupAir {
    pub fn new(bus: ByteLookupBus) -> (r: Self)
        ensures
            r.bus == bus,
    {
        ByteLookupAir { bus }
    }

    /// Number of main columns.
    pub fn width(&self) -> (r: usize)
        ensures
            r == NUM_BYTE_LOOKUP_COLS,
    {
        NUM_BYTE_LOOKUP_COLS
    }

    /// The fixed table: row `256 x + y` holds the pair `(x, y)` and the result
    /// of each operation on it.
    pub fn preprocessed_trace(&self) -> (r: Vec<ByteLookupPreprocessedCols<u32>>)
        ensures
            r@.len() == NUM_ROWS,
            forall|x: u8, y: u8| is_table_row(#[trigger] r@[x as int * 256 + y as int], x, y),
    {
        let mut rows: Vec<ByteLookupPreprocessedCols<u32>> = Vec::new();
        let mut x: u32 = 0;
        while x < 256
            invariant
                x <= 256,
                rows@.len() == 256 * x,
                forall|a: u8, b: u8| a < x ==> is_table_row(#[trigger] rows@[a as int * 256 + b as int], a, b),
            decreases 256 - x,
        {
            let mut y: u32 = 0;
            while y < 256
                invariant
                    x < 256,
                    y <= 256,
                    rows@.len() == 256 * x + y,
                    forall|a: u8, b: u8| a < x ==> is_table_row(#[trigger] rows@[a as int * 256 + b as int], a, b),
                    forall|b: u8| b < y ==> is_table_row(#[trigger] rows@[x as int * 256 + b as int], x as u8, b),
                decreases 256 - y,
            {
                let xb = x as u8;
                let yb = y as u8;
                let (shr, carry) = shr_carry(xb, yb);
                let row = ByteLookupPreprocessedCols {
                    x,
                    y,
                    xor: (xb ^ yb) as u32,
                    shr: shr as u32,
                    shr_carry: carry as u32,
                    and: (xb & yb) as u32,
                };
                assert(is_table_row(row, xb, yb));
                rows.push(row);
                y = y + 1;
            }
            x = x + 1;
        }
        rows
    }

    /// Each row offers its entry of each operation, with the multiplicity
    /// that the main columns give.
    pub fn eval(&self, builder: &mut ConstraintChecker, prep_local: &ByteLookupPreprocessedCols<u32>, local: &ByteLookupCols<u32>)
        requires
            old(builder).wf(),
        ensures
            final(builder).wf(),
            final(builder).modulus == old(builder).modulus,
            final(builder).holds == old(builder).holds,
            final(builder).interactions@ == old(builder).interactions@ + table_row_interactions(self.bus.0, *prep_local, *local),
    {
        let ghost start = builder.interactions@;
        let m = self.bus.receive(prep_local.x, prep_local.y, ByteLookupOp::Xor, vec![prep_local.xor, 0]);
        m.eval(builder, local.muls[0]);
        let m = self.bus.receive(prep_local.x, prep_local.y, ByteLookupOp::ShrCarry, vec![prep_local.shr, prep_local.shr_carry]);
        m.eval(builder, local.muls[1]);
        let m = self.bus.receive(prep_local.x, prep_local.y, ByteLookupOp::And, vec![prep_local.and, 0]);
        m.eval(builder, local.muls[2]);
        let m = self.bus.receive(prep_local.x, prep_local.y, ByteLookupOp::U8RangeCheck, vec![0, 0]);
        m.eval(builder, local.muls[3]);
        assert(builder.interactions@ =~= start + table_row_interactions(self.bus.0, *prep_local, *local));
    }
}

/// The table offers the key of every request: on the row of `(x, y)`, the
/// entry of `op` carries the key that a request of `(x, y, op)` sends, so a
/// lookup is balanced by the row's multiplicity of that operation.
pub proof fn lemma_table_row_key(bus: u16, row: ByteLookupPreprocessedCols<u32>, x: u8, y: u8, op: ByteLookupOp, count: u32)
    requires
        is_table_row(row, x, y),
    ensures
        table_receive(bus, row, op, count) == (Interaction { count, is_send: false, ..request_key(bus, (x, y, op)) }),
{
    assert(table_receive(bus, row, op, count).fields =~= request_key(bus, (x, y, op)).fields);
}

} // verus!
