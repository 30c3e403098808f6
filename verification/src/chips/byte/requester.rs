//! An AIR whose rows each look up one entry of the byte table.
use vstd::prelude::*;

use crate::builder::{lookup_send, request_key, ConstraintChecker};
use crate::chips::byte::{after_request, op_result, ByteLookupChip, ByteLookupOp};

verus! {

/// A requested entry: the inputs and the two results.
#[derive(Clone, Debug)]
pub struct ByteInteractionCols<T> {
    pub x: T,
    pub y: T,
    pub res: [T; 2],
}

/// Number of columns of a requester row.
pub const NUM_BYTE_INTERACTION_COLS: usize = 4;

/// An AIR that looks up, on each row, the entry of `op` that the row holds.
#[derive(Clone, Copy, Debug)]
pub struct ByteInteractionAir {
    pub bus_index: u16,
    pub op: ByteLookupOp,
}

impl ByteInteractionAir {
    pub fn new(bus_index: u16, op: ByteLookupOp) -> (r: Self)
        ensures
            r.bus_index == bus_index,
            r.op == op,
    {
        ByteInteractionAir { bus_index, op }
    }

    /// Number of columns.
    pub fn width(&self) -> (r: usize)
        ensures
            r == NUM_BYTE_INTERACTION_COLS,
    {
        NUM_BYTE_INTERACTION_COLS
    }

    /// The requester has no fixed columns.
    pub fn preprocessed_trace(&self) -> (r: Option<Vec<u32>>)
        ensures
            r.is_none(),
    {
        None
    }

    /// Request the entry of the AIR's operation on `(x, y)` from the chip and
    /// return the row that holds it.
    pub fn request_row(&self, byte_lookup: &mut ByteLookupChip, x: u8, y: u8) -> (r: ByteInteractionCols<u32>)
        requires
            old(byte_lookup).wf(),
        ensures
            r.x == x as u32,
            r.y == y as u32,
            r.res[0] == op_result(self.op, x, y).0 as u32,
            r.res[1] == op_result(self.op, x, y).1 as u32,
            final(byte_lookup).wf(),
            final(byte_lookup).air == old(byte_lookup).air,
            final(byte_lookup).counts() == after_request(old(byte_lookup).counts(), (x, y, self.op)),
    {
        let res = byte_lookup.request(x, y, self.op);
        ByteInteractionCols { x: x as u32, y: y as u32, res: [res[0] as u32, res[1] as u32] }
    }

    /// Send the row's entry of the AIR's operation on the bus.
    pub fn eval(&self, builder: &mut ConstraintChecker, local: &ByteInteractionCols<u32>)
        requires
            old(builder).wf(),
        ensures
            final(builder).wf(),
            final(builder).modulus == old(builder).modulus,
            final(builder).holds == old(builder).holds,
            final(builder).interactions@ == old(builder).interactions@.push(
                lookup_send(self.bus_index, local.x, local.y, self.op, local.res[0], local.res[1]),
            ),
    {
        crate::builder::send_lookup(builder, self.bus_index, local.x, local.y, self.op, local.res[0], local.res[1]);
    }
}

/// A row that the requester filled sends the key of the entry that it
/// requested, which the chip counted.
pub proof fn lemma_request_row_key(air: ByteInteractionAir, row: ByteInteractionCols<u32>, x: u8, y: u8)
    requires
        row.x == x as u32,
        row.y == y as u32,
        row.res[0] == op_result(air.op, x, y).0 as u32,
        row.res[1] == op_result(air.op, x, y).1 as u32,
    ensures
        lookup_send(air.bus_index, row.x, row.y, air.op, row.res[0], row.res[1]) == request_key(air.bus_index, (x, y, air.op)),
{
}

} // verus!
