use vstd::prelude::*;

use crate::builder::{ConstraintChecker, Interaction};
use crate::chips::byte::ByteLookupOp;

verus! {

/// The bus, identified by its index, over which the byte lookup table is used.
#[derive(Clone, Copy, Debug, PartialEq, Eq)]
pub struct ByteLookupBus(pub u16);

/// A message on the byte lookup bus: the inputs `x` and `y`, the operation,
/// its results, and whether it is a lookup (sent) or a table entry (received).
#[derive(Clone, Debug)]
pub struct ByteBusInteraction<T> {
    pub x: T,
    pub y: T,
    pub op: ByteLookupOp,
    pub res: Vec<T>,
    pub bus: u16,
    pub is_lookup: bool,
}

/// The interaction that a message records with multiplicity `count`: the key
/// `(x, y, op, res[0], res[1])` on its bus.
pub open spec fn bus_interaction(m: ByteBusInteraction<u32>, count: u32) -> Interaction {
    Interaction { bus: m.bus, fields: [m.x, m.y, m.op.code() as u32, m.res@[0], m.res@[1]], count, is_send: m.is_lookup }
}

impl ByteLookupBus {
    /// A lookup of `op` on `(x, y)` with results `res`.
    pub fn send(&self, x: u32, y: u32, op: ByteLookupOp, res: Vec<u32>) -> (r: ByteBusInteraction<u32>)
        ensures
            r == (ByteBusInteraction { x, y, op, res, bus: self.0, is_lookup: true }),
    {
        self.push(x, y, op, res, true)
    }

    /// A table entry of `op` on `(x, y)` with results `res`.
    pub fn receive(&self, x: u32, y: u32, op: ByteLookupOp, res: Vec<u32>) -> (r: ByteBusInteraction<u32>)
        ensures
            r == (ByteBusInteraction { x, y, op, res, bus: self.0, is_lookup: false }),
    {
        self.push(x, y, op, res, false)
    }

    /// A message of `op` on `(x, y)` with results `res`, a lookup when `is_lookup`.
    pub fn push(&self, x: u32, y: u32, op: ByteLookupOp, res: Vec<u32>, is_lookup: bool) -> (r: ByteBusInteraction<u32>)
        ensures
            r == (ByteBusInteraction { x, y, op, res, bus: self.0, is_lookup }),
    {
        ByteBusInteraction { x, y, op, res, bus: self.0, is_lookup }
    }
}

impl ByteBusInteraction<u32> {
    /// Finalizes and sends or receives the message over the bus with multiplicity `count`.
    pub fn eval(self, builder: &mut ConstraintChecker, count: u32)
        requires
            old(builder).wf(),
            self.res@.len() >= 2,
        ensures
            final(builder).wf(),
            final(builder).modulus == old(builder).modulus,
            final(builder).holds == old(builder).holds,
            final(builder).interactions@ == old(builder).interactions@.push(bus_interaction(self, count)),
    {
        let key = [self.x, self.y, self.op.as_u8() as u32, self.res[0], self.res[1]];
        let i = Interaction { bus: self.bus, fields: key, count, is_send: self.is_lookup };
        assert(i == bus_interaction(self, count));
        builder.push_interaction(i);
    }
}

} // verus!
