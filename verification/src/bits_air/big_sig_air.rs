use vstd::prelude::*;

use crate::bits_air::rotr_air::{
    is_rotr_of,
    lemma_rotr_complete,
    rotr_constraints,
    rotr_interactions,
    rotr_requests,
    RightRotateCols,
};
use crate::bits_air::xor_air::{is_xor3_of, lemma_xor3_complete, xor3_interactions, xor3_requests, Xor3Cols};
use crate::builder::{is_table_lookup, request_keys, ConstraintChecker, Interaction};
use crate::chips::byte::{apply_requests, lemma_apply_requests_concat, ByteLookupChip, ByteRequest};
use crate::sha_spec::{big_sigma0, big_sigma1, rotr};
use crate::utils::byte_limbs;

verus! {

/// Columns that compute the SHA-256 `Σ0` function: three right rotations and
/// the XOR of their results.
#[derive(Clone, Copy, Debug)]
pub struct BigSigma0Cols<T> {
    pub rrots: [RightRotateCols<T>; 3],
    pub xor3: Xor3Cols<T>,
}

/// Number of columns of `BigSigma0Cols`.
pub const NUM_BIG_SIGMA_0_COLS: usize = 44;

/// Columns that compute the SHA-256 `Σ1` function: three right rotations and
/// the XOR of their results.
#[derive(Clone, Copy, Debug)]
pub struct BigSigma1Cols<T> {
    pub rrots: [RightRotateCols<T>; 3],
    pub xor3: Xor3Cols<T>,
}

/// Number of columns of `BigSigma1Cols`.
pub const NUM_BIG_SIGMA_1_COLS: usize = 44;

/// The requests of three rotations of `input` and of the XOR of their results.
pub open spec fn big_sigma_requests(input: u32, r0: usize, r1: usize, r2: usize) -> Seq<ByteRequest> {
    rotr_requests(input, r0) + rotr_requests(input, r1) + rotr_requests(input, r2) + xor3_requests(
        rotr(input, r0 as u32),
        rotr(input, r1 as u32),
        rotr(input, r2 as u32),
    )
}

/// The columns hold three rotations of `input` and the XOR of their results.
pub open spec fn is_big_sigma_of(
    rrots: [RightRotateCols<u32>; 3],
    xor3: Xor3Cols<u32>,
    input: u32,
    r0: usize,
    r1: usize,
    r2: usize,
) -> bool {
    &&& is_rotr_of(rrots[0], input, r0)
    &&& is_rotr_of(rrots[1], input, r1)
    &&& is_rotr_of(rrots[2], input, r2)
    &&& is_xor3_of(xor3, rotr(input, r0 as u32), rotr(input, r1 as u32), rotr(input, r2 as u32))
}

/// The polynomial constraints of three rotations.
pub open spec fn big_sigma_constraints(p: u32, rrots: [RightRotateCols<u32>; 3], r0: usize, r1: usize, r2: usize) -> bool {
    &&& rotr_constraints(p, r0, rrots[0])
    &&& rotr_constraints(p, r1, rrots[1])
    &&& rotr_constraints(p, r2, rrots[2])
}

/// The lookups of three rotations of `input` (limbs) and of the XOR of their results.
pub open spec fn big_sigma_interactions(
    bus: u16,
    input: Seq<u32>,
    rrots: [RightRotateCols<u32>; 3],
    xor3: Xor3Cols<u32>,
    r0: usize,
    r1: usize,
    r2: usize,
) -> Seq<Interaction> {
    rotr_interactions(bus, input, r0, rrots[0]) + rotr_interactions(bus, input, r1, rrots[1])
        + rotr_interactions(bus, input, r2, rrots[2]) + xor3_interactions(
        bus,
        rrots[0].value@,
        rrots[1].value@,
        rrots[2].value@,
        xor3,
    )
}

/// Fill three rotations of `input` and the XOR of their results.
fn populate_big_sigma(
    rrots: &mut [RightRotateCols<u32>; 3],
    xor3: &mut Xor3Cols<u32>,
    lookup: &mut ByteLookupChip,
    input: u32,
    r0: usize,
    r1: usize,
    r2: usize,
) -> (r: u32)
    requires
        old(lookup).wf(),
    ensures
        r == rotr(input, r0 as u32) ^ rotr(input, r1 as u32) ^ rotr(input, r2 as u32),
        is_big_sigma_of(*final(rrots), *final(xor3), input, r0, r1, r2),
        final(lookup).wf(),
        final(lookup).air == old(lookup).air,
        final(lookup).counts() == apply_requests(old(lookup).counts(), big_sigma_requests(input, r0, r1, r2)),
{
    let ghost c0 = lookup.counts();
    let mut a = rrots[0];
    let x = a.populate(lookup, input, r0);
    rrots[0] = a;
    let ghost c1 = lookup.counts();
    let mut b = rrots[1];
    let y = b.populate(lookup, input, r1);
    rrots[1] = b;
    let ghost c2 = lookup.counts();
    let mut c = rrots[2];
    let z = c.populate(lookup, input, r2);
    rrots[2] = c;
    let ghost c3 = lookup.counts();
    let r = xor3.populate(lookup, x, y, z);
    proof {
        let q0 = rotr_requests(input, r0);
        let q1 = rotr_requests(input, r1);
        let q2 = rotr_requests(input, r2);
        let q3 = xor3_requests(x, y, z);
        lemma_apply_requests_concat(c0, q0, q1);
        lemma_apply_requests_concat(c0, q0 + q1, q2);
        lemma_apply_requests_concat(c0, q0 + q1 + q2, q3);
    }
    r
}

/// Assert the constraints of three rotations of `input` and send their
/// lookups and those of the XOR of their results.
fn eval_big_sigma(
    builder: &mut ConstraintChecker,
    lookup_bus: u16,
    input: [u32; 4],
    rrots: &[RightRotateCols<u32>; 3],
    xor3: &Xor3Cols<u32>,
    r0: usize,
    r1: usize,
    r2: usize,
)
    requires
        old(builder).wf(),
    ensures
        final(builder).wf(),
        final(builder).modulus == old(builder).modulus,
        final(builder).holds == (old(builder).holds && big_sigma_constraints(
            old(builder).modulus,
            *rrots,
            r0,
            r1,
            r2,
        )),
        final(builder).interactions@ == old(builder).interactions@ + big_sigma_interactions(
            lookup_bus,
            input@,
            *rrots,
            *xor3,
            r0,
            r1,
            r2,
        ),
{
    RightRotateCols::eval(builder, lookup_bus, input, r0, &rrots[0]);
    RightRotateCols::eval(builder, lookup_bus, input, r1, &rrots[1]);
    RightRotateCols::eval(builder, lookup_bus, input, r2, &rrots[2]);
    Xor3Cols::eval(builder, lookup_bus, rrots[0].value, rrots[1].value, rrots[2].value, xor3);
    assert(builder.interactions@ =~= old(builder).interactions@ + big_sigma_interactions(
        lookup_bus,
        input@,
        *rrots,
        *xor3,
        r0,
        r1,
        r2,
    ));
}

/// Completeness of three rotations and the XOR of their results: on the
/// columns that `populate` fills, every constraint holds, in every field of at
/// least 16 bits, and the constraints send exactly the keys of the requests
/// that `populate` made, each of them an entry of the byte lookup table.
pub proof fn lemma_big_sigma_complete(
    p: u32,
    bus: u16,
    rrots: [RightRotateCols<u32>; 3],
    xor3: Xor3Cols<u32>,
    input: u32,
    r0: usize,
    r1: usize,
    r2: usize,
)
    requires
        is_big_sigma_of(rrots, xor3, input, r0, r1, r2),
        p >= 0x1_0000,
    ensures
        big_sigma_constraints(p, rrots, r0, r1, r2),
        big_sigma_interactions(bus, byte_limbs(input), rrots, xor3, r0, r1, r2) == request_keys(
            bus,
            big_sigma_requests(input, r0, r1, r2),
        ),
        forall|k: int| 0 <= k < 20 ==> is_table_lookup(bus, #[trigger] request_keys(bus, big_sigma_requests(input, r0, r1, r2))[k]),
{
    lemma_rotr_complete(p, bus, rrots[0], input, r0);
    lemma_rotr_complete(p, bus, rrots[1], input, r1);
    lemma_rotr_complete(p, bus, rrots[2], input, r2);
    let (x, y, z) = (rotr(input, r0 as u32), rotr(input, r1 as u32), rotr(input, r2 as u32));
    lemma_xor3_complete(bus, xor3, x, y, z);
    let q0 = rotr_requests(input, r0);
    let q1 = rotr_requests(input, r1);
    let q2 = rotr_requests(input, r2);
    let q3 = xor3_requests(x, y, z);
    assert(request_keys(bus, q0 + q1 + q2 + q3) =~= request_keys(bus, q0) + request_keys(bus, q1) + request_keys(bus, q2)
        + request_keys(bus, q3));
}

impl BigSigma0Cols<u32> {
    /// All columns zero.
    pub fn new() -> (r: Self)
        ensures
            forall|k: int| 0 <= k < 3 ==> (#[trigger] r.rrots[k]).value@ == seq![0u32, 0, 0, 0] && r.rrots[k].shift@ == seq![
                0u32,
                0,
                0,
                0,
            ] && r.rrots[k].carry@ == seq![0u32, 0, 0, 0],
            r.xor3.xor_xy@ == seq![0u32, 0, 0, 0],
            r.xor3.value@ == seq![0u32, 0, 0, 0],
    {
        BigSigma0Cols { rrots: [RightRotateCols::new(), RightRotateCols::new(), RightRotateCols::new()], xor3: Xor3Cols::new() }
    }

    /// Fill the columns with the computation of `Σ0(input)`, requesting the
    /// lookups that it needs, and return `Σ0(input)`.
    pub fn populate(&mut self, byte_lookup: &mut ByteLookupChip, input: u32) -> (r: u32)
        requires
            old(byte_lookup).wf(),
        ensures
            r == big_sigma0(input),
            is_big_sigma_of(final(self).rrots, final(self).xor3, input, 2, 13, 22),
            final(byte_lookup).wf(),
            final(byte_lookup).air == old(byte_lookup).air,
            final(byte_lookup).counts() == apply_requests(old(byte_lookup).counts(), big_sigma_requests(input, 2, 13, 22)),
    {
        populate_big_sigma(&mut self.rrots, &mut self.xor3, byte_lookup, input, 2, 13, 22)
    }

    /// Assert the constraints of `Σ0` of `input` (four limbs) and send its lookups.
    pub fn eval(builder: &mut ConstraintChecker, lookup_bus: u16, input: [u32; 4], cols: &BigSigma0Cols<u32>)
        requires
            old(builder).wf(),
        ensures
            final(builder).wf(),
            final(builder).modulus == old(builder).modulus,
            final(builder).holds == (old(builder).holds && big_sigma_constraints(
                old(builder).modulus,
                cols.rrots,
                2,
                13,
                22,
            )),
            final(builder).interactions@ == old(builder).interactions@ + big_sigma_interactions(
                lookup_bus,
                input@,
                cols.rrots,
                cols.xor3,
                2,
                13,
                22,
            ),
    {
        eval_big_sigma(builder, lookup_bus, input, &cols.rrots, &cols.xor3, 2, 13, 22);
    }
}

impl BigSigma1Cols<u32> {
    /// All columns zero.
    pub fn new() -> (r: Self)
        ensures
            forall|k: int| 0 <= k < 3 ==> (#[trigger] r.rrots[k]).value@ == seq![0u32, 0, 0, 0] && r.rrots[k].shift@ == seq![
                0u32,
                0,
                0,
                0,
            ] && r.rrots[k].carry@ == seq![0u32, 0, 0, 0],
            r.xor3.xor_xy@ == seq![0u32, 0, 0, 0],
            r.xor3.value@ == seq![0u32, 0, 0, 0],
    {
        BigSigma1Cols { rrots: [RightRotateCols::new(), RightRotateCols::new(), RightRotateCols::new()], xor3: Xor3Cols::new() }
    }

    /// Fill the columns with the computation of `Σ1(input)`, requesting the
    /// lookups that it needs, and return `Σ1(input)`.
    pub fn populate(&mut self, byte_lookup: &mut ByteLookupChip, input: u32) -> (r: u32)
        requires
            old(byte_lookup).wf(),
        ensures
            r == big_sigma1(input),
            is_big_sigma_of(final(self).rrots, final(self).xor3, input, 6, 11, 25),
            final(byte_lookup).wf(),
            final(byte_lookup).air == old(byte_lookup).air,
            final(byte_lookup).counts() == apply_requests(old(byte_lookup).counts(), big_sigma_requests(input, 6, 11, 25)),
    {
        populate_big_sigma(&mut self.rrots, &mut self.xor3, byte_lookup, input, 6, 11, 25)
    }

    /// Assert the constraints of `Σ1` of `input` (four limbs) and send its lookups.
    pub fn eval(builder: &mut ConstraintChecker, lookup_bus: u16, input: [u32; 4], cols: &BigSigma1Cols<u32>)
        requires
            old(builder).wf(),
        ensures
            final(builder).wf(),
            final(builder).modulus == old(builder).modulus,
            final(builder).holds == (old(builder).holds && big_sigma_constraints(
                old(builder).modulus,
                cols.rrots,
                6,
                11,
                25,
            )),
            final(builder).interactions@ == old(builder).interactions@ + big_sigma_interactions(
                lookup_bus,
                input@,
                cols.rrots,
                cols.xor3,
                6,
                11,
                25,
            ),
    {
        eval_big_sigma(builder, lookup_bus, input, &cols.rrots, &cols.xor3, 6, 11, 25);
    }
}

/// Soundness of the big sigma constraints: where the shifts and carries of
/// the three rotations are those that the lookups give for `input`, the
/// constraints hold only if the three operands of the XOR are `input` rotated
/// right by `r0`, `r1` and `r2`.
pub proof fn lemma_big_sigma_sound(
    p: u32,
    rrots: [RightRotateCols<u32>; 3],
    input: u32,
    r0: usize,
    r1: usize,
    r2: usize,
)
    requires
        p >= 0x1_0000,
        big_sigma_constraints(p, rrots, r0, r1, r2),
        crate::bits_air::rotr_air::rotr_lookups_hold(rrots[0], input, r0),
        crate::bits_air::rotr_air::rotr_lookups_hold(rrots[1], input, r1),
        crate::bits_air::rotr_air::rotr_lookups_hold(rrots[2], input, r2),
        forall|k: int, i: int| 0 <= k < 3 && 0 <= i < 4 ==> #[trigger] rrots[k].value[i] < p,
    ensures
        rrots[0].value@ == byte_limbs(rotr(input, r0 as u32)),
        rrots[1].value@ == byte_limbs(rotr(input, r1 as u32)),
        rrots[2].value@ == byte_limbs(rotr(input, r2 as u32)),
{
    assert(forall|i: int| 0 <= i < 4 ==> #[trigger] rrots[0].value[i] < p);
    assert(forall|i: int| 0 <= i < 4 ==> #[trigger] rrots[1].value[i] < p);
    assert(forall|i: int| 0 <= i < 4 ==> #[trigger] rrots[2].value[i] < p);
    crate::bits_air::rotr_air::lemma_rotr_sound(p, rrots[0], input, r0);
    crate::bits_air::rotr_air::lemma_rotr_sound(p, rrots[1], input, r1);
    crate::bits_air::rotr_air::lemma_rotr_sound(p, rrots[2], input, r2);
}

} // verus!
