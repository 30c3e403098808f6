use vstd::prelude::*;

use crate::bits_air::rotr_air::{
    is_rotr_of,
    lemma_rotr_complete,
    lemma_rotr_sound,
    rotr_constraints,
    rotr_lookups_hold,
    rotr_interactions,
    rotr_requests,
    RightRotateCols,
};
use crate::bits_air::sr_air::{
    is_shr_of,
    lemma_shr_complete,
    lemma_shr_sound,
    shr_constraints,
    shr_lookups_hold,
    shr_interactions,
    shr_requests,
    ShiftRightCols,
};
use crate::bits_air::xor_air::{is_xor3_of, lemma_xor3_complete, xor3_interactions, xor3_requests, Xor3Cols};
use crate::builder::{is_table_lookup, request_keys, ConstraintChecker, Interaction};
use crate::chips::byte::{apply_requests, lemma_apply_requests_concat, ByteLookupChip, ByteRequest};
use crate::sha_spec::{rotr, small_sigma0, small_sigma1};
use crate::utils::{byte_limbs, u32_to_byte_limbs};

verus! {

/// Bus index of the byte lookup table for the small sigma AIRs.
pub const BUS_INDEX: u16 = 10;

/// Columns that compute a SHA-256 small sigma function: the input limbs, two
/// right rotations, a right shift and the XOR of the three results.
#[derive(Clone, Copy, Debug)]
pub struct SmallSigmaCols<T> {
    pub input: [T; 4],
    pub rrots: [RightRotateCols<T>; 2],
    pub sr: ShiftRightCols<T>,
    pub xor3: Xor3Cols<T>,
}

/// Number of columns of `SmallSigmaCols`.
pub const NUM_SMALL_SIGMA_COLS: usize = 48;

/// The AIR of `σ0` on one row.
#[derive(Debug)]
pub struct SmallSigma0Air {}

/// The AIR of `σ1` on one row.
#[derive(Debug)]
pub struct SmallSigma1Air {}

/// The requests of two rotations and a shift of `input` and of the XOR of their results.
pub open spec fn small_sigma_requests(input: u32, r0: usize, r1: usize, s: usize) -> Seq<ByteRequest> {
    rotr_requests(input, r0) + rotr_requests(input, r1) + shr_requests(input, s) + xor3_requests(
        rotr(input, r0 as u32),
        rotr(input, r1 as u32),
        input >> s as u32,
    )
}

/// The columns hold the limbs of `input`, two rotations and a shift of it, and
/// the XOR of their results.
pub open spec fn is_small_sigma_of(cols: SmallSigmaCols<u32>, input: u32, r0: usize, r1: usize, s: usize) -> bool {
    &&& cols.input@ == byte_limbs(input)
    &&& is_rotr_of(cols.rrots[0], input, r0)
    &&& is_rotr_of(cols.rrots[1], input, r1)
    &&& is_shr_of(cols.sr, input, s)
    &&& is_xor3_of(cols.xor3, rotr(input, r0 as u32), rotr(input, r1 as u32), input >> s as u32)
}

/// The polynomial constraints of two rotations and a shift.
pub open spec fn small_sigma_constraints(p: u32, cols: SmallSigmaCols<u32>, r0: usize, r1: usize, s: usize) -> bool {
    &&& rotr_constraints(p, r0, cols.rrots[0])
    &&& rotr_constraints(p, r1, cols.rrots[1])
    &&& shr_constraints(p, s, cols.sr)
}

/// The lookups of two rotations and a shift of `input` (limbs) and of the XOR of their results.
pub open spec fn small_sigma_interactions(
    bus: u16,
    input: Seq<u32>,
    cols: SmallSigmaCols<u32>,
    r0: usize,
    r1: usize,
    s: usize,
) -> Seq<Interaction> {
    rotr_interactions(bus, input, r0, cols.rrots[0]) + rotr_interactions(bus, input, r1, cols.rrots[1])
        + shr_interactions(bus, input, s, cols.sr) + xor3_interactions(
        bus,
        cols.rrots[0].value@,
        cols.rrots[1].value@,
        cols.sr.value@,
        cols.xor3,
    )
}

impl SmallSigmaCols<u32> {
    /// All columns zero.
    pub fn new() -> (r: Self)
        ensures
            r.input@ == seq![0u32, 0, 0, 0],
            forall|k: int| 0 <= k < 2 ==> (#[trigger] r.rrots[k]).value@ == seq![0u32, 0, 0, 0] && r.rrots[k].shift@ == seq![
                0u32,
                0,
                0,
                0,
            ] && r.rrots[k].carry@ == seq![0u32, 0, 0, 0],
            r.sr.value@ == seq![0u32, 0, 0, 0],
            r.sr.shift@ == seq![0u32, 0, 0, 0],
            r.sr.carry@ == seq![0u32, 0, 0, 0],
            r.xor3.xor_xy@ == seq![0u32, 0, 0, 0],
            r.xor3.value@ == seq![0u32, 0, 0, 0],
    {
        let r = SmallSigmaCols {
            input: [0, 0, 0, 0],
            rrots: [RightRotateCols::new(), RightRotateCols::new()],
            sr: ShiftRightCols::new(),
            xor3: Xor3Cols::new(),
        };
        assert(r.input@ =~= seq![0u32, 0, 0, 0]);
        r
    }
}

/// Fill a row with two rotations and a shift of `input` and the XOR of their results.
fn populate_small_sigma(row: &mut SmallSigmaCols<u32>, byte_lookup: &mut ByteLookupChip, input: u32, r0: usize, r1: usize, s: usize) -> (r: u32)
    requires
        old(byte_lookup).wf(),
        s < 32,
    ensures
        r == rotr(input, r0 as u32) ^ rotr(input, r1 as u32) ^ (input >> s as u32),
        is_small_sigma_of(*final(row), input, r0, r1, s),
        final(byte_lookup).wf(),
        final(byte_lookup).air == old(byte_lookup).air,
        final(byte_lookup).counts() == apply_requests(old(byte_lookup).counts(), small_sigma_requests(input, r0, r1, s)),
{
    row.input = u32_to_byte_limbs(input);
    let ghost c0 = byte_lookup.counts();
    let mut a = row.rrots[0];
    let x = a.populate(byte_lookup, input, r0);
    row.rrots[0] = a;
    let mut b = row.rrots[1];
    let y = b.populate(byte_lookup, input, r1);
    row.rrots[1] = b;
    let z = row.sr.populate(byte_lookup, input, s);
    let r = row.xor3.populate(byte_lookup, x, y, z);
    proof {
        let q0 = rotr_requests(input, r0);
        let q1 = rotr_requests(input, r1);
        let q2 = shr_requests(input, s);
        let q3 = xor3_requests(x, y, z);
        lemma_apply_requests_concat(c0, q0, q1);
        lemma_apply_requests_concat(c0, q0 + q1, q2);
        lemma_apply_requests_concat(c0, q0 + q1 + q2, q3);
    }
    r
}

/// Fill a row with the computation of `σ0(input)`, requesting the lookups that
/// it needs, and return `σ0(input)`.
pub fn generate_sig0_trace_rows(row: &mut SmallSigmaCols<u32>, byte_lookup: &mut ByteLookupChip, input: u32) -> (r: u32)
    requires
        old(byte_lookup).wf(),
    ensures
        r == small_sigma0(input),
        is_small_sigma_of(*final(row), input, 7, 18, 3),
        final(byte_lookup).wf(),
        final(byte_lookup).air == old(byte_lookup).air,
        final(byte_lookup).counts() == apply_requests(old(byte_lookup).counts(), small_sigma_requests(input, 7, 18, 3)),
{
    populate_small_sigma(row, byte_lookup, input, 7, 18, 3)
}

/// Fill a row with the computation of `σ1(input)`, requesting the lookups that
/// it needs, and return `σ1(input)`.
pub fn generate_sig1_trace_rows(row: &mut SmallSigmaCols<u32>, byte_lookup: &mut ByteLookupChip, input: u32) -> (r: u32)
    requires
        old(byte_lookup).wf(),
    ensures
        r == small_sigma1(input),
        is_small_sigma_of(*final(row), input, 17, 19, 10),
        final(byte_lookup).wf(),
        final(byte_lookup).air == old(byte_lookup).air,
        final(byte_lookup).counts() == apply_requests(old(byte_lookup).counts(), small_sigma_requests(input, 17, 19, 10)),
{
    populate_small_sigma(row, byte_lookup, input, 17, 19, 10)
}

/// Assert the constraints of two rotations and a shift of `input` (four limbs)
/// and send their lookups and those of the XOR of their results.
pub fn eval_small_sigma(
    builder: &mut ConstraintChecker,
    lookup_bus: u16,
    input: [u32; 4],
    cols: &SmallSigmaCols<u32>,
    r0: usize,
    r1: usize,
    s: usize,
)
    requires
        old(builder).wf(),
        s < 32,
    ensures
        final(builder).wf(),
        final(builder).modulus == old(builder).modulus,
        final(builder).holds == (old(builder).holds && small_sigma_constraints(old(builder).modulus, *cols, r0, r1, s)),
        final(builder).interactions@ == old(builder).interactions@ + small_sigma_interactions(
            lookup_bus,
            input@,
            *cols,
            r0,
            r1,
            s,
        ),
{
    RightRotateCols::eval(builder, lookup_bus, input, r0, &cols.rrots[0]);
    RightRotateCols::eval(builder, lookup_bus, input, r1, &cols.rrots[1]);
    ShiftRightCols::eval(builder, lookup_bus, input, s, &cols.sr);
    Xor3Cols::eval(builder, lookup_bus, cols.rrots[0].value, cols.rrots[1].value, cols.sr.value, &cols.xor3);
    assert(builder.interactions@ =~= old(builder).interactions@ + small_sigma_interactions(
        lookup_bus,
        input@,
        *cols,
        r0,
        r1,
        s,
    ));
}

impl SmallSigma0Air {
    /// Number of columns.
    pub fn width(&self) -> (r: usize)
        ensures
            r == NUM_SMALL_SIGMA_COLS,
    {
        NUM_SMALL_SIGMA_COLS
    }

    /// The one-row trace of `σ0(input)`.
    pub fn generate_trace_rows(&self, byte_lookup: &mut ByteLookupChip, input: u32) -> (r: SmallSigmaCols<u32>)
        requires
            old(byte_lookup).wf(),
        ensures
            is_small_sigma_of(r, input, 7, 18, 3),
            r.xor3.value@ == byte_limbs(small_sigma0(input)),
            final(byte_lookup).wf(),
            final(byte_lookup).air == old(byte_lookup).air,
            final(byte_lookup).counts() == apply_requests(old(byte_lookup).counts(), small_sigma_requests(input, 7, 18, 3)),
    {
        let mut row = SmallSigmaCols::new();
        generate_sig0_trace_rows(&mut row, byte_lookup, input);
        row
    }

    /// The constraints of the row: `σ0` of the input limbs of the row.
    pub fn eval(&self, builder: &mut ConstraintChecker, local: &SmallSigmaCols<u32>)
        requires
            old(builder).wf(),
        ensures
            final(builder).wf(),
            final(builder).modulus == old(builder).modulus,
            final(builder).holds == (old(builder).holds && small_sigma_constraints(old(builder).modulus, *local, 7, 18, 3)),
            final(builder).interactions@ == old(builder).interactions@ + small_sigma_interactions(
                BUS_INDEX,
                local.input@,
                *local,
                7,
                18,
                3,
            ),
    {
        eval_small_sigma(builder, BUS_INDEX, local.input, local, 7, 18, 3);
    }
}

impl SmallSigma1Air {
    /// Number of columns.
    pub fn width(&self) -> (r: usize)
        ensures
            r == NUM_SMALL_SIGMA_COLS,
    {
        NUM_SMALL_SIGMA_COLS
    }

    /// The one-row trace of `σ1(input)`.
    pub fn generate_trace_rows(&self, byte_lookup: &mut ByteLookupChip, input: u32) -> (r: SmallSigmaCols<u32>)
        requires
            old(byte_lookup).wf(),
        ensures
            is_small_sigma_of(r, input, 17, 19, 10),
            r.xor3.value@ == byte_limbs(small_sigma1(input)),
            final(byte_lookup).wf(),
            final(byte_lookup).air == old(byte_lookup).air,
            final(byte_lookup).counts() == apply_requests(old(byte_lookup).counts(), small_sigma_requests(input, 17, 19, 10)),
    {
        let mut row = SmallSigmaCols::new();
        generate_sig1_trace_rows(&mut row, byte_lookup, input);
        row
    }

    /// The constraints of the row: the rotations by 7 and 18 and the shift by
    /// 3 of the input limbs (those of `σ0`, as for `SmallSigma0Air`).
    pub fn eval(&self, builder: &mut ConstraintChecker, local: &SmallSigmaCols<u32>)
        requires
            old(builder).wf(),
        ensures
            final(builder).wf(),
            final(builder).modulus == old(builder).modulus,
            final(builder).holds == (old(builder).holds && small_sigma_constraints(old(builder).modulus, *local, 7, 18, 3)),
            final(builder).interactions@ == old(builder).interactions@ + small_sigma_interactions(
                BUS_INDEX,
                local.input@,
                *local,
                7,
                18,
                3,
            ),
    {
        eval_small_sigma(builder, BUS_INDEX, local.input, local, 7, 18, 3);
    }
}

/// Completeness of a small sigma row: on the row that `populate` fills, every
/// constraint holds, in every field of at least 16 bits, and the constraints
/// send exactly the keys of the requests that `populate` made, each of them an
/// entry of the byte lookup table.
pub proof fn lemma_small_sigma_complete(p: u32, bus: u16, cols: SmallSigmaCols<u32>, input: u32, r0: usize, r1: usize, s: usize)
    requires
        is_small_sigma_of(cols, input, r0, r1, s),
        s < 32,
        p >= 0x1_0000,
    ensures
        small_sigma_constraints(p, cols, r0, r1, s),
        small_sigma_interactions(bus, cols.input@, cols, r0, r1, s) == request_keys(
            bus,
            small_sigma_requests(input, r0, r1, s),
        ),
        forall|k: int| 0 <= k < 20 ==> is_table_lookup(bus, #[trigger] request_keys(bus, small_sigma_requests(input, r0, r1, s))[k]),
{
    lemma_rotr_complete(p, bus, cols.rrots[0], input, r0);
    lemma_rotr_complete(p, bus, cols.rrots[1], input, r1);
    lemma_shr_complete(p, bus, cols.sr, input, s);
    let (x, y, z) = (rotr(input, r0 as u32), rotr(input, r1 as u32), input >> s as u32);
    lemma_xor3_complete(bus, cols.xor3, x, y, z);
    let q0 = rotr_requests(input, r0);
    let q1 = rotr_requests(input, r1);
    let q2 = shr_requests(input, s);
    let q3 = xor3_requests(x, y, z);
    assert(request_keys(bus, q0 + q1 + q2 + q3) =~= request_keys(bus, q0) + request_keys(bus, q1) + request_keys(bus, q2)
        + request_keys(bus, q3));
}

/// Soundness of the small sigma constraints: where the shifts and carries
/// of the two rotations and of the shift are those that the lookups give for
/// `input`, the constraints hold only if the three operands of the XOR are
/// `input` rotated right by `r0` and by `r1` and shifted right by `s`.
pub proof fn lemma_small_sigma_sound(p: u32, cols: SmallSigmaCols<u32>, input: u32, r0: usize, r1: usize, s: usize)
    requires
        p >= 0x1_0000,
        s < 32,
        small_sigma_constraints(p, cols, r0, r1, s),
        rotr_lookups_hold(cols.rrots[0], input, r0),
        rotr_lookups_hold(cols.rrots[1], input, r1),
        shr_lookups_hold(cols.sr, input, s),
        forall|i: int| 0 <= i < 4 ==> #[trigger] cols.rrots[0].value[i] < p,
        forall|i: int| 0 <= i < 4 ==> #[trigger] cols.rrots[1].value[i] < p,
        forall|i: int| 0 <= i < 4 ==> #[trigger] cols.sr.value[i] < p,
    ensures
        cols.rrots[0].value@ == byte_limbs(rotr(input, r0 as u32)),
        cols.rrots[1].value@ == byte_limbs(rotr(input, r1 as u32)),
        cols.sr.value@ == byte_limbs(input >> s as u32),
{
    lemma_rotr_sound(p, cols.rrots[0], input, r0);
    lemma_rotr_sound(p, cols.rrots[1], input, r1);
    lemma_shr_sound(p, cols.sr, input, s);
}

} // verus!
