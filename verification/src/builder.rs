//! A constraint builder over concrete rows: it evaluates each constraint that
//! an AIR asserts on the values of a row, in a prime field given by its
//! modulus, and records each interaction that the AIR sends or receives on a bus.
use vstd::prelude::*;

use crate::chips::byte::{op_result, ByteLookupOp, ByteRequest};

verus! {

/// One message on a bus: the bus index, the five fields of a byte lookup key
/// `(x, y, op, res0, res1)`, the multiplicity, and whether it is sent (a
/// lookup) or received (an entry of the table).
#[derive(Clone, Copy, Debug, PartialEq, Eq)]
pub struct Interaction {
    pub bus: u16,
    pub fields: [u32; 5],
    pub count: u32,
    pub is_send: bool,
}

/// Reduction of a value into the field with modulus `p`.
pub open spec fn fe(x: int, p: u32) -> int {
    x % (p as int)
}

/// `a + b` in the field.
pub fn fadd(a: u32, b: u32, p: u32) -> (r: u32)
    requires
        p > 0,
    ensures
        r == fe(a + b, p),
        r < p,
{
    ((a as u64 + b as u64) % p as u64) as u32
}

/// `a - b` in the field.
pub fn fsub(a: u32, b: u32, p: u32) -> (r: u32)
    requires
        p > 0,
    ensures
        r == fe(a - b, p),
        r < p,
{
    let a1 = a as u64 % p as u64;
    let b1 = b as u64 % p as u64;
    let r = ((a1 + p as u64 - b1) % p as u64) as u32;
    proof {
        let pi = p as int;
        vstd::arithmetic::div_mod::lemma_fundamental_div_mod(a as int, pi);
        vstd::arithmetic::div_mod::lemma_fundamental_div_mod(b as int, pi);
        let qa = (a as int) / pi;
        let qb = (b as int) / pi;
        let k = 1 - qa + qb;
        assert(pi * k == pi - pi * qa + pi * qb) by (nonlinear_arith)
            requires
                k == 1 - qa + qb,
        ;
        assert(a1 == a - pi * qa);
        assert(b1 == b - pi * qb);
        assert(a1 + p - b1 == pi * k + (a - b));
        vstd::arithmetic::div_mod::lemma_mod_multiples_vanish(k, a - b, pi);
    }
    r
}

/// `a * b` in the field.
pub fn fmul(a: u32, b: u32, p: u32) -> (r: u32)
    requires
        p > 0,
    ensures
        r == fe(a * b, p),
        r < p,
{
    assert(a as u64 * b as u64 <= 0xffff_ffff * 0xffff_ffff) by (nonlinear_arith);
    ((a as u64 * b as u64) % p as u64) as u32
}

/// Concrete stand-in for the AIR builder: `holds` stays true while every
/// asserted constraint holds on the values given.
pub struct ConstraintChecker {
    pub modulus: u32,
    pub holds: bool,
    pub interactions: Vec<Interaction>,
}

impl ConstraintChecker {
    /// The field has at least 16 bits.
    pub open spec fn wf(&self) -> bool {
        self.modulus >= 0x1_0000
    }

    /// A checker for the field with modulus `modulus`, with no constraint asserted yet.
    pub fn new(modulus: u32) -> (r: Self)
        requires
            modulus >= 0x1_0000,
        ensures
            r.wf(),
            r.modulus == modulus,
            r.holds,
            r.interactions@ == Seq::<Interaction>::empty(),
    {
        ConstraintChecker { modulus, holds: true, interactions: Vec::new() }
    }

    /// Assert that `x` is zero in the field.
    pub fn assert_zero(&mut self, x: u32)
        requires
            old(self).wf(),
        ensures
            final(self).wf(),
            final(self).modulus == old(self).modulus,
            final(self).interactions == old(self).interactions,
            final(self).holds == (old(self).holds && fe(x as int, old(self).modulus) == 0),
    {
        let ok = x % self.modulus == 0;
        self.holds = self.holds && ok;
    }

    /// Assert that `x` is one in the field.
    pub fn assert_one(&mut self, x: u32)
        requires
            old(self).wf(),
        ensures
            final(self).wf(),
            final(self).modulus == old(self).modulus,
            final(self).interactions == old(self).interactions,
            final(self).holds == (old(self).holds && fe(x as int, old(self).modulus) == 1),
    {
        let ok = x % self.modulus == 1;
        self.holds = self.holds && ok;
    }

    /// Assert that `a` and `b` are equal in the field.
    pub fn assert_eq(&mut self, a: u32, b: u32)
        requires
            old(self).wf(),
        ensures
            final(self).wf(),
            final(self).modulus == old(self).modulus,
            final(self).interactions == old(self).interactions,
            final(self).holds == (old(self).holds && fe(a as int, old(self).modulus) == fe(
                b as int,
                old(self).modulus,
            )),
    {
        let ok = a % self.modulus == b % self.modulus;
        self.holds = self.holds && ok;
    }

    /// Assert that `x` is zero or one: `x * (x - 1) = 0` in the field.
    pub fn assert_bool(&mut self, x: u32)
        requires
            old(self).wf(),
        ensures
            final(self).wf(),
            final(self).modulus == old(self).modulus,
            final(self).interactions == old(self).interactions,
            final(self).holds == (old(self).holds && fe(
                fe(x as int, old(self).modulus) * fe(x - 1, old(self).modulus),
                old(self).modulus,
            ) == 0),
    {
        let p = self.modulus;
        let xm = x % p;
        let xm1 = fsub(x, 1, p);
        let prod = fmul(xm, xm1, p);
        let ok = prod == 0;
        self.holds = self.holds && ok;
    }

    /// Record an interaction on a bus.
    pub fn push_interaction(&mut self, i: Interaction)
        requires
            old(self).wf(),
        ensures
            final(self).wf(),
            final(self).modulus == old(self).modulus,
            final(self).holds == old(self).holds,
            final(self).interactions@ == old(self).interactions@.push(i),
    {
        self.interactions.push(i);
    }
}

/// The key that a lookup of `op` on `(x, y)` with results `(r0, r1)` sends on the byte bus.
pub open spec fn lookup_send(bus: u16, x: u32, y: u32, op: ByteLookupOp, r0: u32, r1: u32) -> Interaction {
    Interaction { bus, fields: [x, y, op.code() as u32, r0, r1], count: 1, is_send: true }
}

/// Send a lookup of `op` on `(x, y)` with results `(r0, r1)` over the byte bus.
pub fn send_lookup(
    builder: &mut ConstraintChecker,
    bus: u16,
    x: u32,
    y: u32,
    op: ByteLookupOp,
    r0: u32,
    r1: u32,
)
    requires
        old(builder).wf(),
    ensures
        final(builder).wf(),
        final(builder).modulus == old(builder).modulus,
        final(builder).holds == old(builder).holds,
        final(builder).interactions@ == old(builder).interactions@.push(
            lookup_send(bus, x, y, op, r0, r1),
        ),
{
    let i = Interaction { bus, fields: [x, y, op.as_u8() as u32, r0, r1], count: 1, is_send: true };
    assert(i == lookup_send(bus, x, y, op, r0, r1));
    builder.push_interaction(i);
}

/// The key that a request to the byte lookup table sends on the bus: the two
/// inputs, the operation and the two results that the table holds for them.
pub open spec fn request_key(bus: u16, r: ByteRequest) -> Interaction {
    let (x, y, op) = r;
    lookup_send(bus, x as u32, y as u32, op, op_result(op, x, y).0 as u32, op_result(op, x, y).1 as u32)
}

/// The keys that a sequence of requests sends on the bus.
pub open spec fn request_keys(bus: u16, reqs: Seq<ByteRequest>) -> Seq<Interaction> {
    reqs.map_values(|r: ByteRequest| request_key(bus, r))
}

/// The operation tagged by `code`.
pub open spec fn op_of_code(code: u32) -> ByteLookupOp {
    if code == 0 {
        ByteLookupOp::Xor
    } else if code == 1 {
        ByteLookupOp::ShrCarry
    } else if code == 2 {
        ByteLookupOp::And
    } else {
        ByteLookupOp::U8RangeCheck
    }
}

/// An interaction is a send of a key that the byte lookup table holds.
pub open spec fn is_table_lookup(bus: u16, i: Interaction) -> bool {
    &&& i.bus == bus
    &&& i.is_send
    &&& i.fields[0] < 256
    &&& i.fields[1] < 256
    &&& i.fields[2] < 4
    &&& i == request_key(bus, (i.fields[0] as u8, i.fields[1] as u8, op_of_code(i.fields[2])))
}

/// Reducing a summand first does not change a sum in the field.
pub proof fn lemma_fe_add(a: int, b: int, p: u32)
    requires
        p > 0,
    ensures
        fe(fe(a, p) + b, p) == fe(a + b, p),
        fe(a + fe(b, p), p) == fe(a + b, p),
{
    vstd::arithmetic::div_mod::lemma_add_mod_noop(a, b, p as int);
    vstd::arithmetic::div_mod::lemma_add_mod_noop(fe(a, p), b, p as int);
    vstd::arithmetic::div_mod::lemma_add_mod_noop(a, fe(b, p), p as int);
    vstd::arithmetic::div_mod::lemma_mod_twice(a, p as int);
    vstd::arithmetic::div_mod::lemma_mod_twice(b, p as int);
}

/// Reducing the subtrahend or minuend first does not change a difference in the field.
pub proof fn lemma_fe_sub(a: int, b: int, p: u32)
    requires
        p > 0,
    ensures
        fe(fe(a, p) - b, p) == fe(a - b, p),
        fe(a - fe(b, p), p) == fe(a - b, p),
{
    vstd::arithmetic::div_mod::lemma_sub_mod_noop(a, b, p as int);
    vstd::arithmetic::div_mod::lemma_sub_mod_noop(fe(a, p), b, p as int);
    vstd::arithmetic::div_mod::lemma_sub_mod_noop(a, fe(b, p), p as int);
    vstd::arithmetic::div_mod::lemma_mod_twice(a, p as int);
    vstd::arithmetic::div_mod::lemma_mod_twice(b, p as int);
}

/// Reducing factors first does not change a product in the field.
pub proof fn lemma_fe_mul(a: int, b: int, p: u32)
    requires
        p > 0,
    ensures
        fe(fe(a, p) * fe(b, p), p) == fe(a * b, p),
{
    vstd::arithmetic::div_mod::lemma_mul_mod_noop(a, b, p as int);
}

/// A canonical value is its own reduction.
pub proof fn lemma_fe_small(a: int, p: u32)
    requires
        0 <= a < p,
    ensures
        fe(a, p) == a,
{
    vstd::arithmetic::div_mod::lemma_small_mod(a as nat, p as nat);
}

/// The range-check lookups of a slice of limbs, two at a time, the second
/// of a last lone limb being zero.
pub open spec fn range_check_interactions(bus: u16, s: Seq<u32>) -> Seq<Interaction> {
    Seq::new(
        ((s.len() + 1) / 2) as nat,
        |m: int|
            lookup_send(
                bus,
                s[2 * m],
                if 2 * m + 1 < s.len() {
                    s[2 * m + 1]
                } else {
                    0
                },
                ByteLookupOp::U8RangeCheck,
                0,
                0,
            ),
    )
}

impl ConstraintChecker {
    /// Range check each limb of `input` as a byte, two at a time.
    pub fn slice_range_check_u8(&mut self, lookup_bus: u16, input: &[u32])
        requires
            old(self).wf(),
        ensures
            final(self).wf(),
            final(self).modulus == old(self).modulus,
            final(self).holds == old(self).holds,
            final(self).interactions@ == old(self).interactions@ + range_check_interactions(
                lookup_bus,
                input@,
            ),
    {
        let ghost start = self.interactions@;
        let ghost all = range_check_interactions(lookup_bus, input@);
        let n_pairs = input.len() / 2 + input.len() % 2;
        assert(n_pairs == (input@.len() + 1) / 2);
        let mut m: usize = 0;
        while m < n_pairs
            invariant
                self.wf(),
                self.modulus == old(self).modulus,
                self.holds == old(self).holds,
                n_pairs == all.len(),
                n_pairs == (input@.len() + 1) / 2,
                m <= n_pairs,
                all == range_check_interactions(lookup_bus, input@),
                self.interactions@ == start + all.take(m as int),
            decreases n_pairs - m,
        {
            let len = input.len();
            assert(2 * m < len);
            let idx: usize = 2 * m;
            let b = input[idx];
            let c = if idx + 1 < len {
                input[idx + 1]
            } else {
                0
            };
            send_lookup(self, lookup_bus, b, c, ByteLookupOp::U8RangeCheck, 0, 0);
            assert(all.take(m + 1) =~= all.take(m as int).push(all[m as int]));
            m = m + 1;
        }
        assert(all.take(m as int) =~= all);
    }
}

/// `p` is a prime.
pub open spec fn is_prime(p: int) -> bool {
    &&& p > 1
    &&& forall|d: int| 1 < d < p ==> #[trigger] (p % d) != 0
}

/// Euclid's lemma: a prime that divides the product of `b` and a number
/// between 0 and itself (both excluded) divides `b`.
pub proof fn lemma_prime_divides(p: int, a: int, b: int)
    requires
        is_prime(p),
        0 < a < p,
        (a * b) % p == 0,
    ensures
        b % p == 0,
    decreases a,
{
    if a == 1 {
        assert(1 * b == b);
    } else {
        let q = p / a;
        let r = p % a;
        vstd::arithmetic::div_mod::lemma_fundamental_div_mod(p, a);
        assert(r != 0);
        assert(0 < r < a);
        let m = (a * b) / p;
        vstd::arithmetic::div_mod::lemma_fundamental_div_mod(a * b, p);
        assert(a * b == p * m);
        assert(r * b == p * (b - q * m)) by (nonlinear_arith)
            requires
                p == a * q + r,
                a * b == p * m,
        ;
        vstd::arithmetic::div_mod::lemma_mod_multiples_basic(b - q * m, p);
        assert((p * (b - q * m)) % p == 0) by {
            assert(p * (b - q * m) == (b - q * m) * p) by (nonlinear_arith);
        }
        lemma_prime_divides(p, r, b);
    }
}

} // verus!
