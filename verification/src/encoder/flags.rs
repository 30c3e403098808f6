//! The flag expressions of an encoder, evaluated in a prime field at the
//! values of its variables: the expression of a point is one at that point
//! and zero at every other point.
use vstd::prelude::*;

use crate::builder::{fadd, fe, fmul, fsub, lemma_fe_add, lemma_fe_mul, lemma_fe_small, lemma_fe_sub};
use crate::builder::{is_prime, lemma_prime_divides, ConstraintChecker};
use crate::encoder::{
    coord_sum, is_point, lemma_coord_sum_bounds, lemma_coord_sum_take_le, lemma_coord_sum_take_step,
    lemma_lex_asym, Encoder,
};

verus! {

/// The field has inverses of 2 and 3, hence of every factor from 1 to 4.
pub open spec fn has_small_inverses(p: u32) -> bool {
    &&& p >= 5
    &&& p % 2 == 1
    &&& p % 3 != 0
}

/// The inverse of `f` (from 1 to 4) in the field with modulus `p`.
pub open spec fn inv_small(f: int, p: u32) -> int {
    if f == 2 {
        (p + 1) / 2
    } else if f == 3 {
        if (p + 1) % 3 == 0 {
            (p + 1) / 3
        } else {
            (2 * p + 1) / 3
        }
    } else if f == 4 {
        fe(((p + 1) / 2) * ((p + 1) / 2), p)
    } else {
        1
    }
}

/// `p + 1` is one in the field.
proof fn lemma_fe_p_plus_one(p: u32)
    requires
        p >= 2,
    ensures
        fe(p + 1, p) == 1,
{
    vstd::arithmetic::div_mod::lemma_fundamental_div_mod_converse(p + 1, p as int, 1, 1);
}

/// The small inverses are inverses.
proof fn lemma_inv_small(f: int, p: u32)
    requires
        1 <= f <= 4,
        has_small_inverses(p),
    ensures
        0 <= inv_small(f, p) < p,
        fe(f * inv_small(f, p), p) == 1,
{
    let pi = p as int;
    if f == 1 {
        lemma_fe_small(1, p);
    } else if f == 2 {
        assert(2 * ((pi + 1) / 2) == pi + 1);
        lemma_fe_p_plus_one(p);
    } else if f == 3 {
        if (pi + 1) % 3 == 0 {
            assert(3 * ((pi + 1) / 3) == pi + 1);
            lemma_fe_p_plus_one(p);
        } else {
            assert((2 * pi + 1) % 3 == 0);
            assert(3 * ((2 * pi + 1) / 3) == 2 * pi + 1);
            vstd::arithmetic::div_mod::lemma_fundamental_div_mod_converse(2 * pi + 1, pi, 2, 1);
        }
    } else {
        let h = (pi + 1) / 2;
        assert(2 * h == pi + 1);
        vstd::arithmetic::div_mod::lemma_mod_bound(h * h, pi);
        lemma_fe_mul(4, h * h, p);
        lemma_fe_small(4, p);
        assert(4 * (h * h) == (pi + 1) * (pi + 1)) by (nonlinear_arith)
            requires
                2 * h == pi + 1,
        ;
        lemma_fe_mul(pi + 1, pi + 1, p);
        lemma_fe_p_plus_one(p);
        lemma_fe_small(1, p);
    }
}

/// `v (v - 1) .. (v - k + 1)`.
pub open spec fn fall_prod(v: int, k: nat) -> int
    decreases k,
{
    if k == 0 {
        1
    } else {
        fall_prod(v, (k - 1) as nat) * (v - (k - 1))
    }
}

/// The product of the inverses of `c, c - 1, .., c - k + 1`.
pub open spec fn fall_inv(c: int, k: nat, p: u32) -> int
    decreases k,
{
    if k == 0 {
        1
    } else {
        fall_inv(c, (k - 1) as nat, p) * inv_small(c - (k - 1), p)
    }
}

/// The numerator factors of the first `n` coordinates of the point `pt` at `vars`.
pub open spec fn coord_num(pt: Seq<u32>, vars: Seq<u32>, n: nat) -> int
    decreases n,
{
    if n == 0 {
        1
    } else {
        coord_num(pt, vars, (n - 1) as nat) * fall_prod(vars[n - 1] as int, pt[n - 1] as nat)
    }
}

/// The inverses of the denominator factors of the first `n` coordinates of `pt`.
pub open spec fn coord_inv(pt: Seq<u32>, n: nat, p: u32) -> int
    decreases n,
{
    if n == 0 {
        1
    } else {
        coord_inv(pt, (n - 1) as nat, p) * fall_inv(pt[n - 1] as int, pt[n - 1] as nat, p)
    }
}

/// The value at `vars` of the flag expression of the point `pt` of degree
/// at most `d`: for each coordinate `i`, `prod_{j < pt[i]} (x_i - j) / (pt[i] - j)`,
/// times `prod_{j < c} (d - j - sum x) / (c - j)` where `c = d - sum pt`.
pub open spec fn point_expr(pt: Seq<u32>, vars: Seq<u32>, d: u32, p: u32) -> int {
    let c = d - coord_sum(pt);
    fe(
        (coord_num(pt, vars, pt.len()) * fall_prod(d - coord_sum(vars), c as nat)) * (coord_inv(pt, pt.len(), p)
            * fall_inv(c, c as nat, p)),
        p,
    )
}

/// A falling product through `v` is zero.
proof fn lemma_fall_prod_zero(v: int, k: nat)
    requires
        0 <= v < k,
    ensures
        fall_prod(v, k) == 0,
    decreases k,
{
    let a = fall_prod(v, (k - 1) as nat);
    if v < k - 1 {
        lemma_fall_prod_zero(v, (k - 1) as nat);
        assert(a * (v - (k - 1)) == 0);
    } else {
        assert(v - (k - 1) == 0);
        assert(a * 0 == 0);
    }
}

/// A falling product times the inverses of its own factors is one.
proof fn lemma_fall_pair_one(c: int, k: nat, p: u32)
    requires
        0 <= k <= c <= 4,
        has_small_inverses(p),
    ensures
        fe(fall_prod(c, k) * fall_inv(c, k, p), p) == 1,
    decreases k,
{
    if k == 0 {
        lemma_fe_small(1, p);
    } else {
        lemma_fall_pair_one(c, (k - 1) as nat, p);
        let a = fall_prod(c, (k - 1) as nat);
        let b = fall_inv(c, (k - 1) as nat, p);
        let x = c - (k - 1);
        let y = inv_small(x, p);
        lemma_inv_small(x, p);
        assert((a * x) * (b * y) == (a * b) * (x * y)) by (nonlinear_arith);
        lemma_fe_mul(a * b, x * y, p);
        lemma_fe_small(1, p);
    }
}

/// The coordinate factors of a point at itself, times their inverses, make one.
proof fn lemma_coord_pair_one(pt: Seq<u32>, n: nat, p: u32)
    requires
        n <= pt.len(),
        forall|i: int| 0 <= i < pt.len() ==> #[trigger] pt[i] <= 4,
        has_small_inverses(p),
    ensures
        fe(coord_num(pt, pt, n) * coord_inv(pt, n, p), p) == 1,
    decreases n,
{
    if n == 0 {
        lemma_fe_small(1, p);
    } else {
        lemma_coord_pair_one(pt, (n - 1) as nat, p);
        let c = pt[n - 1] as int;
        lemma_fall_pair_one(c, c as nat, p);
        let a = coord_num(pt, pt, (n - 1) as nat);
        let b = coord_inv(pt, (n - 1) as nat, p);
        let x = fall_prod(c, c as nat);
        let y = fall_inv(c, c as nat, p);
        assert((a * x) * (b * y) == (a * b) * (x * y)) by (nonlinear_arith);
        lemma_fe_mul(a * b, x * y, p);
        lemma_fe_small(1, p);
    }
}

/// The numerator vanishes when one coordinate factor does.
proof fn lemma_coord_num_zero(pt: Seq<u32>, vars: Seq<u32>, n: nat, i: int)
    requires
        0 <= i < n,
        fall_prod(vars[i] as int, pt[i] as nat) == 0,
    ensures
        coord_num(pt, vars, n) == 0,
    decreases n,
{
    if i < n - 1 {
        lemma_coord_num_zero(pt, vars, (n - 1) as nat, i);
    }
}

/// Coordinates at least as large, one of them larger, make a larger sum.
proof fn lemma_coord_sum_gt(a: Seq<u32>, b: Seq<u32>, i: int)
    requires
        a.len() == b.len(),
        0 <= i < a.len(),
        a[i] < b[i],
        forall|j: int| 0 <= j < a.len() ==> #[trigger] a[j] <= b[j],
    ensures
        coord_sum(a) < coord_sum(b),
    decreases a.len(),
{
    if i < a.len() - 1 {
        lemma_coord_sum_gt(a.drop_last(), b.drop_last(), i);
    } else {
        lemma_coord_sum_le(a.drop_last(), b.drop_last());
    }
}

/// Coordinates at least as large make a sum at least as large.
proof fn lemma_coord_sum_le(a: Seq<u32>, b: Seq<u32>)
    requires
        a.len() == b.len(),
        forall|j: int| 0 <= j < a.len() ==> #[trigger] a[j] <= b[j],
    ensures
        coord_sum(a) <= coord_sum(b),
    decreases a.len(),
{
    if a.len() > 0 {
        lemma_coord_sum_le(a.drop_last(), b.drop_last());
    }
}

/// The flag expression of a point is one at that point.
pub proof fn lemma_point_expr_self(pt: Seq<u32>, d: u32, p: u32)
    requires
        coord_sum(pt) <= d <= 4,
        has_small_inverses(p),
    ensures
        point_expr(pt, pt, d, p) == 1,
{
    lemma_coord_sum_bounds(pt);
    lemma_coord_pair_one(pt, pt.len(), p);
    let c = d - coord_sum(pt);
    lemma_fall_pair_one(c, c as nat, p);
    let a = coord_num(pt, pt, pt.len());
    let b = coord_inv(pt, pt.len(), p);
    let x = fall_prod(c, c as nat);
    let y = fall_inv(c, c as nat, p);
    assert((a * x) * (b * y) == (a * b) * (x * y)) by (nonlinear_arith);
    lemma_fe_mul(a * b, x * y, p);
    lemma_fe_small(1, p);
}

/// The flag expression of a point is zero at every other point.
pub proof fn lemma_point_expr_other(pt: Seq<u32>, q: Seq<u32>, k: nat, d: u32, p: u32)
    requires
        is_point(pt, k, d),
        is_point(q, k, d),
        pt != q,
        d <= 4,
        p > 0,
    ensures
        point_expr(pt, q, d, p) == 0,
{
    let c = d - coord_sum(pt);
    let rest = coord_inv(pt, pt.len(), p) * fall_inv(c, c as nat, p);
    if exists|i: int| 0 <= i < k && q[i] < pt[i] {
        let i = choose|i: int| 0 <= i < k && q[i] < pt[i];
        lemma_fall_prod_zero(q[i] as int, pt[i] as nat);
        lemma_coord_num_zero(pt, q, pt.len(), i);
    } else {
        assert(forall|j: int| 0 <= j < k ==> #[trigger] pt[j] <= q[j]);
        if forall|j: int| 0 <= j < k ==> #[trigger] pt[j] == q[j] {
            assert(pt =~= q);
        }
        let i = choose|i: int| 0 <= i < k && pt[i] != q[i];
        lemma_coord_sum_gt(pt, q, i);
        lemma_coord_sum_bounds(q);
        lemma_fall_prod_zero(d - coord_sum(q), c as nat);
    }
    assert(coord_num(pt, q, pt.len()) * fall_prod(d - coord_sum(q), c as nat) == 0);
    assert(0 * rest == 0);
    lemma_fe_small(0, p);
}

/// The inverse of `f` (from 1 to 4) in the field.
fn inv_small_exec(f: u32, p: u32) -> (r: u32)
    requires
        1 <= f <= 4,
        has_small_inverses(p),
    ensures
        r == inv_small(f as int, p),
{
    if f == 2 {
        ((p as u64 + 1) / 2) as u32
    } else if f == 3 {
        if (p as u64 + 1) % 3 == 0 {
            ((p as u64 + 1) / 3) as u32
        } else {
            ((2 * p as u64 + 1) / 3) as u32
        }
    } else if f == 4 {
        let h = ((p as u64 + 1) / 2) as u32;
        fmul(h, h, p)
    } else {
        1
    }
}

/// The value at `vars` of the flag expression of flag `idx`, times `e`,
/// summed over the pairs `(idx, e)`, in the field.
pub open spec fn flag_combination(enc: Encoder, vars: Seq<u32>, pairs: Seq<(usize, u32)>, p: u32) -> int
    decreases pairs.len(),
{
    if pairs.len() == 0 {
        0
    } else {
        fe(
            flag_combination(enc, vars, pairs.drop_last(), p) + point_expr(
                enc.flag_pt(pairs.last().0 as int),
                vars,
                enc.max_flag_degree,
                p,
            ) * pairs.last().1,
            p,
        )
    }
}

/// The sum, in the field, of the values paired with flag `f`.
pub open spec fn flag_selected(pairs: Seq<(usize, u32)>, f: int, p: u32) -> int
    decreases pairs.len(),
{
    if pairs.len() == 0 {
        0
    } else if pairs.last().0 == f {
        fe(flag_selected(pairs.drop_last(), f, p) + pairs.last().1, p)
    } else {
        flag_selected(pairs.drop_last(), f, p)
    }
}

/// Every pair names a flag that has a point.
pub open spec fn pairs_in_range(enc: Encoder, pairs: Seq<(usize, u32)>) -> bool {
    forall|k: int| 0 <= k < pairs.len() ==> #[trigger] pairs[k].0 < enc.flag_cnt
}

/// The values paired with flags, reduced into the field.
pub open spec fn vals_in_field(pairs: Seq<(usize, usize)>, p: u32) -> Seq<(usize, u32)> {
    pairs.map_values(|q: (usize, usize)| (q.0, (q.1 as int % (p as int)) as u32))
}

/// The constraints that hold the variables to a point of a flag: each
/// variable, and their sum, is one of `0..=d`, and the expression of every
/// point that no flag uses is zero.
pub open spec fn encoder_constraints(enc: Encoder, vars: Seq<u32>, p: u32) -> bool {
    let d = enc.max_flag_degree;
    &&& forall|i: int| 0 <= i < vars.len() ==> #[trigger] fe(fall_prod(vars[i] as int, (d + 1) as nat), p) == 0
    &&& fe(fall_prod(fe(coord_sum(vars), p), (d + 1) as nat), p) == 0
    &&& forall|u: int|
        enc.flag_cnt + enc.offset() <= u < enc.points().len() ==> #[trigger] point_expr(enc.points()[u], vars, d, p) == 0
}

/// `(x - 0)(x - 1) .. (x - d)` in the field.
fn falling_factorial(x: u32, d: u32, p: u32) -> (r: u32)
    requires
        p > 1,
        d < 0xffff_ffff,
    ensures
        r == fe(fall_prod(x as int, (d + 1) as nat), p),
{
    let mut res: u32 = 1;
    proof {
        vstd::arithmetic::div_mod::lemma_small_mod(1, p as nat);
    }
    let mut i: u32 = 0;
    while i <= d
        invariant
            p > 1,
            i <= d + 1,
            d < 0xffff_ffff,
            res == fe(fall_prod(x as int, i as nat), p),
        decreases d + 1 - i,
    {
        let t = fsub(x, i, p);
        proof {
            lemma_fe_mul(fall_prod(x as int, i as nat), x - i, p);
        }
        res = fmul(res, t, p);
        i = i + 1;
    }
    res
}

impl Encoder {
    /// The value at `vars` of the flag expression of the point `pt`.
    pub fn expression_for_point(&self, pt: &Vec<u32>, vars: &[u32], p: u32) -> (r: u32)
        requires
            self.wf(),
            has_small_inverses(p),
            pt@.len() == vars@.len(),
            coord_sum(pt@) <= self.max_flag_degree,
        ensures
            r == point_expr(pt@, vars@, self.max_flag_degree, p),
            r < p,
    {
        let ghost ptv = pt@;
        let ghost vv = vars@;
        proof {
            lemma_coord_sum_bounds(ptv);
            lemma_fe_small(1, p);
        }
        let n = pt.len();
        let mut expr: u32 = 1;
        let mut inv: u32 = 1;
        let mut i: usize = 0;
        while i < n
            invariant
                i <= n,
                n == ptv.len(),
                n == vv.len(),
                ptv == pt@,
                vv == vars@,
                has_small_inverses(p),
                forall|t: int| 0 <= t < n ==> #[trigger] ptv[t] <= 4,
                expr == fe(coord_num(ptv, vv, i as nat), p),
                inv == fe(coord_inv(ptv, i as nat, p), p),
            decreases n - i,
        {
            let c = pt[i];
            let mut j: u32 = 0;
            while j < c
                invariant
                    i < n,
                    n == ptv.len(),
                    n == vv.len(),
                    ptv == pt@,
                    vv == vars@,
                    has_small_inverses(p),
                    j <= c,
                    c == ptv[i as int],
                    c <= 4,
                    expr == fe(coord_num(ptv, vv, i as nat) * fall_prod(vv[i as int] as int, j as nat), p),
                    inv == fe(coord_inv(ptv, i as nat, p) * fall_inv(c as int, j as nat, p), p),
                decreases c - j,
            {
                let ghost a = coord_num(ptv, vv, i as nat);
                let ghost fp = fall_prod(vv[i as int] as int, j as nat);
                let ghost b = coord_inv(ptv, i as nat, p);
                let ghost fi = fall_inv(c as int, j as nat, p);
                let t = fsub(vars[i], j, p);
                let q = inv_small_exec(c - j, p);
                proof {
                    lemma_inv_small((c - j) as int, p);
                    lemma_fe_small(q as int, p);
                    lemma_fe_mul(a * fp, vv[i as int] - j, p);
                    lemma_fe_mul(b * fi, q as int, p);
                    assert((a * fp) * (vv[i as int] - j) == a * (fp * (vv[i as int] - j))) by (nonlinear_arith);
                    assert((b * fi) * q == b * (fi * q)) by (nonlinear_arith);
                }
                expr = fmul(expr, t, p);
                inv = fmul(inv, q, p);
                j = j + 1;
            }
            i = i + 1;
        }
        // The sum of the variables.
        let mut s: u32 = 0;
        proof {
            lemma_fe_small(0, p);
            assert(vv.take(0) =~= Seq::<u32>::empty());
        }
        let mut k: usize = 0;
        while k < n
            invariant
                k <= n,
                n == vv.len(),
                vv == vars@,
                p > 0,
                s == fe(coord_sum(vv.take(k as int)), p),
            decreases n - k,
        {
            proof {
                lemma_coord_sum_take_step(vv, k as int);
                lemma_fe_add(coord_sum(vv.take(k as int)), vv[k as int] as int, p);
            }
            s = fadd(s, vars[k], p);
            k = k + 1;
        }
        assert(vv.take(n as int) =~= vv);
        // The sum of the point's coordinates.
        let d = self.max_flag_degree;
        let mut ps: u32 = 0;
        let mut m: usize = 0;
        proof {
            assert(ptv.take(0) =~= Seq::<u32>::empty());
        }
        while m < n
            invariant
                m <= n,
                n == ptv.len(),
                ptv == pt@,
                coord_sum(ptv) <= d,
                ps == coord_sum(ptv.take(m as int)),
            decreases n - m,
        {
            proof {
                lemma_coord_sum_take_step(ptv, m as int);
                lemma_coord_sum_take_le(ptv, m as int + 1);
            }
            ps = ps + pt[m];
            m = m + 1;
        }
        assert(ptv.take(n as int) =~= ptv);
        let c = d - ps;
        let ghost cn = coord_num(ptv, vv, n as nat);
        let ghost ci = coord_inv(ptv, n as nat, p);
        let ghost sv = coord_sum(vv);
        let mut j: u32 = 0;
        while j < c
            invariant
                j <= c,
                c <= d,
                c <= 4,
                has_small_inverses(p),
                s == fe(sv, p),
                expr == fe(cn * fall_prod(d - sv, j as nat), p),
                inv == fe(ci * fall_inv(c as int, j as nat, p), p),
            decreases c - j,
        {
            let ghost fp = fall_prod(d - sv, j as nat);
            let ghost fi = fall_inv(c as int, j as nat, p);
            let t = fsub(d - j, s, p);
            let q = inv_small_exec(c - j, p);
            proof {
                lemma_fe_sub((d - j) as int, sv, p);
                lemma_inv_small((c - j) as int, p);
                lemma_fe_small(q as int, p);
                lemma_fe_mul(cn * fp, (d - j) - sv, p);
                lemma_fe_mul(ci * fi, q as int, p);
                assert((cn * fp) * ((d - j) - sv) == cn * (fp * ((d - sv) - j))) by (nonlinear_arith);
                assert((ci * fi) * q == ci * (fi * q)) by (nonlinear_arith);
            }
            expr = fmul(expr, t, p);
            inv = fmul(inv, q, p);
            j = j + 1;
        }
        proof {
            lemma_fe_mul(cn * fall_prod(d - sv, c as nat), ci * fall_inv(c as int, c as nat, p), p);
        }
        fmul(expr, inv, p)
    }

    /// The value at `vars` of the flag expression of flag `flag_idx`.
    pub fn get_flag_expr(&self, flag_idx: usize, vars: &[u32], p: u32) -> (r: u32)
        requires
            self.wf(),
            has_small_inverses(p),
            flag_idx < self.flag_cnt,
            vars@.len() == self.var_cnt,
        ensures
            r == point_expr(self.flag_pt(flag_idx as int), vars@, self.max_flag_degree, p),
    {
        let reserve: usize = if self.reserve_invalid {
            1
        } else {
            0
        };
        let i = flag_idx + reserve;
        assert(self.points()[i as int] == self.pts@[i as int]@);
        assert(is_point(self.points()[i as int], self.var_cnt as nat, self.max_flag_degree));
        self.expression_for_point(&self.pts[i], vars, p)
    }

    /// The sum, over the pairs `(idx, e)`, of the flag expression of `idx`
    /// at `vars` times `e`, in the field.
    pub fn flag_with_expr(&self, vars: &[u32], flag_idx_expr_pairs: &[(usize, u32)], p: u32) -> (r: u32)
        requires
            self.wf(),
            has_small_inverses(p),
            vars@.len() == self.var_cnt,
            pairs_in_range(*self, flag_idx_expr_pairs@),
        ensures
            r == flag_combination(*self, vars@, flag_idx_expr_pairs@, p),
    {
        let ghost pairs = flag_idx_expr_pairs@;
        let mut acc: u32 = 0;
        let mut k: usize = 0;
        proof {
            assert(pairs.take(0) =~= Seq::<(usize, u32)>::empty());
        }
        while k < flag_idx_expr_pairs.len()
            invariant
                k <= pairs.len(),
                pairs == flag_idx_expr_pairs@,
                self.wf(),
                has_small_inverses(p),
                vars@.len() == self.var_cnt,
                pairs_in_range(*self, pairs),
                acc == flag_combination(*self, vars@, pairs.take(k as int), p),
            decreases pairs.len() - k,
        {
            let (idx, e) = flag_idx_expr_pairs[k];
            assert(pairs[k as int].0 < self.flag_cnt);
            let f = self.get_flag_expr(idx, vars, p);
            let t = fmul(f, e, p);
            proof {
                assert(pairs.take(k + 1).drop_last() =~= pairs.take(k as int));
                let fx = point_expr(self.flag_pt(idx as int), vars@, self.max_flag_degree, p);
                lemma_fe_small(f as int, p);
                lemma_fe_add(acc as int, fx * e, p);
                vstd::arithmetic::div_mod::lemma_mod_bound(fx * e, p as int);
                vstd::arithmetic::div_mod::lemma_mod_bound(acc + fx * e, p as int);
                lemma_fe_small(e as int % (p as int), p);
                lemma_fe_mul(fx, e as int, p);
                vstd::arithmetic::div_mod::lemma_mod_twice(e as int, p as int);
                assert(flag_combination(*self, vars@, pairs.take(k + 1), p) == fe(acc + fx * e, p));
                lemma_fe_add(acc as int, fx * e, p);
            }
            acc = fadd(acc, t, p);
            proof {
                lemma_fe_add(acc as int, 0, p);
            }
            k = k + 1;
        }
        assert(pairs.take(pairs.len() as int) =~= pairs);
        acc
    }
}

impl Encoder {
    /// `flag_with_expr` on values given as integers, each reduced into the field.
    pub fn flag_with_val(&self, vars: &[u32], flag_idx_vals: &[(usize, usize)], p: u32) -> (r: u32)
        requires
            self.wf(),
            has_small_inverses(p),
            vars@.len() == self.var_cnt,
            pairs_in_range(*self, vals_in_field(flag_idx_vals@, p)),
        ensures
            r == flag_combination(*self, vars@, vals_in_field(flag_idx_vals@, p), p),
    {
        let mut pairs: Vec<(usize, u32)> = Vec::new();
        let mut k: usize = 0;
        while k < flag_idx_vals.len()
            invariant
                k <= flag_idx_vals@.len(),
                p > 0,
                pairs@ == vals_in_field(flag_idx_vals@, p).take(k as int),
            decreases flag_idx_vals@.len() - k,
        {
            let (idx, v) = flag_idx_vals[k];
            pairs.push((idx, (v % p as usize) as u32));
            k = k + 1;
            assert(pairs@ =~= vals_in_field(flag_idx_vals@, p).take(k as int));
        }
        assert(pairs@ =~= vals_in_field(flag_idx_vals@, p));
        self.flag_with_expr(vars, pairs.as_slice(), p)
    }

    /// Assert that the variables hold the point of a flag: each variable, and
    /// their sum, is one of `0..=max_flag_degree`, and the expression of every
    /// point that no flag uses is zero.
    pub fn eval(&self, builder: &mut ConstraintChecker, local: &[u32])
        requires
            old(builder).wf(),
            has_small_inverses(old(builder).modulus),
            self.wf(),
            local@.len() == self.var_cnt,
        ensures
            final(builder).wf(),
            final(builder).modulus == old(builder).modulus,
            final(builder).interactions == old(builder).interactions,
            final(builder).holds == (old(builder).holds && encoder_constraints(*self, local@, old(builder).modulus)),
    {
        let p = builder.modulus;
        let d = self.max_flag_degree;
        let ghost h0 = builder.holds;
        let ghost vars = local@;
        let n = local.len();
        let mut i: usize = 0;
        while i < n
            invariant
                i <= n,
                n == vars.len(),
                vars == local@,
                builder.wf(),
                builder.modulus == p,
                builder.interactions == old(builder).interactions,
                d == self.max_flag_degree,
                d <= 4,
                builder.holds == (h0 && forall|t: int| 0 <= t < i ==> #[trigger] fe(fall_prod(vars[t] as int, (d + 1) as nat), p) == 0),
            decreases n - i,
        {
            let f = falling_factorial(local[i], d, p);
            builder.assert_zero(f);
            proof {
                lemma_fe_small(f as int, p);
                assert((forall|t: int| 0 <= t < i + 1 ==> #[trigger] fe(fall_prod(vars[t] as int, (d + 1) as nat), p) == 0)
                    == ((forall|t: int| 0 <= t < i ==> #[trigger] fe(fall_prod(vars[t] as int, (d + 1) as nat), p) == 0)
                    && fe(fall_prod(vars[i as int] as int, (d + 1) as nat), p) == 0));
            }
            i = i + 1;
        }
        let ghost h1 = builder.holds;
        // The sum of the variables.
        let mut s: u32 = 0;
        proof {
            lemma_fe_small(0, p);
            assert(vars.take(0) =~= Seq::<u32>::empty());
        }
        let mut k: usize = 0;
        while k < n
            invariant
                k <= n,
                n == vars.len(),
                vars == local@,
                p > 0,
                s == fe(coord_sum(vars.take(k as int)), p),
            decreases n - k,
        {
            proof {
                lemma_coord_sum_take_step(vars, k as int);
                lemma_fe_add(coord_sum(vars.take(k as int)), vars[k as int] as int, p);
            }
            s = fadd(s, local[k], p);
            k = k + 1;
        }
        assert(vars.take(n as int) =~= vars);
        let f = falling_factorial(s, d, p);
        builder.assert_zero(f);
        proof {
            lemma_fe_small(f as int, p);
        }
        let ghost h2 = builder.holds;
        let reserve: usize = if self.reserve_invalid {
            1
        } else {
            0
        };
        let total = self.pts.len();
        let mut u: usize = if self.flag_cnt >= total {
            total
        } else {
            self.flag_cnt + reserve
        };
        if u > total {
            u = total;
        }
        let ghost u0 = u;
        while u < total
            invariant
                u0 <= u <= total,
                total == self.points().len(),
                u0 == if self.flag_cnt + self.offset() > total {
                    total as int
                } else {
                    self.flag_cnt + self.offset()
                },
                self.wf(),
                has_small_inverses(p),
                d == self.max_flag_degree,
                vars == local@,
                vars.len() == self.var_cnt,
                builder.wf(),
                builder.modulus == p,
                builder.interactions == old(builder).interactions,
                builder.holds == (h2 && forall|t: int| u0 <= t < u ==> #[trigger] point_expr(self.points()[t], vars, d, p) == 0),
            decreases total - u,
        {
            assert(self.points()[u as int] == self.pts@[u as int]@);
            assert(is_point(self.points()[u as int], self.var_cnt as nat, self.max_flag_degree));
            let e = self.expression_for_point(&self.pts[u], local, p);
            builder.assert_zero(e);
            proof {
                lemma_fe_small(e as int, p);
                assert((forall|t: int| u0 <= t < u + 1 ==> #[trigger] point_expr(self.points()[t], vars, d, p) == 0) == ((
                forall|t: int| u0 <= t < u ==> #[trigger] point_expr(self.points()[t], vars, d, p) == 0) && point_expr(
                    self.points()[u as int],
                    vars,
                    d,
                    p,
                ) == 0));
            }
            u = u + 1;
        }
    }
}

/// Distinct flags have distinct points.
proof fn lemma_flag_pts_distinct(enc: Encoder, a: int, b: int)
    requires
        enc.wf(),
        0 <= a + enc.offset() < enc.points().len(),
        0 <= b + enc.offset() < enc.points().len(),
        a != b,
    ensures
        enc.flag_pt(a) != enc.flag_pt(b),
{
    let i = a + enc.offset();
    let j = b + enc.offset();
    if i < j {
        lemma_lex_asym(enc.points()[i], enc.points()[j]);
    } else {
        lemma_lex_asym(enc.points()[j], enc.points()[i]);
    }
}

/// The flag combinations and selections are reduced into the field.
proof fn lemma_flag_sums_reduced(enc: Encoder, vars: Seq<u32>, pairs: Seq<(usize, u32)>, f: int, p: u32)
    requires
        p > 0,
    ensures
        0 <= flag_combination(enc, vars, pairs, p) < p,
        0 <= flag_selected(pairs, f, p) < p,
    decreases pairs.len(),
{
    if pairs.len() > 0 {
        lemma_flag_sums_reduced(enc, vars, pairs.drop_last(), f, p);
        vstd::arithmetic::div_mod::lemma_mod_bound(
            flag_combination(enc, vars, pairs.drop_last(), p) + point_expr(
                enc.flag_pt(pairs.last().0 as int),
                vars,
                enc.max_flag_degree,
                p,
            ) * pairs.last().1,
            p as int,
        );
        vstd::arithmetic::div_mod::lemma_mod_bound(flag_selected(pairs.drop_last(), f, p) + pairs.last().1, p as int);
    }
}

/// At the point of flag `f`, a combination of flag expressions is the sum of
/// the values paired with `f`: the expression of `f` is one there and that of
/// every other flag zero.
pub proof fn lemma_flag_combination_at_flag(enc: Encoder, f: int, pairs: Seq<(usize, u32)>, p: u32)
    requires
        enc.wf(),
        0 <= f < enc.flag_cnt,
        pairs_in_range(enc, pairs),
        has_small_inverses(p),
    ensures
        flag_combination(enc, enc.flag_pt(f), pairs, p) == flag_selected(pairs, f, p),
    decreases pairs.len(),
{
    if pairs.len() > 0 {
        let prefix = pairs.drop_last();
        assert(pairs_in_range(enc, prefix)) by {
            assert forall|k: int| 0 <= k < prefix.len() implies #[trigger] prefix[k].0 < enc.flag_cnt by {
                assert(prefix[k] == pairs[k]);
            }
        }
        lemma_flag_combination_at_flag(enc, f, prefix, p);
        lemma_flag_sums_reduced(enc, enc.flag_pt(f), prefix, f, p);
        let (idx, e) = pairs.last();
        assert(pairs[pairs.len() - 1] == pairs.last());
        let q = enc.flag_pt(f);
        let d = enc.max_flag_degree;
        let i = f + enc.offset();
        assert(is_point(enc.points()[i], enc.var_cnt as nat, d));
        if idx == f {
            lemma_point_expr_self(q, d, p);
            assert(point_expr(enc.flag_pt(idx as int), q, d, p) * e == e);
        } else {
            lemma_flag_pts_distinct(enc, idx as int, f);
            let j = idx + enc.offset();
            assert(is_point(enc.points()[j], enc.var_cnt as nat, d));
            lemma_point_expr_other(enc.flag_pt(idx as int), q, enc.var_cnt as nat, d, p);
            assert(point_expr(enc.flag_pt(idx as int), q, d, p) * e == 0);
            lemma_fe_small(flag_selected(prefix, f, p), p);
        }
    }
}

/// Pairs whose flags run from `start` on select the value paired with `f`
/// when `f` is in the run, and nothing otherwise.
pub proof fn lemma_flag_selected_run(pairs: Seq<(usize, u32)>, f: int, start: int, p: u32)
    requires
        p > 0,
        forall|k: int| 0 <= k < pairs.len() ==> #[trigger] pairs[k].0 == start + k,
    ensures
        flag_selected(pairs, f, p) == if start <= f < start + pairs.len() {
            fe(pairs[f - start].1 as int, p)
        } else {
            0
        },
    decreases pairs.len(),
{
    if pairs.len() > 0 {
        let prefix = pairs.drop_last();
        assert forall|k: int| 0 <= k < prefix.len() implies #[trigger] prefix[k].0 == start + k by {
            assert(prefix[k] == pairs[k]);
        }
        lemma_flag_selected_run(prefix, f, start, p);
        assert(pairs.last() == pairs[pairs.len() - 1]);
        if f == start + pairs.len() - 1 {
            lemma_fe_add(0, pairs.last().1 as int, p);
            lemma_fe_small(0, p);
        } else if start <= f < start + pairs.len() - 1 {
            assert(prefix[f - start] == pairs[f - start]);
        }
    }
}

/// At the point of any flag, the constraints that hold the variables to a
/// point of a flag are met.
pub proof fn lemma_encoder_complete(enc: Encoder, f: int, p: u32)
    requires
        enc.wf(),
        0 <= f < enc.flag_cnt,
        has_small_inverses(p),
    ensures
        encoder_constraints(enc, enc.flag_pt(f), p),
{
    let q = enc.flag_pt(f);
    let d = enc.max_flag_degree;
    let i = f + enc.offset();
    assert(is_point(enc.points()[i], enc.var_cnt as nat, d));
    lemma_coord_sum_bounds(q);
    lemma_fe_small(0, p);
    assert forall|t: int| 0 <= t < q.len() implies #[trigger] fe(fall_prod(q[t] as int, (d + 1) as nat), p) == 0 by {
        lemma_fall_prod_zero(q[t] as int, (d + 1) as nat);
    }
    lemma_fe_small(coord_sum(q), p);
    lemma_fall_prod_zero(coord_sum(q), (d + 1) as nat);
    assert forall|u: int| enc.flag_cnt + enc.offset() <= u < enc.points().len() implies #[trigger] point_expr(
        enc.points()[u],
        q,
        d,
        p,
    ) == 0 by {
        assert(is_point(enc.points()[u], enc.var_cnt as nat, d));
        lemma_lex_asym(enc.points()[i], enc.points()[u]);
        lemma_point_expr_other(enc.points()[u], q, enc.var_cnt as nat, d, p);
    }
}

/// In a prime field a falling product is zero only at one of its roots.
proof fn lemma_fall_prod_root(v: int, n: nat, p: u32) -> (j: int)
    requires
        is_prime(p as int),
        fe(fall_prod(v, n), p) == 0,
    ensures
        0 <= j < n,
        fe(v - j, p) == 0,
    decreases n,
{
    let pi = p as int;
    if n == 0 {
        lemma_fe_small(1, p);
        0
    } else {
        let a = fall_prod(v, (n - 1) as nat);
        let c = v - (n - 1);
        if fe(a, p) == 0 {
            lemma_fall_prod_root(v, (n - 1) as nat, p)
        } else {
            vstd::arithmetic::div_mod::lemma_mul_mod_noop_left(a, c, pi);
            vstd::arithmetic::div_mod::lemma_mod_bound(a, pi);
            lemma_prime_divides(pi, a % pi, c);
            n - 1
        }
    }
}

/// The coordinates of a sequence each at most `d` sum to at most `len d`.
proof fn lemma_coord_sum_at_most(v: Seq<u32>, d: int)
    requires
        d >= 0,
        forall|i: int| 0 <= i < v.len() ==> #[trigger] v[i] <= d,
    ensures
        0 <= coord_sum(v) <= v.len() * d,
    decreases v.len(),
{
    if v.len() > 0 {
        lemma_coord_sum_at_most(v.drop_last(), d);
        assert((v.len() - 1) * d + d == v.len() * d) by (nonlinear_arith);
    }
}

/// Soundness of the encoder constraints in a prime field: they hold only if
/// every variable is one of `0..=max_flag_degree`; and where the variables are
/// canonical and their sum cannot wrap, only if they are the point of a flag
/// (or the origin, when it is reserved as invalid).
pub proof fn lemma_encoder_sound(enc: Encoder, vars: Seq<u32>, p: u32)
    requires
        enc.wf(),
        is_prime(p as int),
        p >= 5,
        vars.len() == enc.var_cnt,
        encoder_constraints(enc, vars, p),
    ensures
        forall|i: int| 0 <= i < vars.len() ==> #[trigger] (vars[i] % p) <= enc.max_flag_degree,
        (forall|i: int| 0 <= i < vars.len() ==> #[trigger] vars[i] < p) && enc.var_cnt * enc.max_flag_degree < p ==> (
        exists|f: int| 0 <= f < enc.flag_cnt && vars == #[trigger] enc.flag_pt(f)) || (enc.reserve_invalid && vars
            == enc.points()[0]),
{
    let d = enc.max_flag_degree as int;
    let pi = p as int;
    assert forall|i: int| 0 <= i < vars.len() implies #[trigger] (vars[i] % p) <= enc.max_flag_degree by {
        let j = lemma_fall_prod_root(vars[i] as int, (d + 1) as nat, p);
        vstd::arithmetic::div_mod::lemma_fundamental_div_mod(vars[i] as int, pi);
        vstd::arithmetic::div_mod::lemma_fundamental_div_mod(vars[i] - j, pi);
        vstd::arithmetic::div_mod::lemma_mod_bound(vars[i] as int, pi);
        vstd::arithmetic::div_mod::lemma_small_mod(j as nat, pi as nat);
        vstd::arithmetic::div_mod::lemma_sub_mod_noop(vars[i] as int, j, pi);
        assert(((vars[i] as int % pi) - j) % pi == 0);
        lemma_fe_small(0, p);
        crate::bits_air::rotr_air::lemma_fe_eq_small(vars[i] as int % pi - j, 0, p);
    }
    if (forall|i: int| 0 <= i < vars.len() ==> #[trigger] vars[i] < p) && enc.var_cnt * enc.max_flag_degree < p {
        assert forall|i: int| 0 <= i < vars.len() implies #[trigger] vars[i] <= d by {
            vstd::arithmetic::div_mod::lemma_small_mod(vars[i] as nat, pi as nat);
            assert(vars[i] % p <= enc.max_flag_degree);
        }
        lemma_coord_sum_at_most(vars, d);
        let sum = coord_sum(vars);
        vstd::arithmetic::div_mod::lemma_small_mod(sum as nat, pi as nat);
        let j = lemma_fall_prod_root(fe(sum, p), (d + 1) as nat, p);
        lemma_fe_small(0, p);
        crate::bits_air::rotr_air::lemma_fe_eq_small(sum - j, 0, p);
        assert(is_point(vars, enc.var_cnt as nat, enc.max_flag_degree));
        let pts = enc.points();
        assert(pts.contains(vars));
        let a = choose|a: int| 0 <= a < pts.len() && pts[a] == vars;
        if a >= enc.flag_cnt + enc.offset() {
            assert(p % 2 != 0 && p % 3 != 0);
            lemma_point_expr_self(vars, enc.max_flag_degree, p);
            assert(point_expr(pts[a], vars, enc.max_flag_degree, p) == 0);
        } else if a >= enc.offset() {
            assert(enc.flag_pt(a - enc.offset()) == vars);
        }
    }
}

} // verus!
