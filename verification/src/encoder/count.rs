//! How many points an encoder holds: the points of `k` coordinates with sum
//! at most `d` number `C(k + d, d)`, the count that the encoder's number of
//! variables is chosen by.
use vstd::prelude::*;

use crate::encoder::{
    binomial_upto, coord_sum, is_point, lemma_coord_sum_bounds, lemma_coord_sum_update, lemma_lex_asym, lex_lt,
    Encoder,
};

verus! {

/// Number of points of `k` coordinates with sum at most `d`: those whose
/// first coordinate is zero, and those whose first coordinate less one
/// leaves a point of sum at most `d - 1`.
pub open spec fn num_points(k: nat, d: nat) -> nat
    decreases k + d,
{
    if k == 0 || d == 0 {
        1
    } else {
        num_points((k - 1) as nat, d) + num_points(k, (d - 1) as nat)
    }
}

/// The point with a zero coordinate put first.
pub open spec fn prepend_zero(v: Seq<u32>) -> Seq<u32> {
    seq![0u32] + v
}

/// The point with its first coordinate raised by one.
pub open spec fn raise_first(v: Seq<u32>) -> Seq<u32> {
    v.update(0, (v[0] + 1) as u32)
}

/// The points of `k` coordinates with sum at most `d`, in increasing
/// lexicographic order.
pub open spec fn all_points(k: nat, d: nat) -> Seq<Seq<u32>>
    decreases k + d,
{
    if k == 0 {
        seq![Seq::<u32>::empty()]
    } else if d == 0 {
        seq![Seq::new(k, |i: int| 0u32)]
    } else {
        all_points((k - 1) as nat, d).map_values(|v: Seq<u32>| prepend_zero(v)) + all_points(k, (d - 1) as nat).map_values(
            |v: Seq<u32>| raise_first(v),
        )
    }
}

/// The sum of the coordinates of two parts.
proof fn lemma_coord_sum_concat(a: Seq<u32>, b: Seq<u32>)
    ensures
        coord_sum(a + b) == coord_sum(a) + coord_sum(b),
    decreases b.len(),
{
    if b.len() == 0 {
        assert(a + b =~= a);
    } else {
        assert((a + b).drop_last() =~= a + b.drop_last());
        lemma_coord_sum_concat(a, b.drop_last());
    }
}

/// The sum of the one coordinate zero.
proof fn lemma_coord_sum_single_zero()
    ensures
        coord_sum(seq![0u32]) == 0,
{
    assert(seq![0u32].drop_last() =~= Seq::<u32>::empty());
    reveal_with_fuel(coord_sum, 2);
}

/// The sum of the coordinates of the origin.
proof fn lemma_coord_sum_zero(k: nat)
    ensures
        coord_sum(Seq::new(k, |i: int| 0u32)) == 0,
    decreases k,
{
    if k > 0 {
        assert(Seq::new(k, |i: int| 0u32).drop_last() =~= Seq::new((k - 1) as nat, |i: int| 0u32));
        lemma_coord_sum_zero((k - 1) as nat);
    }
}

/// The enumeration has `num_points(k, d)` points, each of `k` coordinates
/// with sum at most `d`.
proof fn lemma_all_points_shape(k: nat, d: nat)
    requires
        d <= 0xffff_ffff,
    ensures
        all_points(k, d).len() == num_points(k, d),
        forall|i: int| 0 <= i < all_points(k, d).len() ==> is_point(#[trigger] all_points(k, d)[i], k, d as u32),
    decreases k + d,
{
    if k == 0 {
        assert(coord_sum(Seq::<u32>::empty()) == 0);
    } else if d == 0 {
        lemma_coord_sum_zero(k);
    } else {
        lemma_all_points_shape((k - 1) as nat, d);
        lemma_all_points_shape(k, (d - 1) as nat);
        let a = all_points((k - 1) as nat, d);
        let b = all_points(k, (d - 1) as nat);
        let all = all_points(k, d);
        assert forall|i: int| 0 <= i < all.len() implies is_point(#[trigger] all[i], k, d as u32) by {
            if i < a.len() {
                lemma_coord_sum_concat(seq![0u32], a[i]);
                lemma_coord_sum_single_zero();
            } else {
                let v = b[i - a.len()];
                assert(is_point(v, k, (d - 1) as u32));
                lemma_coord_sum_bounds(v);
                lemma_coord_sum_update(v, 0, (v[0] + 1) as u32);
            }
        }
    }
}

/// A zero put first keeps the order of points.
proof fn lemma_prepend_zero_lt(a: Seq<u32>, b: Seq<u32>)
    requires
        lex_lt(a, b),
    ensures
        lex_lt(prepend_zero(a), prepend_zero(b)),
{
    let i = choose|i: int| 0 <= i < a.len() && a[i] < b[i] && forall|j: int| 0 <= j < i ==> #[trigger] a[j] == b[j];
    let (pa, pb) = (prepend_zero(a), prepend_zero(b));
    assert(pa[i + 1] < pb[i + 1]);
    assert forall|j: int| 0 <= j < i + 1 implies #[trigger] pa[j] == pb[j] by {
        if j > 0 {
            assert(a[j - 1] == b[j - 1]);
        }
    }
}

/// Raising the first coordinate keeps the order of points.
proof fn lemma_raise_first_lt(a: Seq<u32>, b: Seq<u32>, d: u32)
    requires
        lex_lt(a, b),
        a.len() >= 1,
        a[0] < d,
        b[0] < d,
    ensures
        lex_lt(raise_first(a), raise_first(b)),
{
    let i = choose|i: int| 0 <= i < a.len() && a[i] < b[i] && forall|j: int| 0 <= j < i ==> #[trigger] a[j] == b[j];
    let (ra, rb) = (raise_first(a), raise_first(b));
    if i > 0 {
        assert(a[0] == b[0]);
    }
    assert(ra[i] < rb[i]);
    assert forall|j: int| 0 <= j < i implies #[trigger] ra[j] == rb[j] by {
        assert(a[j] == b[j]);
    }
}

/// The enumeration is in increasing lexicographic order.
proof fn lemma_all_points_sorted(k: nat, d: nat)
    requires
        d <= 0xffff_ffff,
    ensures
        forall|i: int, j: int|
            0 <= i < j < all_points(k, d).len() ==> lex_lt(#[trigger] all_points(k, d)[i], #[trigger] all_points(k, d)[j]),
    decreases k + d,
{
    if k > 0 && d > 0 {
        lemma_all_points_sorted((k - 1) as nat, d);
        lemma_all_points_sorted(k, (d - 1) as nat);
        lemma_all_points_shape((k - 1) as nat, d);
        lemma_all_points_shape(k, (d - 1) as nat);
        let a = all_points((k - 1) as nat, d);
        let b = all_points(k, (d - 1) as nat);
        let all = all_points(k, d);
        assert forall|i: int, j: int| 0 <= i < j < all.len() implies lex_lt(#[trigger] all[i], #[trigger] all[j]) by {
            if j < a.len() {
                lemma_prepend_zero_lt(a[i], a[j]);
            } else if i >= a.len() {
                let (u, v) = (b[i - a.len()], b[j - a.len()]);
                lemma_coord_sum_bounds(u);
                lemma_coord_sum_bounds(v);
                assert(lex_lt(u, v));
                lemma_raise_first_lt(u, v, d as u32);
            } else {
                let u = a[i];
                let v = b[j - a.len()];
                lemma_coord_sum_bounds(v);
                assert(all[i][0] < all[j][0]);
            }
        }
    }
}

/// Every point of `k` coordinates with sum at most `d` is in the enumeration.
proof fn lemma_all_points_complete(k: nat, d: nat, p: Seq<u32>)
    requires
        d <= 0xffff_ffff,
        p.len() == k,
        coord_sum(p) <= d,
    ensures
        all_points(k, d).contains(p),
    decreases k + d,
{
    lemma_coord_sum_bounds(p);
    if k == 0 {
        assert(p =~= Seq::<u32>::empty());
        assert(all_points(k, d)[0] == p);
    } else if d == 0 {
        assert(p =~= Seq::new(k, |i: int| 0u32));
        assert(all_points(k, d)[0] == p);
    } else {
        lemma_all_points_shape((k - 1) as nat, d);
        let a = all_points((k - 1) as nat, d);
        let b = all_points(k, (d - 1) as nat);
        let all = all_points(k, d);
        if p[0] == 0 {
            let t = p.subrange(1, k as int);
            assert(p =~= seq![0u32] + t);
            lemma_coord_sum_concat(seq![0u32], t);
            lemma_coord_sum_single_zero();
            lemma_all_points_complete((k - 1) as nat, d, t);
            let j = choose|j: int| 0 <= j < a.len() && a[j] == t;
            assert(all[j] == p);
        } else {
            let q = p.update(0, (p[0] - 1) as u32);
            lemma_coord_sum_update(p, 0, (p[0] - 1) as u32);
            lemma_all_points_complete(k, (d - 1) as nat, q);
            let j = choose|j: int| 0 <= j < b.len() && b[j] == q;
            assert(raise_first(q) =~= p);
            assert(all[a.len() + j] == p);
        }
    }
}

/// A sorted sequence whose items all occur in another sorted sequence has
/// item `i` at an index of at least `i` there.
proof fn lemma_sorted_embed(a: Seq<Seq<u32>>, b: Seq<Seq<u32>>, i: int) -> (j: int)
    requires
        forall|s: int, t: int| 0 <= s < t < a.len() ==> lex_lt(#[trigger] a[s], #[trigger] a[t]),
        forall|s: int, t: int| 0 <= s < t < b.len() ==> lex_lt(#[trigger] b[s], #[trigger] b[t]),
        forall|s: int| 0 <= s < a.len() ==> b.contains(#[trigger] a[s]),
        0 <= i < a.len(),
    ensures
        0 <= j < b.len(),
        b[j] == a[i],
        j >= i,
    decreases i,
{
    assert(b.contains(a[i]));
    let j = choose|j: int| 0 <= j < b.len() && b[j] == a[i];
    if i > 0 {
        let j0 = lemma_sorted_embed(a, b, i - 1);
        assert(lex_lt(a[i - 1], a[i]));
        lemma_lex_asym(a[i - 1], a[i]);
        if j <= j0 {
            if j < j0 {
                assert(lex_lt(b[j], b[j0]));
            }
        }
    }
    j
}

/// Pascal's rule times the index: `i C(x + i, i) = (x + i) C(x + i - 1, i - 1)`.
proof fn lemma_num_points_step(x: nat, i: nat)
    requires
        i >= 1,
    ensures
        i * num_points(x, i) == (x + i) * num_points(x, (i - 1) as nat),
    decreases x + i,
{
    if x == 0 {
        assert(num_points(0, i) == 1 && num_points(0, (i - 1) as nat) == 1);
        assert(i * 1 == (0 + i) * 1);
    } else if i == 1 {
        lemma_num_points_step((x - 1) as nat, 1);
        let c = num_points((x - 1) as nat, 1);
        assert(num_points(x, 0) == 1 && num_points((x - 1) as nat, 0) == 1);
        assert(num_points(x, 1) == c + 1);
        assert(1 * c == (x - 1 + 1) * 1);
        assert(1 * (c + 1) == (x + 1) * 1);
    } else {
        lemma_num_points_step((x - 1) as nat, i);
        lemma_num_points_step(x, (i - 1) as nat);
        let a = num_points(x, i);
        let b = num_points(x, (i - 1) as nat);
        let c = num_points((x - 1) as nat, i);
        let e = num_points(x, (i - 2) as nat);
        let f = num_points((x - 1) as nat, (i - 1) as nat);
        assert(a == c + b);
        assert(b == f + e);
        assert(i * c == (x - 1 + i) * f);
        assert((i - 1) * b == (x + i - 1) * e);
        assert(i * a == (x + i) * b) by (nonlinear_arith)
            requires
                a == c + b,
                b == f + e,
                i * c == (x - 1 + i) * f,
                (i - 1) * b == (x + i - 1) * e,
        ;
    }
}

/// The binomial that the encoder computes is the number of points.
proof fn lemma_binomial_num_points(x: u32, d: u32, i: nat)
    ensures
        binomial_upto(x, d, i) == num_points(x as nat, i),
    decreases i,
{
    if i > 0 {
        lemma_binomial_num_points(x, d, (i - 1) as nat);
        lemma_num_points_step(x as nat, i);
        let n = num_points(x as nat, i);
        assert(binomial_upto(x, d, i) == num_points(x as nat, (i - 1) as nat) * (x + i) / (i as int));
        assert(num_points(x as nat, (i - 1) as nat) * (x + i) == n * i) by (nonlinear_arith)
            requires
                i * n == (x + i) * num_points(x as nat, (i - 1) as nat),
        ;
        vstd::arithmetic::div_mod::lemma_div_multiples_vanish(n as int, i as int);
    }
}

/// An encoder holds `C(var_cnt + d, d)` points: all the points of its
/// number of coordinates and its degree, each once.
pub proof fn lemma_points_count(enc: Encoder)
    requires
        enc.enumerates_points(),
        enc.var_cnt <= 0xffff_ffff,
    ensures
        enc.points().len() == num_points(enc.var_cnt as nat, enc.max_flag_degree as nat),
        enc.points().len() == binomial_upto(enc.var_cnt as u32, enc.max_flag_degree, enc.max_flag_degree as nat),
{
    let k = enc.var_cnt as nat;
    let d = enc.max_flag_degree as nat;
    let pts = enc.points();
    let all = all_points(k, d);
    lemma_all_points_shape(k, d);
    lemma_all_points_sorted(k, d);
    assert forall|s: int| 0 <= s < all.len() implies pts.contains(#[trigger] all[s]) by {
        assert(is_point(all[s], k, d as u32));
    }
    assert forall|s: int| 0 <= s < pts.len() implies all.contains(#[trigger] pts[s]) by {
        assert(is_point(pts[s], k, d as u32));
        lemma_all_points_complete(k, d, pts[s]);
    }
    if all.len() > 0 {
        let j = lemma_sorted_embed(all, pts, all.len() - 1);
    }
    if pts.len() > 0 {
        let j = lemma_sorted_embed(pts, all, pts.len() - 1);
    }
    lemma_binomial_num_points(enc.var_cnt as u32, enc.max_flag_degree, d);
}

} // verus!
