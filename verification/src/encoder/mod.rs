//! Encoding of a flag index as a point of small coordinates: flag `i` is the
//! `i`-th point, in lexicographic order, of the vectors of `var_cnt`
//! coordinates whose sum is at most `max_flag_degree`.
use vstd::prelude::*;

pub mod count;
pub mod flags;

verus! {

/// The sum of the coordinates of a point.
pub open spec fn coord_sum(v: Seq<u32>) -> int
    decreases v.len(),
{
    if v.len() == 0 {
        0
    } else {
        coord_sum(v.drop_last()) + v.last()
    }
}

/// `v` is a point of `k` coordinates whose sum is at most `d`.
pub open spec fn is_point(v: Seq<u32>, k: nat, d: u32) -> bool {
    v.len() == k && coord_sum(v) <= d
}

/// `a` comes strictly before `b` in lexicographic order (same length).
pub open spec fn lex_lt(a: Seq<u32>, b: Seq<u32>) -> bool {
    &&& a.len() == b.len()
    &&& exists|i: int|
        0 <= i < a.len() && a[i] < b[i] && forall|j: int| 0 <= j < i ==> #[trigger] a[j] == b[j]
}

/// The value of a point read as a number in base `d + 1`, first coordinate most significant.
pub open spec fn digits_value(v: Seq<u32>, d: u32) -> int
    decreases v.len(),
{
    if v.len() == 0 {
        0
    } else {
        digits_value(v.drop_last(), d) * (d + 1) + v.last()
    }
}

/// `(d + 1)^n`.
pub open spec fn base_pow(d: u32, n: nat) -> int
    decreases n,
{
    if n == 0 {
        1
    } else {
        base_pow(d, (n - 1) as nat) * (d + 1)
    }
}

/// The number of points of `x + 1` coordinates with sum at most `d`, built as
/// the product `(x + 1) (x + 2) .. (x + d) / d!` one factor at a time.
pub open spec fn binomial_upto(x: u32, d: u32, i: nat) -> int
    decreases i,
{
    if i == 0 {
        1
    } else {
        binomial_upto(x, d, (i - 1) as nat) * (x + i) / (i as int)
    }
}

/// The coordinates of a point sum to a nonnegative number, each of them at most the sum.
proof fn lemma_coord_sum_bounds(v: Seq<u32>)
    ensures
        coord_sum(v) >= 0,
        forall|j: int| 0 <= j < v.len() ==> #[trigger] v[j] <= coord_sum(v),
    decreases v.len(),
{
    if v.len() > 0 {
        lemma_coord_sum_bounds(v.drop_last());
        assert forall|j: int| 0 <= j < v.len() implies #[trigger] v[j] <= coord_sum(v) by {
            if j < v.len() - 1 {
                assert(v[j] == v.drop_last()[j]);
            }
        }
    }
}

/// Updating one coordinate changes the sum by the difference.
proof fn lemma_coord_sum_update(v: Seq<u32>, i: int, x: u32)
    requires
        0 <= i < v.len(),
    ensures
        coord_sum(v.update(i, x)) == coord_sum(v) - v[i] + x,
    decreases v.len(),
{
    if i < v.len() - 1 {
        lemma_coord_sum_update(v.drop_last(), i, x);
        assert(v.update(i, x).drop_last() =~= v.drop_last().update(i, x));
    } else {
        assert(v.update(i, x).drop_last() =~= v.drop_last());
    }
}

/// The sum of a prefix plus the rest.
proof fn lemma_coord_sum_take(v: Seq<u32>, n: int)
    requires
        0 <= n <= v.len(),
        forall|j: int| n <= j < v.len() ==> #[trigger] v[j] == 0,
    ensures
        coord_sum(v.take(n)) == coord_sum(v),
    decreases v.len(),
{
    if n < v.len() {
        assert(v.drop_last().take(n) =~= v.take(n));
        lemma_coord_sum_take(v.drop_last(), n);
    } else {
        assert(v.take(n) =~= v);
    }
}

/// Digits at most `d` make a value below `(d + 1)^len`.
proof fn lemma_digits_value_bound(v: Seq<u32>, d: u32)
    requires
        forall|j: int| 0 <= j < v.len() ==> #[trigger] v[j] <= d,
    ensures
        0 <= digits_value(v, d) < base_pow(d, v.len()),
    decreases v.len(),
{
    if v.len() > 0 {
        lemma_digits_value_bound(v.drop_last(), d);
        let a = digits_value(v.drop_last(), d);
        let b = base_pow(d, (v.len() - 1) as nat);
        assert(a * (d + 1) + v.last() < b * (d + 1)) by (nonlinear_arith)
            requires
                0 <= a < b,
                v.last() <= d,
        ;
        assert(a * (d + 1) >= 0) by (nonlinear_arith)
            requires
                0 <= a,
        ;
    }
}

/// Lexicographic order on digits at most `d` is the order of their values.
proof fn lemma_lex_value(a: Seq<u32>, b: Seq<u32>, d: u32, i: int)
    requires
        a.len() == b.len(),
        0 <= i < a.len(),
        a[i] < b[i],
        forall|j: int| 0 <= j < i ==> #[trigger] a[j] == b[j],
        forall|j: int| 0 <= j < a.len() ==> #[trigger] a[j] <= d,
        forall|j: int| 0 <= j < b.len() ==> #[trigger] b[j] <= d,
    ensures
        digits_value(a, d) < digits_value(b, d),
    decreases a.len(),
{
    let n = a.len();
    if i < n - 1 {
        lemma_lex_value(a.drop_last(), b.drop_last(), d, i);
        let x = digits_value(a.drop_last(), d);
        let y = digits_value(b.drop_last(), d);
        assert(x * (d + 1) + a.last() < y * (d + 1) + b.last()) by (nonlinear_arith)
            requires
                x < y,
                a.last() <= d,
        ;
    } else {
        assert(a.drop_last() =~= b.drop_last());
    }
}

/// Strict lexicographic order is asymmetric.
proof fn lemma_lex_asym(a: Seq<u32>, b: Seq<u32>)
    requires
        lex_lt(a, b),
    ensures
        !lex_lt(b, a),
        a != b,
{
    let i = choose|i: int| 0 <= i < a.len() && a[i] < b[i] && forall|j: int| 0 <= j < i ==> #[trigger] a[j] == b[j];
    if lex_lt(b, a) {
        let k = choose|k: int| 0 <= k < b.len() && b[k] < a[k] && forall|j: int| 0 <= j < k ==> #[trigger] b[j] == a[j];
        if i < k {
            assert(b[i] == a[i]);
        } else if k < i {
            assert(a[k] == b[k]);
        }
    }
}

/// The first index at or after `j` where two sequences of one length differ.
proof fn lemma_first_diff(a: Seq<u32>, b: Seq<u32>, j: int) -> (m: int)
    requires
        a.len() == b.len(),
        0 <= j <= a.len(),
        forall|t: int| 0 <= t < j ==> #[trigger] a[t] == b[t],
        a != b,
    ensures
        j <= m < a.len(),
        a[m] != b[m],
        forall|t: int| 0 <= t < m ==> #[trigger] a[t] == b[t],
    decreases a.len() - j,
{
    if j == a.len() {
        assert(a =~= b);
        j
    } else if a[j] != b[j] {
        j
    } else {
        lemma_first_diff(a, b, j + 1)
    }
}

/// Of two distinct sequences of one length, one comes first.
proof fn lemma_lex_total(a: Seq<u32>, b: Seq<u32>)
    requires
        a.len() == b.len(),
        a != b,
    ensures
        lex_lt(a, b) || lex_lt(b, a),
{
    let m = lemma_first_diff(a, b, 0);
    if a[m] < b[m] {
        assert(lex_lt(a, b));
    } else {
        assert(forall|t: int| 0 <= t < m ==> #[trigger] b[t] == a[t]);
        assert(lex_lt(b, a));
    }
}

/// The sum of a prefix one coordinate longer.
proof fn lemma_coord_sum_take_step(v: Seq<u32>, n: int)
    requires
        0 <= n < v.len(),
    ensures
        coord_sum(v.take(n + 1)) == coord_sum(v.take(n)) + v[n],
{
    assert(v.take(n + 1).drop_last() =~= v.take(n));
}

/// The sum of a prefix is at most the sum of the whole.
proof fn lemma_coord_sum_take_le(v: Seq<u32>, n: int)
    requires
        0 <= n <= v.len(),
    ensures
        coord_sum(v.take(n)) <= coord_sum(v),
    decreases v.len(),
{
    if n == v.len() {
        assert(v.take(n) =~= v);
    } else {
        assert(v.drop_last().take(n) =~= v.take(n));
        lemma_coord_sum_take_le(v.drop_last(), n);
    }
}

/// The first coordinate and any other together are at most the sum.
proof fn lemma_two_coords(v: Seq<u32>, m: int)
    requires
        0 < m < v.len(),
    ensures
        v[0] + v[m] <= coord_sum(v),
{
    lemma_coord_sum_take_step(v, 0);
    assert(v.take(0) =~= Seq::<u32>::empty());
    lemma_coord_sum_take_step(v, m);
    assert(v.take(m).take(1) =~= v.take(1));
    lemma_coord_sum_take_le(v.take(m), 1);
    lemma_coord_sum_take_le(v, m + 1);
}

/// The step of the enumeration gives the next point in lexicographic order:
/// `cur` keeps the coordinates of `orig` before `i`, adds one at `i` and is
/// zero after it, where each prefix of `orig` that ends after `i` sums to `d`.
proof fn lemma_successor(orig: Seq<u32>, cur: Seq<u32>, i: int, d: u32, p: Seq<u32>)
    requires
        orig.len() == cur.len(),
        p.len() == orig.len(),
        0 <= i < orig.len(),
        coord_sum(p) <= d,
        forall|t: int| 0 <= t < i ==> #[trigger] cur[t] == orig[t],
        cur[i] == orig[i] + 1,
        forall|t: int| i < t < orig.len() ==> #[trigger] cur[t] == 0,
        forall|t: int| i < t < orig.len() ==> #[trigger] coord_sum(orig.take(t + 1)) == d,
        lex_lt(orig, p),
    ensures
        p == cur || lex_lt(cur, p),
{
    let m = choose|m: int| 0 <= m < orig.len() && orig[m] < p[m] && forall|j: int| 0 <= j < m ==> #[trigger] orig[j] == p[j];
    if m > i {
        assert(p.take(m) =~= orig.take(m));
        lemma_coord_sum_take_step(p, m);
        lemma_coord_sum_take_step(orig, m);
        lemma_coord_sum_take_le(p, m + 1);
        assert(coord_sum(orig.take(m + 1)) == d);
        assert(false);
    } else if m == i {
        if p[i] > cur[i] {
            assert(forall|j: int| 0 <= j < i ==> #[trigger] cur[j] == p[j]);
            assert(lex_lt(cur, p));
        } else if p != cur {
            assert(forall|j: int| 0 <= j < i + 1 ==> #[trigger] cur[j] == p[j]);
            let k = lemma_first_diff(cur, p, i + 1);
            assert(lex_lt(cur, p));
        }
    } else {
        assert(forall|j: int| 0 <= j < m ==> #[trigger] cur[j] == p[j]);
        assert(lex_lt(cur, p));
    }
}

/// The coordinates of each point.
pub open spec fn view_points(pts: Seq<Vec<u32>>) -> Seq<Seq<u32>> {
    pts.map_values(|v: Vec<u32>| v@)
}

/// The encoder of flag indices as points.
pub struct Encoder {
    pub var_cnt: usize,
    pub flag_cnt: usize,
    pub max_flag_degree: u32,
    pub pts: Vec<Vec<u32>>,
    pub reserve_invalid: bool,
}

impl Encoder {
    /// The points, in order.
    pub open spec fn points(&self) -> Seq<Seq<u32>> {
        view_points(self.pts@)
    }

    /// Number of points held before the first flag.
    pub open spec fn offset(&self) -> int {
        if self.reserve_invalid {
            1
        } else {
            0
        }
    }

    /// The degree is between one and four, and the points are all the points
    /// of `var_cnt` coordinates with sum at most `max_flag_degree`, each once,
    /// in increasing lexicographic order, the first being the origin.
    pub open spec fn enumerates_points(&self) -> bool {
        let pts = self.points();
        &&& 1 <= self.max_flag_degree <= 4
        &&& pts.len() >= 1
        &&& pts[0] == Seq::new(self.var_cnt as nat, |j: int| 0u32)
        &&& forall|i: int| 0 <= i < pts.len() ==> is_point(#[trigger] pts[i], self.var_cnt as nat, self.max_flag_degree)
        &&& forall|i: int, j: int| 0 <= i < j < pts.len() ==> lex_lt(#[trigger] pts[i], #[trigger] pts[j])
        &&& forall|p: Seq<u32>| is_point(p, self.var_cnt as nat, self.max_flag_degree) ==> #[trigger] pts.contains(p)
    }

    /// The points enumerate the points of small degree, and every flag has one.
    pub open spec fn wf(&self) -> bool {
        &&& self.enumerates_points()
        &&& self.flag_cnt + self.offset() <= self.points().len()
    }

    /// The point of flag `flag_idx`.
    pub open spec fn flag_pt(&self, flag_idx: int) -> Seq<u32> {
        self.points()[flag_idx + self.offset()]
    }
}

/// Strict lexicographic order is transitive.
proof fn lemma_lex_trans(a: Seq<u32>, b: Seq<u32>, c: Seq<u32>)
    requires
        lex_lt(a, b),
        lex_lt(b, c),
    ensures
        lex_lt(a, c),
{
    let i = choose|i: int| 0 <= i < a.len() && a[i] < b[i] && forall|j: int| 0 <= j < i ==> #[trigger] a[j] == b[j];
    let k = choose|k: int| 0 <= k < b.len() && b[k] < c[k] && forall|j: int| 0 <= j < k ==> #[trigger] b[j] == c[j];
    let m = if i < k { i } else { k };
    assert(a[m] < c[m]);
    assert(forall|j: int| 0 <= j < m ==> #[trigger] a[j] == c[j]);
}

/// The factors of the binomial never decrease it.
proof fn lemma_binomial_upto_bounds(x: u32, d: u32, i: nat)
    ensures
        1 <= binomial_upto(x, d, i),
        i >= 1 ==> binomial_upto(x, d, i) >= x + 1,
    decreases i,
{
    if i > 0 {
        lemma_binomial_upto_bounds(x, d, (i - 1) as nat);
        let b = binomial_upto(x, d, (i - 1) as nat);
        let q = binomial_upto(x, d, i);
        assert(q == b * (x + i) / (i as int));
        assert(q >= b) by (nonlinear_arith)
            requires
                b >= 1,
                i >= 1,
                q == b * (x + i) / (i as int),
                x >= 0,
        ;
        if i == 1 {
            assert(q == x + 1) by (nonlinear_arith)
                requires
                    b == 1,
                    i == 1,
                    q == b * (x + i) / (i as int),
            ;
        }
    }
}

/// `binomial_upto` of `(x, d, d)`, computed step by step.
fn binomial(x: u32, max_degree: u32) -> (r: u64)
    requires
        x <= 256,
        1 <= max_degree <= 4,
    ensures
        r == binomial_upto(x, max_degree, max_degree as nat),
{
    let mut res: u64 = 1;
    let mut i: u32 = 1;
    let ghost mut pw: int = 1;
    while i <= max_degree
        invariant
            1 <= i <= max_degree + 1,
            max_degree <= 4,
            x <= 256,
            res == binomial_upto(x, max_degree, (i - 1) as nat),
            res <= pw,
            i == 1 ==> pw == 1,
            i == 2 ==> pw == 260,
            i == 3 ==> pw == 260 * 260,
            i >= 4 ==> pw == 260 * 260 * 260 || i == 5,
            i <= 4 ==> pw <= 260 * 260 * 260,
            pw >= 1,
        decreases max_degree + 1 - i,
    {
        proof {
            assert(res * (x as u64 + i as u64) <= pw * 260) by (nonlinear_arith)
                requires
                    res <= pw,
                    x + i <= 260,
                    res >= 0,
            ;
            assert(pw * 260 <= 260 * 260 * 260 * 260) by (nonlinear_arith)
                requires
                    pw <= 260 * 260 * 260,
            ;
            let q = (res * (x + i)) / (i as int);
            assert(q <= res * (x + i)) by (nonlinear_arith)
                requires
                    i >= 1,
                    res >= 0,
                    x + i >= 0,
                    q == (res * (x + i)) / (i as int),
            ;
        }
        res = res * (x as u64 + i as u64) / i as u64;
        proof {
            pw = pw * 260;
        }
        i = i + 1;
    }
    res
}

impl Encoder {
    /// An encoder of `cnt` flags as points whose coordinates sum to at most
    /// `max_degree`, with `var_cnt` the least number of coordinates whose
    /// binomial count `C(var_cnt + max_degree, max_degree)` covers the flags
    /// (and the origin, when it is reserved as invalid).
    pub fn new(cnt: usize, max_degree: u32, reserve_invalid: bool) -> (r: Self)
        requires
            1 <= max_degree <= 4,
            2 <= cnt + (if reserve_invalid {
                1int
            } else {
                0int
            }) <= 256,
        ensures
            r.wf(),
            r.flag_cnt == cnt,
            r.max_flag_degree == max_degree,
            r.reserve_invalid == reserve_invalid,
            binomial_upto(r.var_cnt as u32, max_degree, max_degree as nat) >= cnt + r.offset(),
            forall|k: u32| k < r.var_cnt ==> binomial_upto(k, max_degree, max_degree as nat) < cnt + r.offset(),
            r.points().len() == binomial_upto(r.var_cnt as u32, max_degree, max_degree as nat),
            r.points().len() >= cnt + r.offset(),
    {
        let reserve: usize = if reserve_invalid {
            1
        } else {
            0
        };
        let target = (cnt + reserve) as u32;
        let mut k: u32 = 0;
        while binomial(k, max_degree) < target as u64
            invariant
                k < target,
                target == cnt + reserve,
                target <= 256,
                1 <= max_degree <= 4,
                forall|kk: u32| kk < k ==> binomial_upto(kk, max_degree, max_degree as nat) < target,
            decreases target - k,
        {
            proof {
                lemma_binomial_upto_bounds(k, max_degree, max_degree as nat);
            }
            k = k + 1;
        }
        assert(k >= 1) by {
            if k == 0 {
                reveal_with_fuel(binomial_upto, 2);
                lemma_binomial_upto_bounds(0, max_degree, max_degree as nat);
                assert(binomial_upto(0, max_degree, 1) == 1) by {
                    assert(binomial_upto(0, max_degree, 1) == binomial_upto(0, max_degree, 0) * 1 / 1);
                }
                lemma_binomial_upto_one(max_degree, max_degree as nat);
            }
        }
        let ku = k as usize;
        let mut cur: Vec<u32> = Vec::new();
        let mut j: usize = 0;
        while j < ku
            invariant
                j <= ku,
                cur@ == Seq::new(j as nat, |t: int| 0u32),
            decreases ku - j,
        {
            cur.push(0);
            j = j + 1;
            assert(cur@ =~= Seq::new(j as nat, |t: int| 0u32));
        }
        let ghost zeros = Seq::new(ku as nat, |t: int| 0u32);
        proof {
            assert(coord_sum(cur@) == 0) by {
                lemma_coord_sum_zeros(ku as nat);
            }
        }
        let mut sum: u32 = 0;
        let mut pts: Vec<Vec<u32>> = Vec::new();
        loop
            invariant_except_break
                forall|a: int| 0 <= a < pts@.len() ==> lex_lt(#[trigger] pts@[a]@, cur@),
                forall|p: Seq<u32>| is_point(p, ku as nat, max_degree) && lex_lt(p, cur@) ==> #[trigger] view_points(pts@).contains(p),
            invariant
                ku >= 1,
                1 <= max_degree <= 4,
                zeros == Seq::new(ku as nat, |t: int| 0u32),
                cur@.len() == ku,
                sum == coord_sum(cur@),
                sum <= max_degree,
                forall|a: int| 0 <= a < pts@.len() ==> is_point(#[trigger] pts@[a]@, ku as nat, max_degree),
                forall|a: int, b: int| 0 <= a < b < pts@.len() ==> lex_lt(#[trigger] pts@[a]@, #[trigger] pts@[b]@),
                pts@.len() == 0 ==> cur@ == zeros,
                pts@.len() > 0 ==> pts@[0]@ == zeros,
            ensures
                pts@.len() >= 1,
                pts@[0]@ == zeros,
                forall|p: Seq<u32>| is_point(p, ku as nat, max_degree) ==> #[trigger] view_points(pts@).contains(p),
                forall|a: int| 0 <= a < pts@.len() ==> is_point(#[trigger] pts@[a]@, ku as nat, max_degree),
                forall|a: int, b: int| 0 <= a < b < pts@.len() ==> lex_lt(#[trigger] pts@[a]@, #[trigger] pts@[b]@),
            decreases base_pow(max_degree, ku as nat) - digits_value(cur@, max_degree),
        {
            let copy = cur.clone();
            assert(copy@ =~= cur@);
            let ghost old_pts = pts@;
            pts.push(copy);
            proof {
                assert(view_points(pts@) =~= view_points(old_pts).push(cur@));
                assert(view_points(pts@)[pts@.len() - 1] == cur@);
                assert forall|p: Seq<u32>| is_point(p, ku as nat, max_degree) && (lex_lt(p, cur@) || p == cur@) implies #[trigger] view_points(pts@).contains(p) by {
                    if p == cur@ {
                        assert(view_points(pts@)[pts@.len() - 1] == p);
                    } else {
                        assert(view_points(old_pts).contains(p));
                        let a = choose|a: int| 0 <= a < old_pts.len() && view_points(old_pts)[a] == p;
                        assert(view_points(pts@)[a] == p);
                    }
                }
            }
            if cur[0] == max_degree {
                proof {
                    assert forall|p: Seq<u32>| is_point(p, ku as nat, max_degree) implies #[trigger] view_points(pts@).contains(p) by {
                        if p != cur@ {
                            lemma_coord_sum_bounds(p);
                            lemma_coord_sum_bounds(cur@);
                            lemma_lex_total(p, cur@);
                            if lex_lt(cur@, p) {
                                let m = choose|m: int| 0 <= m < cur@.len() && cur@[m] < p[m] && forall|j: int| 0 <= j < m ==> #[trigger] cur@[j] == p[j];
                                if m > 0 {
                                    lemma_two_coords(cur@, m);
                                    lemma_two_coords(p, m);
                                }
                            }
                        }
                    }
                }
                break;
            }
            let ghost orig = cur@;
            proof {
                lemma_coord_sum_bounds(orig);
            }
            let mut i: usize = ku - 1;
            proof {
                if ku == 1 {
                    assert(orig.take(1) =~= orig);
                    lemma_coord_sum_one(orig.take(1));
                }
            }
            while sum == max_degree
                invariant
                    ku >= 1,
                    i < ku,
                    cur@.len() == ku,
                    orig.len() == ku,
                    orig[0] < max_degree,
                    forall|t: int| i < t < ku ==> #[trigger] cur@[t] == 0,
                    forall|t: int| 0 <= t <= i ==> #[trigger] cur@[t] == orig[t],
                    sum == coord_sum(cur@),
                    sum <= max_degree,
                    sum == max_degree ==> i >= 1,
                    forall|t: int| i < t < ku ==> #[trigger] coord_sum(orig.take(t + 1)) == max_degree,
                decreases i,
            {
                proof {
                    lemma_coord_sum_bounds(cur@);
                    lemma_coord_sum_update(cur@, i as int, 0);
                    assert(cur@.take(i + 1) =~= orig.take(i + 1));
                    lemma_coord_sum_take(cur@, i + 1);
                }
                sum = sum - cur[i];
                cur.set(i, 0);
                i = i - 1;
                proof {
                    if i == 0 && sum == max_degree {
                        lemma_coord_sum_take(cur@, 1);
                        lemma_coord_sum_one(cur@.take(1));
                    }
                }
            }
            proof {
                lemma_coord_sum_bounds(cur@);
                lemma_coord_sum_update(cur@, i as int, (cur@[i as int] + 1) as u32);
            }
            sum = sum + 1;
            let v = cur[i];
            cur.set(i, v + 1);
            proof {
                assert(cur@[i as int] > orig[i as int]);
                assert(forall|t: int| 0 <= t < i ==> #[trigger] orig[t] == cur@[t]);
                assert(lex_lt(orig, cur@));
                assert(pts@.last()@ == orig);
                assert forall|a: int| 0 <= a < pts@.len() implies lex_lt(#[trigger] pts@[a]@, cur@) by {
                    if a < pts@.len() - 1 {
                        lemma_lex_trans(pts@[a]@, orig, cur@);
                    }
                }
                lemma_coord_sum_bounds(orig);
                lemma_coord_sum_bounds(cur@);
                lemma_lex_value(orig, cur@, max_degree, i as int);
                lemma_digits_value_bound(cur@, max_degree);
                assert forall|p: Seq<u32>| is_point(p, ku as nat, max_degree) && lex_lt(p, cur@) implies #[trigger] view_points(pts@).contains(p) by {
                    if p != orig && !lex_lt(p, orig) {
                        lemma_lex_total(p, orig);
                        lemma_successor(orig, cur@, i as int, max_degree, p);
                        if p != cur@ {
                            lemma_lex_asym(cur@, p);
                        }
                    }
                }
            }
        }
        let r = Encoder { var_cnt: ku, flag_cnt: cnt, max_flag_degree: max_degree, pts, reserve_invalid };
        proof {
            count::lemma_points_count(r);
        }
        r
    }

    /// The point of flag `flag_idx`.
    pub fn get_flag_pt(&self, flag_idx: usize) -> (r: Vec<u32>)
        requires
            self.wf(),
            flag_idx < self.flag_cnt,
        ensures
            r@ == self.flag_pt(flag_idx as int),
    {
        let reserve: usize = if self.reserve_invalid {
            1
        } else {
            0
        };
        let r = self.pts[reserve + flag_idx].clone();
        assert(r@ =~= self.flag_pt(flag_idx as int));
        r
    }
}

/// The sum of zero coordinates.
proof fn lemma_coord_sum_zeros(n: nat)
    ensures
        coord_sum(Seq::new(n, |t: int| 0u32)) == 0,
    decreases n,
{
    if n > 0 {
        assert(Seq::new(n, |t: int| 0u32).drop_last() =~= Seq::new((n - 1) as nat, |t: int| 0u32));
        lemma_coord_sum_zeros((n - 1) as nat);
    }
}

/// With no coordinate, the binomial is one.
proof fn lemma_binomial_upto_one(d: u32, i: nat)
    ensures
        binomial_upto(0, d, i) == 1,
    decreases i,
{
    if i > 0 {
        lemma_binomial_upto_one(d, (i - 1) as nat);
        assert(binomial_upto(0, d, i) == 1 * (i as int) / (i as int));
        vstd::arithmetic::div_mod::lemma_div_by_self(i as int);
    }
}

/// The sum of one coordinate.
proof fn lemma_coord_sum_one(v: Seq<u32>)
    requires
        v.len() == 1,
    ensures
        coord_sum(v) == v[0],
{
    assert(v.drop_last() =~= Seq::<u32>::empty());
    reveal_with_fuel(coord_sum, 2);
}

} // verus!
