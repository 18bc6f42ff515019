//! The cooccurrence pipeline: sample matrices, their reduction, and the
//! normalisation of the result.
//!
//! A sample matrix counts, for one random point on the sphere, how many
//! locations of each entity lie within the sampling radius, as the outer
//! product of the per-entity count vector.  Matrices hold exact integer
//! counts, so summing them is associative and commutative and the
//! accumulation order cannot change the result.  Drawing the random
//! points and carrying matrices between threads happens outside the
//! library; every count, sum and quotient is computed here.

use vstd::prelude::*;
use vstd::arithmetic::div_mod::*;
use vstd::arithmetic::mul::*;
use crate::geo_coord::{dot, VecGeoCoord};

verus! {

/// Configuration of a cooccurrence run.
pub struct CoocurrenceArgs {
    /// Directory of per-entity location files.
    pub input_dir: String,
    /// Where the result goes.
    pub output_path: String,
    /// Angular radius of a sample neighbourhood, in nano-radians.
    pub radius: i64,
    /// Number of sampling workers.
    pub workers: i32,
}

/// Scale of normalised correlation entries: 1.0 maps to `CORR_SCALE`.
pub const CORR_SCALE: u64 = 1_000_000;

/// A square matrix of counts, row-major.
pub struct Matrix {
    pub data: Vec<Vec<u64>>,
}

impl Matrix {
    /// Every row has as many entries as there are rows.
    pub open spec fn wf(self) -> bool {
        forall|i: int|
            0 <= i < self.data@.len() ==> (#[trigger] self.data@[i])@.len() == self.data@.len()
    }

    /// The number of rows and columns.
    pub open spec fn n(self) -> int {
        self.data@.len() as int
    }

    /// The entry in row `i`, column `j`.
    pub open spec fn at(self, i: int, j: int) -> int {
        self.data@[i]@[j] as int
    }

    /// The square zero matrix with `n` rows.
    pub fn zeros(n: usize) -> (r: Self)
        ensures
            r.wf(),
            r.n() == n,
            forall|i: int, j: int| 0 <= i < n && 0 <= j < n ==> r.at(i, j) == 0,
    {
        let mut data: Vec<Vec<u64>> = Vec::new();
        for i in 0..n
            invariant
                data@.len() == i,
                forall|k: int| 0 <= k < i ==> (#[trigger] data@[k])@.len() == n,
                forall|k: int, j: int| 0 <= k < i && 0 <= j < n ==> data@[k]@[j] == 0,
        {
            let mut row: Vec<u64> = Vec::new();
            for j in 0..n
                invariant
                    row@.len() == j,
                    forall|l: int| 0 <= l < j ==> row@[l] == 0,
            {
                row.push(0);
            }
            data.push(row);
        }
        Matrix { data }
    }

    /// The entry in row `i`, column `j`.
    pub fn get(&self, i: usize, j: usize) -> (r: u64)
        requires
            self.wf(),
            i < self.n(),
            j < self.n(),
        ensures
            r == self.at(i as int, j as int),
    {
        self.data[i][j]
    }

    /// The element-wise sum of two matrices of the same shape.
    pub fn add(&self, other: &Matrix) -> (r: Matrix)
        requires
            self.wf(),
            other.wf(),
            self.n() == other.n(),
            forall|i: int, j: int|
                0 <= i < self.n() && 0 <= j < self.n() ==> self.at(i, j) + other.at(i, j)
                    <= u64::MAX,
        ensures
            r.wf(),
            r.n() == self.n(),
            forall|i: int, j: int|
                0 <= i < r.n() && 0 <= j < r.n() ==> r.at(i, j) == self.at(i, j) + other.at(i, j),
    {
        let n = self.data.len();
        let mut data: Vec<Vec<u64>> = Vec::new();
        for i in 0..n
            invariant
                n == self.n() == other.n(),
                self.wf(),
                other.wf(),
                forall|a: int, b: int|
                    0 <= a < n && 0 <= b < n ==> self.at(a, b) + other.at(a, b) <= u64::MAX,
                data@.len() == i,
                forall|k: int| 0 <= k < i ==> (#[trigger] data@[k])@.len() == n,
                forall|k: int, j: int|
                    0 <= k < i && 0 <= j < n ==> data@[k]@[j] == self.at(k, j) + other.at(k, j),
        {
            let mut row: Vec<u64> = Vec::new();
            for j in 0..n
                invariant
                    n == self.n() == other.n(),
                    self.wf(),
                    other.wf(),
                    i < n,
                    forall|a: int, b: int|
                        0 <= a < n && 0 <= b < n ==> self.at(a, b) + other.at(a, b) <= u64::MAX,
                    row@.len() == j,
                    forall|l: int|
                        0 <= l < j ==> row@[l] == self.at(i as int, l) + other.at(i as int, l),
            {
                proof {
                    assert(self.at(i as int, j as int) + other.at(i as int, j as int)
                        <= u64::MAX);
                }
                row.push(self.data[i][j] + other.data[i][j]);
            }
            data.push(row);
        }
        Matrix { data }
    }
}

/// The abstract value of a matrix: its entries, as unbounded integers.
pub open spec fn mat_view(m: Matrix) -> Seq<Seq<int>> {
    m.data@.map_values(|row: Vec<u64>| row@.map_values(|x: u64| x as int))
}

/// Element-wise sum of two abstract matrices.
pub open spec fn mat_add_spec(a: Seq<Seq<int>>, b: Seq<Seq<int>>) -> Seq<Seq<int>> {
    Seq::new(a.len(), |i: int| Seq::new(a[i].len(), |j: int| a[i][j] + b[i][j]))
}

/// Matrix accumulation is commutative: the two orders of one addition
/// give the same sums.
pub proof fn lemma_matrix_add_commutes(a: Seq<Seq<int>>, b: Seq<Seq<int>>)
    requires
        a.len() == b.len(),
        forall|i: int| 0 <= i < a.len() ==> (#[trigger] a[i]).len() == b[i].len(),
    ensures
        mat_add_spec(a, b) == mat_add_spec(b, a),
{
    assert(mat_add_spec(a, b) =~~= mat_add_spec(b, a));
}

/// Matrix accumulation is associative: grouping does not change the sums.
pub proof fn lemma_matrix_add_associates(a: Seq<Seq<int>>, b: Seq<Seq<int>>, c: Seq<Seq<int>>)
    requires
        a.len() == b.len() == c.len(),
        forall|i: int|
            0 <= i < a.len() ==> (#[trigger] a[i]).len() == b[i].len() && a[i].len() == c[i].len(),
    ensures
        mat_add_spec(mat_add_spec(a, b), c) == mat_add_spec(a, mat_add_spec(b, c)),
{
    assert(mat_add_spec(mat_add_spec(a, b), c) =~~= mat_add_spec(a, mat_add_spec(b, c)));
}

/// The element-wise sum of a sequence of matrices, entry by entry.
pub open spec fn sum_at(ms: Seq<Matrix>, i: int, j: int) -> int
    decreases ms.len(),
{
    if ms.len() == 0 {
        0
    } else {
        ms[0].at(i, j) + sum_at(ms.drop_first(), i, j)
    }
}

proof fn lemma_sum_at_nonneg(ms: Seq<Matrix>, i: int, j: int)
    requires
        forall|k: int| 0 <= k < ms.len() ==> (#[trigger] ms[k]).wf(),
        forall|k: int| 0 <= k < ms.len() ==> (#[trigger] ms[k]).n() > i >= 0,
        forall|k: int| 0 <= k < ms.len() ==> (#[trigger] ms[k]).n() > j >= 0,
    ensures
        sum_at(ms, i, j) >= 0,
    decreases ms.len(),
{
    if ms.len() > 0 {
        lemma_sum_at_nonneg(ms.drop_first(), i, j);
    }
}

/// An element of the sequence can be summed first, wherever it stands.
proof fn lemma_sum_at_remove(ms: Seq<Matrix>, k: int, i: int, j: int)
    requires
        0 <= k < ms.len(),
    ensures
        sum_at(ms, i, j) == ms[k].at(i, j) + sum_at(ms.remove(k), i, j),
    decreases ms.len(),
{
    if k == 0 {
        assert(ms.remove(0) =~= ms.drop_first());
    } else {
        lemma_sum_at_remove(ms.drop_first(), k - 1, i, j);
        assert(ms.remove(k).drop_first() =~= ms.drop_first().remove(k - 1));
        assert(ms.remove(k)[0] == ms[0]);
        assert(ms.drop_first()[k - 1] == ms[k]);
    }
}

/// Matrix accumulation is insensitive to arrival order: two orders of
/// the same sample matrices have the same entry-wise sums.
pub proof fn lemma_sum_at_permutation(ms1: Seq<Matrix>, ms2: Seq<Matrix>, i: int, j: int)
    requires
        ms1.to_multiset() == ms2.to_multiset(),
    ensures
        sum_at(ms1, i, j) == sum_at(ms2, i, j),
    decreases ms1.len(),
{
    broadcast use vstd::seq_lib::group_to_multiset_ensures;

    if ms1.len() == 0 {
        assert(ms2.to_multiset().len() == 0);
        assert(ms2.len() == 0);
    } else {
        let x = ms1[0];
        assert(ms1.contains(x));
        assert(ms2.to_multiset().count(x) > 0);
        assert(ms2.contains(x));
        let k = choose|k: int| 0 <= k < ms2.len() && ms2[k] == x;
        lemma_sum_at_remove(ms2, k, i, j);
        assert(ms1.remove(0) =~= ms1.drop_first());
        assert(ms1.drop_first().to_multiset() =~= ms1.to_multiset().remove(x));
        assert(ms2.remove(k).to_multiset() =~= ms2.to_multiset().remove(x));
        lemma_sum_at_permutation(ms1.drop_first(), ms2.remove(k), i, j);
    }
}

/// The reducer's sum: exactly the element-wise total of all sample
/// matrices, whatever order they arrived in.
pub fn reduce_samples(samples: Vec<Matrix>, n: usize) -> (r: Matrix)
    requires
        forall|k: int|
            0 <= k < samples@.len() ==> (#[trigger] samples@[k]).wf() && samples@[k].n() == n,
        forall|i: int, j: int|
            0 <= i < n && 0 <= j < n ==> sum_at(samples@, i, j) <= u64::MAX,
    ensures
        r.wf(),
        r.n() == n,
        forall|i: int, j: int|
            0 <= i < n && 0 <= j < n ==> r.at(i, j) == sum_at(samples@, i, j),
{
    let ghost all = samples@;
    let mut acc = Matrix::zeros(n);
    let mut rest = samples;
    while rest.len() > 0
        invariant
            acc.wf(),
            acc.n() == n,
            forall|k: int|
                0 <= k < rest@.len() ==> (#[trigger] rest@[k]).wf() && rest@[k].n() == n,
            forall|i: int, j: int|
                0 <= i < n && 0 <= j < n ==> sum_at(all, i, j) == acc.at(i, j) + sum_at(
                    rest@,
                    i,
                    j,
                ),
            forall|i: int, j: int| 0 <= i < n && 0 <= j < n ==> sum_at(all, i, j) <= u64::MAX,
        decreases rest@.len(),
    {
        let m = rest.remove(0);
        proof {
            assert forall|i: int, j: int| 0 <= i < n && 0 <= j < n implies acc.at(i, j) + m.at(
                i,
                j,
            ) <= u64::MAX by {
                assert(sum_at(all, i, j) == acc.at(i, j) + m.at(i, j) + sum_at(rest@, i, j));
                lemma_sum_at_nonneg(rest@, i, j);
            }
        }
        acc = acc.add(&m);
    }
    acc
}

/// The integer square root: the largest `r` with `r * r <= x`.
pub open spec fn isqrt_spec(x: nat) -> nat
    decreases x,
{
    if x == 0 {
        0
    } else {
        let r = isqrt_spec((x - 1) as nat);
        if (r + 1) * (r + 1) <= x {
            r + 1
        } else {
            r
        }
    }
}

proof fn lemma_isqrt_spec_bounds(x: nat)
    ensures
        isqrt_spec(x) * isqrt_spec(x) <= x,
        x < (isqrt_spec(x) + 1) * (isqrt_spec(x) + 1),
    decreases x,
{
    if x > 0 {
        lemma_isqrt_spec_bounds((x - 1) as nat);
        let r = isqrt_spec((x - 1) as nat);
        let s = isqrt_spec(x);
        assert(s == if (r + 1) * (r + 1) <= x {
            r + 1
        } else {
            r
        });
        if (r + 1) * (r + 1) <= x {
            assert(x <= (r + 1) * (r + 1));
            assert(s * s <= x) by (nonlinear_arith)
                requires
                    s == r + 1,
                    (r + 1) * (r + 1) <= x,
            ;
            assert(x < (s + 1) * (s + 1)) by (nonlinear_arith)
                requires
                    s == r + 1,
                    x == (r + 1) * (r + 1),
            ;
        } else {
            assert(s * s <= x) by (nonlinear_arith)
                requires
                    s == r,
                    r * r <= x,
            ;
            assert(x < (s + 1) * (s + 1)) by (nonlinear_arith)
                requires
                    s == r,
                    x < (r + 1) * (r + 1),
            ;
        }
        assert(isqrt_spec(x) * isqrt_spec(x) == s * s) by (nonlinear_arith)
            requires
                isqrt_spec(x) == s,
        ;
        assert((isqrt_spec(x) + 1) * (isqrt_spec(x) + 1) == (s + 1) * (s + 1)) by (nonlinear_arith)
            requires
                isqrt_spec(x) == s,
        ;
    } else {
        assert(isqrt_spec(x) * isqrt_spec(x) <= x) by (nonlinear_arith)
            requires
                x == 0nat,
                isqrt_spec(x) == 0nat,
        ;
        assert(x < (isqrt_spec(x) + 1) * (isqrt_spec(x) + 1)) by (nonlinear_arith)
            requires
                x == 0nat,
                isqrt_spec(x) == 0nat,
        ;
    }
}

proof fn lemma_isqrt_unique(x: nat, r: nat)
    requires
        r * r <= x,
        x < (r + 1) * (r + 1),
    ensures
        r == isqrt_spec(x),
{
    let s = isqrt_spec(x);
    lemma_isqrt_spec_bounds(x);
    if r < s {
        assert((r + 1) * (r + 1) <= s * s) by (nonlinear_arith)
            requires
                r + 1 <= s,
        ;
    }
    if r > s {
        assert((s + 1) * (s + 1) <= r * r) by (nonlinear_arith)
            requires
                s + 1 <= r,
        ;
    }
}

/// The integer square root inverts squaring exactly.
pub proof fn lemma_isqrt_square(d: nat)
    ensures
        isqrt_spec(d * d) == d,
{
    assert(d * d < (d + 1) * (d + 1)) by (nonlinear_arith);
    lemma_isqrt_unique(d * d, d);
}

/// The integer square root, by bisection.
pub fn isqrt(x: u64) -> (r: u64)
    ensures
        r == isqrt_spec(x as nat),
        r * r <= x,
{
    let mut lo: u64 = 0;
    let mut hi: u64 = 0x1_0000_0000;
    proof {
        assert((0x1_0000_0000int) * (0x1_0000_0000int) > x) by (nonlinear_arith)
            requires
                x <= u64::MAX,
        ;
    }
    while lo + 1 < hi
        invariant
            lo < hi <= 0x1_0000_0000,
            lo * lo <= x,
            (hi as int) * (hi as int) > x,
        decreases hi - lo,
    {
        let mid = lo + (hi - lo) / 2;
        proof {
            assert(mid < 0x1_0000_0000);
            assert((mid as int) * (mid as int) < 0x1_0000_0000_0000_0000) by (nonlinear_arith)
                requires
                    0 <= mid < 0x1_0000_0000int,
            ;
        }
        if mid * mid <= x {
            lo = mid;
        } else {
            hi = mid;
        }
    }
    proof {
        lemma_isqrt_unique(x as nat, lo as nat);
    }
    lo
}

/// The correlation denominator: the rounded geometric mean of the two
/// diagonal entries, floored at one so an unsampled entity cannot divide
/// by zero.
pub open spec fn corr_denom(m: Matrix, i: int, j: int) -> int {
    let s = isqrt_spec((m.at(i, i) * m.at(j, j)) as nat) as int;
    if s >= 1 {
        s
    } else {
        1
    }
}

/// Normalises raw cooccurrence counts into a correlation-like measure at
/// scale `CORR_SCALE`: each entry is divided by the geometric mean of its
/// two diagonal entries.  A diagonal entry of an entity with at least one
/// recorded sample normalises to exactly `CORR_SCALE`, that is to 1.0.
pub fn normalize_correlation(cooc: &Matrix) -> (r: Matrix)
    requires
        cooc.wf(),
        forall|i: int, j: int|
            0 <= i < cooc.n() && 0 <= j < cooc.n() ==> cooc.at(i, j) <= 0xFFFF_FFFF,
    ensures
        r.wf(),
        r.n() == cooc.n(),
        forall|i: int, j: int|
            0 <= i < r.n() && 0 <= j < r.n() ==> r.at(i, j) == cooc.at(i, j) * (
            CORR_SCALE as int) / corr_denom(*cooc, i, j),
        forall|i: int| 0 <= i < r.n() && cooc.at(i, i) >= 1 ==> r.at(i, i) == CORR_SCALE,
{
    let n = cooc.data.len();
    let mut data: Vec<Vec<u64>> = Vec::new();
    for i in 0..n
        invariant
            n == cooc.n(),
            cooc.wf(),
            forall|a: int, b: int| 0 <= a < n && 0 <= b < n ==> cooc.at(a, b) <= 0xFFFF_FFFF,
            data@.len() == i,
            forall|k: int| 0 <= k < i ==> (#[trigger] data@[k])@.len() == n,
            forall|k: int, j: int|
                0 <= k < i && 0 <= j < n ==> data@[k]@[j] == cooc.at(k, j) * (CORR_SCALE as int)
                    / corr_denom(*cooc, k, j),
    {
        let mut row: Vec<u64> = Vec::new();
        for j in 0..n
            invariant
                n == cooc.n(),
                cooc.wf(),
                i < n,
                forall|a: int, b: int| 0 <= a < n && 0 <= b < n ==> cooc.at(a, b) <= 0xFFFF_FFFF,
                row@.len() == j,
                forall|l: int|
                    0 <= l < j ==> row@[l] == cooc.at(i as int, l) * (CORR_SCALE as int)
                        / corr_denom(*cooc, i as int, l),
        {
            let di = cooc.get(i, i);
            let dj = cooc.get(j, j);
            proof {
                assert((di as int) * (dj as int) <= 0xFFFF_FFFF_0000_0001) by (nonlinear_arith)
                    requires
                        0 <= di <= 0xFFFF_FFFFu64,
                        0 <= dj <= 0xFFFF_FFFFu64,
                ;
            }
            let s = isqrt(di * dj);
            let denom = if s >= 1 {
                s
            } else {
                1
            };
            let c = cooc.get(i, j);
            proof {
                assert((c as int) * (CORR_SCALE as int) <= 0xFFFF_FFFF_0000_0000) by (
                nonlinear_arith)
                    requires
                        0 <= c <= 0xFFFF_FFFFu64,
                        CORR_SCALE == 1_000_000u64,
                ;
            }
            row.push(c * CORR_SCALE / denom);
        }
        data.push(row);
    }
    let r = Matrix { data };
    proof {
        assert forall|i: int| 0 <= i < r.n() && cooc.at(i, i) >= 1 implies r.at(i, i)
            == CORR_SCALE by {
            let d = cooc.at(i, i);
            lemma_isqrt_square(d as nat);
            assert(corr_denom(*cooc, i, i) == d);
            assert(d * (CORR_SCALE as int) / d == CORR_SCALE) by {
                lemma_mul_is_commutative(d, CORR_SCALE as int);
                lemma_div_multiples_vanish(CORR_SCALE as int, d);
            }
        }
    }
    r
}

/// The mean of an accumulated matrix over the sample count: each raw
/// second-moment entry divided by how many samples were taken.
pub fn second_moment_mean(m: &Matrix, samples: u64) -> (r: Matrix)
    requires
        m.wf(),
        samples >= 1,
    ensures
        r.wf(),
        r.n() == m.n(),
        forall|i: int, j: int|
            0 <= i < r.n() && 0 <= j < r.n() ==> r.at(i, j) == m.at(i, j) / (samples as int),
{
    let n = m.data.len();
    let mut data: Vec<Vec<u64>> = Vec::new();
    for i in 0..n
        invariant
            n == m.n(),
            m.wf(),
            samples >= 1,
            data@.len() == i,
            forall|k: int| 0 <= k < i ==> (#[trigger] data@[k])@.len() == n,
            forall|k: int, j: int|
                0 <= k < i && 0 <= j < n ==> data@[k]@[j] == m.at(k, j) / (samples as int),
    {
        let mut row: Vec<u64> = Vec::new();
        for j in 0..n
            invariant
                n == m.n(),
                m.wf(),
                samples >= 1,
                i < n,
                row@.len() == j,
                forall|l: int|
                    0 <= l < j ==> row@[l] == m.at(i as int, l) / (samples as int),
        {
            row.push(m.get(i, j) / samples);
        }
        data.push(row);
    }
    Matrix { data }
}

/// How many of the listed locations belong to entity `s` and lie within
/// the sampling radius of the point: their geodesic cosine against the
/// point exceeds the radius's cosine.
pub open spec fn count_within(
    pairs: Seq<(usize, VecGeoCoord)>,
    s: int,
    p: VecGeoCoord,
    cos_radius: int,
) -> nat
    decreases pairs.len(),
{
    if pairs.len() == 0 {
        0
    } else {
        (if pairs[0].0 as int == s && dot(pairs[0].1, p) > cos_radius {
            1nat
        } else {
            0nat
        }) + count_within(pairs.drop_first(), s, p, cos_radius)
    }
}

proof fn lemma_count_within_le_len(
    pairs: Seq<(usize, VecGeoCoord)>,
    s: int,
    p: VecGeoCoord,
    cos_radius: int,
)
    ensures
        count_within(pairs, s, p, cos_radius) <= pairs.len(),
    decreases pairs.len(),
{
    if pairs.len() > 0 {
        lemma_count_within_le_len(pairs.drop_first(), s, p, cos_radius);
    }
}

/// The per-entity counts for one sample point: how many stored locations
/// of each entity lie within the sampling radius of the point.
pub fn sample_counts(
    pairs: &Vec<(usize, VecGeoCoord)>,
    num_stores: usize,
    point: &VecGeoCoord,
    cos_radius: i64,
) -> (r: Vec<u64>)
    requires
        point.wf(),
        forall|k: int|
            0 <= k < pairs@.len() ==> (#[trigger] pairs@[k]).1.wf() && (pairs@[k].0 as int)
                < num_stores,
        pairs@.len() <= 0xFFFF_FFFF,
    ensures
        r@.len() == num_stores,
        forall|s: int|
            0 <= s < num_stores ==> r@[s] == count_within(pairs@, s, *point, cos_radius as int),
{
    let mut counts: Vec<u64> = Vec::new();
    for s in 0..num_stores
        invariant
            counts@.len() == s,
            forall|l: int| 0 <= l < s ==> counts@[l] == 0,
    {
        counts.push(0);
    }
    let ghost all = pairs@;
    proof {
        assert(all.skip(0) =~= all);
    }
    let n = pairs.len();
    for k in 0..n
        invariant
            n == pairs@.len(),
            all == pairs@,
            point.wf(),
            forall|k2: int|
                0 <= k2 < pairs@.len() ==> (#[trigger] pairs@[k2]).1.wf() && (pairs@[k2].0 as int)
                    < num_stores,
            pairs@.len() <= 0xFFFF_FFFF,
            counts@.len() == num_stores,
            forall|s: int| 0 <= s < num_stores ==> counts@[s] <= k,
            forall|s: int|
                0 <= s < num_stores ==> count_within(all, s, *point, cos_radius as int) == counts@[s]
                    + count_within(all.skip(k as int), s, *point, cos_radius as int),
    {
        proof {
            assert(all.skip(k as int)[0] == all[k as int]);
            assert(all.skip(k as int).drop_first() =~= all.skip(k as int + 1));
        }
        let pr = pairs[k];
        if pr.1.cos_geo_dist(point) > cos_radius {
            let idx = pr.0;
            counts[idx] = counts[idx] + 1;
        }
    }
    counts
}

/// One sample's matrix: the outer product of the per-entity count vector
/// for one random point.  The matrix is symmetric and non-negative.
pub fn sample_matrix(
    pairs: &Vec<(usize, VecGeoCoord)>,
    num_stores: usize,
    point: &VecGeoCoord,
    cos_radius: i64,
) -> (r: Matrix)
    requires
        point.wf(),
        forall|k: int|
            0 <= k < pairs@.len() ==> (#[trigger] pairs@[k]).1.wf() && (pairs@[k].0 as int)
                < num_stores,
        pairs@.len() <= 0xFFFF_FFFF,
    ensures
        r.wf(),
        r.n() == num_stores,
        forall|i: int, j: int|
            0 <= i < num_stores && 0 <= j < num_stores ==> r.at(i, j) == count_within(
                pairs@,
                i,
                *point,
                cos_radius as int,
            ) * count_within(pairs@, j, *point, cos_radius as int),
        forall|i: int, j: int|
            0 <= i < num_stores && 0 <= j < num_stores ==> r.at(i, j) == r.at(j, i),
{
    let counts = sample_counts(pairs, num_stores, point, cos_radius);
    proof {
        assert forall|s: int| 0 <= s < num_stores implies counts@[s] <= 0xFFFF_FFFF by {
            lemma_count_within_le_len(pairs@, s, *point, cos_radius as int);
        }
    }
    let mut data: Vec<Vec<u64>> = Vec::new();
    for i in 0..num_stores
        invariant
            counts@.len() == num_stores,
            forall|s: int| 0 <= s < num_stores ==> counts@[s] <= 0xFFFF_FFFF,
            data@.len() == i,
            forall|k: int| 0 <= k < i ==> (#[trigger] data@[k])@.len() == num_stores,
            forall|k: int, j: int|
                0 <= k < i && 0 <= j < num_stores ==> data@[k]@[j] == (counts@[k] as int) * (
                counts@[j] as int),
    {
        let mut row: Vec<u64> = Vec::new();
        for j in 0..num_stores
            invariant
                counts@.len() == num_stores,
                forall|s: int| 0 <= s < num_stores ==> counts@[s] <= 0xFFFF_FFFF,
                i < num_stores,
                row@.len() == j,
                forall|l: int|
                    0 <= l < j ==> row@[l] == (counts@[i as int] as int) * (counts@[l] as int),
        {
            proof {
                assert((counts@[i as int] as int) * (counts@[j as int] as int)
                    <= 0xFFFF_FFFF_0000_0001) by (nonlinear_arith)
                    requires
                        0 <= counts@[i as int] <= 0xFFFF_FFFFu64,
                        0 <= counts@[j as int] <= 0xFFFF_FFFFu64,
                ;
            }
            row.push(counts[i] * counts[j]);
        }
        data.push(row);
    }
    let r = Matrix { data };
    proof {
        assert forall|i: int, j: int|
            0 <= i < num_stores && 0 <= j < num_stores implies r.at(i, j) == r.at(j, i) by {
            lemma_mul_is_commutative(counts@[i] as int, counts@[j] as int);
        }
    }
    r
}

/// The rows of a matrix, as plain vectors.
pub fn matrix_vec(matrix: Matrix) -> (r: Vec<Vec<u64>>)
    ensures
        r@ == matrix.data@,
{
    matrix.data
}

} // verus!
