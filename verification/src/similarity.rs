//! Pairwise cosine similarity over term-frequency rows.
//!
//! A similarity value is carried as a fixed-point integer in millionths:
//! the value stored for rows `a` and `b` is the floor of
//! `1_000_000 * dot(a,b) / sqrt(dot(a,a) * dot(b,b))`, characterized
//! exactly by integer inequalities, so no floating point is involved.
//! Any pairing with a zero-norm row resolves to 0 by policy, never to a
//! division by zero.

use vstd::prelude::*;
use vstd::arithmetic::div_mod::lemma_fundamental_div_mod;

verus! {

/// One unit of similarity: the fixed-point scale, a millionth.
pub const SIM_SCALE: u64 = 1_000_000;

/// Cap on the total token count of one document's row, so that every dot
/// product fits comfortably in machine integers.
pub const MAX_DOC_TOKENS: u64 = 65536;

/// The sum of a term-frequency row.
pub open spec fn sum_row(a: Seq<u64>) -> int
    decreases a.len(),
{
    if a.len() == 0 {
        0
    } else {
        sum_row(a.drop_last()) + a.last()
    }
}

/// The dot product of two rows of equal length.
pub open spec fn dot(a: Seq<u64>, b: Seq<u64>) -> int
    decreases a.len(),
{
    if a.len() == 0 || b.len() == 0 {
        0
    } else {
        dot(a.drop_last(), b.drop_last()) + a.last() * b.last()
    }
}

/// Row sums are non-negative.
pub proof fn lemma_sum_nonneg(a: Seq<u64>)
    ensures
        0 <= sum_row(a),
    decreases a.len(),
{
    if a.len() > 0 {
        lemma_sum_nonneg(a.drop_last());
    }
}

/// A longer prefix of a row has at least the sum of a shorter one.
pub proof fn lemma_sum_take_mono(a: Seq<u64>, p: int, q: int)
    requires
        0 <= p <= q <= a.len(),
    ensures
        sum_row(a.take(p)) <= sum_row(a.take(q)),
    decreases q - p,
{
    if p < q {
        lemma_sum_take_mono(a, p, q - 1);
        assert(a.take(q).drop_last() =~= a.take(q - 1));
        assert(sum_row(a.take(q)) == sum_row(a.take(q - 1)) + a[q - 1]);
    }
}

/// The whole row is the take of its full length.
pub proof fn lemma_sum_take_all(a: Seq<u64>)
    ensures
        sum_row(a.take(a.len() as int)) == sum_row(a),
{
    assert(a.take(a.len() as int) =~= a);
}

/// No element exceeds the sum of its row.
pub proof fn lemma_elem_le_sum(a: Seq<u64>, j: int)
    requires
        0 <= j < a.len(),
    ensures
        a[j] <= sum_row(a),
    decreases a.len(),
{
    if j == a.len() - 1 {
        lemma_sum_nonneg(a.drop_last());
    } else {
        lemma_elem_le_sum(a.drop_last(), j);
    }
}

/// Dot products of term-frequency rows are non-negative.
pub proof fn lemma_dot_nonneg(a: Seq<u64>, b: Seq<u64>)
    ensures
        0 <= dot(a, b),
    decreases a.len(),
{
    if a.len() > 0 && b.len() > 0 {
        lemma_dot_nonneg(a.drop_last(), b.drop_last());
        assert(a.last() * b.last() >= 0) by (nonlinear_arith)
            requires a.last() >= 0 && b.last() >= 0;
    }
}

/// The dot product does not depend on the order of its arguments.
pub proof fn lemma_dot_comm(a: Seq<u64>, b: Seq<u64>)
    ensures
        dot(a, b) == dot(b, a),
    decreases a.len(),
{
    if a.len() > 0 && b.len() > 0 {
        lemma_dot_comm(a.drop_last(), b.drop_last());
    }
}

/// The dot product of non-negative rows is at most the product of their
/// sums.
pub proof fn lemma_dot_le_sum_prod(a: Seq<u64>, b: Seq<u64>)
    requires
        a.len() == b.len(),
    ensures
        dot(a, b) <= sum_row(a) * sum_row(b),
    decreases a.len(),
{
    if a.len() > 0 {
        lemma_dot_le_sum_prod(a.drop_last(), b.drop_last());
        let sa = sum_row(a.drop_last());
        let sb = sum_row(b.drop_last());
        let x = a.last() as int;
        let y = b.last() as int;
        lemma_sum_nonneg(a.drop_last());
        lemma_sum_nonneg(b.drop_last());
        assert(sa * sb + x * y <= (sa + x) * (sb + y)) by (nonlinear_arith)
            requires sa >= 0 && sb >= 0 && x >= 0 && y >= 0;
    }
}

/// Cauchy-Schwarz: the square of a dot product never exceeds the product
/// of the squared norms.  This is what keeps every cosine value within
/// one unit.
pub proof fn lemma_cauchy_schwarz(a: Seq<u64>, b: Seq<u64>)
    requires
        a.len() == b.len(),
    ensures
        dot(a, b) * dot(a, b) <= dot(a, a) * dot(b, b),
    decreases a.len(),
{
    if a.len() == 0 {
    } else {
        let a2 = a.drop_last();
        let b2 = b.drop_last();
        lemma_cauchy_schwarz(a2, b2);
        let big_a = dot(a2, a2);
        let big_b = dot(b2, b2);
        let c = dot(a2, b2);
        let x = a.last() as int;
        let y = b.last() as int;
        lemma_dot_nonneg(a2, a2);
        lemma_dot_nonneg(b2, b2);
        lemma_dot_nonneg(a2, b2);
        // dot(a, a) == big_a + x * x, and likewise for b and the mixed product
        assert(dot(a, a) == big_a + x * x);
        assert(dot(b, b) == big_b + y * y);
        assert(dot(a, b) == c + x * y);
        // 4 * (A y^2) * (B x^2) <= (A y^2 + B x^2)^2, the squared AM-GM step
        assert(4 * (big_a * (y * y)) * (big_b * (x * x)) <= (big_a * (y * y) + big_b * (x * x))
            * (big_a * (y * y) + big_b * (x * x))) by (nonlinear_arith);
        // (2 C x y)^2 <= 4 (A y^2)(B x^2) from C^2 <= A B
        assert((2 * c * x * y) * (2 * c * x * y) <= 4 * (big_a * (y * y)) * (big_b * (x * x)))
            by (nonlinear_arith)
            requires c * c <= big_a * big_b && x >= 0 && y >= 0 && c >= 0;
        // both sides non-negative, so 2 C x y <= A y^2 + B x^2
        assert(2 * c * x * y <= big_a * (y * y) + big_b * (x * x)) by (nonlinear_arith)
            requires
                (2 * c * x * y) * (2 * c * x * y) <= (big_a * (y * y) + big_b * (x * x)) * (big_a
                    * (y * y) + big_b * (x * x)),
                2 * c * x * y >= 0,
                big_a * (y * y) + big_b * (x * x) >= 0,
        ;
        // expand both squares, then the bound is a sum of the two facts
        assert((c + x * y) * (c + x * y) == c * c + 2 * c * x * y + (x * x) * (y * y))
            by (nonlinear_arith);
        assert((big_a + x * x) * (big_b + y * y) == big_a * big_b + big_a * (y * y) + big_b * (x
            * x) + (x * x) * (y * y)) by (nonlinear_arith);
        assert((c + x * y) * (c + x * y) <= (big_a + x * x) * (big_b + y * y));
    }
}

/// Exact characterization of a stored similarity value `v` for rows `a`
/// and `b`: zero when either row is a zero vector, otherwise the integer
/// floor of `SIM_SCALE * dot(a,b) / sqrt(dot(a,a) * dot(b,b))`, pinned by
/// squaring both bounding inequalities.
pub open spec fn sim_val_ok(a: Seq<u64>, b: Seq<u64>, v: int) -> bool {
    let d = dot(a, b);
    let da = dot(a, a);
    let db = dot(b, b);
    if da == 0 || db == 0 {
        v == 0
    } else {
        &&& 0 <= v
        &&& v * v * (da * db) <= (d * SIM_SCALE) * (d * SIM_SCALE)
        &&& (d * SIM_SCALE) * (d * SIM_SCALE) < (v + 1) * (v + 1) * (da * db)
    }
}

/// Every similarity of term-frequency rows lies between 0 and one unit:
/// the fixed-point form of "cosine similarity of non-negative vectors
/// lies in [0, 1]".
pub proof fn lemma_sim_within_unit(a: Seq<u64>, b: Seq<u64>, v: int)
    requires
        a.len() == b.len(),
        sim_val_ok(a, b, v),
    ensures
        0 <= v <= SIM_SCALE,
{
    let d = dot(a, b);
    let da = dot(a, a);
    let db = dot(b, b);
    if da == 0 || db == 0 {
    } else {
        lemma_cauchy_schwarz(a, b);
        lemma_dot_nonneg(a, a);
        lemma_dot_nonneg(b, b);
        assert(v <= SIM_SCALE) by (nonlinear_arith)
            requires
                0 <= v,
                da > 0,
                db > 0,
                d * d <= da * db,
                v * v * (da * db) <= (d * SIM_SCALE) * (d * SIM_SCALE),
                SIM_SCALE > 0,
        ;
    }
}

/// Add up one row, refusing totals beyond `MAX_DOC_TOKENS`.
pub fn row_total(a: &Vec<u64>) -> (r: Option<u64>)
    ensures
        match r {
            Some(s) => s == sum_row(a@) && s <= MAX_DOC_TOKENS,
            None => sum_row(a@) > MAX_DOC_TOKENS,
        },
{
    let n = a.len();
    let mut acc: u64 = 0;
    let mut j: usize = 0;
    while j < n
        invariant
            j <= n,
            n == a@.len(),
            acc == sum_row(a@.take(j as int)),
            acc <= MAX_DOC_TOKENS,
        decreases n - j,
    {
        proof {
            assert(a@.take(j + 1).drop_last() =~= a@.take(j as int));
            assert(a@.take(j + 1).last() == a@[j as int]);
        }
        let x = a[j];
        if x > MAX_DOC_TOKENS - acc {
            proof {
                lemma_sum_take_mono(a@, j + 1, n as int);
                lemma_sum_take_all(a@);
            }
            return None;
        }
        acc = acc + x;
        j = j + 1;
    }
    proof {
        lemma_sum_take_all(a@);
    }
    Some(acc)
}

/// Dot product of two rows whose totals are within the document cap.
fn dot_rows(a: &Vec<u64>, b: &Vec<u64>) -> (r: u64)
    requires
        a@.len() == b@.len(),
        sum_row(a@) <= MAX_DOC_TOKENS,
        sum_row(b@) <= MAX_DOC_TOKENS,
    ensures
        r == dot(a@, b@),
        r <= 0x1_0000_0000u64,
{
    let n = a.len();
    let mut acc: u64 = 0;
    let mut j: usize = 0;
    proof {
        lemma_sum_nonneg(a@);
        lemma_sum_nonneg(b@);
    }
    while j < n
        invariant
            j <= n,
            n == a@.len(),
            a@.len() == b@.len(),
            sum_row(a@) <= MAX_DOC_TOKENS,
            sum_row(b@) <= MAX_DOC_TOKENS,
            acc == dot(a@.take(j as int), b@.take(j as int)),
            acc <= 0x1_0000_0000u64,
        decreases n - j,
    {
        proof {
            assert(a@.take(j + 1).drop_last() =~= a@.take(j as int));
            assert(b@.take(j + 1).drop_last() =~= b@.take(j as int));
            assert(a@.take(j + 1).last() == a@[j as int]);
            assert(b@.take(j + 1).last() == b@[j as int]);
            lemma_elem_le_sum(a@, j as int);
            lemma_elem_le_sum(b@, j as int);
            assert(a@[j as int] * b@[j as int] <= 0x1_0000_0000) by (nonlinear_arith)
                requires
                    0 <= a@[j as int] <= 65536,
                    0 <= b@[j as int] <= 65536,
            ;
            lemma_dot_le_sum_prod(a@.take(j + 1), b@.take(j + 1));
            lemma_sum_take_mono(a@, j + 1, n as int);
            lemma_sum_take_mono(b@, j + 1, n as int);
            lemma_sum_take_all(a@);
            lemma_sum_take_all(b@);
            lemma_sum_nonneg(a@.take(j + 1));
            lemma_sum_nonneg(b@.take(j + 1));
            assert(sum_row(a@.take(j + 1)) * sum_row(b@.take(j + 1)) <= 0x1_0000_0000)
                by (nonlinear_arith)
                requires
                    0 <= sum_row(a@.take(j + 1)) <= 65536,
                    0 <= sum_row(b@.take(j + 1)) <= 65536,
            ;
            lemma_dot_nonneg(a@.take(j + 1), b@.take(j + 1));
        }
        acc = acc + a[j] * b[j];
        j = j + 1;
    }
    proof {
        assert(a@.take(n as int) =~= a@);
        assert(b@.take(n as int) =~= b@);
    }
    acc
}

/// Integer square root by bisection: the floor of the real square root.
fn isqrt128(t: u128) -> (r: u64)
    requires
        t < 0x1_0000_0000_0000_0000_0000_0000_00u128,
    ensures
        (r as int) * (r as int) <= t,
        t < ((r as int) + 1) * ((r as int) + 1),
{
    let mut lo: u64 = 0;
    let mut hi: u64 = 0x10_0000_0000_0000;
    proof {
        assert((hi as int) * (hi as int) == 0x1_0000_0000_0000_0000_0000_0000_00int)
            by (nonlinear_arith)
            requires hi == 0x10_0000_0000_0000u64;
    }
    while hi - lo > 1
        invariant
            lo < hi <= 0x10_0000_0000_0000u64,
            (lo as int) * (lo as int) <= t,
            t < (hi as int) * (hi as int),
        decreases hi - lo,
    {
        let mid = lo + (hi - lo) / 2;
        proof {
            assert((mid as int) * (mid as int) <= 0x1_0000_0000_0000_0000_0000_0000_00int)
                by (nonlinear_arith)
                requires 0 <= mid <= 0x10_0000_0000_0000u64;
        }
        let sq: u128 = (mid as u128) * (mid as u128);
        if sq <= t {
            lo = mid;
        } else {
            hi = mid;
        }
    }
    lo
}

/// One similarity entry for non-zero squared norms `da`, `db` and dot
/// product `d`: the floor of `d * SIM_SCALE / sqrt(da * db)`.
fn sim_entry(d: u64, da: u64, db: u64) -> (v: u64)
    requires
        d <= 0x1_0000_0000u64,
        0 < da <= 0x1_0000_0000u64,
        0 < db <= 0x1_0000_0000u64,
    ensures
        ({
            let dd = (da as int) * (db as int);
            let x = (d as int) * (SIM_SCALE as int);
            &&& (v as int) * (v as int) * dd <= x * x
            &&& x * x < ((v as int) + 1) * ((v as int) + 1) * dd
        }),
{
    proof {
        assert((d as int) * (SIM_SCALE as int) < 0x10_0000_0000_0000int) by (nonlinear_arith)
            requires 0 <= d <= 0x1_0000_0000u64;
    }
    let x: u128 = (d as u128) * (SIM_SCALE as u128);
    proof {
        assert((x as int) * (x as int) < 0x1_0000_0000_0000_0000_0000_0000_00int)
            by (nonlinear_arith)
            requires 0 <= x < 0x10_0000_0000_0000int;
        assert((da as int) * (db as int) <= 0x1_0000_0000_0000_0000int) by (nonlinear_arith)
            requires 0 < da <= 0x1_0000_0000u64 && 0 < db <= 0x1_0000_0000u64;
        assert((da as int) * (db as int) >= 1) by (nonlinear_arith)
            requires 0 < da && 0 < db;
    }
    let dd: u128 = (da as u128) * (db as u128);
    let xx: u128 = x * x;
    let q: u128 = xx / dd;
    proof {
        lemma_fundamental_div_mod(xx as int, dd as int);
    }
    let v = isqrt128(q);
    proof {
        let qi = q as int;
        let ddi = dd as int;
        let xi = xx as int;
        let vi = v as int;
        let rem = xi - ddi * qi;
        // floor division: dd * q <= x * x < dd * (q + 1)
        assert(0 <= rem < ddi);
        assert(vi * vi * ddi <= qi * ddi) by (nonlinear_arith)
            requires vi * vi <= qi && ddi >= 0;
        assert(qi * ddi <= xi) by (nonlinear_arith)
            requires xi == ddi * qi + rem && rem >= 0;
        assert((qi + 1) * ddi == ddi * qi + ddi) by (nonlinear_arith);
        assert(xi < (qi + 1) * ddi);
        assert((qi + 1) * ddi <= (vi + 1) * (vi + 1) * ddi) by (nonlinear_arith)
            requires qi < (vi + 1) * (vi + 1) && ddi >= 0;
    }
    v
}

/// The shared width of a row-major matrix.
pub open spec fn row_width(m: Seq<Vec<u64>>) -> int {
    if m.len() == 0 {
        0
    } else {
        m[0]@.len() as int
    }
}

/// Compute the symmetric cosine-similarity matrix of a term-frequency
/// matrix, in fixed-point millionths.
///
/// Every entry is the exact floor of the scaled cosine of its row pair;
/// the matrix is symmetric; the diagonal is one unit for rows with a
/// non-zero vector and 0 for zero rows; any pairing with a zero-norm row
/// is 0 by policy; and no entry exceeds one unit.
#[verifier::loop_isolation(false)]
pub fn compute_cosine_similarity(matrix: &Vec<Vec<u64>>) -> (r: Vec<Vec<u64>>)
    requires
        forall|i: int|
            0 <= i < matrix@.len() ==> #[trigger] matrix@[i]@.len() == row_width(matrix@),
        forall|i: int| 0 <= i < matrix@.len() ==> sum_row(#[trigger] matrix@[i]@) <= MAX_DOC_TOKENS,
    ensures
        r@.len() == matrix@.len(),
        forall|i: int| 0 <= i < r@.len() ==> #[trigger] r@[i]@.len() == matrix@.len(),
        forall|i: int, j: int|
            0 <= i < matrix@.len() && 0 <= j < matrix@.len() ==> sim_val_ok(
                matrix@[i]@,
                matrix@[j]@,
                (#[trigger] r@[i]@[j]) as int,
            ),
        forall|i: int, j: int|
            0 <= i < matrix@.len() && 0 <= j < matrix@.len() ==> #[trigger] r@[i]@[j] == r@[j]@[i],
        forall|i: int, j: int|
            0 <= i < matrix@.len() && 0 <= j < matrix@.len() ==> #[trigger] r@[i]@[j] <= SIM_SCALE,
        forall|i: int|
            0 <= i < matrix@.len() ==> #[trigger] r@[i]@[i] == if dot(matrix@[i]@, matrix@[i]@)
                == 0 {
                0u64
            } else {
                SIM_SCALE
            },
{
    let n = matrix.len();
    let mut norms: Vec<u64> = Vec::new();
    let mut i: usize = 0;
    while i < n
        invariant
            i <= n,
            norms@.len() == i,
            forall|a: int|
                0 <= a < i ==> #[trigger] norms@[a] == dot(matrix@[a]@, matrix@[a]@) && norms@[a]
                    <= 0x1_0000_0000u64,
        decreases n - i,
    {
        let v = dot_rows(&matrix[i], &matrix[i]);
        norms.push(v);
        i = i + 1;
    }
    let mut result: Vec<Vec<u64>> = Vec::new();
    let mut i: usize = 0;
    while i < n
        invariant
            i <= n,
            result@.len() == i,
            forall|a: int| 0 <= a < i ==> #[trigger] result@[a]@.len() == n,
            forall|a: int, b: int|
                0 <= a < i && 0 <= b < n ==> sim_val_ok(
                    matrix@[a]@,
                    matrix@[b]@,
                    (#[trigger] result@[a]@[b]) as int,
                ),
            forall|a: int, b: int|
                0 <= a < i && 0 <= b < n ==> #[trigger] result@[a]@[b] <= SIM_SCALE,
            forall|a: int, b: int|
                0 <= a < i && 0 <= b < i ==> #[trigger] result@[a]@[b] == result@[b]@[a],
            forall|a: int|
                0 <= a < i ==> #[trigger] result@[a]@[a] == if dot(matrix@[a]@, matrix@[a]@) == 0 {
                    0u64
                } else {
                    SIM_SCALE
                },
        decreases n - i,
    {
        let mut row: Vec<u64> = Vec::new();
        let mut j: usize = 0;
        while j < n
            invariant
                j <= n,
                row@.len() == j,
                forall|b: int|
                    0 <= b < j ==> sim_val_ok(
                        matrix@[i as int]@,
                        matrix@[b]@,
                        (#[trigger] row@[b]) as int,
                    ),
                forall|b: int| 0 <= b < j ==> #[trigger] row@[b] <= SIM_SCALE,
                forall|b: int| 0 <= b < j && b < i ==> #[trigger] row@[b] == result@[b]@[i as int],
                i < j ==> row@[i as int] == if dot(matrix@[i as int]@, matrix@[i as int]@) == 0 {
                    0u64
                } else {
                    SIM_SCALE
                },
            decreases n - j,
        {
            let ghost mi = matrix@[i as int]@;
            let ghost mj = matrix@[j as int]@;
            let val: u64;
            if j < i {
                val = result[j][i];
                proof {
                    assert(sim_val_ok(mj, mi, (result@[j as int]@[i as int]) as int));
                    lemma_dot_comm(mi, mj);
                    let d = dot(mi, mj);
                    let da = dot(mi, mi);
                    let db = dot(mj, mj);
                    let vi = val as int;
                    if da != 0 && db != 0 {
                        assert(vi * vi * (db * da) == vi * vi * (da * db)) by (nonlinear_arith);
                        assert((vi + 1) * (vi + 1) * (db * da) == (vi + 1) * (vi + 1) * (da * db))
                            by (nonlinear_arith);
                    }
                    assert(sim_val_ok(mi, mj, val as int));
                }
            } else if j == i {
                let nz = norms[i];
                if nz == 0 {
                    val = 0;
                } else {
                    val = SIM_SCALE;
                    proof {
                        let da = dot(mi, mi);
                        let s = SIM_SCALE as int;
                        assert(s * s * (da * da) <= (da * s) * (da * s)) by (nonlinear_arith);
                        assert((da * s) * (da * s) < (s + 1) * (s + 1) * (da * da))
                            by (nonlinear_arith)
                            requires da >= 1 && s >= 1;
                        assert(sim_val_ok(mi, mi, SIM_SCALE as int));
                    }
                }
            } else {
                let nzi = norms[i];
                let nzj = norms[j];
                if nzi == 0 || nzj == 0 {
                    val = 0;
                } else {
                    let d = dot_rows(&matrix[i], &matrix[j]);
                    val = sim_entry(d, nzi, nzj);
                    proof {
                        lemma_dot_nonneg(mi, mj);
                        assert(sim_val_ok(mi, mj, val as int));
                    }
                }
            }
            proof {
                lemma_sim_within_unit(mi, mj, val as int);
            }
            row.push(val);
            j = j + 1;
        }
        result.push(row);
        i = i + 1;
    }
    result
}

} // verus!
