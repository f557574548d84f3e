//! Row-major integer matrices: products and transposes, with wrapping
//! arithmetic.
use crate::node::at;
use vstd::arithmetic::div_mod::lemma_fundamental_div_mod_converse;
use vstd::arithmetic::mul::{lemma_mul_inequality, lemma_mul_is_distributive_add_other_way};
use vstd::prelude::*;

verus! {

/// The first `upto` terms of entry `(i, j)` of the product of the `n × m`
/// matrix `a` and the `m × p` matrix `b`.
pub open spec fn dot(a: Seq<i64>, b: Seq<i64>, i: int, j: int, m: nat, p: nat, upto: nat) -> i64
    decreases upto,
{
    if upto == 0 {
        0i64
    } else {
        dot(a, b, i, j, m, p, (upto - 1) as nat).wrapping_add(
            at(a, i * m + upto - 1).wrapping_mul(at(b, (upto - 1) * p + j)),
        )
    }
}

/// The `n × p` product of the `n × m` matrix `a` and the `m × p` matrix
/// `b`; missing elements count as zero.
pub open spec fn matmul(a: Seq<i64>, b: Seq<i64>, n: nat, m: nat, p: nat) -> Seq<i64> {
    Seq::new(n * p, |k: int| dot(a, b, k / p as int, k % p as int, m, p, m))
}

/// The `cols × rows` transpose of the `rows × cols` matrix `x`.
pub open spec fn transposed(x: Seq<i64>, rows: nat, cols: nat) -> Seq<i64> {
    Seq::new(cols * rows, |k: int| at(x, (k % rows as int) * cols + k / rows as int))
}

/// Row `i`, column `j` of an `r × c` layout sits at `i * c + j`, inside it.
pub proof fn lemma_index(i: int, j: int, r: int, c: int)
    requires
        0 <= i < r,
        0 <= j < c,
    ensures
        0 <= i * c + j < r * c,
        (i * c + j) / c == i,
        (i * c + j) % c == j,
{
    lemma_mul_inequality(i + 1, r, c);
    lemma_mul_is_distributive_add_other_way(c, i, 1);
    assert(i * c >= 0) by (nonlinear_arith)
        requires
            i >= 0,
            c >= 0,
    ;
    lemma_fundamental_div_mod_converse(i * c + j, c, i, j);
}

/// The product, when all three sizes fit.
pub fn matmul_exec(a: &Vec<i64>, b: &Vec<i64>, n: usize, m: usize, p: usize) -> (r: Vec<i64>)
    requires
        n * m <= usize::MAX,
        m * p <= usize::MAX,
        n * p <= usize::MAX,
    ensures
        r@ == matmul(a@, b@, n as nat, m as nat, p as nat),
{
    let mut out: Vec<i64> = Vec::new();
    let mut i: usize = 0;
    while i < n
        invariant
            i <= n,
            n * m <= usize::MAX,
            m * p <= usize::MAX,
            n * p <= usize::MAX,
            out@.len() == i * p,
            forall|k: int| 0 <= k < out@.len() ==> #[trigger] out@[k] == dot(a@, b@, k / p as int, k % p as int, m as nat, p as nat, m as nat),
        decreases n - i,
    {
        let mut j: usize = 0;
        while j < p
            invariant
                i < n,
                j <= p,
                n * m <= usize::MAX,
                m * p <= usize::MAX,
                n * p <= usize::MAX,
                out@.len() == i * p + j,
                forall|k: int| 0 <= k < out@.len() ==> #[trigger] out@[k] == dot(a@, b@, k / p as int, k % p as int, m as nat, p as nat, m as nat),
            decreases p - j,
        {
            let mut acc: i64 = 0;
            let mut k: usize = 0;
            while k < m
                invariant
                    i < n,
                    j < p,
                    k <= m,
                    n * m <= usize::MAX,
                    m * p <= usize::MAX,
                    acc == dot(a@, b@, i as int, j as int, m as nat, p as nat, k as nat),
                decreases m - k,
            {
                proof {
                    lemma_index(i as int, k as int, n as int, m as int);
                    lemma_index(k as int, j as int, m as int, p as int);
                }
                let ai = i * m + k;
                let bi = k * p + j;
                let x: i64 = if ai < a.len() { a[ai] } else { 0 };
                let y: i64 = if bi < b.len() { b[bi] } else { 0 };
                acc = acc.wrapping_add(x.wrapping_mul(y));
                k = k + 1;
            }
            proof {
                lemma_index(i as int, j as int, n as int, p as int);
            }
            out.push(acc);
            j = j + 1;
        }
        proof {
            assert((i + 1) * p == i * p + p) by (nonlinear_arith);
        }
        i = i + 1;
    }
    proof {
        assert(out@ =~= matmul(a@, b@, n as nat, m as nat, p as nat));
    }
    out
}

/// The transpose, when the size fits.
pub fn transpose_exec(x: &Vec<i64>, rows: usize, cols: usize) -> (r: Vec<i64>)
    requires
        rows * cols <= usize::MAX,
    ensures
        r@ == transposed(x@, rows as nat, cols as nat),
{
    let mut out: Vec<i64> = Vec::new();
    let mut j: usize = 0;
    while j < cols
        invariant
            j <= cols,
            rows * cols <= usize::MAX,
            out@.len() == j * rows,
            forall|k: int| 0 <= k < out@.len() ==> #[trigger] out@[k] == at(x@, (k % rows as int) * cols + k / rows as int),
        decreases cols - j,
    {
        let mut i: usize = 0;
        while i < rows
            invariant
                j < cols,
                i <= rows,
                rows * cols <= usize::MAX,
                out@.len() == j * rows + i,
                forall|k: int| 0 <= k < out@.len() ==> #[trigger] out@[k] == at(x@, (k % rows as int) * cols + k / rows as int),
            decreases rows - i,
        {
            proof {
                lemma_index(i as int, j as int, rows as int, cols as int);
                lemma_index(j as int, i as int, cols as int, rows as int);
            }
            let xi = i * cols + j;
            let v: i64 = if xi < x.len() { x[xi] } else { 0 };
            out.push(v);
            i = i + 1;
        }
        proof {
            assert((j + 1) * rows == j * rows + rows) by (nonlinear_arith);
        }
        j = j + 1;
    }
    proof {
        assert(cols * rows == rows * cols) by (nonlinear_arith);
        assert(out@ =~= transposed(x@, rows as nat, cols as nat));
    }
    out
}

/// Every element times `c`; arithmetic wraps.
pub open spec fn scaled(v: Seq<i64>, c: i64) -> Seq<i64> {
    Seq::new(v.len(), |i: int| c.wrapping_mul(v[i]))
}

/// The sum of column `j` over the first `rows` rows of a `· × p` matrix.
pub open spec fn column_sum(g: Seq<i64>, j: int, p: nat, rows: nat) -> i64
    decreases rows,
{
    if rows == 0 {
        0i64
    } else {
        column_sum(g, j, p, (rows - 1) as nat).wrapping_add(at(g, (rows - 1) * p + j))
    }
}

/// The column sums of an `n × p` matrix.
pub open spec fn column_sums(g: Seq<i64>, n: nat, p: nat) -> Seq<i64> {
    Seq::new(p, |j: int| column_sum(g, j, p, n))
}

/// The bias term at position `k` of an `n × p` result: a full `n × p`
/// bias, or a row of `p` repeated on every row.
pub open spec fn bias_at(bias: Seq<i64>, k: int, p: nat, full: bool) -> i64 {
    if full {
        at(bias, k)
    } else {
        at(bias, k % p as int)
    }
}

/// `beta * bias + alpha * (a × b)` for the `n × m` matrix `a` and the
/// `m × p` matrix `b`; arithmetic wraps.
pub open spec fn addmm_values(bias: Seq<i64>, a: Seq<i64>, b: Seq<i64>, n: nat, m: nat, p: nat, alpha: i64, beta: i64, full: bool) -> Seq<i64> {
    Seq::new(n * p, |k: int| beta.wrapping_mul(bias_at(bias, k, p, full)).wrapping_add(alpha.wrapping_mul(matmul(a, b, n, m, p)[k])))
}

pub fn scaled_exec(v: &Vec<i64>, c: i64) -> (r: Vec<i64>)
    ensures
        r@ == scaled(v@, c),
{
    let mut out: Vec<i64> = Vec::with_capacity(v.len());
    let mut i: usize = 0;
    while i < v.len()
        invariant
            i <= v@.len(),
            out@ =~= Seq::new(i as nat, |k: int| c.wrapping_mul(v@[k])),
        decreases v@.len() - i,
    {
        out.push(c.wrapping_mul(v[i]));
        i = i + 1;
    }
    proof {
        assert(out@ =~= scaled(v@, c));
    }
    out
}

pub fn column_sums_exec(g: &Vec<i64>, n: usize, p: usize) -> (r: Vec<i64>)
    requires
        n * p <= usize::MAX,
    ensures
        r@ == column_sums(g@, n as nat, p as nat),
{
    let mut out: Vec<i64> = Vec::with_capacity(p);
    let mut j: usize = 0;
    while j < p
        invariant
            j <= p,
            n * p <= usize::MAX,
            out@ =~= Seq::new(j as nat, |k: int| column_sum(g@, k, p as nat, n as nat)),
        decreases p - j,
    {
        let mut acc: i64 = 0;
        let mut i: usize = 0;
        while i < n
            invariant
                i <= n,
                j < p,
                n * p <= usize::MAX,
                acc == column_sum(g@, j as int, p as nat, i as nat),
            decreases n - i,
        {
            proof {
                lemma_index(i as int, j as int, n as int, p as int);
            }
            let gi = i * p + j;
            let v: i64 = if gi < g.len() { g[gi] } else { 0 };
            acc = acc.wrapping_add(v);
            i = i + 1;
        }
        out.push(acc);
        j = j + 1;
    }
    out
}

/// `addmm_values`, when all sizes fit.
pub fn addmm_exec(bias: &Vec<i64>, a: &Vec<i64>, b: &Vec<i64>, n: usize, m: usize, p: usize, alpha: i64, beta: i64, full: bool) -> (r: Vec<i64>)
    requires
        n * m <= usize::MAX,
        m * p <= usize::MAX,
        n * p <= usize::MAX,
    ensures
        r@ == addmm_values(bias@, a@, b@, n as nat, m as nat, p as nat, alpha, beta, full),
{
    let prod = matmul_exec(a, b, n, m, p);
    let total = n * p;
    let mut out: Vec<i64> = Vec::with_capacity(total);
    let mut k: usize = 0;
    while k < total
        invariant
            k <= total,
            total == n * p,
            prod@ == matmul(a@, b@, n as nat, m as nat, p as nat),
            out@ =~= Seq::new(k as nat, |q: int| beta.wrapping_mul(bias_at(bias@, q, p as nat, full)).wrapping_add(
                alpha.wrapping_mul(matmul(a@, b@, n as nat, m as nat, p as nat)[q]))),
        decreases total - k,
    {
        proof {
            assert(p > 0) by (nonlinear_arith)
                requires
                    k < n * p,
            ;
        }
        let bi = if full { k } else { k % p };
        let bv: i64 = if bi < bias.len() { bias[bi] } else { 0 };
        out.push(beta.wrapping_mul(bv).wrapping_add(alpha.wrapping_mul(prod[k])));
        k = k + 1;
    }
    proof {
        assert(out@ =~= addmm_values(bias@, a@, b@, n as nat, m as nat, p as nat, alpha, beta, full));
    }
    out
}

} // verus!
