use crate::matrix::{is_product, lemma_cell_index, lemma_split_index, product_cell, Matrix};
use crate::vector::partial_dot;
use vstd::prelude::*;

verus! {

/// `f(0) + f(1) + ... + f(n - 1)`.
pub open spec fn sum(n: nat, f: spec_fn(int) -> int) -> int
    decreases n,
{
    if n == 0 {
        0
    } else {
        sum((n - 1) as nat, f) + f(n - 1)
    }
}

proof fn lemma_sum_ext(n: nat, f: spec_fn(int) -> int, g: spec_fn(int) -> int)
    requires
        forall|t: int| 0 <= t < n ==> f(t) == #[trigger] g(t),
    ensures
        sum(n, f) == sum(n, g),
    decreases n,
{
    if n > 0 {
        lemma_sum_ext((n - 1) as nat, f, g);
    }
}

proof fn lemma_sum_zero(n: nat, f: spec_fn(int) -> int)
    requires
        forall|t: int| 0 <= t < n ==> #[trigger] f(t) == 0,
    ensures
        sum(n, f) == 0,
    decreases n,
{
    if n > 0 {
        lemma_sum_zero((n - 1) as nat, f);
    }
}

proof fn lemma_sum_add(n: nat, f: spec_fn(int) -> int, g: spec_fn(int) -> int, h: spec_fn(int) -> int)
    requires
        forall|t: int| 0 <= t < n ==> #[trigger] h(t) == f(t) + g(t),
    ensures
        sum(n, h) == sum(n, f) + sum(n, g),
    decreases n,
{
    if n > 0 {
        lemma_sum_add((n - 1) as nat, f, g, h);
    }
}

proof fn lemma_sum_scale(n: nat, f: spec_fn(int) -> int, g: spec_fn(int) -> int, x: int)
    requires
        forall|t: int| 0 <= t < n ==> #[trigger] g(t) == f(t) * x,
    ensures
        sum(n, g) == sum(n, f) * x,
    decreases n,
{
    if n > 0 {
        lemma_sum_scale((n - 1) as nat, f, g, x);
        let s = sum((n - 1) as nat, f);
        let y = f(n - 1);
        assert((s + y) * x == s * x + y * x) by (nonlinear_arith);
    }
}

proof fn lemma_sum_scale_left(n: nat, f: spec_fn(int) -> int, g: spec_fn(int) -> int, x: int)
    requires
        forall|t: int| 0 <= t < n ==> #[trigger] g(t) == x * f(t),
    ensures
        sum(n, g) == x * sum(n, f),
    decreases n,
{
    if n > 0 {
        lemma_sum_scale_left((n - 1) as nat, f, g, x);
        let s = sum((n - 1) as nat, f);
        let y = f(n - 1);
        assert(x * (s + y) == x * s + x * y) by (nonlinear_arith);
    }
}

/// A double sum may be taken in either order.
proof fn lemma_sum_swap(n: nat, m: nat, f: spec_fn(int, int) -> int)
    ensures
        sum(n, |i: int| sum(m, |j: int| f(i, j))) == sum(m, |j: int| sum(n, |i: int| f(i, j))),
    decreases n,
{
    if n == 0 {
        lemma_sum_zero(m, |j: int| sum(n, |i: int| f(i, j)));
    } else {
        lemma_sum_swap((n - 1) as nat, m, f);
        lemma_sum_add(
            m,
            |j: int| sum((n - 1) as nat, |i: int| f(i, j)),
            |j: int| f(n - 1, j),
            |j: int| sum(n, |i: int| f(i, j)),
        );
    }
}

proof fn lemma_dot_as_sum(r: Seq<i64>, c: Seq<i64>, n: nat, f: spec_fn(int) -> int)
    requires
        forall|t: int| 0 <= t < n ==> #[trigger] f(t) == r[t] * c[t],
    ensures
        partial_dot(r, c, n) == sum(n, f),
    decreases n,
{
    if n > 0 {
        lemma_dot_as_sum(r, c, (n - 1) as nat, f);
    }
}

/// Two matrices of one shape that agree at every row and column hold the
/// same elements.
pub proof fn lemma_same_cells(p: Matrix, q: Matrix)
    requires
        p.wf(),
        q.wf(),
        p.num_rows() == q.num_rows(),
        p.num_cols() == q.num_cols(),
        forall|i: int, j: int|
            0 <= i < p.num_rows() && 0 <= j < p.num_cols() ==> #[trigger] p.at(i, j) == q.at(i, j),
    ensures
        p.cells() == q.cells(),
{
    let r = p.num_rows() as int;
    let c = p.num_cols() as int;
    assert forall|k: int| 0 <= k < p.cells().len() implies #[trigger] p.cells()[k] == q.cells()[k] by {
        lemma_split_index(k, r, c);
        assert(p.at(k / c, k % c) == q.at(k / c, k % c));
    }
    assert(p.cells() =~= q.cells());
}

/// Multiplication is deterministic: any two results of multiplying the same
/// operands are the same matrix.
pub proof fn lemma_product_deterministic(a: Matrix, b: Matrix, p: Matrix, q: Matrix)
    requires
        is_product(a, b, p),
        is_product(a, b, q),
    ensures
        p.num_rows() == q.num_rows(),
        p.num_cols() == q.num_cols(),
        p.cells() == q.cells(),
{
    assert forall|i: int, j: int| 0 <= i < p.num_rows() && 0 <= j < p.num_cols() implies #[trigger] p.at(
        i,
        j,
    ) == q.at(i, j) by {
        assert(p.at(i, j) as int == product_cell(a, b, i, j));
        assert(q.at(i, j) as int == product_cell(a, b, i, j));
    }
    lemma_same_cells(p, q);
}

/// `e` is a square identity matrix: ones on the diagonal, zeros elsewhere.
pub open spec fn is_identity(e: Matrix) -> bool {
    &&& e.wf()
    &&& e.num_rows() == e.num_cols()
    &&& forall|i: int, j: int|
        0 <= i < e.num_rows() && 0 <= j < e.num_cols() ==> #[trigger] e.at(i, j) == if i == j {
            1i64
        } else {
            0i64
        }
}

proof fn lemma_dot_unit_right(r: Seq<i64>, c: Seq<i64>, n: nat, j: int)
    requires
        n <= r.len(),
        n <= c.len(),
        forall|t: int| 0 <= t < n ==> #[trigger] c[t] == if t == j { 1i64 } else { 0i64 },
    ensures
        partial_dot(r, c, n) == if 0 <= j < n { r[j] as int } else { 0 },
    decreases n,
{
    if n > 0 {
        lemma_dot_unit_right(r, c, (n - 1) as nat, j);
        let t = n - 1;
        if t == j {
            assert(c[t] == 1);
            assert(r[t] * c[t] == r[t]);
        } else {
            assert(c[t] == 0);
            assert(r[t] * c[t] == 0);
        }
    }
}

proof fn lemma_dot_unit_left(r: Seq<i64>, c: Seq<i64>, n: nat, i: int)
    requires
        n <= r.len(),
        n <= c.len(),
        forall|t: int| 0 <= t < n ==> #[trigger] r[t] == if t == i { 1i64 } else { 0i64 },
    ensures
        partial_dot(r, c, n) == if 0 <= i < n { c[i] as int } else { 0 },
    decreases n,
{
    if n > 0 {
        lemma_dot_unit_left(r, c, (n - 1) as nat, i);
        let t = n - 1;
        if t == i {
            assert(r[t] == 1);
            assert(r[t] * c[t] == c[t]);
        } else {
            assert(r[t] == 0);
            assert(r[t] * c[t] == 0);
        }
    }
}

/// Multiplying by an identity matrix on the right gives back the left operand.
pub proof fn lemma_right_identity(a: Matrix, e: Matrix, p: Matrix)
    requires
        a.wf(),
        is_identity(e),
        e.num_rows() == a.num_cols(),
        is_product(a, e, p),
    ensures
        p.num_rows() == a.num_rows(),
        p.num_cols() == a.num_cols(),
        p.cells() == a.cells(),
{
    assert forall|i: int, j: int| 0 <= i < p.num_rows() && 0 <= j < p.num_cols() implies #[trigger] p.at(
        i,
        j,
    ) == a.at(i, j) by {
        let col = e.col_of(j);
        assert forall|t: int| 0 <= t < a.num_cols() implies #[trigger] col[t] == if t == j {
            1i64
        } else {
            0i64
        } by {
            assert(e.at(t, j) == if t == j {
                1i64
            } else {
                0i64
            });
        }
        lemma_dot_unit_right(a.row_of(i), col, a.num_cols(), j);
    }
    lemma_same_cells(p, a);
}

/// Multiplying by an identity matrix on the left gives back the right operand.
pub proof fn lemma_left_identity(e: Matrix, a: Matrix, p: Matrix)
    requires
        a.wf(),
        is_identity(e),
        e.num_cols() == a.num_rows(),
        is_product(e, a, p),
    ensures
        p.num_rows() == a.num_rows(),
        p.num_cols() == a.num_cols(),
        p.cells() == a.cells(),
{
    assert forall|i: int, j: int| 0 <= i < p.num_rows() && 0 <= j < p.num_cols() implies #[trigger] p.at(
        i,
        j,
    ) == a.at(i, j) by {
        let row = e.row_of(i);
        assert forall|t: int| 0 <= t < e.num_cols() implies #[trigger] row[t] == if t == i {
            1i64
        } else {
            0i64
        } by {
            assert(e.at(i, t) == if i == t {
                1i64
            } else {
                0i64
            });
        }
        lemma_dot_unit_left(row, a.col_of(j), e.num_cols(), i);
    }
    lemma_same_cells(p, a);
}

/// Cell `(i, j)` of `(a * b) * c` and of `a * (b * c)` are the same sum.
proof fn lemma_associative_cell(
    a: Matrix,
    b: Matrix,
    c: Matrix,
    ab: Matrix,
    bc: Matrix,
    i: int,
    j: int,
)
    requires
        a.wf(),
        b.wf(),
        c.wf(),
        a.num_cols() == b.num_rows(),
        b.num_cols() == c.num_rows(),
        is_product(a, b, ab),
        is_product(b, c, bc),
        0 <= i < a.num_rows(),
        0 <= j < c.num_cols(),
    ensures
        product_cell(ab, c, i, j) == product_cell(a, bc, i, j),
{
    let k = a.num_cols();
    let l = b.num_cols();
    let h = |s: int, t: int| (a.at(i, t) * b.at(t, s)) * c.at(s, j);
    // The left side, summed over the columns `s` of `a * b`.
    let left = |s: int| ab.at(i, s) * c.at(s, j);
    lemma_dot_as_sum(ab.row_of(i), c.col_of(j), l, left);
    assert forall|s: int| 0 <= s < l implies #[trigger] left(s) == sum(k, |t: int| h(s, t)) by {
        let ab_terms = |t: int| a.at(i, t) * b.at(t, s);
        lemma_dot_as_sum(a.row_of(i), b.col_of(s), k, ab_terms);
        assert(ab.at(i, s) as int == product_cell(a, b, i, s));
        lemma_sum_scale(k, ab_terms, |t: int| h(s, t), c.at(s, j) as int);
    }
    lemma_sum_ext(l, left, |s: int| sum(k, |t: int| h(s, t)));
    lemma_sum_swap(l, k, h);
    // The right side, summed over the rows `t` of `b * c`.
    let right = |t: int| a.at(i, t) * bc.at(t, j);
    lemma_dot_as_sum(a.row_of(i), bc.col_of(j), k, right);
    assert forall|t: int| 0 <= t < k implies #[trigger] right(t) == sum(l, |s: int| h(s, t)) by {
        let bc_terms = |s: int| b.at(t, s) * c.at(s, j);
        lemma_dot_as_sum(b.row_of(t), c.col_of(j), l, bc_terms);
        assert(bc.at(t, j) as int == product_cell(b, c, t, j));
        assert forall|s: int| 0 <= s < l implies #[trigger] h(s, t) == a.at(i, t) * bc_terms(s) by {
            let x = a.at(i, t) as int;
            let y = b.at(t, s) as int;
            let z = c.at(s, j) as int;
            assert((x * y) * z == x * (y * z)) by (nonlinear_arith);
        }
        lemma_sum_scale_left(l, bc_terms, |s: int| h(s, t), a.at(i, t) as int);
    }
    lemma_sum_ext(k, right, |t: int| sum(l, |s: int| h(s, t)));
}

/// Multiplication is associative: `(a * b) * c` and `a * (b * c)` are the
/// same matrix whenever the shapes are compatible.
pub proof fn lemma_associative(
    a: Matrix,
    b: Matrix,
    c: Matrix,
    ab: Matrix,
    bc: Matrix,
    ab_c: Matrix,
    a_bc: Matrix,
)
    requires
        a.wf(),
        b.wf(),
        c.wf(),
        a.num_cols() == b.num_rows(),
        b.num_cols() == c.num_rows(),
        is_product(a, b, ab),
        is_product(ab, c, ab_c),
        is_product(b, c, bc),
        is_product(a, bc, a_bc),
    ensures
        ab_c.num_rows() == a_bc.num_rows(),
        ab_c.num_cols() == a_bc.num_cols(),
        ab_c.cells() == a_bc.cells(),
{
    assert forall|i: int, j: int|
        0 <= i < ab_c.num_rows() && 0 <= j < ab_c.num_cols() implies #[trigger] ab_c.at(i, j)
        == a_bc.at(i, j) by {
        lemma_associative_cell(a, b, c, ab, bc, i, j);
        assert(ab_c.at(i, j) as int == product_cell(ab, c, i, j));
        assert(a_bc.at(i, j) as int == product_cell(a, bc, i, j));
    }
    lemma_same_cells(ab_c, a_bc);
}

} // verus!
