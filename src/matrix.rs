use crate::error::MatrixError;
use crate::text::{decimal, push_decimal};
use crate::vector::{dot_fits, partial_dot, vector_point, Vector};
use vstd::arithmetic::div_mod::{lemma_fundamental_div_mod, lemma_fundamental_div_mod_converse, lemma_mod_pos_bound};
use vstd::prelude::*;
use vstd::string::StringExecFns;

verus! {

/// Number of workers among which `multiply` spreads the output cells.
pub const NUMBER_THREADS: usize = 4;

/// A dense matrix of `rows * cols` elements stored row-major.
pub struct Matrix {
    data: Vec<i64>,
    rows: usize,
    cols: usize,
}

impl Matrix {
    pub closed spec fn num_rows(&self) -> nat {
        self.rows as nat
    }

    pub closed spec fn num_cols(&self) -> nat {
        self.cols as nat
    }

    /// The elements, row after row.
    pub closed spec fn cells(&self) -> Seq<i64> {
        self.data@
    }

    pub open spec fn wf(&self) -> bool {
        self.cells().len() == self.num_rows() * self.num_cols()
    }

    /// The element in row `i` and column `j`.
    pub open spec fn at(&self, i: int, j: int) -> i64 {
        self.cells()[i * self.num_cols() + j]
    }

    pub open spec fn row_of(&self, i: int) -> Seq<i64> {
        Seq::new(self.num_cols(), |t: int| self.at(i, t))
    }

    pub open spec fn col_of(&self, j: int) -> Seq<i64> {
        Seq::new(self.num_rows(), |t: int| self.at(t, j))
    }

    pub fn new(data: Vec<i64>, rows: usize, cols: usize) -> (r: Self)
        requires
            data@.len() == rows * cols,
        ensures
            r.wf(),
            r.num_rows() == rows,
            r.num_cols() == cols,
            r.cells() == data@,
    {
        Self { data, rows, cols }
    }

    pub fn rows(&self) -> (r: usize)
        ensures
            r == self.num_rows(),
    {
        self.rows
    }

    pub fn cols(&self) -> (r: usize)
        ensures
            r == self.num_cols(),
    {
        self.cols
    }

    pub fn get(&self, i: usize, j: usize) -> (r: i64)
        requires
            self.wf(),
            i < self.num_rows(),
            j < self.num_cols(),
        ensures
            r == self.at(i as int, j as int),
    {
        proof {
            lemma_cell_index(i as int, j as int, self.rows as int, self.cols as int);
        }
        let len = self.data.len();
        assert(i * self.cols + j < len);
        self.data[i * self.cols + j]
    }
}

/// The first `n` elements of row `i`, each in decimal, separated by `, `.
pub open spec fn row_text(m: Matrix, i: int, n: nat) -> Seq<char>
    decreases n,
{
    if n == 0 {
        seq![]
    } else if n == 1 {
        decimal(m.at(i, 0) as int)
    } else {
        row_text(m, i, (n - 1) as nat) + seq![',', ' '] + decimal(m.at(i, n - 1) as int)
    }
}

/// The first `n` rows, each in braces, separated by `, `.
pub open spec fn rows_text(m: Matrix, n: nat) -> Seq<char>
    decreases n,
{
    if n == 0 {
        seq![]
    } else if n == 1 {
        seq!['{'] + row_text(m, 0, m.num_cols()) + seq!['}']
    } else {
        rows_text(m, (n - 1) as nat) + seq![',', ' ', '{'] + row_text(m, n - 1, m.num_cols())
            + seq!['}']
    }
}

/// The text of a matrix: its rows in braces inside one more pair of braces,
/// as in `{{1, 2}, {3, 4}}`.
pub open spec fn render(m: Matrix) -> Seq<char> {
    seq!['{'] + rows_text(m, m.num_rows()) + seq!['}']
}

impl Matrix {
    /// The text of the matrix, as `render` describes it.
    pub fn to_string(&self) -> (r: String)
        requires
            self.wf(),
        ensures
            r@ == render(*self),
    {
        let mut s = String::new();
        proof {
            reveal_strlit("{");
        }
        s.append("{");
        let mut i: usize = 0;
        while i < self.rows
            invariant
                self.wf(),
                i <= self.rows,
                s@ == seq!['{'] + rows_text(*self, i as nat),
            decreases self.rows - i,
        {
            let ghost before = s@;
            if i > 0 {
                proof {
                    reveal_strlit(", ");
                }
                s.append(", ");
                assert(s@ =~= before + seq![',', ' ']);
            }
            let ghost sep = s@;
            proof {
                reveal_strlit("{");
            }
            s.append("{");
            assert(s@ =~= sep + seq!['{']);
            let ghost start = s@;
            let mut j: usize = 0;
            while j < self.cols
                invariant
                    self.wf(),
                    i < self.rows,
                    j <= self.cols,
                    s@ == start + row_text(*self, i as int, j as nat),
                decreases self.cols - j,
            {
                let ghost prev = s@;
                if j > 0 {
                    proof {
                        reveal_strlit(", ");
                    }
                    s.append(", ");
                    assert(s@ =~= prev + seq![',', ' ']);
                }
                let ghost mid = s@;
                push_decimal(&mut s, self.get(i, j));
                assert(s@ == mid + decimal(self.at(i as int, j as int) as int));
                proof {
                    if j == 0 {
                        assert(s@ =~= start + row_text(*self, i as int, (j + 1) as nat));
                    } else {
                        assert(s@ =~= start + row_text(*self, i as int, (j + 1) as nat));
                    }
                }
                j = j + 1;
            }
            proof {
                reveal_strlit("}");
            }
            s.append("}");
            assert(s@ =~= start + row_text(*self, i as int, self.num_cols()) + seq!['}']);
            proof {
                if i == 0 {
                    assert(s@ =~= seq!['{'] + rows_text(*self, (i + 1) as nat));
                } else {
                    assert(s@ =~= seq!['{'] + rows_text(*self, (i + 1) as nat));
                }
            }
            i = i + 1;
        }
        proof {
            reveal_strlit("}");
        }
        s.append("}");
        s
    }
}

/// Row `i` and column `j` of an `r` by `c` matrix sit at position `i * c + j`,
/// and that position gives them back.
pub proof fn lemma_cell_index(i: int, j: int, r: int, c: int)
    requires
        0 <= i < r,
        0 <= j < c,
    ensures
        0 <= i * c + j < r * c,
        (i * c + j) / c == i,
        (i * c + j) % c == j,
{
    assert(0 <= i * c && i * c + j < r * c) by (nonlinear_arith)
        requires
            0 <= i < r,
            0 <= j < c,
    ;
    lemma_fundamental_div_mod_converse(i * c + j, c, i, j);
}

/// A position below `r * c` names a row below `r` and a column below `c`.
pub proof fn lemma_split_index(k: int, r: int, c: int)
    requires
        0 <= k < r * c,
        0 <= r,
        0 <= c,
    ensures
        0 < c,
        0 <= k / c < r,
        0 <= k % c < c,
        k == (k / c) * c + k % c,
{
    if c == 0 {
        assert(r * c == 0) by (nonlinear_arith)
            requires
                c == 0,
        ;
    }
    lemma_fundamental_div_mod(k, c);
    lemma_mod_pos_bound(k, c);
    let q = k / c;
    let m = k % c;
    assert(0 <= q < r && k == q * c + m) by (nonlinear_arith)
        requires
            k == c * q + m,
            0 <= m < c,
            0 <= k < r * c,
    ;
}

/// The value of output cell `(i, j)` of `a * b`.
pub open spec fn product_cell(a: Matrix, b: Matrix, i: int, j: int) -> int {
    partial_dot(a.row_of(i), b.col_of(j), a.num_cols())
}

/// Every output cell of `a * b` can be accumulated in `i64`.
pub open spec fn product_fits(a: Matrix, b: Matrix) -> bool {
    forall|i: int, j: int|
        0 <= i < a.num_rows() && 0 <= j < b.num_cols() ==> #[trigger] dot_fits(
            a.row_of(i),
            b.col_of(j),
            a.num_cols(),
        )
}

/// The value of the output cell of `a * b` at row-major position `q`.
pub open spec fn product_at(a: Matrix, b: Matrix, q: int) -> int {
    product_cell(a, b, q / b.num_cols() as int, q % b.num_cols() as int)
}

/// The output cell of `a * b` at row-major position `q` fits in `i64`.
pub open spec fn fits_at(a: Matrix, b: Matrix, q: int) -> bool {
    dot_fits(
        a.row_of(q / b.num_cols() as int),
        b.col_of(q % b.num_cols() as int),
        a.num_cols(),
    )
}

/// `p` is the product `a * b`.
pub open spec fn is_product(a: Matrix, b: Matrix, p: Matrix) -> bool {
    &&& p.wf()
    &&& p.num_rows() == a.num_rows()
    &&& p.num_cols() == b.num_cols()
    &&& forall|i: int, j: int|
        0 <= i < p.num_rows() && 0 <= j < p.num_cols() ==> #[trigger] p.at(i, j) as int
            == product_cell(a, b, i, j)
}

/// The work for one output cell: its row-major position and the row and
/// column whose dot product it holds.
pub struct Msginput {
    pub idx: usize,
    pub row: Vector,
    pub col: Vector,
}

/// The value computed for the output cell at position `idx`.
#[derive(Clone, Copy, Debug)]
pub struct Msgoutput {
    pub idx: usize,
    pub value: i64,
}

impl Msginput {
    pub fn new(idx: usize, row: Vector, col: Vector) -> (r: Self)
        ensures
            r.idx == idx,
            r.row@ == row@,
            r.col@ == col@,
    {
        Self { idx, row, col }
    }
}

impl Msgoutput {
    pub fn new(idx: usize, value: i64) -> (r: Self)
        ensures
            r.idx == idx,
            r.value == value,
    {
        Self { idx, value }
    }
}

/// A copy of row `i` of `a`.
fn row_view(a: &Matrix, i: usize) -> (r: Vector)
    requires
        a.wf(),
        i < a.num_rows(),
    ensures
        r@ == a.row_of(i as int),
{
    let mut v: Vec<i64> = Vec::new();
    let mut t: usize = 0;
    while t < a.cols
        invariant
            a.wf(),
            i < a.num_rows(),
            t <= a.cols,
            v@ == a.row_of(i as int).take(t as int),
        decreases a.cols - t,
    {
        v.push(a.get(i, t));
        t = t + 1;
        assert(v@ =~= a.row_of(i as int).take(t as int));
    }
    assert(v@ =~= a.row_of(i as int));
    Vector::new(v)
}

/// A copy of column `j` of `b`, taken with a stride of `b`'s width.
fn col_view(b: &Matrix, j: usize) -> (r: Vector)
    requires
        b.wf(),
        j < b.num_cols(),
    ensures
        r@ == b.col_of(j as int),
{
    let mut v: Vec<i64> = Vec::new();
    let mut t: usize = 0;
    while t < b.rows
        invariant
            b.wf(),
            j < b.num_cols(),
            t <= b.rows,
            v@ == b.col_of(j as int).take(t as int),
        decreases b.rows - t,
    {
        v.push(b.get(t, j));
        t = t + 1;
        assert(v@ =~= b.col_of(j as int).take(t as int));
    }
    assert(v@ =~= b.col_of(j as int));
    Vector::new(v)
}

/// The task for the output cell at row-major position `idx` of `a * b`.
pub fn make_task(a: &Matrix, b: &Matrix, idx: usize) -> (r: Msginput)
    requires
        a.wf(),
        b.wf(),
        idx < a.num_rows() * b.num_cols(),
    ensures
        r.idx == idx,
        r.row@ == a.row_of(idx as int / b.num_cols() as int),
        r.col@ == b.col_of(idx as int % b.num_cols() as int),
{
    proof {
        lemma_split_index(idx as int, a.rows as int, b.cols as int);
    }
    let i = idx / b.cols;
    let j = idx % b.cols;
    Msginput::new(idx, row_view(a, i), col_view(b, j))
}

/// The worker a task goes to: tasks are dealt out by position, in turn.
pub fn worker_of(idx: usize, workers: usize) -> (r: usize)
    requires
        workers > 0,
    ensures
        r == idx % workers,
        r < workers,
{
    idx % workers
}

/// What a worker does with one task: the dot product of its row and column,
/// tagged with the task's position.
pub fn run_task(msg: Msginput) -> (r: Result<Msgoutput, MatrixError>)
    ensures
        msg.row@.len() != msg.col@.len() ==> r == Err::<Msgoutput, MatrixError>(
            MatrixError::DimensionMismatch,
        ),
        msg.row@.len() == msg.col@.len() ==> (r is Ok <==> dot_fits(
            msg.row@,
            msg.col@,
            msg.row@.len(),
        )),
        msg.row@.len() == msg.col@.len() && !dot_fits(msg.row@, msg.col@, msg.row@.len()) ==> r
            == Err::<Msgoutput, MatrixError>(MatrixError::Overflow),
        r matches Ok(o) ==> o.idx == msg.idx && o.value == partial_dot(
            msg.row@,
            msg.col@,
            msg.row@.len(),
        ),
{
    let idx = msg.idx;
    match vector_point(msg.row, msg.col) {
        Ok(v) => Ok(Msgoutput::new(idx, v)),
        Err(e) => Err(e),
    }
}

/// Builds the `rows` by `cols` matrix from the replies collected in row-major
/// order; each reply must carry the position it was collected for.
pub fn assemble(rows: usize, cols: usize, replies: Vec<Msgoutput>) -> (r: Result<
    Matrix,
    MatrixError,
>)
    ensures
        r is Ok <==> (replies@.len() == rows * cols && forall|q: int|
            0 <= q < replies@.len() ==> #[trigger] replies@[q].idx == q),
        r is Err ==> r == Err::<Matrix, MatrixError>(MatrixError::WorkerFailure),
        r matches Ok(m) ==> m.wf() && m.num_rows() == rows && m.num_cols() == cols && forall|
            q: int,
        |
            0 <= q < replies@.len() ==> #[trigger] m.cells()[q] == replies@[q].value,
{
    let len = replies.len();
    let total = match rows.checked_mul(cols) {
        Some(t) => t,
        None => {
            return Err(MatrixError::WorkerFailure);
        },
    };
    if len != total {
        return Err(MatrixError::WorkerFailure);
    }
    let mut data: Vec<i64> = Vec::new();
    let mut q: usize = 0;
    while q < total
        invariant
            total == rows * cols,
            replies@.len() == total,
            q <= total,
            data@.len() == q,
            forall|p: int| 0 <= p < q ==> #[trigger] replies@[p].idx == p,
            forall|p: int| 0 <= p < q ==> #[trigger] data@[p] == replies@[p].value,
        decreases total - q,
    {
        let o = replies[q];
        if o.idx != q {
            return Err(MatrixError::WorkerFailure);
        }
        data.push(o.value);
        q = q + 1;
    }
    Ok(Matrix { data, rows, cols })
}

/// Multiplies `a` by `b`, dealing the output cells among `workers` workers
/// by position and gathering their replies in row-major order.
pub fn multiply_with_workers(a: &Matrix, b: &Matrix, workers: usize) -> (r: Result<
    Matrix,
    MatrixError,
>)
    requires
        a.wf(),
        b.wf(),
        workers > 0,
        a.num_rows() * b.num_cols() <= usize::MAX,
    ensures
        r == Err::<Matrix, MatrixError>(MatrixError::DimensionMismatch) <==> a.num_cols()
            != b.num_rows(),
        a.num_cols() == b.num_rows() ==> (r is Ok <==> product_fits(*a, *b)),
        a.num_cols() == b.num_rows() && !product_fits(*a, *b) ==> r == Err::<
            Matrix,
            MatrixError,
        >(MatrixError::Overflow),
        r matches Ok(p) ==> is_product(*a, *b, p),
{
    if a.cols != b.rows {
        return Err(MatrixError::DimensionMismatch);
    }
    let n = b.cols;
    let total = a.rows * n;
    let mut replies: Vec<Option<Msgoutput>> = Vec::new();
    let mut k: usize = 0;
    while k < total
        invariant
            k <= total,
            replies@.len() == k,
            forall|q: int| 0 <= q < k ==> #[trigger] replies@[q] is None,
        decreases total - k,
    {
        replies.push(None);
        k = k + 1;
    }
    let mut w: usize = 0;
    while w < workers
        invariant
            a.wf(),
            b.wf(),
            a.cols == b.rows,
            n == b.cols,
            total == a.rows * n,
            w <= workers,
            workers > 0,
            replies@.len() == total,
            forall|q: int| 0 <= q < total ==> (#[trigger] replies@[q] is Some <==> (q % (workers as int)) < w),
            forall|q: int|
                0 <= q < total && #[trigger] replies@[q] is Some ==> replies@[q]->Some_0.idx == q
                    && replies@[q]->Some_0.value == product_at(*a, *b, q) && fits_at(*a, *b, q),
        decreases workers - w,
    {
        let mut k: usize = 0;
        while k < total
            invariant
                a.wf(),
                b.wf(),
                a.cols == b.rows,
                n == b.cols,
                total == a.rows * n,
                w < workers,
                workers > 0,
                k <= total,
                replies@.len() == total,
                forall|q: int|
                    0 <= q < total ==> (#[trigger] replies@[q] is Some <==> ((q % (workers as int)) < w || ((q % (workers as int)) == w && q < k))),
                forall|q: int|
                    0 <= q < total && #[trigger] replies@[q] is Some ==> replies@[q]->Some_0.idx
                        == q && replies@[q]->Some_0.value == product_at(*a, *b, q) && fits_at(*a, *b, q),
            decreases total - k,
        {
            if worker_of(k, workers) == w {
                let task = make_task(a, b, k);
                proof {
                    lemma_split_index(k as int, a.rows as int, n as int);
                }
                match run_task(task) {
                    Ok(o) => {
                        replies.set(k, Some(o));
                    },
                    Err(e) => {
                        proof {
                            let i = k as int / n as int;
                            let j = k as int % n as int;
                            assert(!dot_fits(a.row_of(i), b.col_of(j), a.num_cols()));
                        }
                        return Err(e);
                    },
                }
            }
            k = k + 1;
        }
        w = w + 1;
    }
    let mut outs: Vec<Msgoutput> = Vec::new();
    let mut k: usize = 0;
    while k < total
        invariant
            k <= total,
            workers > 0,
            total == a.rows * n,
            replies@.len() == total,
            outs@.len() == k,
            forall|q: int| 0 <= q < total ==> (#[trigger] replies@[q] is Some <==> (q % (workers as int)) < workers),
            forall|q: int|
                0 <= q < total && #[trigger] replies@[q] is Some ==> replies@[q]->Some_0.idx == q
                    && replies@[q]->Some_0.value == product_at(*a, *b, q) && fits_at(*a, *b, q),
            forall|q: int|
                0 <= q < k ==> #[trigger] outs@[q] == replies@[q]->Some_0,
        decreases total - k,
    {
        proof {
            lemma_mod_pos_bound(k as int, workers as int);
        }
        match replies[k] {
            Some(o) => {
                outs.push(o);
            },
            None => {
                return Err(MatrixError::WorkerFailure);
            },
        }
        k = k + 1;
    }
    let ghost outs_view = outs@;
    let res = assemble(a.rows, n, outs);
    proof {
        assert forall|q: int| 0 <= q < outs_view.len() implies #[trigger] outs_view[q].idx == q by {
            lemma_mod_pos_bound(q, workers as int);
            assert(replies@[q] is Some);
        }
        assert forall|i: int, j: int|
            0 <= i < a.num_rows() && 0 <= j < b.num_cols() implies #[trigger] dot_fits(
            a.row_of(i),
            b.col_of(j),
            a.num_cols(),
        ) by {
            lemma_cell_index(i, j, a.rows as int, n as int);
            lemma_mod_pos_bound(i * n + j, workers as int);
            assert(replies@[i * n + j] is Some);
        }
    }
    match res {
        Ok(p) => {
            proof {
                assert forall|i: int, j: int|
                    0 <= i < p.num_rows() && 0 <= j < p.num_cols() implies #[trigger] p.at(i, j)
                    as int == product_cell(*a, *b, i, j) by {
                    lemma_cell_index(i, j, a.rows as int, n as int);
                    lemma_mod_pos_bound(i * n + j, workers as int);
                    assert(replies@[i * n + j] is Some);
                    assert(p.cells()[i * n + j] == outs_view[i * n + j].value);
                }
            }
            Ok(p)
        },
        Err(e) => Err(e),
    }
}

/// Multiplies `a` by `b` with the cells dealt among `NUMBER_THREADS` workers.
pub fn multiply(a: &Matrix, b: &Matrix) -> (r: Result<Matrix, MatrixError>)
    requires
        a.wf(),
        b.wf(),
        a.num_rows() * b.num_cols() <= usize::MAX,
    ensures
        r == Err::<Matrix, MatrixError>(MatrixError::DimensionMismatch) <==> a.num_cols()
            != b.num_rows(),
        a.num_cols() == b.num_rows() ==> (r is Ok <==> product_fits(*a, *b)),
        a.num_cols() == b.num_rows() && !product_fits(*a, *b) ==> r == Err::<
            Matrix,
            MatrixError,
        >(MatrixError::Overflow),
        r matches Ok(p) ==> is_product(*a, *b, p),
{
    multiply_with_workers(a, b, NUMBER_THREADS)
}

} // verus!
