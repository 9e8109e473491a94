use crate::error::MatrixError;
use vstd::prelude::*;

verus! {

/// Whether an integer can be held in an `i64`.
pub open spec fn in_i64(x: int) -> bool {
    i64::MIN <= x <= i64::MAX
}

/// The sum of the first `n` elementwise products of `a` and `b`.
pub open spec fn partial_dot(a: Seq<i64>, b: Seq<i64>, n: nat) -> int
    decreases n,
{
    if n == 0 {
        0
    } else {
        partial_dot(a, b, (n - 1) as nat) + a[n - 1] * b[n - 1]
    }
}

/// Whether the first `n` terms of the dot product of `a` and `b` can be
/// accumulated in `i64`: every product and every running sum fits.
pub open spec fn dot_fits(a: Seq<i64>, b: Seq<i64>, n: nat) -> bool
    decreases n,
{
    n == 0 || (dot_fits(a, b, (n - 1) as nat) && in_i64(a[n - 1] * b[n - 1]) && in_i64(
        partial_dot(a, b, n),
    ))
}

/// A shorter prefix of a dot product that fits also fits.
pub proof fn lemma_dot_fits_prefix(a: Seq<i64>, b: Seq<i64>, m: nat, n: nat)
    requires
        m <= n,
        dot_fits(a, b, n),
    ensures
        dot_fits(a, b, m),
    decreases n,
{
    if m < n {
        lemma_dot_fits_prefix(a, b, m, (n - 1) as nat);
    }
}

/// An owned sequence of elements copied out of a matrix row or column.
pub struct Vector {
    data: Vec<i64>,
}

impl View for Vector {
    type V = Seq<i64>;

    closed spec fn view(&self) -> Seq<i64> {
        self.data@
    }
}

impl Vector {
    pub fn new(data: Vec<i64>) -> (r: Self)
        ensures
            r@ == data@,
    {
        Self { data }
    }

    pub fn len(&self) -> (r: usize)
        ensures
            r == self@.len(),
    {
        self.data.len()
    }

    pub fn get(&self, i: usize) -> (r: i64)
        requires
            i < self@.len(),
        ensures
            r == self@[i as int],
    {
        self.data[i]
    }
}

/// The dot product of two vectors of equal length.
pub fn vector_point(a: Vector, b: Vector) -> (r: Result<i64, MatrixError>)
    ensures
        a@.len() != b@.len() ==> r == Err::<i64, MatrixError>(MatrixError::DimensionMismatch),
        a@.len() == b@.len() ==> (r is Ok <==> dot_fits(a@, b@, a@.len())),
        a@.len() == b@.len() && !dot_fits(a@, b@, a@.len()) ==> r == Err::<i64, MatrixError>(
            MatrixError::Overflow,
        ),
        r matches Ok(v) ==> v == partial_dot(a@, b@, a@.len()),
{
    if a.len() != b.len() {
        return Err(MatrixError::DimensionMismatch);
    }
    let n = a.len();
    let mut sum: i64 = 0;
    let mut i: usize = 0;
    while i < n
        invariant
            n == a@.len(),
            n == b@.len(),
            i <= n,
            dot_fits(a@, b@, i as nat),
            sum == partial_dot(a@, b@, i as nat),
        decreases n - i,
    {
        let x = a.get(i);
        let y = b.get(i);
        let p = match x.checked_mul(y) {
            Some(p) => p,
            None => {
                proof {
                    lemma_not_fits_beyond(a@, b@, (i + 1) as nat, n as nat);
                }
                return Err(MatrixError::Overflow);
            },
        };
        match sum.checked_add(p) {
            Some(s) => {
                sum = s;
            },
            None => {
                proof {
                    lemma_not_fits_beyond(a@, b@, (i + 1) as nat, n as nat);
                }
                return Err(MatrixError::Overflow);
            },
        }
        i = i + 1;
    }
    Ok(sum)
}

proof fn lemma_not_fits_beyond(a: Seq<i64>, b: Seq<i64>, m: nat, n: nat)
    requires
        m <= n,
        !dot_fits(a, b, m),
    ensures
        !dot_fits(a, b, n),
{
    if dot_fits(a, b, n) {
        lemma_dot_fits_prefix(a, b, m, n);
    }
}

} // verus!
