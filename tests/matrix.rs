use concurrency::matrix::{assemble, make_task, multiply_with_workers, run_task, worker_of};
use concurrency::{multiply, vector_point, Matrix, MatrixError, Msgoutput, Vector};

fn naive(a: &[i64], b: &[i64], m: usize, k: usize, n: usize) -> Vec<i64> {
    let mut out = vec![0i64; m * n];
    for i in 0..m {
        for j in 0..n {
            let mut s = 0i64;
            for t in 0..k {
                s += a[i * k + t] * b[t * n + j];
            }
            out[i * n + j] = s;
        }
    }
    out
}

fn cells(m: &Matrix) -> Vec<i64> {
    let mut v = Vec::new();
    for i in 0..m.rows() {
        for j in 0..m.cols() {
            v.push(m.get(i, j));
        }
    }
    v
}

struct Lcg(u64);

impl Lcg {
    fn next(&mut self) -> u64 {
        self.0 = self.0.wrapping_mul(6364136223846793005).wrapping_add(1442695040888963407);
        self.0 >> 33
    }
}

#[test]
fn test_matrix_2x2() {
    let a = Matrix::new(vec![1, 2, 3, 4], 2, 2);
    let b = Matrix::new(vec![5, 6, 7, 8], 2, 2);
    let c = multiply(&a, &b).unwrap();
    assert_eq!(c.to_string(), "{{19, 22}, {43, 50}}");
}

#[test]
fn test_matrix_2x3() {
    let a = Matrix::new(vec![1, 2, 3, 4, 5, 6], 2, 3);
    let b = Matrix::new(vec![10, 11, 20, 21, 30, 31], 3, 2);
    let c = multiply(&a, &b).unwrap();
    assert_eq!(c.to_string(), "{{140, 146}, {320, 335}}");
}

#[test]
#[should_panic]
fn test_matrix_not_square() {
    let a = Matrix::new(vec![1, 2, 3, 4, 5, 6], 2, 3);
    let b = Matrix::new(vec![10, 11, 20, 21], 2, 2);
    let _c = multiply(&a, &b).unwrap();
}

#[test]
fn shape_mismatch_is_reported() {
    let a = Matrix::new(vec![1, 2, 3, 4, 5, 6], 2, 3);
    let b = Matrix::new(vec![10, 11, 20, 21], 2, 2);
    assert!(matches!(multiply(&a, &b), Err(MatrixError::DimensionMismatch)));
}

#[test]
fn single_element_product() {
    let a = Matrix::new(vec![-7], 1, 1);
    let b = Matrix::new(vec![6], 1, 1);
    let c = multiply(&a, &b).unwrap();
    assert_eq!(c.rows(), 1);
    assert_eq!(c.cols(), 1);
    assert_eq!(c.get(0, 0), -42);
    assert_eq!(c.to_string(), "{{-42}}");
}

#[test]
fn overflow_is_reported() {
    let a = Matrix::new(vec![i64::MAX, 1], 1, 2);
    let b = Matrix::new(vec![1, 1], 2, 1);
    assert!(matches!(multiply(&a, &b), Err(MatrixError::Overflow)));
    let c = Matrix::new(vec![i64::MAX], 1, 1);
    let d = Matrix::new(vec![2], 1, 1);
    assert!(matches!(multiply(&c, &d), Err(MatrixError::Overflow)));
}

#[test]
fn sums_that_return_into_range_still_overflow() {
    let a = Matrix::new(vec![i64::MAX, 1, -1], 1, 3);
    let b = Matrix::new(vec![1, 1, 1], 3, 1);
    assert!(matches!(multiply(&a, &b), Err(MatrixError::Overflow)));
}

#[test]
fn largest_values_that_fit() {
    let a = Matrix::new(vec![i64::MAX - 1, 1], 1, 2);
    let b = Matrix::new(vec![1, 1], 2, 1);
    assert_eq!(multiply(&a, &b).unwrap().get(0, 0), i64::MAX);
    let c = Matrix::new(vec![i64::MIN], 1, 1);
    let d = Matrix::new(vec![1], 1, 1);
    assert_eq!(multiply(&c, &d).unwrap().to_string(), "{{-9223372036854775808}}");
}

#[test]
fn identity_leaves_matrix_unchanged() {
    let a = Matrix::new(vec![1, -2, 3, 4, 5, -6], 2, 3);
    let right = Matrix::new(vec![1, 0, 0, 0, 1, 0, 0, 0, 1], 3, 3);
    let left = Matrix::new(vec![1, 0, 0, 1], 2, 2);
    assert_eq!(cells(&multiply(&a, &right).unwrap()), vec![1, -2, 3, 4, 5, -6]);
    assert_eq!(cells(&multiply(&left, &a).unwrap()), vec![1, -2, 3, 4, 5, -6]);
}

#[test]
fn multiplication_is_associative() {
    let a = Matrix::new(vec![1, 2, 3, 4, 5, 6], 2, 3);
    let b = Matrix::new(vec![1, 0, -1, 2, 3, 1], 3, 2);
    let c = Matrix::new(vec![2, -1, 0, 4, 1, 1, 5, -2], 2, 4);
    let ab_c = multiply(&multiply(&a, &b).unwrap(), &c).unwrap();
    let a_bc = multiply(&a, &multiply(&b, &c).unwrap()).unwrap();
    assert_eq!(ab_c.to_string(), a_bc.to_string());
    assert_eq!(ab_c.rows(), 2);
    assert_eq!(ab_c.cols(), 4);
}

#[test]
fn repeated_multiplication_is_identical() {
    let a = Matrix::new(vec![3, 1, 4, 1, 5, 9, 2, 6, 5], 3, 3);
    let b = Matrix::new(vec![2, 7, 1, 8, 2, 8, 1, 8, 2], 3, 3);
    let first = multiply(&a, &b).unwrap();
    for _ in 0..5 {
        let again = multiply(&a, &b).unwrap();
        assert_eq!(cells(&again), cells(&first));
    }
}

#[test]
fn worker_count_does_not_change_the_result() {
    let a = Matrix::new(vec![1, 2, 3, 4, 5, 6], 2, 3);
    let b = Matrix::new(vec![10, 11, 20, 21, 30, 31], 3, 2);
    for workers in 1..9 {
        let c = multiply_with_workers(&a, &b, workers).unwrap();
        assert_eq!(cells(&c), vec![140, 146, 320, 335]);
    }
}

#[test]
fn random_products_match_naive_loops() {
    let mut rng = Lcg(42);
    for _ in 0..30 {
        let m = (rng.next() % 12 + 1) as usize;
        let k = (rng.next() % 12 + 1) as usize;
        let n = (rng.next() % 12 + 1) as usize;
        let av: Vec<i64> = (0..m * k).map(|_| rng.next() as i64 % 2001 - 1000).collect();
        let bv: Vec<i64> = (0..k * n).map(|_| rng.next() as i64 % 2001 - 1000).collect();
        let a = Matrix::new(av.clone(), m, k);
        let b = Matrix::new(bv.clone(), k, n);
        let c = multiply(&a, &b).unwrap();
        assert_eq!(cells(&c), naive(&av, &bv, m, k, n));
    }
}

#[test]
fn large_random_product_matches_naive_loops() {
    let mut rng = Lcg(7);
    let n = 50;
    let av: Vec<i64> = (0..n * n).map(|_| rng.next() as i64 % 201 - 100).collect();
    let bv: Vec<i64> = (0..n * n).map(|_| rng.next() as i64 % 201 - 100).collect();
    let c = multiply(&Matrix::new(av.clone(), n, n), &Matrix::new(bv.clone(), n, n)).unwrap();
    assert_eq!(cells(&c), naive(&av, &bv, n, n, n));
}

#[test]
fn rendering_of_edge_shapes() {
    assert_eq!(Matrix::new(vec![], 0, 3).to_string(), "{}");
    assert_eq!(Matrix::new(vec![], 2, 0).to_string(), "{{}, {}}");
    assert_eq!(Matrix::new(vec![0, -10, 1234567], 3, 1).to_string(), "{{0}, {-10}, {1234567}}");
}

#[test]
fn empty_inner_dimension_gives_zeros() {
    let a = Matrix::new(vec![], 2, 0);
    let b = Matrix::new(vec![], 0, 3);
    let c = multiply(&a, &b).unwrap();
    assert_eq!(c.to_string(), "{{0, 0, 0}, {0, 0, 0}}");
}

#[test]
fn dot_product_of_vectors() {
    let v = vector_point(Vector::new(vec![1, 2, 3]), Vector::new(vec![4, -5, 6])).unwrap();
    assert_eq!(v, 12);
    assert_eq!(vector_point(Vector::new(vec![]), Vector::new(vec![])).unwrap(), 0);
}

#[test]
fn dot_product_length_mismatch() {
    let r = vector_point(Vector::new(vec![1, 2]), Vector::new(vec![1]));
    assert!(matches!(r, Err(MatrixError::DimensionMismatch)));
}

#[test]
fn tasks_carry_their_row_and_column() {
    let a = Matrix::new(vec![1, 2, 3, 4, 5, 6], 2, 3);
    let b = Matrix::new(vec![10, 11, 20, 21, 30, 31], 3, 2);
    let t = make_task(&a, &b, 3);
    assert_eq!(t.idx, 3);
    assert_eq!((t.row.get(0), t.row.get(1), t.row.get(2)), (4, 5, 6));
    assert_eq!((t.col.get(0), t.col.get(1), t.col.get(2)), (11, 21, 31));
    let o = run_task(t).unwrap();
    assert_eq!((o.idx, o.value), (3, 335));
}

#[test]
fn tasks_are_dealt_in_turn() {
    assert_eq!(worker_of(0, 4), 0);
    assert_eq!(worker_of(5, 4), 1);
    assert_eq!(worker_of(11, 4), 3);
}

#[test]
fn assembly_checks_positions() {
    let good = vec![Msgoutput::new(0, 7), Msgoutput::new(1, 8)];
    assert_eq!(assemble(1, 2, good).unwrap().to_string(), "{{7, 8}}");
    let swapped = vec![Msgoutput::new(1, 8), Msgoutput::new(0, 7)];
    assert!(matches!(assemble(1, 2, swapped), Err(MatrixError::WorkerFailure)));
    let short = vec![Msgoutput::new(0, 7)];
    assert!(matches!(assemble(1, 2, short), Err(MatrixError::WorkerFailure)));
}
