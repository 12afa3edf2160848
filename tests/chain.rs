use matrix_chain::cmd::Mode;
use matrix_chain::element::Element;
use matrix_chain::par::config::{Config, WorkSize};
use matrix_chain::par::{KernelGeometry, NewExecutorError};
use matrix_chain::solver::{MemoRun, NaiveRun};
use matrix_chain::task::{Matrix, ShapeError, Solution, Task};
use matrix_chain::util::sqrt;

#[derive(Clone, Copy, Debug, PartialEq)]
struct F32(f32);

impl Element for F32 {
    fn spec_zero() -> F32 {
        F32(0.0)
    }

    fn spec_accumulate(acc: F32, x: F32, y: F32) -> F32 {
        F32(acc.0 + x.0 * y.0)
    }

    fn zero() -> F32 {
        F32(0.0)
    }

    fn accumulate(acc: F32, x: F32, y: F32) -> F32 {
        F32(acc.0 + x.0 * y.0)
    }
}

fn m(values: &[u64]) -> Matrix<u64> {
    Matrix::from_vec(values.to_vec()).unwrap()
}

fn values<T: Copy>(matrix: &Matrix<T>) -> Vec<T> {
    matrix.as_slice().to_vec()
}

fn rows(solution: &Solution<u64>) -> Vec<Vec<u64>> {
    solution.0.iter().map(values).collect()
}

fn sample_task(len: usize) -> Task<u64> {
    let matrices = (0..len)
        .map(|i| {
            let i = i as u64;
            m(&[i + 1, 2 * i + 3, i + 2, 3 * i + 1])
        })
        .collect();
    Task::from_vec(matrices).unwrap()
}

#[test]
fn seq_simple_2x2() {
    let a = Matrix::from_vec(vec![F32(1.), F32(3.), F32(2.), F32(4.)]).unwrap();
    let b = Matrix::from_vec(vec![F32(5.), F32(7.), F32(6.), F32(8.)]).unwrap();

    assert_eq!(
        values(&matrix_chain::seq::multiply(&a, &b)),
        values(&Matrix::from_vec(vec![F32(19.), F32(43.), F32(22.), F32(50.)]).unwrap()),
    );
}

#[test]
fn parses() {
    let defaults = ["1", "2", "3", "4", "5", "6", "7", "8"];
    let expected = [
        Mode::CpuSingleThreaded,
        Mode::CpuMultiThreaded,
        Mode::GpuNaive1,
        Mode::GpuNaive2,
        Mode::GpuNaive3,
        Mode::GpuMem1,
        Mode::GpuMem2,
        Mode::GpuMem3,
    ];
    for (name, mode) in defaults.iter().zip(expected.iter()) {
        assert_eq!(Mode::parse(name), Some(*mode));
    }
    let short = ["c1", "CM", "gn1", "Gn2", "GN3", "gm1", "gM2", "GM3"];
    for (name, mode) in short.iter().zip(expected.iter()) {
        assert_eq!(Mode::parse(name), Some(*mode));
    }
    assert_eq!(Mode::parse("9"), None);
    assert_eq!(Mode::parse("gn"), None);
    assert_eq!(Mode::parse(""), None);
    assert_eq!(Mode::parse("c1 "), None);
}

#[test]
fn integer_simple_2x2() {
    let a = m(&[1, 3, 2, 4]);
    let b = m(&[5, 7, 6, 8]);
    assert_eq!(values(&matrix_chain::seq::multiply(&a, &b)), vec![19, 43, 22, 50]);
}

#[test]
fn signed_3x3() {
    let a = Matrix::from_vec(vec![1i64, -2, 0, 4, 1, -1, 2, 0, 3]).unwrap();
    let b = Matrix::from_vec(vec![0i64, 1, -1, 2, 2, 0, -3, 1, 1]).unwrap();
    // a = [[1, 4, 2], [-2, 1, 0], [0, -1, 3]], b = [[0, 2, -3], [1, 2, 1], [-1, 0, 1]]
    // a·b = [[2, 10, 3], [1, -2, 7], [-4, -2, 2]]
    assert_eq!(values(&matrix_chain::seq::multiply(&a, &b)), vec![2, 1, -4, 10, -2, -2, 3, 7, 2]);
}

#[test]
fn multiply_wraps_around() {
    let a = m(&[u64::MAX]);
    let b = m(&[2]);
    assert_eq!(values(&matrix_chain::seq::multiply(&a, &b)), vec![u64::MAX - 1]);
}

#[test]
fn sqrt_values() {
    assert_eq!(sqrt(0), 0);
    assert_eq!(sqrt(1), 1);
    assert_eq!(sqrt(2), 1);
    assert_eq!(sqrt(3), 1);
    assert_eq!(sqrt(4), 2);
    assert_eq!(sqrt(15), 3);
    assert_eq!(sqrt(16), 4);
    assert_eq!(sqrt(17), 4);
    assert_eq!(sqrt(1 << 40), 1 << 20);
    assert_eq!(sqrt(usize::MAX), (1usize << (usize::BITS / 2)) - 1);
}

#[test]
fn matrix_shape() {
    let a = m(&[1, 2, 3, 4, 5, 6, 7, 8, 9]);
    assert_eq!(a.n(), 3);
    assert_eq!(a.len(), 9);
    assert_eq!(*a.get(5), 6);
    let mut b = a.duplicate();
    b.set(5, 60);
    assert_eq!(*b.get(5), 60);
    assert_eq!(*a.get(5), 6);
    let empty = Matrix::<u64>::from_vec(vec![]).unwrap();
    assert_eq!(empty.n(), 0);
}

#[test]
fn not_square_buffer_is_refused() {
    assert_eq!(Matrix::from_vec(vec![1u64, 2, 3]).unwrap_err(), ShapeError::NotSquare(3));
    assert_eq!(Matrix::from_vec(vec![0u64; 8]).unwrap_err(), ShapeError::NotSquare(8));
}

#[test]
fn task_dimension_mismatch_is_refused() {
    let two = || m(&[1, 2, 3, 4]);
    let three = m(&[1, 2, 3, 4, 5, 6, 7, 8, 9]);
    assert_eq!(
        Task::from_vec(vec![two(), two(), three]).unwrap_err(),
        ShapeError::DimensionMismatch(2)
    );
    assert_eq!(Task::<u64>::from_vec(vec![]).unwrap_err(), ShapeError::Empty);
    let task = Task::from_vec(vec![two(), two()]).unwrap();
    assert_eq!(task.n(), 2);
    assert_eq!(task.matrices().len(), 2);
}

#[test]
fn rotations_keep_order() {
    let a = m(&[1, 3, 2, 4]);
    let b = m(&[5, 7, 6, 8]);
    let c = m(&[9, 11, 10, 12]);
    let task = Task::from_vec(vec![a.duplicate(), b.duplicate(), c.duplicate()]).unwrap();
    let abc = matrix_chain::seq::multiply(&matrix_chain::seq::multiply(&a, &b), &c);
    let bca = matrix_chain::seq::multiply(&matrix_chain::seq::multiply(&b, &c), &a);
    let cab = matrix_chain::seq::multiply(&matrix_chain::seq::multiply(&c, &a), &b);
    let solution = matrix_chain::seq::solve(&task);
    assert_eq!(solution.len(), 3);
    assert_eq!(values(solution.get(0)), values(&abc));
    assert_eq!(values(solution.get(1)), values(&bca));
    assert_eq!(values(solution.get(2)), values(&cab));
    assert_ne!(values(&abc), values(&bca));
    // [[1,2],[3,4]]·[[5,6],[7,8]]·[[9,10],[11,12]] = [[19,22],[43,50]]·[[9,10],[11,12]]
    assert_eq!(values(&abc), vec![413, 937, 454, 1030]);
}

#[test]
fn single_matrix_task() {
    let task = Task::from_vec(vec![m(&[1, 3, 2, 4])]).unwrap();
    assert_eq!(rows(&matrix_chain::seq::solve(&task)), vec![vec![1, 3, 2, 4]]);
    assert_eq!(rows(&matrix_chain::seq::solve_par(&task)), vec![vec![1, 3, 2, 4]]);
    assert_eq!(rows(&matrix_chain::seq::solve_memoizing(&task)), vec![vec![1, 3, 2, 4]]);
}

#[test]
fn naive_and_memoizing_agree() {
    for len in 1..=6 {
        let task = sample_task(len);
        let naive = matrix_chain::seq::solve(&task);
        let memo = matrix_chain::seq::solve_memoizing(&task);
        assert_eq!(naive.len(), len);
        assert_eq!(rows(&naive), rows(&memo));
    }
}

#[test]
fn parallel_matches_serial() {
    for len in 1..=6 {
        let task = sample_task(len);
        assert_eq!(rows(&matrix_chain::seq::solve(&task)), rows(&matrix_chain::seq::solve_par(&task)));
    }
    let task = sample_task(3);
    let solution = matrix_chain::seq::solve_par(&task);
    // entry 1 starts at the second matrix
    let expected = matrix_chain::seq::multiply(
        &matrix_chain::seq::multiply(&task.matrices()[1], &task.matrices()[2]),
        &task.matrices()[0],
    );
    assert_eq!(values(solution.get(1)), values(&expected));
}

#[test]
fn multiply_all_chains_left_to_right() {
    assert!(matrix_chain::seq::multiply_all::<u64>(vec![]).is_none());
    let a = m(&[1, 3, 2, 4]);
    let b = m(&[5, 7, 6, 8]);
    let c = m(&[9, 11, 10, 12]);
    let all = matrix_chain::seq::multiply_all(vec![a.duplicate(), b.duplicate(), c.duplicate()]).unwrap();
    assert_eq!(values(&all), vec![413, 937, 454, 1030]);
    let one = matrix_chain::seq::multiply_all(vec![a]).unwrap();
    assert_eq!(values(&one), vec![1, 3, 2, 4]);
}

#[test]
fn identity_law() {
    let identity = m(&[1, 0, 0, 0, 1, 0, 0, 0, 1]);
    let a = m(&[3, 1, 4, 1, 5, 9, 2, 6, 5]);
    assert_eq!(values(&matrix_chain::seq::multiply(&a, &identity)), values(&a));
    assert_eq!(values(&matrix_chain::seq::multiply(&identity, &a)), values(&a));
}

#[test]
fn associativity_on_integers() {
    let a = m(&[3, 1, 4, 1, 5, 9, 2, 6, 5]);
    let b = m(&[2, 7, 1, 8, 2, 8, 1, 8, 2]);
    let c = m(&[1, 4, 1, 4, 2, 1, 3, 5, 6]);
    let left = matrix_chain::seq::multiply(&matrix_chain::seq::multiply(&a, &b), &c);
    let right = matrix_chain::seq::multiply(&a, &matrix_chain::seq::multiply(&b, &c));
    assert_eq!(values(&left), values(&right));
}

#[test]
fn float_products_agree_within_tolerance() {
    let f = |v: &[f32]| Matrix::from_vec(v.iter().map(|x| F32(*x)).collect()).unwrap();
    let a = f(&[0.1, 0.7, 0.3, 0.9]);
    let b = f(&[0.5, 0.2, 0.8, 0.4]);
    let c = f(&[0.6, 0.3, 0.1, 0.2]);
    let left = matrix_chain::seq::multiply(&matrix_chain::seq::multiply(&a, &b), &c);
    let right = matrix_chain::seq::multiply(&a, &matrix_chain::seq::multiply(&b, &c));
    for (x, y) in values(&left).iter().zip(values(&right).iter()) {
        assert!((x.0 - y.0).abs() < 1e-5);
    }
    let task = Task::from_vec(vec![a, b, c]).unwrap();
    let naive = matrix_chain::seq::solve(&task);
    let memo = matrix_chain::seq::solve_memoizing(&task);
    for i in 0..3 {
        for (x, y) in values(naive.get(i)).iter().zip(values(memo.get(i)).iter()) {
            assert!((x.0 - y.0).abs() < 1e-5);
        }
    }
}

#[test]
fn repeated_multiply_is_identical() {
    let a = m(&[1, 3, 2, 4]);
    let b = m(&[5, 7, 6, 8]);
    let first = matrix_chain::seq::multiply(&a, &b);
    let second = matrix_chain::seq::multiply(&a, &b);
    assert_eq!(values(&first), values(&second));
}

#[test]
fn unsupported_dimension_is_refused() {
    let config = Config::tiled_multi("");
    match KernelGeometry::new(15, config.work_size()) {
        Err(NewExecutorError::UnsupportedSize(16, 15)) => {}
        other => panic!("unexpected {:?}", other),
    }
    match KernelGeometry::new(12, Config::tiled("").work_size()) {
        Err(NewExecutorError::UnsupportedSize(8, 12)) => {}
        other => panic!("unexpected {:?}", other),
    }
    assert!(KernelGeometry::new(15, Config::naive("").work_size()).is_ok());
}

#[test]
fn oversized_dimensions_are_refused() {
    let work_size = Config::naive("").work_size();
    match KernelGeometry::new(usize::MAX, work_size) {
        Err(NewExecutorError::TooBig(n)) => assert_eq!(n, usize::MAX),
        other => panic!("unexpected {:?}", other),
    }
    let n = (i32::MAX as usize) + 1;
    if n.checked_mul(n).is_some() {
        match KernelGeometry::new(n, work_size) {
            Err(NewExecutorError::InconvertibleN(m)) => assert_eq!(m, n),
            other => panic!("unexpected {:?}", other),
        }
    }
}

#[test]
fn geometry_of_a_dispatch() {
    let g = KernelGeometry::new(32, Config::tiled_multi("").work_size()).unwrap();
    assert_eq!(g.n(), 32);
    assert_eq!(g.n_int(), 32);
    assert_eq!(g.buffer_size(), 1024);
    assert_eq!(g.global_work_sizes(), (32, 8));
    assert_eq!(g.local_work_sizes(), Some((16, 4)));
    let g = KernelGeometry::new(5, Config::naive("").work_size()).unwrap();
    assert_eq!(g.global_work_sizes(), (5, 5));
    assert_eq!(g.local_work_sizes(), None);
}

#[test]
fn work_sizes_are_positive() {
    assert!(WorkSize::new(Some(0), 1).is_none());
    assert!(WorkSize::new(None, 0).is_none());
    let w = WorkSize::new(Some(4), 2).unwrap();
    assert_eq!(w.local(), Some(4));
    assert_eq!(w.per_thread(), 2);
    let c = Config::new("kernel", w);
    assert_eq!(c.src(), "kernel");
    assert_eq!(c.work_size().local(), Some(4));
}

#[test]
fn naive_run_step_count() {
    for len in 1..=6 {
        let task = sample_task(len);
        let mut run = NaiveRun::new(&task);
        let mut steps = 0;
        while let Some((a, b)) = run.next(&task) {
            let c = matrix_chain::seq::multiply(a, b);
            run.deliver(&task, c);
            steps += 1;
        }
        assert_eq!(steps, len * (len - 1));
        assert_eq!(rows(&run.finish(&task)), rows(&matrix_chain::seq::solve(&task)));
    }
}

#[test]
fn memo_run_step_count() {
    for len in 1..=6 {
        let task = sample_task(len);
        let mut run = MemoRun::new(&task);
        let mut steps = 0;
        while let Some((a, b)) = run.next(&task) {
            let c = matrix_chain::seq::multiply(a, b);
            run.deliver(&task, c);
            steps += 1;
        }
        let expected = if len >= 2 { 3 * len - 4 } else { 0 };
        assert_eq!(steps, expected);
        assert_eq!(rows(&run.finish(&task)), rows(&matrix_chain::seq::solve(&task)));
    }
}

#[test]
fn memo_run_operand_order() {
    // With a product that keeps the left operand's first entry and adds the right
    // operand's, the runs show which operands they multiply, and in which order.
    let task = Task::from_vec((0..4u64).map(|i| m(&[10u64.pow(i as u32)])).collect()).unwrap();
    let mut run = MemoRun::new(&task);
    let mut seen = vec![];
    while let Some((a, b)) = run.next(&task) {
        seen.push((*a.get(0), *b.get(0)));
        let c = m(&[*a.get(0) + *b.get(0)]);
        run.deliver(&task, c);
    }
    assert_eq!(
        seen,
        vec![(1, 10), (11, 100), (111, 1000), (100, 1000), (10, 1100), (1110, 1), (1100, 11), (1000, 111)]
    );
    assert_eq!(rows(&run.finish(&task)), vec![vec![1111]; 4]);
}

#[test]
fn exact_laws_hold_across_wrapping() {
    let big = u64::MAX - 6;
    let a = m(&[big, 3, big / 3, 7]);
    let b = m(&[5, big - 1, 11, big / 5]);
    let c = m(&[big / 7, 2, 13, big]);
    let left = matrix_chain::seq::multiply(&matrix_chain::seq::multiply(&a, &b), &c);
    let right = matrix_chain::seq::multiply(&a, &matrix_chain::seq::multiply(&b, &c));
    assert_eq!(values(&left), values(&right));
    let task = Task::from_vec(vec![a, b, c]).unwrap();
    assert_eq!(
        rows(&matrix_chain::seq::solve(&task)),
        rows(&matrix_chain::seq::solve_memoizing(&task))
    );
}
