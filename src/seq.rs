use vstd::prelude::*;

use rayon::iter::{IntoParallelIterator, ParallelIterator};

use crate::element::Element;
use crate::solver::{chain, follows, memo_entry, rotation, wrapped_index, MemoRun, NaiveRun};
use crate::task::{Matrix, Solution, Task};

verus! {

/// `Σ_{k < len} a[row, k] * b[k, col]` for column-major `n × n` buffers,
/// accumulated from zero in increasing `k`.
pub open spec fn dot<T: Element>(n: nat, a: Seq<T>, b: Seq<T>, row: nat, col: nat, len: nat) -> T
    decreases len,
{
    if len == 0 {
        T::spec_zero()
    } else {
        let k = (len - 1) as nat;
        T::spec_accumulate(dot(n, a, b, row, col, k), a[(k * n + row) as int], b[(col * n + k) as int])
    }
}

/// The product `a · b` of column-major `n × n` buffers.
pub open spec fn matrix_product<T: Element>(n: nat, a: Seq<T>, b: Seq<T>) -> Seq<T> {
    Seq::new(n * n, |i: int| dot(n, a, b, (i % n as int) as nat, (i / n as int) as nat, n))
}

/// `x * n + y < n * n` for `x, y < n`.
pub proof fn lemma_flat_index(n: nat, x: nat, y: nat)
    requires
        x < n,
        y < n,
    ensures
        x * n + y < n * n,
{
    assert(x * n + y < n * n) by (nonlinear_arith)
        requires x < n, y < n;
}

/// The product of two matrices of one dimension, by a triple loop.
pub fn multiply<T: Element>(a: &Matrix<T>, b: &Matrix<T>) -> (c: Matrix<T>)
    requires
        a.wf(),
        b.wf(),
        a.dim() == b.dim(),
    ensures
        c.wf(),
        c.dim() == a.dim(),
        c@ == matrix_product(a.dim(), a@, b@),
{
    let n = a.n();
    let ghost nn = n as nat;
    let a = a.as_slice();
    let b = b.as_slice();
    let len = a.len();

    let mut c: Vec<T> = Vec::with_capacity(len);
    let mut i: usize = 0;
    while i < len
        invariant
            i <= len,
            c@.len() == i,
        decreases len - i,
    {
        c.push(T::zero());
        i = i + 1;
    }

    let mut row: usize = 0;
    while row < n
        invariant
            row <= n,
            len == n * n,
            nn == n,
            a@.len() == len,
            b@.len() == len,
            c@.len() == len,
            forall|r: nat, col: nat|
                r < row && col < n ==> #[trigger] c@[(col * nn + r) as int] == dot(nn, a@, b@, r, col, nn),
        decreases n - row,
    {
        let mut column: usize = 0;
        while column < n
            invariant
                row < n,
                column <= n,
                len == n * n,
                nn == n,
            nn == n,
                a@.len() == len,
                b@.len() == len,
                c@.len() == len,
                forall|r: nat, col: nat|
                    (r < row && col < n) || (r == row && col < column)
                        ==> #[trigger] c@[(col * nn + r) as int] == dot(nn, a@, b@, r, col, nn),
            decreases n - column,
        {
            let mut value = T::zero();
            let mut k: usize = 0;
            while k < n
                invariant
                    row < n,
                    column < n,
                    k <= n,
                    len == n * n,
                    nn == n,
                nn == n,
            nn == n,
                    a@.len() == len,
                    b@.len() == len,
                    value == dot(nn, a@, b@, row as nat, column as nat, k as nat),
                decreases n - k,
            {
                proof {
                    lemma_flat_index(nn, k as nat, row as nat);
                    lemma_flat_index(nn, column as nat, k as nat);
                }
                value = T::accumulate(value, a[k * n + row], b[column * n + k]);
                k = k + 1;
            }
            proof {
                lemma_flat_index(nn, column as nat, row as nat);
            }
            let ghost before = c@;
            c.set(column * n + row, value);
            proof {
                assert forall|r: nat, col: nat|
                    (r < row && col < n) || (r == row && col < column + 1)
                        implies #[trigger] c@[(col * nn + r) as int] == dot(nn, a@, b@, r, col, nn) by {
                    lemma_flat_index(nn, col, r);
                    if col * nn + r != column * nn + row {
                        assert(!(r == row && col == column));
                        assert(c@[(col * nn + r) as int] == before[(col * nn + r) as int]);
                    } else {
                        lemma_flat_index_unique(nn, col, r, column as nat, row as nat);
                    }
                }
            }
            column = column + 1;
        }
        row = row + 1;
    }

    proof {
        assert forall|i: int| 0 <= i < len implies c@[i] == matrix_product(nn, a@, b@)[i] by {
            let r = (i % nn as int) as nat;
            let col = (i / nn as int) as nat;
            lemma_split_flat_index(nn, i);
            assert(c@[(col * nn + r) as int] == dot(nn, a@, b@, r, col, nn));
        }
        assert(c@ =~= matrix_product(nn, a@, b@));
        assert(crate::task::square(nn) == len);
    }
    let c = Matrix::from_vec(c).unwrap();
    proof {
        crate::task::lemma_square_injective(c.dim(), nn);
    }
    c
}

/// A flat index determines its row and column.
pub proof fn lemma_flat_index_unique(n: nat, c1: nat, r1: nat, c2: nat, r2: nat)
    requires
        r1 < n,
        r2 < n,
        c1 * n + r1 == c2 * n + r2,
    ensures
        c1 == c2,
        r1 == r2,
{
    if c1 < c2 {
        assert(c1 * n + r1 < c2 * n + r2) by (nonlinear_arith)
            requires c1 < c2, r1 < n;
    } else if c1 > c2 {
        assert(c1 * n + r1 > c2 * n + r2) by (nonlinear_arith)
            requires c1 > c2, r2 < n;
    }
}

/// A flat index below `n * n` splits into a column and a row below `n`.
pub proof fn lemma_split_flat_index(n: nat, i: int)
    requires
        0 <= i < n * n,
    ensures
        0 <= i % (n as int) < n,
        0 <= i / (n as int) < n,
        (i / n as int) * n + i % n as int == i,
{
    assert(n > 0) by (nonlinear_arith)
        requires 0 <= i < n * n;
    let q = i / (n as int);
    let r = i % (n as int);
    vstd::arithmetic::div_mod::lemma_fundamental_div_mod(i, n as int);
    vstd::arithmetic::div_mod::lemma_mod_bound(i, n as int);
    assert(0 <= q < n) by (nonlinear_arith)
        requires i == n * q + r, 0 <= r < n, 0 <= i < n * n;
    assert(q * n + r == i) by (nonlinear_arith)
        requires i == n * q + r;
}

/// The CPU product of `n × n` matrices, as a function of the two buffers.
pub open spec fn cpu_product<T: Element>(n: nat) -> spec_fn(Seq<T>, Seq<T>) -> Seq<T> {
    |a: Seq<T>, b: Seq<T>| matrix_product(n, a, b)
}

/// The left-to-right product of the matrices on the CPU, or `None` for an empty list.
pub fn multiply_all<T: Element>(matrices: Vec<Matrix<T>>) -> (r: Option<Matrix<T>>)
    requires
        forall|i: int| 0 <= i < matrices@.len() ==> (#[trigger] matrices@[i]).wf()
            && matrices@[i].dim() == matrices@[0].dim(),
    ensures
        matrices@.len() == 0 <==> r is None,
        r matches Some(m) ==> m.wf() && m.dim() == matrices@[0].dim()
            && m@ == chain(cpu_product(matrices@[0].dim()), matrices@.map_values(|m: Matrix<T>| m@)),
{
    if matrices.len() == 0 {
        return None;
    }
    let ghost n = matrices@[0].dim();
    let ghost ms = matrices@.map_values(|m: Matrix<T>| m@);
    let mut acc = matrices[0].duplicate();
    assert(ms.take(1) =~= seq![ms[0]]);
    let mut k: usize = 1;
    while k < matrices.len()
        invariant
            1 <= k <= matrices@.len(),
            n == matrices@[0].dim(),
            ms == matrices@.map_values(|m: Matrix<T>| m@),
            forall|i: int| 0 <= i < matrices@.len() ==> (#[trigger] matrices@[i]).wf()
                && matrices@[i].dim() == n,
            acc.wf(),
            acc.dim() == n,
            acc@ == chain(cpu_product(n), ms.take(k as int)),
        decreases matrices@.len() - k,
    {
        acc = multiply(&acc, &matrices[k]);
        assert(ms.take(k + 1).drop_last() =~= ms.take(k as int));
        k = k + 1;
    }
    assert(ms.take(k as int) =~= ms);
    Some(acc)
}

/// Naive solve on the CPU: entry `i` is the rotation from `i` multiplied out left to right.
pub fn solve<T: Element>(task: &Task<T>) -> (s: Solution<T>)
    requires
        task.wf(),
    ensures
        s.0@.len() == task@.len(),
        forall|i: int| 0 <= i < task@.len() ==> (#[trigger] s.0@[i]).wf() && s.0@[i].dim() == task.dim()
            && s.0@[i]@ == chain(cpu_product(task.dim()), rotation(task@, i)),
{
    let ghost p = cpu_product::<T>(task.dim());
    let mut run = NaiveRun::new(task);
    loop
        invariant
            run.inv(task),
            p == cpu_product::<T>(task.dim()),
            follows(run.history(), p),
        ensures
            run.inv(task),
            follows(run.history(), p),
            run.done(),
        decreases run.remaining(),
    {
        let (a, b) = match run.next(task) {
            None => break,
            Some(operands) => operands,
        };
        let c = multiply(a, b);
        assert(c@ == p(a@, b@));
        let ghost before = run.history();
        run.deliver(task, c);
        proof {
            lemma_follows_extend(before, run.history(), p);
        }
    }
    run.finish(task)
}

/// Memoizing solve on the CPU: entry `0` is the whole chain multiplied left to right,
/// entry `i > 0` the suffix from `i` (right to left) times the prefix before `i`.
pub fn solve_memoizing<T: Element>(task: &Task<T>) -> (s: Solution<T>)
    requires
        task.wf(),
    ensures
        s.0@.len() == task@.len(),
        forall|i: int| 0 <= i < task@.len() ==> (#[trigger] s.0@[i]).wf() && s.0@[i].dim() == task.dim()
            && s.0@[i]@ == memo_entry(cpu_product(task.dim()), task@, i),
{
    let ghost p = cpu_product::<T>(task.dim());
    let mut run = MemoRun::new(task);
    loop
        invariant
            run.inv(task),
            p == cpu_product::<T>(task.dim()),
            follows(run.history(), p),
        ensures
            run.inv(task),
            follows(run.history(), p),
            run.done(),
        decreases run.remaining(),
    {
        let (a, b) = match run.next(task) {
            None => break,
            Some(operands) => operands,
        };
        let c = multiply(a, b);
        assert(c@ == p(a@, b@));
        let ghost before = run.history();
        run.deliver(task, c);
        proof {
            lemma_follows_extend(before, run.history(), p);
        }
    }
    run.finish(task)
}

/// One more multiply that is `p` of its operands keeps a history following `p`.
proof fn lemma_follows_extend<T>(
    before: Seq<(Seq<T>, Seq<T>, Seq<T>)>,
    after: Seq<(Seq<T>, Seq<T>, Seq<T>)>,
    p: spec_fn(Seq<T>, Seq<T>) -> Seq<T>,
)
    requires
        follows(before, p),
        after.len() == before.len() + 1,
        forall|j: int| 0 <= j < before.len() ==> after[j] == before[j],
        after.last().2 == p(after.last().0, after.last().1),
    ensures
        follows(after, p),
{
    assert forall|j: int| 0 <= j < after.len() implies (#[trigger] after[j]).2 == p(after[j].0, after[j].1) by {
        if j < before.len() {
            assert(after[j] == before[j]);
        }
    }
}

/// The rotation of the task from `index`, multiplied out left to right on the CPU.
pub fn rotation_on_cpu<T: Element>(task: &Task<T>, index: usize) -> (m: Matrix<T>)
    requires
        task.wf(),
        index < task@.len(),
    ensures
        m.wf(),
        m.dim() == task.dim(),
        m@ == chain(cpu_product(task.dim()), rotation(task@, index as int)),
{
    let matrices = task.matrices();
    let len = matrices.len();
    let mut rotated: Vec<Matrix<T>> = Vec::with_capacity(len);
    let mut k: usize = 0;
    while k < len
        invariant
            k <= len,
            index < len,
            len == task@.len(),
            matrices@.len() == len,
            forall|i: int| 0 <= i < len ==> (#[trigger] matrices@[i])@ == task@[i]
                && matrices@[i].wf() && matrices@[i].dim() == task.dim(),
            rotated@.len() == k,
            forall|i: int| 0 <= i < k ==> (#[trigger] rotated@[i]).wf() && rotated@[i].dim() == task.dim()
                && rotated@[i]@ == rotation(task@, index as int)[i],
        decreases len - k,
    {
        let j = wrapped_index(index, k, len);
        rotated.push(matrices[j].duplicate());
        k = k + 1;
    }
    assert(rotated@.map_values(|m: Matrix<T>| m@) =~= rotation(task@, index as int));
    match multiply_all(rotated) {
        Some(m) => m,
        None => matrices[index].duplicate(),
    }
}

/// Relies on rayon: `(0..len).into_par_iter().map(f).collect::<Vec<_>>()` calls `f` once
/// for each index and, the range being an indexed parallel iterator, collects the results
/// in index order.
#[verifier::external_body]
fn rotations_in_parallel<T: Element + Send + Sync>(task: &Task<T>, len: usize) -> (r: Vec<Matrix<T>>)
    requires
        task.wf(),
        len == task@.len(),
    ensures
        r@.len() == len,
        forall|i: int| 0 <= i < len ==> (#[trigger] r@[i]).wf() && r@[i].dim() == task.dim()
            && r@[i]@ == chain(cpu_product(task.dim()), rotation(task@, i)),
{
    (0..len).into_par_iter().map(|index| rotation_on_cpu(task, index)).collect()
}

/// Naive solve on the CPU, the rotations spread over a worker pool.
pub fn solve_par<T: Element + Send + Sync>(task: &Task<T>) -> (s: Solution<T>)
    requires
        task.wf(),
    ensures
        s.0@.len() == task@.len(),
        forall|i: int| 0 <= i < task@.len() ==> (#[trigger] s.0@[i]).wf() && s.0@[i].dim() == task.dim()
            && s.0@[i]@ == chain(cpu_product(task.dim()), rotation(task@, i)),
{
    let len = task.matrices().len();
    Solution(rotations_in_parallel(task, len))
}

/// The `n × n` identity matrix over `u64`.
pub open spec fn identity_u64(n: nat) -> Seq<u64> {
    Seq::new(n * n, |i: int| if i % (n as int) == i / (n as int) { 1u64 } else { 0u64 })
}

/// Entry `(x, y)` of the identity: one on the diagonal, zero elsewhere.
proof fn lemma_identity_entry(n: nat, x: nat, y: nat)
    requires
        x < n,
        y < n,
    ensures
        identity_u64(n)[(y * n + x) as int] == if x == y { 1u64 } else { 0u64 },
{
    let i = (y * n + x) as int;
    lemma_flat_index(n, y, x);
    lemma_split_flat_index(n, i);
    lemma_flat_index_unique(n, (i / (n as int)) as nat, (i % (n as int)) as nat, y, x);
}

/// The first `len` terms of `a · I` at `(row, col)`.
proof fn lemma_dot_identity_right(n: nat, a: Seq<u64>, row: nat, col: nat, len: nat)
    requires
        a.len() == n * n,
        row < n,
        col < n,
        len <= n,
    ensures
        dot(n, a, identity_u64(n), row, col, len) == if col < len { a[(col * n + row) as int] } else { 0u64 },
    decreases len,
{
    if len > 0 {
        let k = (len - 1) as nat;
        lemma_dot_identity_right(n, a, row, col, k);
        lemma_identity_entry(n, k, col);
        lemma_flat_index(n, k, row);
    }
}

/// The first `len` terms of `I · a` at `(row, col)`.
proof fn lemma_dot_identity_left(n: nat, a: Seq<u64>, row: nat, col: nat, len: nat)
    requires
        a.len() == n * n,
        row < n,
        col < n,
        len <= n,
    ensures
        dot(n, identity_u64(n), a, row, col, len) == if row < len { a[(col * n + row) as int] } else { 0u64 },
    decreases len,
{
    if len > 0 {
        let k = (len - 1) as nat;
        lemma_dot_identity_left(n, a, row, col, k);
        lemma_identity_entry(n, row, k);
        lemma_flat_index(n, col, k);
    }
}

/// Identity law of the CPU product over `u64`: `a · I == a` and `I · a == a`.
pub proof fn lemma_identity_u64(n: nat, a: Seq<u64>)
    requires
        a.len() == n * n,
    ensures
        matrix_product(n, a, identity_u64(n)) == a,
        matrix_product(n, identity_u64(n), a) == a,
{
    assert forall|i: int| 0 <= i < n * n implies matrix_product(n, a, identity_u64(n))[i] == a[i]
        && matrix_product(n, identity_u64(n), a)[i] == a[i] by {
        lemma_split_flat_index(n, i);
        let row = (i % (n as int)) as nat;
        let col = (i / (n as int)) as nat;
        lemma_dot_identity_right(n, a, row, col, n);
        lemma_dot_identity_left(n, a, row, col, n);
    }
    assert(matrix_product(n, a, identity_u64(n)) =~= a);
    assert(matrix_product(n, identity_u64(n), a) =~= a);
}

} // verus!
