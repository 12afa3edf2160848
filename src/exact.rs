//! Laws of the CPU product over `u64`, whose arithmetic is exact modulo `2^64`.
use vstd::prelude::*;

use crate::solver::{associative_on, chain, lemma_solvers_agree, memo_entry, rotation};
use crate::task::Task;

use crate::seq::{cpu_product, dot, lemma_flat_index, lemma_flat_index_unique, lemma_split_flat_index, matrix_product};

verus! {

/// `2^64`, the modulus of `u64` arithmetic.
pub open spec fn modulus() -> int {
    0x1_0000_0000_0000_0000
}

/// `f(0) + … + f(len - 1)`.
pub open spec fn sum(len: nat, f: spec_fn(int) -> int) -> int
    decreases len,
{
    if len == 0 {
        0
    } else {
        sum((len - 1) as nat, f) + f(len - 1)
    }
}

proof fn lemma_sum_ext(len: nat, f: spec_fn(int) -> int, g: spec_fn(int) -> int)
    requires
        forall|i: int| 0 <= i < len ==> #[trigger] f(i) == g(i),
    ensures
        sum(len, f) == sum(len, g),
    decreases len,
{
    if len > 0 {
        lemma_sum_ext((len - 1) as nat, f, g);
    }
}

proof fn lemma_sum_add(len: nat, f: spec_fn(int) -> int, g: spec_fn(int) -> int)
    ensures
        sum(len, |i: int| f(i) + g(i)) == sum(len, f) + sum(len, g),
    decreases len,
{
    if len > 0 {
        lemma_sum_add((len - 1) as nat, f, g);
    }
}

proof fn lemma_sum_zero(len: nat, f: spec_fn(int) -> int)
    requires
        forall|i: int| 0 <= i < len ==> #[trigger] f(i) == 0,
    ensures
        sum(len, f) == 0,
    decreases len,
{
    if len > 0 {
        lemma_sum_zero((len - 1) as nat, f);
    }
}

proof fn lemma_sum_scale_left(len: nat, x: int, f: spec_fn(int) -> int)
    ensures
        x * sum(len, f) == sum(len, |i: int| x * f(i)),
    decreases len,
{
    if len > 0 {
        lemma_sum_scale_left((len - 1) as nat, x, f);
        vstd::arithmetic::mul::lemma_mul_is_distributive_add(x, sum((len - 1) as nat, f), f(len - 1));
    }
}

proof fn lemma_sum_scale_right(len: nat, f: spec_fn(int) -> int, y: int)
    ensures
        sum(len, f) * y == sum(len, |i: int| f(i) * y),
    decreases len,
{
    if len > 0 {
        lemma_sum_scale_right((len - 1) as nat, f, y);
        vstd::arithmetic::mul::lemma_mul_is_distributive_add_other_way(y, sum((len - 1) as nat, f), f(len - 1));
    }
}

/// The order of a finite double sum does not matter.
proof fn lemma_sum_swap(n: nat, m: nat, f: spec_fn(int, int) -> int)
    ensures
        sum(n, |x: int| sum(m, |y: int| f(x, y))) == sum(m, |y: int| sum(n, |x: int| f(x, y))),
    decreases n,
{
    if n == 0 {
        lemma_sum_zero(m, |y: int| sum(0, |x: int| f(x, y)));
    } else {
        let n0 = (n - 1) as nat;
        lemma_sum_swap(n0, m, f);
        let inner = |y: int| sum(n0, |x: int| f(x, y));
        let last = |y: int| f(n0 as int, y);
        lemma_sum_add(m, inner, last);
        lemma_sum_ext(m, |y: int| sum(n, |x: int| f(x, y)), |y: int| inner(y) + last(y));
    }
}

/// Sums of terms that agree modulo `m` agree modulo `m`.
proof fn lemma_sum_congruent(len: nat, f: spec_fn(int) -> int, g: spec_fn(int) -> int, m: int)
    requires
        m > 0,
        forall|i: int| 0 <= i < len ==> #[trigger] f(i) % m == g(i) % m,
    ensures
        sum(len, f) % m == sum(len, g) % m,
    decreases len,
{
    if len > 0 {
        let l0 = (len - 1) as nat;
        lemma_sum_congruent(l0, f, g, m);
        let x = sum(l0, f);
        let y = sum(l0, g);
        vstd::arithmetic::div_mod::lemma_add_mod_noop(x, f(l0 as int), m);
        vstd::arithmetic::div_mod::lemma_add_mod_noop(y, g(l0 as int), m);
    }
}

/// The terms of entry `(row, col)` of `a · b`, for column-major `n × n` buffers.
pub open spec fn terms(n: nat, a: Seq<u64>, b: Seq<u64>, row: nat, col: nat) -> spec_fn(int) -> int {
    |k: int| a[k * n + row] as int * b[col * n + k] as int
}

/// The CPU dot product over `u64` is the exact sum of its terms, modulo `2^64`.
proof fn lemma_dot_exact(n: nat, a: Seq<u64>, b: Seq<u64>, row: nat, col: nat, len: nat)
    requires
        a.len() == n * n,
        b.len() == n * n,
        row < n,
        col < n,
        len <= n,
    ensures
        dot(n, a, b, row, col, len) as int == sum(len, terms(n, a, b, row, col)) % modulus(),
    decreases len,
{
    let m = modulus();
    if len == 0 {
        assert(dot(n, a, b, row, col, 0) == 0u64);
    } else {
        let k = (len - 1) as nat;
        lemma_dot_exact(n, a, b, row, col, k);
        lemma_flat_index(n, k, row);
        lemma_flat_index(n, col, k);
        let acc = dot(n, a, b, row, col, k);
        let x = a[(k * n + row) as int];
        let y = b[(col * n + k) as int];
        let s = sum(k, terms(n, a, b, row, col));
        let w = vstd::wrapping::u64_specs::wrapping_mul(x, y);
        assert(w as int == (x as int * y as int) % m);
        let r = vstd::wrapping::u64_specs::wrapping_add(acc, w);
        assert(r as int == (acc as int + w as int) % m) by {
            if acc as int + w as int >= m {
                vstd::arithmetic::div_mod::lemma_mod_sub_multiples_vanish(acc as int + w as int, m);
                vstd::arithmetic::div_mod::lemma_small_mod((acc as int + w as int - m) as nat, m as nat);
            } else {
                vstd::arithmetic::div_mod::lemma_small_mod((acc as int + w as int) as nat, m as nat);
            }
        }
        vstd::arithmetic::div_mod::lemma_add_mod_noop(s, x as int * y as int, m);
        vstd::arithmetic::div_mod::lemma_mod_twice(x as int * y as int, m);
        vstd::arithmetic::div_mod::lemma_mod_twice(s, m);
        assert(terms(n, a, b, row, col)(k as int) == x as int * y as int);
    }
}

/// Entry `(row, col)` of the CPU product over `u64`.
proof fn lemma_product_entry(n: nat, a: Seq<u64>, b: Seq<u64>, row: nat, col: nat)
    requires
        a.len() == n * n,
        b.len() == n * n,
        row < n,
        col < n,
    ensures
        (col * n + row) < n * n,
        matrix_product(n, a, b)[(col * n + row) as int] as int == sum(n, terms(n, a, b, row, col))
            % modulus(),
{
    let i = (col * n + row) as int;
    lemma_flat_index(n, col, row);
    lemma_split_flat_index(n, i);
    lemma_flat_index_unique(n, (i / (n as int)) as nat, (i % (n as int)) as nat, col, row);
    lemma_dot_exact(n, a, b, row, col, n);
}

/// Associativity of the CPU product over `u64`: `(a · b) · c == a · (b · c)`.
pub proof fn lemma_product_associative_u64(n: nat, a: Seq<u64>, b: Seq<u64>, c: Seq<u64>)
    requires
        a.len() == n * n,
        b.len() == n * n,
        c.len() == n * n,
    ensures
        matrix_product(n, matrix_product(n, a, b), c) == matrix_product(n, a, matrix_product(n, b, c)),
{
    let m = modulus();
    let ab = matrix_product(n, a, b);
    let bc = matrix_product(n, b, c);
    assert forall|i: int| 0 <= i < n * n implies matrix_product(n, ab, c)[i] == matrix_product(n, a, bc)[i] by {
        lemma_split_flat_index(n, i);
        let row = (i % (n as int)) as nat;
        let col = (i / (n as int)) as nat;
        assert(i == col * n + row);
        let t = |k: int, j: int| a[k * n + row] as int * b[j * n + k] as int * c[col * n + j] as int;
        // left: sum over j of (a · b)[row, j] * c[j, col]
        lemma_product_entry(n, ab, c, row, col);
        assert forall|j: int| 0 <= j < n implies #[trigger] terms(n, ab, c, row, col)(j) % m == sum(
            n,
            |k: int| t(k, j),
        ) % m by {
            lemma_product_entry(n, a, b, row, j as nat);
            let s1 = sum(n, terms(n, a, b, row, j as nat));
            let cj = c[col * n + j] as int;
            vstd::arithmetic::div_mod::lemma_mul_mod_noop_left(s1, cj, m);
            lemma_sum_scale_right(n, terms(n, a, b, row, j as nat), cj);
            lemma_sum_ext(n, |k: int| terms(n, a, b, row, j as nat)(k) * cj, |k: int| t(k, j));
        }
        lemma_sum_congruent(n, terms(n, ab, c, row, col), |j: int| sum(n, |k: int| t(k, j)), m);
        // right: sum over k of a[row, k] * (b · c)[k, col]
        lemma_product_entry(n, a, bc, row, col);
        assert forall|k: int| 0 <= k < n implies #[trigger] terms(n, a, bc, row, col)(k) % m == sum(
            n,
            |j: int| t(k, j),
        ) % m by {
            lemma_product_entry(n, b, c, k as nat, col);
            let s2 = sum(n, terms(n, b, c, k as nat, col));
            let ak = a[k * n + row] as int;
            vstd::arithmetic::div_mod::lemma_mul_mod_noop_right(ak, s2, m);
            lemma_sum_scale_left(n, ak, terms(n, b, c, k as nat, col));
            assert forall|j: int| 0 <= j < n implies ak * #[trigger] terms(n, b, c, k as nat, col)(j) == t(k, j) by {
                vstd::arithmetic::mul::lemma_mul_is_associative(ak, b[j * n + k] as int, c[col * n + j] as int);
            }
            lemma_sum_ext(n, |j: int| ak * terms(n, b, c, k as nat, col)(j), |j: int| t(k, j));
        }
        lemma_sum_congruent(n, terms(n, a, bc, row, col), |k: int| sum(n, |j: int| t(k, j)), m);
        lemma_sum_swap(n, n, t);
        lemma_sum_ext(n, |j: int| sum(n, |k: int| t(k, j)), |y: int| sum(n, |x: int| t(x, y)));
        lemma_sum_ext(n, |k: int| sum(n, |j: int| t(k, j)), |x: int| sum(n, |y: int| t(x, y)));
    }
    assert(matrix_product(n, ab, c) =~= matrix_product(n, a, bc));
}

/// The naive and the memoizing CPU solve of a `u64` task agree entry by entry.
pub proof fn lemma_cpu_solvers_agree_u64(task: Task<u64>)
    requires
        task.wf(),
    ensures
        forall|i: int| 0 <= i < task@.len() ==> #[trigger] chain(cpu_product(task.dim()), rotation(task@, i))
            == memo_entry(cpu_product(task.dim()), task@, i),
{
    let n = task.dim();
    let p = cpu_product::<u64>(n);
    assert forall|x: Seq<u64>, y: Seq<u64>, z: Seq<u64>|
        x.len() == n * n && y.len() == n * n && z.len() == n * n implies #[trigger] p(p(x, y), z) == #[trigger] p(
            x,
            p(y, z),
        ) by {
        lemma_product_associative_u64(n, x, y, z);
    }
    assert(associative_on(p, n * n));
    lemma_solvers_agree(p, task);
}

} // verus!
