use vstd::prelude::*;

use crate::task::{Matrix, Solution, Task};

verus! {

/// The product of a chain of matrices multiplied left to right by `p`: `p(p(m0, m1), m2)…`.
pub open spec fn chain<T>(p: spec_fn(Seq<T>, Seq<T>) -> Seq<T>, ms: Seq<Seq<T>>) -> Seq<T>
    decreases ms.len(),
{
    if ms.len() <= 1 {
        ms[0]
    } else {
        p(chain(p, ms.drop_last()), ms.last())
    }
}

/// The product of a chain of matrices multiplied right to left by `p`: `p(m0, p(m1, m2…))`.
pub open spec fn chain_right<T>(p: spec_fn(Seq<T>, Seq<T>) -> Seq<T>, ms: Seq<Seq<T>>) -> Seq<T>
    decreases ms.len(),
{
    if ms.len() <= 1 {
        ms[0]
    } else {
        p(ms[0], chain_right(p, ms.drop_first()))
    }
}

/// The list started at position `i` and wrapped around: `ms[i], …, ms[len-1], ms[0], …, ms[i-1]`.
pub open spec fn rotation<A>(ms: Seq<A>, i: int) -> Seq<A> {
    Seq::new(ms.len(), |k: int| ms[(i + k) % (ms.len() as int)])
}

/// Entry `i` of the memoizing solve: the whole chain for `i == 0`, else the suffix from `i`
/// (multiplied right to left) times the prefix before `i` (multiplied left to right).
pub open spec fn memo_entry<T>(p: spec_fn(Seq<T>, Seq<T>) -> Seq<T>, ms: Seq<Seq<T>>, i: int) -> Seq<T> {
    if i == 0 {
        chain(p, ms)
    } else {
        p(chain_right(p, ms.subrange(i, ms.len() as int)), chain(p, ms.subrange(0, i)))
    }
}

/// Every recorded multiply `(a, b, c)` has `c == p(a, b)`.
pub open spec fn follows<T>(
    history: Seq<(Seq<T>, Seq<T>, Seq<T>)>,
    p: spec_fn(Seq<T>, Seq<T>) -> Seq<T>,
) -> bool {
    forall|j: int| 0 <= j < history.len() ==> (#[trigger] history[j]).2 == p(history[j].0, history[j].1)
}

/// A history that follows `p` after one more multiply did so before, and the new
/// multiply is `p` of its operands.
proof fn lemma_follows_push<T>(
    history: Seq<(Seq<T>, Seq<T>, Seq<T>)>,
    e: (Seq<T>, Seq<T>, Seq<T>),
    p: spec_fn(Seq<T>, Seq<T>) -> Seq<T>,
)
    requires
        follows(history.push(e), p),
    ensures
        follows(history, p),
        e.2 == p(e.0, e.1),
{
    assert forall|j: int| 0 <= j < history.len() implies (#[trigger] history[j]).2 == p(
        history[j].0,
        history[j].1,
    ) by {
        assert(history.push(e)[j] == history[j]);
    }
    assert(history.push(e)[history.len() as int] == e);
}

/// On buffers of length `size` the product stays of length `size` and is associative.
pub open spec fn associative_on<T>(p: spec_fn(Seq<T>, Seq<T>) -> Seq<T>, size: nat) -> bool {
    &&& forall|x: Seq<T>, y: Seq<T>|
        x.len() == size && y.len() == size ==> (#[trigger] p(x, y)).len() == size
    &&& forall|x: Seq<T>, y: Seq<T>, z: Seq<T>|
        x.len() == size && y.len() == size && z.len() == size ==> #[trigger] p(p(x, y), z)
            == #[trigger] p(x, p(y, z))
}

/// `(index + k) % len`, for `index, k < len`, without forming `index + k` when it would wrap.
pub fn wrapped_index(index: usize, k: usize, len: usize) -> (j: usize)
    requires
        index < len,
        k < len,
    ensures
        j == (index + k) % (len as int),
{
    if k < len - index {
        proof {
            vstd::arithmetic::div_mod::lemma_small_mod((index + k) as nat, len as nat);
        }
        index + k
    } else {
        proof {
            let x = (index + k - len) as int;
            vstd::arithmetic::div_mod::lemma_mod_add_multiples_vanish(x, len as int);
            vstd::arithmetic::div_mod::lemma_small_mod(x as nat, len as nat);
        }
        k - (len - index)
    }
}

/// The naive solve, one multiply at a time: for each start `i`, the rotation from `i` is
/// multiplied out left to right from scratch (`len * (len - 1)` multiplies in all).
///
/// The caller asks `next` for the two operands, multiplies them however it likes, and
/// hands the product to `deliver`; `finish` returns the solution once `next` gives `None`.
pub struct NaiveRun<T> {
    len: usize,
    i: usize,
    k: usize,
    acc: Option<Matrix<T>>,
    out: Vec<Matrix<T>>,
    history: Ghost<Seq<(Seq<T>, Seq<T>, Seq<T>)>>,
}

impl<T: Copy> NaiveRun<T> {
    /// The multiplies delivered so far: operands and product.
    pub closed spec fn history(&self) -> Seq<(Seq<T>, Seq<T>, Seq<T>)> {
        self.history@
    }

    /// All rotations are multiplied out.
    pub closed spec fn done(&self) -> bool {
        self.i >= self.len
    }

    /// The product so far of the rotation in progress.
    closed spec fn current(&self, task: &Task<T>) -> Seq<T> {
        match self.acc {
            Some(m) => m@,
            None => task@[self.i as int],
        }
    }

    /// The operands of the next multiply.
    pub closed spec fn operands(&self, task: &Task<T>) -> (Seq<T>, Seq<T>) {
        (self.current(task), task@[(self.i + self.k) % (self.len as int)])
    }

    /// How many multiplies are left.
    pub closed spec fn remaining(&self) -> nat {
        (self.len * (self.len - 1) - self.history@.len()) as nat
    }

    /// What the products so far amount to when every multiply was `p`.
    closed spec fn progress(&self, task: &Task<T>, p: spec_fn(Seq<T>, Seq<T>) -> Seq<T>) -> bool {
        &&& forall|j: int| 0 <= j < self.i ==> (#[trigger] self.out@[j])@ == chain(p, rotation(task@, j))
        &&& self.i < self.len ==> self.current(task) == chain(p, rotation(task@, self.i as int).take(self.k as int))
    }

    pub closed spec fn inv(&self, task: &Task<T>) -> bool {
        &&& task.wf()
        &&& self.len == task@.len()
        &&& self.i <= self.len
        &&& self.out@.len() == self.i
        &&& forall|j: int| 0 <= j < self.i ==> (#[trigger] self.out@[j]).wf() && self.out@[j].dim() == task.dim()
        &&& self.i < self.len ==> 1 <= self.k < self.len
        &&& self.i == self.len ==> self.k == 1
        &&& (self.acc is None) == (self.k == 1)
        &&& self.acc matches Some(m) ==> m.wf() && m.dim() == task.dim()
        &&& self.history@.len() == self.i * (self.len - 1) + self.k - 1
        &&& forall|p: spec_fn(Seq<T>, Seq<T>) -> Seq<T>| #[trigger] follows(self.history@, p) ==> self.progress(task, p)
    }

    /// A run over the task with nothing multiplied yet.
    pub fn new(task: &Task<T>) -> (r: NaiveRun<T>)
        requires
            task.wf(),
        ensures
            r.inv(task),
            r.history() == Seq::<(Seq<T>, Seq<T>, Seq<T>)>::empty(),
    {
        proof {
            task.lemma_wf();
        }
        let matrices = task.matrices();
        let len = matrices.len();
        let mut out: Vec<Matrix<T>> = Vec::new();
        let mut i: usize = 0;
        if len == 1 {
            out.push(matrices[0].duplicate());
            i = 1;
        }
        let r = NaiveRun { len, i, k: 1, acc: None, out, history: Ghost(Seq::empty()) };
        proof {
            assert(r.history@.len() == r.i * (r.len - 1) + r.k - 1) by (nonlinear_arith)
                requires
                    r.history@.len() == 0,
                    r.k == 1,
                    (r.i == 0) || (r.i == 1 && r.len == 1);
            assert(forall|j: int| 0 <= j < r.i ==> (#[trigger] r.out@[j]).wf() && r.out@[j].dim() == task.dim());
            assert forall|p: spec_fn(Seq<T>, Seq<T>) -> Seq<T>| #[trigger] follows(r.history@, p) implies r.progress(
                task,
                p,
            ) by {
                vstd::arithmetic::div_mod::lemma_small_mod(0, len as nat);
                if len == 1 {
                    assert(rotation(task@, 0).len() == 1);
                } else {
                    assert(rotation(task@, 0).take(1) =~= seq![task@[0]]);
                }
            }
        }
        r
    }

    /// The operands of the next multiply, or `None` once every rotation is done.
    pub fn next<'a>(&'a self, task: &'a Task<T>) -> (r: Option<(&'a Matrix<T>, &'a Matrix<T>)>)
        requires
            self.inv(task),
        ensures
            r is None <==> self.done(),
            r matches Some((a, b)) ==> a.wf() && b.wf() && a.dim() == task.dim() && b.dim() == task.dim()
                && (a@, b@) == self.operands(task),
    {
        if self.i >= self.len {
            return None;
        }
        let matrices = task.matrices();
        let a = match &self.acc {
            Some(m) => m,
            None => &matrices[self.i],
        };
        let j = wrapped_index(self.i, self.k, self.len);
        Some((a, &matrices[j]))
    }

    /// Records the product of the operands that `next` gave, and moves on.
    pub fn deliver(&mut self, task: &Task<T>, c: Matrix<T>)
        requires
            old(self).inv(task),
            !old(self).done(),
            c.wf(),
            c.dim() == task.dim(),
        ensures
            final(self).inv(task),
            final(self).history() == old(self).history().push(
                (old(self).operands(task).0, old(self).operands(task).1, c@),
            ),
            final(self).remaining() < old(self).remaining(),
    {
        let ghost old_run = *self;
        let ghost ops = self.operands(task);
        let ghost e = (ops.0, ops.1, c@);
        let ghost rot = rotation(task@, self.i as int);
        self.history = Ghost(self.history@.push(e));
        if self.k + 1 == self.len {
            self.out.push(c);
            self.i = self.i + 1;
            self.k = 1;
            self.acc = None;
        } else {
            self.acc = Some(c);
            self.k = self.k + 1;
        }
        proof {
            let len = old_run.len as int;
            let i = old_run.i as int;
            let k = old_run.k as int;
            assert(self.history@.len() == self.i * (self.len - 1) + self.k - 1) by (nonlinear_arith)
                requires
                    old_run.history@.len() == i * (len - 1) + k - 1,
                    self.history@.len() == old_run.history@.len() + 1,
                    (k + 1 == len && self.i == i + 1 && self.k == 1) || (k + 1 != len && self.i == i
                        && self.k == k + 1),
                    self.len == len;
            assert(old_run.history@.len() < len * (len - 1)) by (nonlinear_arith)
                requires
                    old_run.history@.len() == i * (len - 1) + k - 1,
                    0 <= i < len,
                    1 <= k < len;
            assert(rot.take(k + 1).drop_last() =~= rot.take(k));
            assert forall|p: spec_fn(Seq<T>, Seq<T>) -> Seq<T>| #[trigger] follows(self.history@, p) implies self.progress(
                task,
                p,
            ) by {
                lemma_follows_push(old_run.history@, e, p);
                assert(old_run.progress(task, p));
                assert(c@ == chain(p, rot.take(k + 1)));
                if k + 1 == len {
                    assert(rot.take(k + 1) =~= rot);
                    assert forall|j: int| 0 <= j < self.i implies (#[trigger] self.out@[j])@ == chain(
                        p,
                        rotation(task@, j),
                    ) by {
                        if j < i {
                            assert(self.out@[j] == old_run.out@[j]);
                        }
                    }
                    if self.i < self.len {
                        vstd::arithmetic::div_mod::lemma_small_mod(self.i as nat, len as nat);
                        assert(rotation(task@, self.i as int).take(1) =~= seq![task@[self.i as int]]);
                    }
                }
            }
        }
    }

    /// The solution: entry `i` is the rotation from `i` multiplied out left to right by
    /// whatever product every delivered multiply was.
    pub fn finish(self, task: &Task<T>) -> (s: Solution<T>)
        requires
            self.inv(task),
            self.done(),
        ensures
            s.0@.len() == task@.len(),
            forall|j: int| 0 <= j < task@.len() ==> (#[trigger] s.0@[j]).wf() && s.0@[j].dim() == task.dim(),
            forall|p: spec_fn(Seq<T>, Seq<T>) -> Seq<T>| #[trigger] follows(self.history(), p) ==> forall|j: int|
                0 <= j < task@.len() ==> (#[trigger] s.0@[j])@ == chain(p, rotation(task@, j)),
    {
        proof {
            assert forall|p: spec_fn(Seq<T>, Seq<T>) -> Seq<T>| #[trigger] follows(self.history(), p) implies forall|j: int|
                0 <= j < task@.len() ==> (#[trigger] self.out@[j])@ == chain(p, rotation(task@, j)) by {
                assert(self.progress(task, p));
            }
        }
        Solution(self.out)
    }
}

/// The number of multiplies of the memoizing solve of `len` matrices.
pub open spec fn memo_steps(len: nat) -> nat {
    if len >= 2 {
        (3 * len - 4) as nat
    } else {
        0
    }
}

/// The memoizing solve, one multiply at a time. It builds the prefix products
/// `left[j] = m0 · … · mj` (left to right), then the suffix products
/// `right[j] = m(len-1-j) · … · m(len-1)` (right to left), then entry `i > 0` of the
/// solution as `right[len-1-i] · left[i-1]`; entry `0` is `left[len-1]`. That is
/// `3 * len - 4` multiplies for `len >= 2`, none for a single matrix.
///
/// It is driven as `NaiveRun` is: `next`, multiply, `deliver`, until `next` gives `None`.
pub struct MemoRun<T> {
    len: usize,
    stage: usize,
    k: usize,
    left: Vec<Matrix<T>>,
    right: Vec<Matrix<T>>,
    out: Vec<Matrix<T>>,
    history: Ghost<Seq<(Seq<T>, Seq<T>, Seq<T>)>>,
}

impl<T: Copy> MemoRun<T> {
    /// The multiplies delivered so far: operands and product.
    pub closed spec fn history(&self) -> Seq<(Seq<T>, Seq<T>, Seq<T>)> {
        self.history@
    }

    /// The solution is complete.
    pub closed spec fn done(&self) -> bool {
        self.stage >= 3
    }

    /// The operands of the next multiply.
    pub closed spec fn operands(&self, task: &Task<T>) -> (Seq<T>, Seq<T>) {
        let len = self.len as int;
        let k = self.k as int;
        if self.stage == 0 {
            (self.left@[k]@, task@[k + 1])
        } else if self.stage == 1 {
            (task@[len - k - 2], self.right@[k]@)
        } else {
            (self.right@[len - 1 - k]@, self.left@[k - 1]@)
        }
    }

    /// How many multiplies are left.
    pub closed spec fn remaining(&self) -> nat {
        (memo_steps(self.len as nat) - self.history@.len()) as nat
    }

    /// What the stored products amount to when every multiply was `p`.
    closed spec fn progress(&self, task: &Task<T>, p: spec_fn(Seq<T>, Seq<T>) -> Seq<T>) -> bool {
        let ms = task@;
        let len = self.len as int;
        &&& forall|j: int| 0 <= j < self.left@.len() ==> (#[trigger] self.left@[j])@ == chain(p, ms.subrange(0, j + 1))
        &&& forall|j: int| 0 <= j < self.right@.len() ==> (#[trigger] self.right@[j])@ == chain_right(
            p,
            ms.subrange(len - 1 - j, len),
        )
        &&& forall|j: int| 0 <= j < self.out@.len() ==> (#[trigger] self.out@[j])@ == memo_entry(p, ms, j)
    }

    /// Every stored matrix is `n × n`.
    closed spec fn shapes(&self, task: &Task<T>) -> bool {
        &&& forall|j: int| 0 <= j < self.left@.len() ==> (#[trigger] self.left@[j]).wf() && self.left@[j].dim() == task.dim()
        &&& forall|j: int| 0 <= j < self.right@.len() ==> (#[trigger] self.right@[j]).wf() && self.right@[j].dim() == task.dim()
        &&& forall|j: int| 0 <= j < self.out@.len() ==> (#[trigger] self.out@[j]).wf() && self.out@[j].dim() == task.dim()
    }

    /// Where the run stands, stage by stage.
    closed spec fn counts(&self) -> bool {
        let len = self.len as int;
        let k = self.k as int;
        let h = self.history@.len() as int;
        if self.stage == 0 {
            &&& 0 <= k < len - 1
            &&& self.left@.len() == k + 1
            &&& self.out@.len() == 0
            &&& h == k
        } else if self.stage == 1 {
            &&& 0 <= k < len - 2
            &&& self.left@.len() == len
            &&& self.right@.len() == k + 1
            &&& self.out@.len() == 0
            &&& h == len - 1 + k
        } else if self.stage == 2 {
            &&& 1 <= k < len
            &&& self.left@.len() == len - 1
            &&& self.right@.len() == len - 1
            &&& self.out@.len() == k
            &&& h == (len - 1) + (len - 2) + (k - 1)
        } else {
            &&& self.stage == 3
            &&& self.out@.len() == len
            &&& h == memo_steps(self.len as nat)
        }
    }

    pub closed spec fn inv(&self, task: &Task<T>) -> bool {
        &&& task.wf()
        &&& self.len == task@.len()
        &&& self.counts()
        &&& self.shapes(task)
        &&& forall|p: spec_fn(Seq<T>, Seq<T>) -> Seq<T>| #[trigger] follows(self.history@, p) ==> self.progress(task, p)
    }

    /// Moves past stages that have no multiply left: to the suffixes once the prefixes are
    /// built, to the assembly once the suffixes are.
    fn settle(&mut self, task: &Task<T>)
        requires
            task.wf(),
            old(self).len == task@.len(),
            old(self).len >= 2,
            old(self).shapes(task),
            forall|p: spec_fn(Seq<T>, Seq<T>) -> Seq<T>| #[trigger] follows(old(self).history@, p) ==> old(self).progress(task, p),
            old(self).stage == 0 ==> old(self).k == old(self).len - 1 && old(self).left@.len() == old(self).len
                && old(self).history@.len() == old(self).len - 1,
            old(self).stage == 1 ==> old(self).k < old(self).len - 1 && old(self).left@.len() == old(self).len
                && old(self).right@.len() == old(self).k + 1 && old(self).history@.len() == old(self).len - 1 + old(self).k,
            old(self).stage == 0 || old(self).stage == 1,
            old(self).out@.len() == 0,
        ensures
            final(self).inv(task),
            final(self).history() == old(self).history(),
    {
        let ghost ms = task@;
        let len = self.len;
        proof {
            task.lemma_wf();
        }
        if self.stage == 0 {
            let matrices = task.matrices();
            let last = matrices[len - 1].duplicate();
            self.right = Vec::new();
            self.right.push(last);
            self.stage = 1;
            self.k = 0;
            proof {
                assert(ms.subrange(len - 1, len as int) =~= seq![ms[len - 1]]);
            }
        }
        if self.k + 2 == len {
            let whole = self.left.pop().unwrap();
            self.out = Vec::new();
            self.out.push(whole);
            self.stage = 2;
            self.k = 1;
            proof {
                assert(ms.subrange(0, len as int) =~= ms);
            }
        }
    }

    /// A run over the task with nothing multiplied yet.
    pub fn new(task: &Task<T>) -> (r: MemoRun<T>)
        requires
            task.wf(),
        ensures
            r.inv(task),
            r.history() == Seq::<(Seq<T>, Seq<T>, Seq<T>)>::empty(),
    {
        proof {
            task.lemma_wf();
        }
        let ghost ms = task@;
        let matrices = task.matrices();
        let len = matrices.len();
        let mut left: Vec<Matrix<T>> = Vec::new();
        left.push(matrices[0].duplicate());
        proof {
            assert(ms.subrange(0, 1) =~= seq![ms[0]]);
        }
        if len == 1 {
            let whole = left.pop().unwrap();
            let mut out: Vec<Matrix<T>> = Vec::new();
            out.push(whole);
            proof {
                assert(ms.subrange(0, 1) =~= ms);
            }
            MemoRun { len, stage: 3, k: 0, left, right: Vec::new(), out, history: Ghost(Seq::empty()) }
        } else {
            MemoRun {
                len,
                stage: 0,
                k: 0,
                left,
                right: Vec::new(),
                out: Vec::new(),
                history: Ghost(Seq::empty()),
            }
        }
    }

    /// The operands of the next multiply, or `None` once the solution is complete.
    pub fn next<'a>(&'a self, task: &'a Task<T>) -> (r: Option<(&'a Matrix<T>, &'a Matrix<T>)>)
        requires
            self.inv(task),
        ensures
            r is None <==> self.done(),
            r matches Some((a, b)) ==> a.wf() && b.wf() && a.dim() == task.dim() && b.dim() == task.dim()
                && (a@, b@) == self.operands(task),
    {
        let len = self.len;
        let k = self.k;
        let matrices = task.matrices();
        if self.stage == 0 {
            Some((&self.left[k], &matrices[k + 1]))
        } else if self.stage == 1 {
            Some((&matrices[len - k - 2], &self.right[k]))
        } else if self.stage == 2 {
            Some((&self.right[len - 1 - k], &self.left[k - 1]))
        } else {
            None
        }
    }

    /// Records the product of the operands that `next` gave, and moves on.
    pub fn deliver(&mut self, task: &Task<T>, c: Matrix<T>)
        requires
            old(self).inv(task),
            !old(self).done(),
            c.wf(),
            c.dim() == task.dim(),
        ensures
            final(self).inv(task),
            final(self).history() == old(self).history().push(
                (old(self).operands(task).0, old(self).operands(task).1, c@),
            ),
            final(self).remaining() < old(self).remaining(),
    {
        let ghost old_run = *self;
        let ghost ms = task@;
        let ghost ops = self.operands(task);
        let ghost e = (ops.0, ops.1, c@);
        let len = self.len;
        let k = self.k;
        self.history = Ghost(self.history@.push(e));
        if self.stage == 0 {
            self.left.push(c);
            self.k = k + 1;
            proof {
                assert(ms.subrange(0, k + 2).drop_last() =~= ms.subrange(0, k + 1));
                assert forall|p: spec_fn(Seq<T>, Seq<T>) -> Seq<T>| #[trigger] follows(self.history@, p) implies self.progress(
                    task,
                    p,
                ) by {
                    lemma_follows_push(old_run.history@, e, p);
                    assert(old_run.progress(task, p));
                    assert forall|j: int| 0 <= j < self.left@.len() implies (#[trigger] self.left@[j])@ == chain(
                        p,
                        ms.subrange(0, j + 1),
                    ) by {
                        if j < k + 1 {
                            assert(self.left@[j] == old_run.left@[j]);
                        }
                    }
                }
            }
            if k + 2 == len {
                self.settle(task);
            }
        } else if self.stage == 1 {
            self.right.push(c);
            self.k = k + 1;
            proof {
                assert(ms.subrange(len - k - 2, len as int).drop_first() =~= ms.subrange(len - 1 - k, len as int));
                assert forall|p: spec_fn(Seq<T>, Seq<T>) -> Seq<T>| #[trigger] follows(self.history@, p) implies self.progress(
                    task,
                    p,
                ) by {
                    lemma_follows_push(old_run.history@, e, p);
                    assert(old_run.progress(task, p));
                    assert forall|j: int| 0 <= j < self.right@.len() implies (#[trigger] self.right@[j])@ == chain_right(
                        p,
                        ms.subrange(len - 1 - j, len as int),
                    ) by {
                        if j < k + 1 {
                            assert(self.right@[j] == old_run.right@[j]);
                        }
                    }
                }
            }
            if k + 3 == len {
                self.settle(task);
            }
        } else {
            self.out.push(c);
            self.k = k + 1;
            if k + 1 == len {
                self.stage = 3;
            }
            proof {
                assert forall|p: spec_fn(Seq<T>, Seq<T>) -> Seq<T>| #[trigger] follows(self.history@, p) implies self.progress(
                    task,
                    p,
                ) by {
                    lemma_follows_push(old_run.history@, e, p);
                    assert(old_run.progress(task, p));
                    assert forall|j: int| 0 <= j < self.out@.len() implies (#[trigger] self.out@[j])@ == memo_entry(
                        p,
                        ms,
                        j,
                    ) by {
                        if j < k {
                            assert(self.out@[j] == old_run.out@[j]);
                        }
                    }
                }
            }
        }
    }

    /// The solution: entry `0` is the whole chain multiplied left to right, entry `i > 0`
    /// the suffix from `i` (right to left) times the prefix before `i` (left to right),
    /// by whatever product every delivered multiply was.
    pub fn finish(self, task: &Task<T>) -> (s: Solution<T>)
        requires
            self.inv(task),
            self.done(),
        ensures
            s.0@.len() == task@.len(),
            forall|j: int| 0 <= j < task@.len() ==> (#[trigger] s.0@[j]).wf() && s.0@[j].dim() == task.dim(),
            forall|p: spec_fn(Seq<T>, Seq<T>) -> Seq<T>| #[trigger] follows(self.history(), p) ==> forall|j: int|
                0 <= j < task@.len() ==> (#[trigger] s.0@[j])@ == memo_entry(p, task@, j),
    {
        proof {
            assert forall|p: spec_fn(Seq<T>, Seq<T>) -> Seq<T>| #[trigger] follows(self.history(), p) implies forall|j: int|
                0 <= j < task@.len() ==> (#[trigger] self.out@[j])@ == memo_entry(p, task@, j) by {
                assert(self.progress(task, p));
            }
        }
        Solution(self.out)
    }
}

/// A chain of buffers of length `size` multiplies out to a buffer of length `size`.
proof fn lemma_chain_len<T>(p: spec_fn(Seq<T>, Seq<T>) -> Seq<T>, size: nat, ms: Seq<Seq<T>>)
    requires
        associative_on(p, size),
        ms.len() >= 1,
        forall|i: int| 0 <= i < ms.len() ==> (#[trigger] ms[i]).len() == size,
    ensures
        chain(p, ms).len() == size,
        chain_right(p, ms).len() == size,
    decreases ms.len(),
{
    if ms.len() > 1 {
        lemma_chain_len(p, size, ms.drop_last());
        lemma_chain_len(p, size, ms.drop_first());
    }
}

/// Under associativity a chain splits at any point: `chain(a + b) == p(chain(a), chain(b))`.
proof fn lemma_chain_concat<T>(p: spec_fn(Seq<T>, Seq<T>) -> Seq<T>, size: nat, a: Seq<Seq<T>>, b: Seq<Seq<T>>)
    requires
        associative_on(p, size),
        a.len() >= 1,
        b.len() >= 1,
        forall|i: int| 0 <= i < a.len() ==> (#[trigger] a[i]).len() == size,
        forall|i: int| 0 <= i < b.len() ==> (#[trigger] b[i]).len() == size,
    ensures
        chain(p, a + b) == p(chain(p, a), chain(p, b)),
    decreases b.len(),
{
    lemma_chain_len(p, size, a);
    if b.len() == 1 {
        assert((a + b).drop_last() =~= a);
    } else {
        let b0 = b.drop_last();
        assert((a + b).drop_last() =~= a + b0);
        lemma_chain_concat(p, size, a, b0);
        lemma_chain_len(p, size, b0);
    }
}

/// Under associativity the two orders of multiplying a chain agree.
proof fn lemma_chain_orders<T>(p: spec_fn(Seq<T>, Seq<T>) -> Seq<T>, size: nat, ms: Seq<Seq<T>>)
    requires
        associative_on(p, size),
        ms.len() >= 1,
        forall|i: int| 0 <= i < ms.len() ==> (#[trigger] ms[i]).len() == size,
    ensures
        chain(p, ms) == chain_right(p, ms),
    decreases ms.len(),
{
    if ms.len() > 1 {
        let rest = ms.drop_first();
        lemma_chain_orders(p, size, rest);
        assert(seq![ms[0]] + rest =~= ms);
        lemma_chain_concat(p, size, seq![ms[0]], rest);
    }
}

/// The naive and the memoizing solve agree entry by entry whenever the product is
/// associative on the task's matrices: the rotation from `i` multiplied left to right
/// equals the suffix from `i` times the prefix before `i`.
pub proof fn lemma_solvers_agree<T>(p: spec_fn(Seq<T>, Seq<T>) -> Seq<T>, task: Task<T>)
    requires
        task.wf(),
        associative_on(p, task.dim() * task.dim()),
    ensures
        forall|i: int| 0 <= i < task@.len() ==> #[trigger] chain(p, rotation(task@, i)) == memo_entry(p, task@, i),
{
    task.lemma_wf();
    let size = task.dim() * task.dim();
    let ms = task@;
    let len = ms.len() as int;
    assert forall|i: int| 0 <= i < len implies #[trigger] chain(p, rotation(ms, i)) == memo_entry(p, ms, i) by {
        let suffix = ms.subrange(i, len);
        let prefix = ms.subrange(0, i);
        if i == 0 {
            assert forall|k: int| 0 <= k < len implies rotation(ms, 0)[k] == ms[k] by {
                vstd::arithmetic::div_mod::lemma_small_mod(k as nat, len as nat);
            }
            assert(rotation(ms, 0) =~= ms);
        } else {
            assert forall|k: int| 0 <= k < len implies rotation(ms, i)[k] == (suffix + prefix)[k] by {
                if k < len - i {
                    vstd::arithmetic::div_mod::lemma_small_mod((i + k) as nat, len as nat);
                } else {
                    vstd::arithmetic::div_mod::lemma_mod_add_multiples_vanish(i + k - len, len);
                    vstd::arithmetic::div_mod::lemma_small_mod((i + k - len) as nat, len as nat);
                }
            }
            assert(rotation(ms, i) =~= suffix + prefix);
            lemma_chain_concat(p, size, suffix, prefix);
            lemma_chain_orders(p, size, suffix);
        }
    }
}

} // verus!
