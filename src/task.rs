use vstd::prelude::*;

use crate::util::sqrt;

verus! {

pub open spec fn square(k: nat) -> nat {
    k * k
}

/// `len` is the square of a natural number.
pub open spec fn is_square(len: nat) -> bool {
    exists|k: nat| #[trigger] square(k) == len
}

/// Why a buffer or a list of matrices cannot become a matrix or a task.
#[derive(Clone, Copy, Debug, PartialEq, Eq, Structural)]
pub enum ShapeError {
    /// A flat buffer whose length (carried) is not a perfect square.
    NotSquare(usize),
    /// A task needs at least one matrix.
    Empty,
    /// The matrix at this position has another dimension than the first one.
    DimensionMismatch(usize),
}

/// A square matrix stored column-major: element `(row, col)` sits at `col * n + row`.
#[derive(Clone, Debug)]
pub struct Matrix<T> {
    n: usize,
    values: Vec<T>,
}

impl<T> View for Matrix<T> {
    type V = Seq<T>;

    closed spec fn view(&self) -> Seq<T> {
        self.values@
    }
}

impl<T> Matrix<T> {
    /// The dimension `n` of the matrix.
    pub closed spec fn dim(&self) -> nat {
        self.n as nat
    }

    /// The buffer holds exactly `n * n` values.
    pub open spec fn wf(&self) -> bool {
        self@.len() == self.dim() * self.dim()
    }

    pub fn n(&self) -> (r: usize)
        ensures
            r == self.dim(),
    {
        self.n
    }

    pub fn as_slice(&self) -> (r: &[T])
        ensures
            r@ == self@,
    {
        self.values.as_slice()
    }

    pub fn len(&self) -> (r: usize)
        ensures
            r == self@.len(),
    {
        self.values.len()
    }

    /// A matrix over a flat column-major buffer, whose length must be a perfect square.
    pub fn from_vec(vec: Vec<T>) -> (r: Result<Self, ShapeError>)
        ensures
            is_square(vec@.len()) <==> r is Ok,
            r matches Ok(m) ==> m@ == vec@ && m.wf(),
            r matches Err(e) ==> e == ShapeError::NotSquare(vec@.len() as usize),
    {
        let len = vec.len();
        let n = sqrt(len);
        if len == n * n {
            assert(square(n as nat) == len);
            Ok(Matrix { n, values: vec })
        } else {
            proof {
                lemma_not_square(len as nat, n as nat);
            }
            Err(ShapeError::NotSquare(len))
        }
    }

    /// The value at a flat (column-major) position.
    pub fn get(&self, index: usize) -> (r: &T)
        requires
            index < self@.len(),
        ensures
            *r == self@[index as int],
    {
        &self.values[index]
    }

    /// Overwrites the value at a flat (column-major) position.
    pub fn set(&mut self, index: usize, value: T)
        requires
            index < old(self)@.len(),
        ensures
            final(self)@ == old(self)@.update(index as int, value),
            final(self).dim() == old(self).dim(),
    {
        self.values.set(index, value);
    }
}

impl<T: Copy> Matrix<T> {
    /// A copy of the matrix, value for value.
    pub fn duplicate(&self) -> (r: Self)
        ensures
            r@ == self@,
            r.dim() == self.dim(),
    {
        let mut values: Vec<T> = Vec::with_capacity(self.values.len());
        let mut i: usize = 0;
        while i < self.values.len()
            invariant
                i <= self.values@.len(),
                values@ == self.values@.subrange(0, i as int),
            decreases self.values@.len() - i,
        {
            values.push(self.values[i]);
            i = i + 1;
        }
        assert(values@ =~= self.values@);
        Matrix { n: self.n, values }
    }
}

/// Squares of distinct naturals differ.
pub proof fn lemma_square_injective(x: nat, y: nat)
    requires
        square(x) == square(y),
    ensures
        x == y,
{
    if x < y {
        assert(square(x) < square(y)) by (nonlinear_arith)
            requires x < y;
    } else if y < x {
        assert(square(y) < square(x)) by (nonlinear_arith)
            requires y < x;
    }
}

/// With `r * r <= len < (r + 1) * (r + 1)` and `len != r * r`, no square equals `len`.
proof fn lemma_not_square(len: nat, r: nat)
    requires
        r * r <= len,
        len < (r + 1) * (r + 1),
        len != r * r,
    ensures
        !is_square(len),
{
    assert forall|k: nat| #[trigger] square(k) != len by {
        if k <= r {
            assert(k * k <= r * r) by (nonlinear_arith)
                requires k <= r;
        } else {
            assert(k * k >= (r + 1) * (r + 1)) by (nonlinear_arith)
                requires k >= r + 1;
        }
    }
}

/// An ordered, non-empty list of matrices of one shared dimension.
#[derive(Clone, Debug)]
pub struct Task<T> {
    n: usize,
    matrices: Vec<Matrix<T>>,
}

impl<T> View for Task<T> {
    type V = Seq<Seq<T>>;

    closed spec fn view(&self) -> Seq<Seq<T>> {
        self.matrices@.map_values(|m: Matrix<T>| m@)
    }
}

impl<T> Task<T> {
    /// The dimension shared by all matrices of the task.
    pub closed spec fn dim(&self) -> nat {
        self.n as nat
    }

    /// At least one matrix, each of them `n × n`.
    pub closed spec fn wf(&self) -> bool {
        &&& self.matrices@.len() >= 1
        &&& forall|i: int|
            0 <= i < self.matrices@.len() ==> (#[trigger] self.matrices@[i]).wf()
                && self.matrices@[i].dim() == self.n
    }

    /// What holds of a well-formed task, in terms of its view.
    pub proof fn lemma_wf(&self)
        requires
            self.wf(),
        ensures
            self@.len() >= 1,
            forall|i: int| 0 <= i < self@.len() ==> (#[trigger] self@[i]).len() == self.dim() * self.dim(),
    {
    }

    /// A task over the matrices, which must be at least one and share their dimension.
    pub fn from_vec(matrices: Vec<Matrix<T>>) -> (r: Result<Self, ShapeError>)
        requires
            forall|i: int| 0 <= i < matrices@.len() ==> (#[trigger] matrices@[i]).wf(),
        ensures
            matrices@.len() == 0 <==> r == Err::<Self, _>(ShapeError::Empty),
            r matches Ok(t) ==> t.wf() && t.dim() == matrices@[0].dim()
                && t@ == matrices@.map_values(|m: Matrix<T>| m@),
            r matches Err(ShapeError::DimensionMismatch(i)) ==> 0 < i < matrices@.len()
                && matrices@[i as int].dim() != matrices@[0].dim()
                && forall|j: int| 0 <= j < i ==> (#[trigger] matrices@[j]).dim() == matrices@[0].dim(),
            r matches Err(e) ==> (e is Empty || e is DimensionMismatch),
            (matrices@.len() > 0 && forall|j: int| 0 <= j < matrices@.len()
                ==> (#[trigger] matrices@[j]).dim() == matrices@[0].dim()) <==> r is Ok,
    {
        if matrices.len() == 0 {
            return Err(ShapeError::Empty);
        }
        let n = matrices[0].n();
        let mut i: usize = 1;
        while i < matrices.len()
            invariant
                1 <= i <= matrices@.len(),
                n == matrices@[0].dim(),
                forall|j: int| 0 <= j < i ==> (#[trigger] matrices@[j]).dim() == n,
            decreases matrices@.len() - i,
        {
            if matrices[i].n() != n {
                return Err(ShapeError::DimensionMismatch(i));
            }
            i = i + 1;
        }
        Ok(Task { n, matrices })
    }

    pub fn n(&self) -> (r: usize)
        ensures
            r == self.dim(),
    {
        self.n
    }

    pub fn matrices(&self) -> (r: &[Matrix<T>])
        requires
            self.wf(),
        ensures
            r@.len() == self@.len(),
            forall|i: int| 0 <= i < r@.len() ==> (#[trigger] r@[i])@ == self@[i]
                && r@[i].wf() && r@[i].dim() == self.dim(),
    {
        self.matrices.as_slice()
    }
}

/// One matrix per task entry: entry `i` is the rotated chain product starting at `i`.
#[derive(Clone, Debug)]
pub struct Solution<T>(pub Vec<Matrix<T>>);

impl<T> Solution<T> {
    pub fn len(&self) -> (r: usize)
        ensures
            r == self.0@.len(),
    {
        self.0.len()
    }

    pub fn get(&self, index: usize) -> (r: &Matrix<T>)
        requires
            index < self.0@.len(),
        ensures
            *r == self.0@[index as int],
    {
        &self.0[index]
    }
}

} // verus!
