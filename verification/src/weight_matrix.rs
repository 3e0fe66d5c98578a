//! The square matrix of coupling strengths.

use crate::scalar::Scalar;
use vstd::prelude::*;

verus! {

/// A square matrix of weights, row by row. Entry `(i, j)` is the strength with
/// which unit `j` acts on unit `i`.
#[derive(Debug)]
pub struct WeightMatrix {
    pub rows: Vec<Vec<Scalar>>,
}

impl View for WeightMatrix {
    type V = Seq<Seq<Scalar>>;

    /// The rows of the matrix, each with its entries.
    open spec fn view(&self) -> Seq<Seq<Scalar>> {
        Seq::new(self.rows@.len(), |i: int| self.rows@[i]@)
    }
}

impl Clone for WeightMatrix {
    /// A matrix of its own with the same entries.
    fn clone(&self) -> (copy: WeightMatrix)
        ensures
            copy@ == self@,
            copy.wf() == self.wf(),
            copy.dim() == self.dim(),
    {
        let mut rows: Vec<Vec<Scalar>> = Vec::new();
        let mut i: usize = 0;
        while i < self.rows.len()
            invariant
                i <= self.rows.len(),
                rows.len() == i,
                forall|r: int| 0 <= r < i ==> (#[trigger] rows[r])@ == self.rows[r]@,
            decreases self.rows.len() - i,
        {
            let mut row: Vec<Scalar> = Vec::new();
            let mut j: usize = 0;
            while j < self.rows[i].len()
                invariant
                    i < self.rows.len(),
                    j <= self.rows[i as int].len(),
                    row.len() == j,
                    forall|c: int| 0 <= c < j ==> row[c] == self.rows[i as int][c],
                decreases self.rows[i as int].len() - j,
            {
                row.push(self.rows[i][j]);
                j += 1;
            }
            assert(row@ =~= self.rows[i as int]@);
            rows.push(row);
            i += 1;
        }
        let copy = WeightMatrix { rows };
        assert(copy@ =~= self@);
        proof {
            assert forall|r: int| 0 <= r < copy.rows@.len() implies (#[trigger] copy.rows@[r]).len()
                == self.rows@[r].len() by {
                assert(copy.rows@[r]@ == self.rows@[r]@);
            }
            if self.wf() {
                assert forall|r: int| 0 <= r < copy.rows@.len() implies (#[trigger] copy.rows@[r]).len()
                    == copy.rows@.len() by {
                    assert(self.rows@[r].len() == self.rows@.len());
                }
            }
            if copy.wf() {
                assert forall|r: int| 0 <= r < self.rows@.len() implies (#[trigger] self.rows@[r]).len()
                    == self.rows@.len() by {
                    assert(copy.rows@[r].len() == copy.rows@.len());
                }
            }
        }
        copy
    }
}

/// Whether every one of the rows is as long as there are rows.
pub open spec fn square(rows: Seq<Vec<Scalar>>) -> bool {
    forall|i: int| 0 <= i < rows.len() ==> (#[trigger] rows[i]).len() == rows.len()
}

impl WeightMatrix {
    /// The matrix is square.
    pub open spec fn wf(&self) -> bool {
        square(self.rows@)
    }

    /// The number of rows, which is the number of columns.
    pub open spec fn dim(&self) -> nat {
        self.rows@.len()
    }

    /// The weight in row `i`, column `j`.
    pub open spec fn entry(&self, i: int, j: int) -> Scalar {
        self.rows@[i]@[j]
    }

    /// The matrix of the given dimension with `0.0` everywhere.
    pub fn zeros(dimension: usize) -> (matrix: WeightMatrix)
        ensures
            matrix.wf(),
            matrix.dim() == dimension,
            forall|i: int, j: int|
                0 <= i < dimension && 0 <= j < dimension ==> matrix.entry(i, j) == (Scalar { bits: 0 }),
    {
        let mut rows: Vec<Vec<Scalar>> = Vec::new();
        let mut i: usize = 0;
        while i < dimension
            invariant
                i <= dimension,
                rows.len() == i,
                forall|r: int| 0 <= r < i ==> (#[trigger] rows[r]).len() == dimension,
                forall|r: int, c: int|
                    0 <= r < i && 0 <= c < dimension ==> rows[r][c] == (Scalar { bits: 0 }),
            decreases dimension - i,
        {
            let mut row: Vec<Scalar> = Vec::new();
            let mut j: usize = 0;
            while j < dimension
                invariant
                    j <= dimension,
                    row.len() == j,
                    forall|c: int| 0 <= c < j ==> row[c] == (Scalar { bits: 0 }),
                decreases dimension - j,
            {
                row.push(Scalar::zero());
                j += 1;
            }
            rows.push(row);
            i += 1;
        }
        WeightMatrix { rows }
    }

    /// The matrix of the given dimension whose entries are the given values,
    /// column after column: entry `(i, j)` is `values[j * dimension + i]`.
    pub fn from_column_major(values: &Vec<Scalar>, dimension: usize) -> (matrix: WeightMatrix)
        requires
            values.len() == dimension * dimension,
        ensures
            matrix.wf(),
            matrix.dim() == dimension,
            forall|i: int, j: int|
                0 <= i < dimension && 0 <= j < dimension ==> #[trigger] matrix.entry(i, j) == values[j
                    * dimension + i],
    {
        let mut rows: Vec<Vec<Scalar>> = Vec::new();
        let mut i: usize = 0;
        while i < dimension
            invariant
                i <= dimension,
                values.len() == dimension * dimension,
                rows.len() == i,
                forall|r: int| 0 <= r < i ==> (#[trigger] rows[r]).len() == dimension,
                forall|r: int, c: int|
                    0 <= r < i && 0 <= c < dimension ==> #[trigger] rows[r][c] == values[c * dimension + r],
            decreases dimension - i,
        {
            let mut row: Vec<Scalar> = Vec::new();
            let mut j: usize = 0;
            while j < dimension
                invariant
                    i < dimension,
                    j <= dimension,
                    values.len() == dimension * dimension,
                    row.len() == j,
                    forall|c: int| 0 <= c < j ==> #[trigger] row[c] == values[c * dimension + i],
                decreases dimension - j,
            {
                proof {
                    lemma_column_major_place(i as int, j as int, dimension as int);
                }
                row.push(values[j * dimension + i]);
                j += 1;
            }
            rows.push(row);
            i += 1;
        }
        WeightMatrix { rows }
    }

    /// The matrix with the given rows, where they make a square.
    pub fn from_rows(rows: Vec<Vec<Scalar>>) -> (matrix: Option<WeightMatrix>)
        ensures
            matrix.is_some() == square(rows@),
            matrix.is_some() ==> matrix.unwrap().rows == rows,
    {
        let n = rows.len();
        let mut i: usize = 0;
        while i < n
            invariant
                n == rows.len(),
                i <= n,
                forall|r: int| 0 <= r < i ==> (#[trigger] rows[r]).len() == n,
            decreases n - i,
        {
            if rows[i].len() != n {
                return None;
            }
            i += 1;
        }
        Some(WeightMatrix { rows })
    }

    /// The number of rows.
    pub fn dimension(&self) -> (n: usize)
        ensures
            n == self.dim(),
    {
        self.rows.len()
    }

    /// The weight in row `i`, column `j`.
    pub fn get(&self, i: usize, j: usize) -> (value: Scalar)
        requires
            self.wf(),
            i < self.dim(),
            j < self.dim(),
        ensures
            value == self.entry(i as int, j as int),
    {
        self.rows[i][j]
    }

    /// Replaces one entry and leaves the others.
    pub fn set(&mut self, i: usize, j: usize, value: Scalar)
        requires
            old(self).wf(),
            i < old(self).dim(),
            j < old(self).dim(),
        ensures
            final(self).wf(),
            final(self).dim() == old(self).dim(),
            forall|r: int, c: int|
                0 <= r < old(self).dim() && 0 <= c < old(self).dim() ==> final(self).entry(r, c) == (if r == i
                    && c == j {
                    value
                } else {
                    old(self).entry(r, c)
                }),
    {
        self.rows[i].set(j, value);
    }

    /// Sets every entry of the main diagonal to `value`.
    pub fn fill_diagonal(&mut self, value: Scalar)
        requires
            old(self).wf(),
        ensures
            final(self).wf(),
            final(self).dim() == old(self).dim(),
            forall|r: int, c: int|
                0 <= r < old(self).dim() && 0 <= c < old(self).dim() ==> final(self).entry(r, c) == (if r == c {
                    value
                } else {
                    old(self).entry(r, c)
                }),
    {
        let n = self.rows.len();
        let mut i: usize = 0;
        while i < n
            invariant
                i <= n,
                self.wf(),
                self.dim() == n,
                old(self).dim() == n,
                forall|r: int, c: int|
                    0 <= r < n && 0 <= c < n ==> self.entry(r, c) == (if r == c && r < i {
                        value
                    } else {
                        old(self).entry(r, c)
                    }),
            decreases n - i,
        {
            self.set(i, i, value);
            i += 1;
        }
    }

    /// Copies the part above the main diagonal onto the part below it: entry
    /// `(i, j)` with `i > j` becomes what entry `(j, i)` is. The diagonal and
    /// the part above it stay.
    pub fn fill_lower_triangle_with_upper_triangle(&mut self)
        requires
            old(self).wf(),
        ensures
            final(self).wf(),
            final(self).dim() == old(self).dim(),
            forall|r: int, c: int|
                0 <= r < old(self).dim() && 0 <= c < old(self).dim() ==> final(self).entry(r, c) == (if r > c {
                    old(self).entry(c, r)
                } else {
                    old(self).entry(r, c)
                }),
            final(self).symmetric(),
    {
        let n = self.rows.len();
        let mut j: usize = 0;
        while j < n
            invariant
                j <= n,
                self.wf(),
                self.dim() == n,
                old(self).dim() == n,
                forall|r: int, c: int|
                    0 <= r < n && 0 <= c < n ==> self.entry(r, c) == (if r > c && c < j {
                        old(self).entry(c, r)
                    } else {
                        old(self).entry(r, c)
                    }),
            decreases n - j,
        {
            let mut i: usize = j + 1;
            while i < n
                invariant
                    j < n,
                    j < i <= n,
                    self.wf(),
                    self.dim() == n,
                    old(self).dim() == n,
                    forall|r: int, c: int|
                        0 <= r < n && 0 <= c < n ==> self.entry(r, c) == (if r > c && (c < j || (c == j && r
                            < i)) {
                            old(self).entry(c, r)
                        } else {
                            old(self).entry(r, c)
                        }),
                decreases n - i,
            {
                let above = self.get(j, i);
                self.set(i, j, above);
                i += 1;
            }
            j += 1;
        }
    }
}

/// The place of entry `(i, j)` in the column-major values of a matrix lies
/// within them.
proof fn lemma_column_major_place(i: int, j: int, dimension: int)
    requires
        0 <= i < dimension,
        0 <= j < dimension,
    ensures
        0 <= j * dimension,
        0 <= j * dimension + i < dimension * dimension,
{
    assert(0 <= j * dimension) by (nonlinear_arith)
        requires
            0 <= j,
            0 <= dimension,
    ;
    assert(j * dimension + dimension <= dimension * dimension) by (nonlinear_arith)
        requires
            0 <= j,
            j + 1 <= dimension,
    ;
}

impl WeightMatrix {
    /// `W[i][j] == W[j][i]` for every pair of units.
    pub open spec fn symmetric(&self) -> bool {
        forall|i: int, j: int|
            0 <= i < self.dim() && 0 <= j < self.dim() ==> self.entry(i, j) == self.entry(j, i)
    }

    /// `W[i][i]` is `0.0` for every unit.
    pub open spec fn zero_diagonal(&self) -> bool {
        forall|i: int| 0 <= i < self.dim() ==> self.entry(i, i) == (Scalar { bits: 0 })
    }
}

} // verus!
