//! Matrices of secp256k1 scalars: the linear algebra of Birkhoff interpolation over the
//! scalar field of the curve.

use vstd::prelude::*;
use vstd::arithmetic::div_mod::*;
use vstd::arithmetic::mul::*;
use crate::scalar::{Scalar, NonZeroScalar, group_order, lemma_scalar_range};
use crate::birkhoff_error::{BirkhoffError, BirkhoffResult};
use crate::linalg::{dot, mat_mul, transpose, identity, is_rect, mat_cong, cong, mod_cells, swap_rows,
    norm, row_axpy, lower_exact, invertible_mod, col_axpy, col_swap, lemma_norm, lemma_mul_identity_left,
    lemma_mul_row_axpy, lemma_mul_swap, lemma_left_inverse_axpy, lemma_left_inverse_swap,
    lemma_cong_row_axpy, lemma_cong_swap, lemma_mul_cong, lemma_mat_cong_refl, lemma_mat_cong_sym,
    lemma_mat_cong_trans, row_scale, diagonal_exact, lemma_inverse_by_factors, lemma_scale_back,
    lemma_transpose_cong, lemma_mod_cells_cong, lemma_mul_rect, lemma_transpose_rect, lemma_mul_assoc,
    lemma_mod_cells_of_cong, law_left_and_right_inverse_agree};
use crate::matrix::{is_pseudoinverse, invertible_matrix, stuck_at, elimination_stuck,
    lemma_invertible_not_stuck, lemma_triangular_factor_invertible};
use crate::integer::{lemma_cong_mul, lemma_cong_add, abs};

verus! {

/// Values of a row of scalars.
pub open spec fn scalar_row(v: Seq<Scalar>) -> Seq<int> {
    Seq::new(v.len(), |i: int| v[i]@)
}

/// Values of a grid of scalars.
pub open spec fn scalar_grid(m: Seq<Vec<Scalar>>) -> Seq<Seq<int>> {
    Seq::new(m.len(), |i: int| scalar_row(m[i]@))
}

/// A matrix of secp256k1 scalars.
#[derive(PartialEq, Eq, Debug)]
pub struct BirkhoffMatrix {
    cells: Vec<Vec<Scalar>>,
}

impl BirkhoffMatrix {
    /// The entries.
    pub closed spec fn cells(&self) -> Seq<Seq<int>> {
        scalar_grid(self.cells@)
    }

    /// The number of rows.
    pub closed spec fn nrows(&self) -> nat {
        self.cells@.len()
    }

    /// The number of columns: the length of the first row.
    pub closed spec fn ncols(&self) -> nat {
        self.cells@[0]@.len()
    }

    /// At least one row, all rows of the same length.
    pub closed spec fn wf(&self) -> bool {
        &&& self.cells@.len() >= 1
        &&& forall|i: int| 0 <= i < self.cells@.len() ==> #[trigger] self.cells@[i]@.len() == self.cells@[0]@.len()
    }

    /// The entries of a well-formed matrix form an `nrows` x `ncols` rectangle of values
    /// below the group order.
    pub proof fn lemma_shape(&self)
        requires
            self.wf(),
        ensures
            is_rect(self.cells(), self.nrows(), self.ncols()),
            self.nrows() >= 1,
            forall|i: int, j: int|
                0 <= i < self.nrows() && 0 <= j < self.ncols() ==> 0 <= #[trigger] self.cells()[i][j]
                    < group_order(),
    {
        assert forall|i: int, j: int|
            0 <= i < self.nrows() && 0 <= j < self.ncols() implies 0 <= #[trigger] self.cells()[i][j]
            < group_order() by {
            lemma_scalar_range(self.cells@[i]@[j]);
        }
    }

    /// A matrix of `rows` rows of `cols` copies of `value`.
    pub fn new_with_size(rows: usize, cols: usize, value: Scalar) -> (r: BirkhoffMatrix)
        ensures
            r.nrows() == rows,
            rows > 0 ==> r.wf() && r.ncols() == cols,
            r.cells() == Seq::new(rows as nat, |i: int| Seq::new(cols as nat, |j: int| value@)),
    {
        let mut cells: Vec<Vec<Scalar>> = Vec::new();
        let mut i: usize = 0;
        while i < rows
            invariant
                i <= rows,
                cells@.len() == i,
                forall|a: int| 0 <= a < i ==> #[trigger] cells@[a]@.len() == cols,
                forall|a: int, b: int| 0 <= a < i && 0 <= b < cols ==> #[trigger] cells@[a]@[b]@ == value@,
            decreases rows - i,
        {
            let mut row: Vec<Scalar> = Vec::new();
            let mut j: usize = 0;
            while j < cols
                invariant
                    j <= cols,
                    row@.len() == j,
                    forall|b: int| 0 <= b < j ==> #[trigger] row@[b]@ == value@,
                decreases cols - j,
            {
                row.push(value.clone());
                j = j + 1;
            }
            cells.push(row);
            i = i + 1;
        }
        let r = BirkhoffMatrix { cells };
        proof {
            assert(r.cells() =~= Seq::new(rows as nat, |i: int| Seq::new(cols as nat, |j: int| value@))) by {
                assert forall|a: int| 0 <= a < rows implies #[trigger] r.cells()[a] =~= Seq::new(
                    cols as nat,
                    |j: int| value@,
                ) by {}
            }
        }
        r
    }

    /// A matrix with the given rows.
    pub fn new(cells: Vec<Vec<Scalar>>) -> (r: BirkhoffMatrix)
        ensures
            r.cells() == scalar_grid(cells@),
            r.nrows() == cells@.len(),
            cells@.len() > 0 ==> r.ncols() == cells@[0]@.len(),
            cells@.len() > 0 && (forall|i: int| 0 <= i < cells@.len() ==> #[trigger] cells@[i]@.len() == cells@[0]@.len()) ==> r.wf(),
    {
        BirkhoffMatrix { cells }
    }

    /// The number of rows.
    pub fn rows(&self) -> (r: usize)
        ensures
            r == self.nrows(),
    {
        self.cells.len()
    }

    /// The number of columns.
    pub fn cols(&self) -> (r: usize)
        requires
            self.nrows() >= 1,
        ensures
            r == self.ncols(),
    {
        self.cells[0].len()
    }

    /// The entry at `(row, col)`.
    pub fn get(&self, row: usize, col: usize) -> (r: Scalar)
        requires
            self.wf(),
            row < self.nrows(),
            col < self.ncols(),
        ensures
            r@ == self.cells()[row as int][col as int],
    {
        self.cells[row][col].clone()
    }

    /// A copy of row `row`, or `IndexOutOfBounds`.
    pub fn get_row(&self, row: usize) -> (res: BirkhoffResult<Vec<Scalar>>)
        requires
            self.nrows() >= 1,
        ensures
            row >= self.nrows() ==> res == BirkhoffResult::<Vec<Scalar>>::Err(
                BirkhoffError::IndexOutOfBounds { index: row, max_index: (self.nrows() - 1) as usize },
            ),
            row < self.nrows() ==> (res matches Ok(v) && scalar_row(v@) == self.cells()[row as int]),
    {
        if row >= self.rows() {
            return Err(BirkhoffError::IndexOutOfBounds { index: row, max_index: self.rows() - 1 });
        }
        Ok(clone_scalars(&self.cells[row]))
    }

    /// Row `row` as non-zero scalars, or `ZeroCoefficient` when one of them is zero.
    pub fn get_row_non_zero(&self, row: usize) -> (res: BirkhoffResult<Vec<NonZeroScalar>>)
        requires
            self.wf(),
            self.ncols() > 0 ==> row < self.nrows(),
        ensures
            res is Ok <==> forall|j: int| 0 <= j < self.ncols() ==> #[trigger] self.cells()[row as int][j] != 0,
            res is Err ==> res == BirkhoffResult::<Vec<NonZeroScalar>>::Err(BirkhoffError::ZeroCoefficient),
            res matches Ok(v) ==> v@.len() == self.ncols() && forall|j: int|
                0 <= j < self.ncols() ==> #[trigger] v@[j]@ == self.cells()[row as int][j],
    {
        let cols = self.cols();
        let mut result: Vec<NonZeroScalar> = Vec::new();
        let mut i: usize = 0;
        while i < cols
            invariant
                self.wf(),
                cols == self.ncols(),
                cols > 0 ==> row < self.nrows(),
                i <= cols,
                result@.len() == i,
                forall|j: int| 0 <= j < i ==> #[trigger] self.cells()[row as int][j] != 0,
                forall|j: int| 0 <= j < i ==> #[trigger] result@[j]@ == self.cells()[row as int][j],
            decreases cols - i,
        {
            let non_zero = NonZeroScalar::from_scalar(self.cells[row][i].clone());
            match non_zero {
                Some(v) => result.push(v),
                None => {
                    proof {
                        assert(self.cells()[row as int][i as int] == 0);
                    }
                    return Err(BirkhoffError::ZeroCoefficient);
                },
            }
            i = i + 1;
        }
        Ok(result)
    }

    /// The transpose.
    pub fn transpose(&self) -> (r: BirkhoffMatrix)
        requires
            self.wf(),
        ensures
            r.nrows() == self.ncols(),
            r.cells() == transpose(self.cells(), self.nrows(), self.ncols()),
            self.ncols() > 0 ==> r.wf() && r.ncols() == self.nrows(),
    {
        let rows = self.rows();
        let cols = self.cols();
        let mut t: Vec<Vec<Scalar>> = Vec::new();
        let mut j: usize = 0;
        while j < cols
            invariant
                self.wf(),
                rows == self.nrows(),
                cols == self.ncols(),
                j <= cols,
                t@.len() == j,
                forall|a: int| 0 <= a < j ==> #[trigger] t@[a]@.len() == rows,
                forall|a: int, b: int| 0 <= a < j && 0 <= b < rows ==> #[trigger] t@[a]@[b]@ == self.cells()[b][a],
            decreases cols - j,
        {
            let mut col: Vec<Scalar> = Vec::new();
            let mut i: usize = 0;
            while i < rows
                invariant
                    self.wf(),
                    rows == self.nrows(),
                    cols == self.ncols(),
                    j < cols,
                    i <= rows,
                    col@.len() == i,
                    forall|b: int| 0 <= b < i ==> #[trigger] col@[b]@ == self.cells()[b][j as int],
                decreases rows - i,
            {
                col.push(self.cells[i][j].clone());
                i = i + 1;
            }
            t.push(col);
            j = j + 1;
        }
        let r = BirkhoffMatrix { cells: t };
        proof {
            assert(r.cells() =~= transpose(self.cells(), self.nrows(), self.ncols())) by {
                assert forall|a: int| 0 <= a < cols implies #[trigger] r.cells()[a]
                    =~= transpose(self.cells(), self.nrows(), self.ncols())[a] by {}
            }
        }
        r
    }

    /// The product `self * other` modulo the group order, or `MatrixDimensionsMismatch` when
    /// the columns of `self` and the rows of `other` differ in number.
    pub fn multiply(&self, other: &BirkhoffMatrix) -> (res: BirkhoffResult<BirkhoffMatrix>)
        requires
            self.wf(),
            other.wf(),
        ensures
            self.ncols() != other.nrows() ==> res == BirkhoffResult::<BirkhoffMatrix>::Err(
                BirkhoffError::MatrixDimensionsMismatch {
                    self_rows: self.nrows() as usize,
                    self_cols: self.ncols() as usize,
                    other_rows: other.nrows() as usize,
                    other_cols: other.ncols() as usize,
                },
            ),
            self.ncols() == other.nrows() ==> (res matches Ok(m) && m.nrows() == self.nrows() && m.cells()
                == mod_cells(mat_mul(self.cells(), other.cells(), self.ncols(), other.ncols()), group_order())
                && (other.ncols() > 0 ==> m.wf() && m.ncols() == other.ncols())),
    {
        if self.cols() != other.rows() {
            return Err(
                BirkhoffError::MatrixDimensionsMismatch {
                    self_rows: self.rows(),
                    self_cols: self.cols(),
                    other_rows: other.rows(),
                    other_cols: other.cols(),
                },
            );
        }
        let ghost a = self.cells();
        let ghost b = other.cells();
        let ghost n = group_order();
        let rows = self.rows();
        let inner = self.cols();
        let cols = other.cols();
        let mut result: Vec<Vec<Scalar>> = Vec::new();
        let mut i: usize = 0;
        while i < rows
            invariant
                self.wf(),
                other.wf(),
                a == self.cells(),
                b == other.cells(),
                n == group_order(),
                rows == self.nrows(),
                inner == self.ncols(),
                inner == other.nrows(),
                cols == other.ncols(),
                i <= rows,
                result@.len() == i,
                forall|x: int| 0 <= x < i ==> #[trigger] result@[x]@.len() == cols,
                forall|x: int, y: int|
                    0 <= x < i && 0 <= y < cols ==> #[trigger] result@[x]@[y]@ == dot(a[x], b, y, inner as nat) % n,
            decreases rows - i,
        {
            let mut row: Vec<Scalar> = Vec::new();
            let mut j: usize = 0;
            while j < cols
                invariant
                    self.wf(),
                    other.wf(),
                    a == self.cells(),
                    b == other.cells(),
                    n == group_order(),
                    rows == self.nrows(),
                    inner == self.ncols(),
                    inner == other.nrows(),
                    cols == other.ncols(),
                    i < rows,
                    j <= cols,
                    row@.len() == j,
                    forall|y: int| 0 <= y < j ==> #[trigger] row@[y]@ == dot(a[i as int], b, y, inner as nat) % n,
                decreases cols - j,
            {
                let mut sum = Scalar::zero();
                let mut k: usize = 0;
                proof {
                    lemma_small_mod(0, n as nat);
                }
                while k < inner
                    invariant
                        self.wf(),
                        other.wf(),
                        a == self.cells(),
                        b == other.cells(),
                        n == group_order(),
                        rows == self.nrows(),
                        inner == self.ncols(),
                        inner == other.nrows(),
                        cols == other.ncols(),
                        i < rows,
                        j < cols,
                        k <= inner,
                        sum@ == dot(a[i as int], b, j as int, k as nat) % n,
                    decreases inner - k,
                {
                    let prod = self.cells[i][k].times(&other.cells[k][j]);
                    proof {
                        let d = dot(a[i as int], b, j as int, k as nat);
                        let p = a[i as int][k as int] * b[k as int][j as int];
                        lemma_add_mod_noop(d, p, n);
                        lemma_mod_twice(d, n);
                        lemma_mod_twice(p, n);
                        lemma_add_mod_noop(d % n, p % n, n);
                    }
                    sum = sum.plus(&prod);
                    k = k + 1;
                }
                row.push(sum);
                j = j + 1;
            }
            result.push(row);
            i = i + 1;
        }
        let m = BirkhoffMatrix { cells: result };
        proof {
            let c = mat_mul(a, b, inner as nat, cols as nat);
            assert forall|x: int, y: int| 0 <= x < rows && 0 <= y < cols implies #[trigger] mod_cells(c, n)[x][y] == m.cells()[x][y] by {
                lemma_norm(c[x][y], n);
            }
            assert(m.cells() =~= mod_cells(c, n)) by {
                assert forall|x: int| 0 <= x < rows implies #[trigger] m.cells()[x] =~= mod_cells(c, n)[x] by {}
            }
        }
        Ok(m)
    }
}

impl BirkhoffMatrix {
    /// Whether the matrix has as many columns as rows.
    pub fn is_square(&self) -> (r: bool)
        requires
            self.nrows() >= 1,
        ensures
            r == (self.ncols() == self.nrows()),
    {
        self.cols() == self.rows()
    }

    /// Whether the matrix is square with zeros off its diagonal.
    pub fn is_diagonal(&self) -> (r: bool)
        requires
            self.wf(),
        ensures
            r == (self.ncols() == self.nrows() && forall|i: int, j: int|
                0 <= i < self.nrows() && 0 <= j < self.nrows() && i != j ==> #[trigger] self.cells()[i][j]
                    == 0),
    {
        if !self.is_square() {
            return false;
        }
        let n = self.rows();
        let zero = Scalar::zero();
        let mut i: usize = 0;
        while i < n
            invariant
                self.wf(),
                n == self.nrows(),
                n == self.ncols(),
                zero@ == 0,
                i <= n,
                forall|a: int, b: int| 0 <= a < i && 0 <= b < n && a != b ==> #[trigger] self.cells()[a][b] == 0,
            decreases n - i,
        {
            let mut j: usize = 0;
            while j < n
                invariant
                    self.wf(),
                    n == self.nrows(),
                    n == self.ncols(),
                    zero@ == 0,
                    i < n,
                    j <= n,
                    forall|a: int, b: int| 0 <= a < i && 0 <= b < n && a != b ==> #[trigger] self.cells()[a][b] == 0,
                    forall|b: int| 0 <= b < j && i != b ==> #[trigger] self.cells()[i as int][b] == 0,
                decreases n - j,
            {
                if i != j && !self.cells[i][j].equals(&zero) {
                    proof {
                        assert(self.cells()[i as int][j as int] != 0);
                    }
                    return false;
                }
                j = j + 1;
            }
            i = i + 1;
        }
        true
    }

    /// Whether the matrix is the identity.
    pub fn is_identity(&self) -> (r: bool)
        requires
            self.wf(),
        ensures
            r == (self.ncols() == self.nrows() && self.cells() == identity(self.nrows())),
    {
        if !self.is_square() {
            proof {
                if self.cells() == identity(self.nrows()) {
                    assert(self.cells()[0].len() == self.nrows());
                }
            }
            return false;
        }
        let n = self.rows();
        let zero = Scalar::zero();
        let one = Scalar::one();
        let mut i: usize = 0;
        while i < n
            invariant
                self.wf(),
                n == self.nrows(),
                n == self.ncols(),
                zero@ == 0,
                one@ == 1,
                i <= n,
                forall|a: int, b: int| 0 <= a < i && 0 <= b < n ==> #[trigger] self.cells()[a][b] == identity(n as nat)[a][b],
            decreases n - i,
        {
            let mut j: usize = 0;
            while j < n
                invariant
                    self.wf(),
                    n == self.nrows(),
                    n == self.ncols(),
                    zero@ == 0,
                    one@ == 1,
                    i < n,
                    j <= n,
                    forall|a: int, b: int| 0 <= a < i && 0 <= b < n ==> #[trigger] self.cells()[a][b] == identity(n as nat)[a][b],
                    forall|b: int| 0 <= b < j ==> #[trigger] self.cells()[i as int][b] == identity(n as nat)[i as int][b],
                decreases n - j,
            {
                if (i != j && !self.cells[i][j].equals(&zero)) || (i == j && !self.cells[i][j].equals(&one)) {
                    proof {
                        assert(self.cells()[i as int][j as int] != identity(n as nat)[i as int][j as int]);
                    }
                    return false;
                }
                j = j + 1;
            }
            i = i + 1;
        }
        proof {
            self.lemma_shape();
            assert(self.cells() =~= identity(n as nat)) by {
                assert forall|a: int| 0 <= a < n implies #[trigger] self.cells()[a] =~= identity(n as nat)[a] by {}
            }
        }
        true
    }

    /// The identity matrix of size `rank`.
    pub fn create_identity_matrix(rank: usize) -> (r: BirkhoffMatrix)
        ensures
            r.nrows() == rank,
            r.cells() == identity(rank as nat),
            rank > 0 ==> r.wf() && r.ncols() == rank,
    {
        let mut cells: Vec<Vec<Scalar>> = Vec::new();
        let mut i: usize = 0;
        while i < rank
            invariant
                i <= rank,
                cells@.len() == i,
                forall|a: int| 0 <= a < i ==> #[trigger] cells@[a]@.len() == rank,
                forall|a: int, b: int| 0 <= a < i && 0 <= b < rank ==> #[trigger] cells@[a]@[b]@ == identity(rank as nat)[a][b],
            decreases rank - i,
        {
            let mut row: Vec<Scalar> = Vec::new();
            let mut j: usize = 0;
            while j < rank
                invariant
                    i < rank,
                    j <= rank,
                    row@.len() == j,
                    forall|b: int| 0 <= b < j ==> #[trigger] row@[b]@ == identity(rank as nat)[i as int][b],
                decreases rank - j,
            {
                if i == j {
                    row.push(Scalar::one());
                } else {
                    row.push(Scalar::zero());
                }
                j = j + 1;
            }
            cells.push(row);
            i = i + 1;
        }
        let r = BirkhoffMatrix { cells };
        proof {
            assert(r.cells() =~= identity(rank as nat)) by {
                assert forall|a: int| 0 <= a < rank implies #[trigger] r.cells()[a] =~= identity(rank as nat)[a] by {}
            }
        }
        r
    }

    /// The first column, from `col` on, in which row `row` holds a non-zero entry.
    pub fn get_non_zero_coefficient_by_row(&self, row: usize, col: usize) -> (r: Option<usize>)
        requires
            self.wf(),
            col < self.ncols() ==> row < self.nrows(),
        ensures
            r matches Some(j) ==> col <= j < self.ncols() && self.cells()[row as int][j as int] != 0
                && forall|k: int| col <= k < j ==> #[trigger] self.cells()[row as int][k] == 0,
            r is None ==> forall|k: int| col <= k < self.ncols() ==> #[trigger] self.cells()[row as int][k] == 0,
    {
        let cols = self.cols();
        let zero = Scalar::zero();
        let mut j = col;
        while j < cols
            invariant
                self.wf(),
                cols == self.ncols(),
                col < cols ==> row < self.nrows(),
                zero@ == 0,
                col <= j,
                forall|k: int| col <= k < j && k < cols ==> #[trigger] self.cells()[row as int][k] == 0,
            decreases cols - j,
        {
            if !self.cells[row][j].equals(&zero) {
                return Some(j);
            }
            j = j + 1;
        }
        None
    }

    /// The first row, from `from_row` on, that holds a non-zero entry in column `col`.
    fn first_non_zero_in_column(&self, col: usize, from_row: usize) -> (r: Option<usize>)
        requires
            self.wf(),
            col < self.ncols(),
        ensures
            r matches Some(k) ==> from_row <= k < self.nrows() && self.cells()[k as int][col as int] != 0
                && forall|t: int| from_row <= t < k ==> #[trigger] self.cells()[t][col as int] == 0,
            r is None ==> forall|t: int| from_row <= t < self.nrows() ==> #[trigger] self.cells()[t][col as int] == 0,
    {
        let rows = self.rows();
        let zero = Scalar::zero();
        let mut k = from_row;
        proof {
            self.lemma_shape();
        }
        while k < rows
            invariant
                self.wf(),
                rows == self.nrows(),
                col < self.ncols(),
                is_rect(self.cells(), self.nrows(), self.ncols()),
                zero@ == 0,
                from_row <= k,
                forall|t: int| from_row <= t < k && t < rows ==> #[trigger] self.cells()[t][col as int] == 0,
            decreases rows - k,
        {
            if !self.cells[k][col].equals(&zero) {
                return Some(k);
            }
            k = k + 1;
        }
        None
    }

    /// A copy with rows `row1` and `row2` exchanged, or `IndexOutOfBounds` for the larger
    /// index when one of them is out of range.
    pub fn swap_rows(&self, row1: usize, row2: usize) -> (res: BirkhoffResult<BirkhoffMatrix>)
        requires
            self.nrows() >= 1,
        ensures
            (row1 >= self.nrows() || row2 >= self.nrows()) ==> res == BirkhoffResult::<BirkhoffMatrix>::Err(
                BirkhoffError::IndexOutOfBounds {
                    index: if row1 >= row2 { row1 } else { row2 },
                    max_index: (self.nrows() - 1) as usize,
                },
            ),
            (row1 < self.nrows() && row2 < self.nrows()) ==> (res matches Ok(m) && m.cells() == swap_rows(
                self.cells(),
                row1 as int,
                row2 as int,
            ) && m.nrows() == self.nrows() && (self.wf() ==> m.wf() && m.ncols() == self.ncols())),
    {
        if row1 >= self.rows() || row2 >= self.rows() {
            let index = if row1 >= row2 { row1 } else { row2 };
            return Err(BirkhoffError::IndexOutOfBounds { index, max_index: self.rows() - 1 });
        }
        let mut cells: Vec<Vec<Scalar>> = Vec::new();
        let mut i: usize = 0;
        while i < self.cells.len()
            invariant
                row1 < self.nrows(),
                row2 < self.nrows(),
                i <= self.cells@.len(),
                cells@.len() == i,
                forall|a: int| 0 <= a < i ==> #[trigger] scalar_row(cells@[a]@) == swap_rows(
                    self.cells(),
                    row1 as int,
                    row2 as int,
                )[a],
                forall|a: int| 0 <= a < i ==> #[trigger] cells@[a]@.len() == swap_rows(
                    self.cells(),
                    row1 as int,
                    row2 as int,
                )[a].len(),
            decreases self.cells@.len() - i,
        {
            let src = if i == row1 { row2 } else if i == row2 { row1 } else { i };
            cells.push(clone_scalars(&self.cells[src]));
            i = i + 1;
        }
        let m = BirkhoffMatrix { cells };
        proof {
            assert(m.cells() =~= swap_rows(self.cells(), row1 as int, row2 as int));
            if self.wf() {
                assert forall|a: int| 0 <= a < m.cells@.len() implies #[trigger] m.cells@[a]@.len()
                    == m.cells@[0]@.len() by {
                    assert(m.cells@[a]@.len() == m.cells()[a].len());
                    assert(m.cells@[0]@.len() == m.cells()[0].len());
                }
            }
        }
        Ok(m)
    }

    /// Each entry of `row` times `scalar`, modulo the group order.
    pub fn multiply_scalar(&self, row: &[Scalar], scalar: Scalar) -> (r: Vec<Scalar>)
        ensures
            r@.len() == row@.len(),
            forall|k: int| 0 <= k < row@.len() ==> #[trigger] r@[k]@ == (row@[k]@ * scalar@) % group_order(),
    {
        let mut r: Vec<Scalar> = Vec::new();
        let mut k: usize = 0;
        while k < row.len()
            invariant
                k <= row@.len(),
                r@.len() == k,
                forall|a: int| 0 <= a < k ==> #[trigger] r@[a]@ == (row@[a]@ * scalar@) % group_order(),
            decreases row@.len() - k,
        {
            r.push(row[k].times(&scalar));
            k = k + 1;
        }
        r
    }

    /// The entry-wise sum of two rows modulo the group order, or `RowsDifferentLengths`.
    pub fn add_rows(row1: &[Scalar], row2: &[Scalar]) -> (res: BirkhoffResult<Vec<Scalar>>)
        ensures
            row1@.len() != row2@.len() ==> res == BirkhoffResult::<Vec<Scalar>>::Err(
                BirkhoffError::RowsDifferentLengths { row1_len: row1@.len() as usize, row2_len: row2@.len() as usize },
            ),
            row1@.len() == row2@.len() ==> (res matches Ok(v) && v@.len() == row1@.len() && forall|k: int|
                0 <= k < row1@.len() ==> #[trigger] v@[k]@ == (row1@[k]@ + row2@[k]@) % group_order()),
    {
        if row1.len() != row2.len() {
            return Err(BirkhoffError::RowsDifferentLengths { row1_len: row1.len(), row2_len: row2.len() });
        }
        let mut r: Vec<Scalar> = Vec::new();
        let mut k: usize = 0;
        while k < row1.len()
            invariant
                row1@.len() == row2@.len(),
                k <= row1@.len(),
                r@.len() == k,
                forall|a: int| 0 <= a < k ==> #[trigger] r@[a]@ == (row1@[a]@ + row2@[a]@) % group_order(),
            decreases row1@.len() - k,
        {
            r.push(row1[k].plus(&row2[k]));
            k = k + 1;
        }
        Ok(r)
    }

    /// The inverse of the entry at `(row, col)`; `IndexOutOfBounds` for an index out of
    /// range, `ElementNotInvertible` for a zero entry.
    pub fn mod_inverse(&self, row: usize, col: usize) -> (res: BirkhoffResult<Scalar>)
        requires
            self.wf(),
            row < self.nrows() ==> self.ncols() >= 1,
        ensures
            row >= self.nrows() ==> res == BirkhoffResult::<Scalar>::Err(
                BirkhoffError::IndexOutOfBounds { index: row, max_index: (self.nrows() - 1) as usize },
            ),
            row < self.nrows() && col >= self.ncols() ==> res == BirkhoffResult::<Scalar>::Err(
                BirkhoffError::IndexOutOfBounds { index: col, max_index: (self.ncols() - 1) as usize },
            ),
            row < self.nrows() && col < self.ncols() && self.cells()[row as int][col as int] == 0 ==> res
                == BirkhoffResult::<Scalar>::Err(BirkhoffError::ElementNotInvertible { row, col }),
            row < self.nrows() && col < self.ncols() && self.cells()[row as int][col as int] != 0 ==> (res matches Ok(v)
                && (self.cells()[row as int][col as int] * v@) % group_order() == 1),
    {
        if row >= self.rows() {
            return Err(BirkhoffError::IndexOutOfBounds { index: row, max_index: self.rows() - 1 });
        }
        if col >= self.cols() {
            return Err(BirkhoffError::IndexOutOfBounds { index: col, max_index: self.cols() - 1 });
        }
        match self.cells[row][col].invert() {
            Some(inverse) => Ok(inverse),
            None => Err(BirkhoffError::ElementNotInvertible { row, col }),
        }
    }
}

/// `(x + (y * c) % n) % n == 0` for `c` the negation of `x` times an inverse of `y`: the
/// entry that an elimination step clears.
proof fn lemma_elimination_entry(x: int, y: int, v: int, n: int)
    requires
        n > 1,
        (y * v) % n == 1,
        0 <= x < n,
    ensures
        (x + (y * ((n - (x * v) % n) % n)) % n) % n == 0,
{
    let f = (x * v) % n;
    let c = (n - f) % n;
    // c is congruent to -(x v)
    lemma_mod_multiples_vanish(1, -f, n);
    assert(n - f == n * 1 + (-f));
    lemma_mod_twice(x * v, n);
    lemma_sub_mod_noop(0, x * v, n);
    lemma_sub_mod_noop(0, f, n);
    lemma_mod_twice(0, n);
    assert(c % n == (-(x * v)) % n) by {
        lemma_mod_twice(n - f, n);
    }
    // y c is congruent to -x
    lemma_cong_mul(y, y, c, -(x * v), n);
    assert(y * (-(x * v)) == -(x * (y * v))) by (nonlinear_arith);
    lemma_mul_mod_noop_right(x, y * v, n);
    lemma_small_mod(x as nat, n as nat);
    assert((x * (y * v)) % n == x);
    lemma_sub_mod_noop(0, x * (y * v), n);
    lemma_sub_mod_noop(0, x, n);
    assert((y * c) % n == (-x) % n);
    // x + y c is congruent to 0
    lemma_mod_twice(y * c, n);
    lemma_cong_add(x, x, (y * c) % n, -x, n);
    lemma_small_mod(0, n as nat);
}

/// `u` and `l` are the result of Gaussian elimination of the square matrix `a` of scalars:
/// `l * a` is congruent to `u` modulo the group order, `u` is upper triangular with non-zero
/// pivots, and `l` has a left inverse.
pub open spec fn scalar_gauss_result(a: Seq<Seq<int>>, n: nat, u: BirkhoffMatrix, l: BirkhoffMatrix) -> bool {
    &&& u.wf()
    &&& l.wf()
    &&& u.nrows() == n
    &&& u.ncols() == n
    &&& l.nrows() == n
    &&& l.ncols() == n
    &&& mat_cong(mat_mul(l.cells(), a, n, n), u.cells(), n, n, group_order())
    &&& forall|i: int, j: int| 0 <= j < i < n ==> #[trigger] u.cells()[i][j] == 0
    &&& forall|i: int| 0 <= i < n ==> #[trigger] u.cells()[i][i] != 0
    &&& forall|i: int| 0 <= i < n ==> invertible_mod(#[trigger] u.cells()[i][i], group_order())
    &&& exists|g: Seq<Seq<int>>|
        is_rect(g, n, n) && mat_cong(#[trigger] mat_mul(g, l.cells(), n, n), identity(n), n, n, group_order())
}

/// The `n` x `n` matrix of scalars `a` has an inverse modulo the group order.
pub open spec fn scalar_invertible(a: Seq<Seq<int>>, n: nat) -> bool {
    invertible_matrix(a, n, group_order())
}

/// `a` has zeros below its diagonal and non-zero diagonal entries.
pub open spec fn scalar_upper_with_pivots(a: Seq<Seq<int>>, n: nat) -> bool {
    &&& forall|i: int, j: int| 0 <= j < i < n ==> #[trigger] a[i][j] == 0
    &&& forall|i: int| 0 <= i < n ==> #[trigger] a[i][i] != 0
}

/// `a` has zeros above its diagonal and non-zero diagonal entries.
pub open spec fn scalar_lower_with_pivots(a: Seq<Seq<int>>, n: nat) -> bool {
    &&& lower_exact(a, n)
    &&& forall|i: int| 0 <= i < n ==> #[trigger] a[i][i] != 0
}

impl BirkhoffMatrix {
    /// A copy of the matrix.
    pub fn duplicate(&self) -> (r: BirkhoffMatrix)
        ensures
            r.cells() == self.cells(),
            r.nrows() == self.nrows(),
            self.nrows() >= 1 ==> r.ncols() == self.ncols(),
            self.wf() ==> r.wf(),
    {
        let mut cells: Vec<Vec<Scalar>> = Vec::new();
        let mut i: usize = 0;
        while i < self.cells.len()
            invariant
                i <= self.cells@.len(),
                cells@.len() == i,
                forall|a: int| 0 <= a < i ==> #[trigger] scalar_row(cells@[a]@) == self.cells()[a],
                forall|a: int| 0 <= a < i ==> #[trigger] cells@[a]@.len() == self.cells@[a]@.len(),
            decreases self.cells@.len() - i,
        {
            cells.push(clone_scalars(&self.cells[i]));
            i = i + 1;
        }
        let r = BirkhoffMatrix { cells };
        proof {
            assert(r.cells() =~= self.cells());
        }
        r
    }

    /// Multiplies row `i` of `self` by the inverse of `diagonal[i][i]`: fails with
    /// `MatrixDimensionsMismatch` when `diagonal` has not as many columns as `self` has rows,
    /// with `NotDiagonalMatrix` when it is not diagonal, and with `ElementNotInvertible` at
    /// the first zero diagonal entry (when `self` has columns).
    pub fn multi_inverse_diagonal(&self, diagonal: &BirkhoffMatrix) -> (res: BirkhoffResult<BirkhoffMatrix>)
        requires
            self.wf(),
            diagonal.wf(),
        ensures
            diagonal.ncols() != self.nrows() ==> res == BirkhoffResult::<BirkhoffMatrix>::Err(
                BirkhoffError::MatrixDimensionsMismatch {
                    self_rows: diagonal.nrows() as usize,
                    self_cols: diagonal.ncols() as usize,
                    other_rows: self.nrows() as usize,
                    other_cols: self.ncols() as usize,
                },
            ),
            diagonal.ncols() == self.nrows() && !(diagonal.ncols() == diagonal.nrows() && forall|i: int, j: int|
                0 <= i < diagonal.nrows() && 0 <= j < diagonal.nrows() && i != j ==> #[trigger] diagonal.cells()[i][j]
                    == 0) ==> res == BirkhoffResult::<BirkhoffMatrix>::Err(BirkhoffError::NotDiagonalMatrix),
            diagonal.ncols() == self.nrows() && diagonal.ncols() == diagonal.nrows() && (forall|i: int, j: int|
                0 <= i < diagonal.nrows() && 0 <= j < diagonal.nrows() && i != j ==> #[trigger] diagonal.cells()[i][j]
                    == 0) && self.ncols() > 0 && (exists|i: int|
                0 <= i < self.nrows() && #[trigger] diagonal.cells()[i][i] == 0) ==> res matches Err(
                BirkhoffError::ElementNotInvertible { .. },
            ),
            res matches Err(BirkhoffError::ElementNotInvertible { row, col }) ==> row == col && row
                < self.nrows() && diagonal.cells()[row as int][row as int] == 0 && self.ncols() > 0
                && forall|k: int| 0 <= k < row ==> #[trigger] diagonal.cells()[k][k] != 0,
            res is Ok <==> diagonal.ncols() == self.nrows() && diagonal.ncols() == diagonal.nrows() && (forall|i: int, j: int|
                0 <= i < diagonal.nrows() && 0 <= j < diagonal.nrows() && i != j ==> #[trigger] diagonal.cells()[i][j]
                    == 0) && (self.ncols() > 0 ==> forall|i: int|
                0 <= i < self.nrows() ==> #[trigger] diagonal.cells()[i][i] != 0),
            res matches Ok(m) ==> m.nrows() == self.nrows() && m.wf() && m.ncols() == self.ncols()
                && forall|i: int, j: int|
                0 <= i < self.nrows() && 0 <= j < self.ncols() ==> (diagonal.cells()[i][i]
                    * #[trigger] m.cells()[i][j]) % group_order() == self.cells()[i][j],
    {
        if diagonal.cols() != self.rows() {
            return Err(
                BirkhoffError::MatrixDimensionsMismatch {
                    self_rows: diagonal.rows(),
                    self_cols: diagonal.cols(),
                    other_rows: self.rows(),
                    other_cols: self.cols(),
                },
            );
        }
        if !diagonal.is_diagonal() {
            return Err(BirkhoffError::NotDiagonalMatrix);
        }
        let rows = diagonal.rows();
        let cols = self.cols();
        let ghost n = group_order();
        let mut result: Vec<Vec<Scalar>> = Vec::new();
        let mut i: usize = 0;
        while i < rows
            invariant
                self.wf(),
                diagonal.wf(),
                rows == diagonal.nrows(),
                rows == self.nrows(),
                rows == diagonal.ncols(),
                cols == self.ncols(),
                n == group_order(),
                forall|a: int, b: int| 0 <= a < rows && 0 <= b < rows && a != b ==> #[trigger] diagonal.cells()[a][b] == 0,
                i <= rows,
                result@.len() == i,
                cols > 0 ==> forall|a: int| 0 <= a < i ==> #[trigger] diagonal.cells()[a][a] != 0,
                forall|a: int| 0 <= a < i ==> #[trigger] result@[a]@.len() == cols,
                forall|a: int, b: int|
                    0 <= a < i && 0 <= b < cols ==> (diagonal.cells()[a][a] * #[trigger] result@[a]@[b]@) % n
                        == self.cells()[a][b],
            decreases rows - i,
        {
            let mut row: Vec<Scalar> = Vec::new();
            let mut j: usize = 0;
            while j < cols
                invariant
                    self.wf(),
                    diagonal.wf(),
                    rows == diagonal.nrows(),
                    rows == self.nrows(),
                    rows == diagonal.ncols(),
                    cols == self.ncols(),
                    n == group_order(),
                    forall|a: int, b: int| 0 <= a < rows && 0 <= b < rows && a != b ==> #[trigger] diagonal.cells()[a][b] == 0,
                    cols > 0 ==> forall|a: int| 0 <= a < i ==> #[trigger] diagonal.cells()[a][a] != 0,
                    i < rows,
                    j <= cols,
                    row@.len() == j,
                    j > 0 ==> diagonal.cells()[i as int][i as int] != 0,
                    forall|b: int|
                        0 <= b < j ==> (diagonal.cells()[i as int][i as int] * #[trigger] row@[b]@) % n
                            == self.cells()[i as int][b],
                decreases cols - j,
            {
                let inverse = match diagonal.mod_inverse(i, i) {
                    Ok(v) => v,
                    Err(e) => {
                        return Err(e);
                    },
                };
                let v = self.cells[i][j].times(&inverse);
                proof {
                    let d = diagonal.cells()[i as int][i as int];
                    let x = self.cells()[i as int][j as int];
                    self.lemma_shape();
                    // d (x inv) == x (d inv) == x
                    lemma_mul_mod_noop_right(d, x * inverse@, n);
                    assert(d * (x * inverse@) == x * (d * inverse@)) by (nonlinear_arith);
                    lemma_mul_mod_noop_right(x, d * inverse@, n);
                    lemma_small_mod(x as nat, n as nat);
                }
                row.push(v);
                j = j + 1;
            }
            result.push(row);
            i = i + 1;
        }
        let m = BirkhoffMatrix { cells: result };
        proof {
            assert forall|a: int| 0 <= a < m.cells@.len() implies #[trigger] m.cells@[a]@.len()
                == m.cells@[0]@.len() by {}
        }
        Ok(m)
    }
}

/// A row replaced entry-wise by `(x[j] + (x[s] * c) % p) % p` is congruent to the exact
/// row operation.
proof fn lemma_reduced_axpy(x: Seq<Seq<int>>, r: nat, k: nat, j: int, s: int, c: int, p: int, row: Seq<int>)
    requires
        p > 0,
        is_rect(x, r, k),
        0 <= j < r,
        0 <= s < r,
        row.len() == k,
        forall|t: int| 0 <= t < k ==> #[trigger] row[t] == (x[j][t] + (x[s][t] * c) % p) % p,
    ensures
        mat_cong(x.update(j, row), x.update(j, row_axpy(x[j], x[s], c)), r, k, p),
{
    let x1 = x.update(j, row);
    let x2 = x.update(j, row_axpy(x[j], x[s], c));
    assert forall|a: int, b: int| 0 <= a < r && 0 <= b < k implies cong(#[trigger] x1[a][b], x2[a][b], p) by {
        if a == j {
            lemma_mod_twice(x[j][b] + (x[s][b] * c) % p, p);
            lemma_add_mod_noop_right(x[j][b], x[s][b] * c, p);
        }
    }
}

/// One elimination step (row `j` plus `c` times row `i`, reduced) keeps `l a` congruent
/// to `u`, and the matching column operation keeps a left inverse of `l`.
proof fn lemma_elimination_step(
    a: Seq<Seq<int>>,
    u0: Seq<Seq<int>>,
    l0: Seq<Seq<int>>,
    g: Seq<Seq<int>>,
    n: nat,
    i: int,
    j: int,
    c: int,
    p: int,
    u_row: Seq<int>,
    l_row: Seq<int>,
)
    requires
        p > 0,
        is_rect(a, n, n),
        is_rect(u0, n, n),
        is_rect(l0, n, n),
        is_rect(g, n, n),
        0 <= i < n,
        0 <= j < n,
        i != j,
        mat_cong(mat_mul(l0, a, n, n), u0, n, n, p),
        mat_cong(mat_mul(g, l0, n, n), identity(n), n, n, p),
        u_row.len() == n,
        l_row.len() == n,
        forall|t: int| 0 <= t < n ==> #[trigger] u_row[t] == (u0[j][t] + (u0[i][t] * c) % p) % p,
        forall|t: int| 0 <= t < n ==> #[trigger] l_row[t] == (l0[j][t] + (l0[i][t] * c) % p) % p,
    ensures
        mat_cong(mat_mul(l0.update(j, l_row), a, n, n), u0.update(j, u_row), n, n, p),
        is_rect(col_axpy(g, i, j, c), n, n),
        mat_cong(mat_mul(col_axpy(g, i, j, c), l0.update(j, l_row), n, n), identity(n), n, n, p),
{
    let l1 = l0.update(j, l_row);
    let u1 = u0.update(j, u_row);
    let lx = l0.update(j, row_axpy(l0[j], l0[i], c));
    let ux = u0.update(j, row_axpy(u0[j], u0[i], c));
    let pr = mat_mul(l0, a, n, n);
    lemma_reduced_axpy(l0, n, n, j, i, c, p, l_row);
    lemma_reduced_axpy(u0, n, n, j, i, c, p, u_row);
    lemma_mat_cong_refl(a, n, n, p);
    lemma_mul_cong(l1, lx, a, a, n, n, n, p);
    lemma_mul_row_axpy(l0, a, n, n, j, i, c);
    lemma_cong_row_axpy(pr, u0, n, n, j, i, c, p);
    lemma_mat_cong_trans(mat_mul(l1, a, n, n), mat_mul(lx, a, n, n), ux, n, n, p);
    lemma_mat_cong_sym(u1, ux, n, n, p);
    lemma_mat_cong_trans(mat_mul(l1, a, n, n), ux, u1, n, n, p);
    let g1 = col_axpy(g, i, j, c);
    lemma_left_inverse_axpy(g, l0, n, j, i, c);
    lemma_mat_cong_refl(g1, n, n, p);
    lemma_mul_cong(g1, g1, l1, lx, n, n, n, p);
    lemma_mat_cong_trans(mat_mul(g1, l1, n, n), mat_mul(g1, lx, n, n), identity(n), n, n, p);
}

/// Exchanging rows `i` and `s` of both `l` and `u` keeps `l a` congruent to `u`, and the
/// matching column exchange keeps a left inverse of `l`.
proof fn lemma_swap_step(
    a: Seq<Seq<int>>,
    u0: Seq<Seq<int>>,
    l0: Seq<Seq<int>>,
    g: Seq<Seq<int>>,
    n: nat,
    i: int,
    s: int,
    p: int,
)
    requires
        is_rect(a, n, n),
        is_rect(l0, n, n),
        is_rect(g, n, n),
        0 <= i < n,
        0 <= s < n,
        mat_cong(mat_mul(l0, a, n, n), u0, n, n, p),
        mat_cong(mat_mul(g, l0, n, n), identity(n), n, n, p),
    ensures
        mat_cong(mat_mul(swap_rows(l0, i, s), a, n, n), swap_rows(u0, i, s), n, n, p),
        is_rect(col_swap(g, i, s), n, n),
        mat_cong(mat_mul(col_swap(g, i, s), swap_rows(l0, i, s), n, n), identity(n), n, n, p),
{
    lemma_mul_swap(l0, a, n, n, i, s);
    lemma_cong_swap(mat_mul(l0, a, n, n), u0, n, n, i, s, p);
    lemma_left_inverse_swap(g, l0, n, i, s);
}

impl BirkhoffMatrix {
    /// Gaussian elimination of a square matrix: `(U, L)` with `L * self` congruent to the
    /// upper triangular `U`, whose pivots are non-zero, and `L` invertible. The pivot of
    /// column `i` is the first non-zero entry of that column from row `i` down, brought up by
    /// a row exchange. Fails with `NotSquareMatrix` for a matrix that is not square, and with
    /// `MatrixInversionFailed` when a column has no pivot left: exactly when the matrix has
    /// no inverse modulo the group order. A lower triangular matrix with non-zero diagonal always
    /// succeeds, and its `U` is its diagonal; an upper triangular one with non-zero diagonal
    /// too, and it is its own `U`, with `L` the identity.
    #[verifier::rlimit(60)]
    pub fn get_gauss_elimination(&self) -> (res: BirkhoffResult<(BirkhoffMatrix, BirkhoffMatrix)>)
        requires
            self.wf(),
        ensures
            self.ncols() != self.nrows() ==> res == BirkhoffResult::<(BirkhoffMatrix, BirkhoffMatrix)>::Err(
                BirkhoffError::NotSquareMatrix { rows: self.nrows() as usize, cols: self.ncols() as usize },
            ),
            self.ncols() == self.nrows() && res is Err ==> res == BirkhoffResult::<(BirkhoffMatrix, BirkhoffMatrix)>::Err(
                BirkhoffError::MatrixInversionFailed,
            ),
            res matches Ok((u, l)) ==> scalar_gauss_result(self.cells(), self.nrows(), u, l),
            self.ncols() == self.nrows() && scalar_lower_with_pivots(self.cells(), self.nrows()) ==> (res matches Ok(
                (u, l),
            ) && (forall|i: int, j: int|
                0 <= i < self.nrows() && 0 <= j < self.nrows() && i != j ==> #[trigger] u.cells()[i][j] == 0)
                && forall|i: int| 0 <= i < self.nrows() ==> #[trigger] u.cells()[i][i] == self.cells()[i][i]),
            self.ncols() == self.nrows() && scalar_upper_with_pivots(self.cells(), self.nrows()) ==> (res matches Ok(
                (u, l),
            ) && u.cells() == self.cells() && l.cells() == identity(self.nrows())),
            self.ncols() == self.nrows() ==> (res is Ok <==> scalar_invertible(self.cells(), self.nrows())),
    {
        if !self.is_square() {
            return Err(BirkhoffError::NotSquareMatrix { rows: self.rows(), cols: self.cols() });
        }
        let n = self.rows();
        let ghost nn = n as nat;
        let ghost a = self.cells();
        let ghost p = group_order();
        let ghost lowa = scalar_lower_with_pivots(a, nn);
        let ghost uppa = scalar_upper_with_pivots(a, nn);
        let mut lower = Self::create_identity_matrix(n);
        let mut upper = self.duplicate();
        let ghost mut g: Seq<Seq<int>> = identity(nn);
        proof {
            self.lemma_shape();
            lemma_mul_identity_left(a, nn, nn);
            lemma_mul_identity_left(identity(nn), nn, nn);
            lemma_mat_cong_refl(a, nn, nn, p);
            lemma_mat_cong_refl(identity(nn), nn, nn, p);
        }
        let mut i: usize = 0;
        while i < n
            invariant
                self.wf(),
                n == self.nrows(),
                n == self.ncols(),
                nn == n,
                a == self.cells(),
                p == group_order(),
                lowa == scalar_lower_with_pivots(a, nn),
                is_rect(a, nn, nn),
                0 <= i <= n,
                upper.wf(),
                lower.wf(),
                upper.nrows() == n,
                upper.ncols() == n,
                lower.nrows() == n,
                lower.ncols() == n,
                mat_cong(mat_mul(lower.cells(), a, nn, nn), upper.cells(), nn, nn, p),
                is_rect(g, nn, nn),
                mat_cong(mat_mul(g, lower.cells(), nn, nn), identity(nn), nn, nn, p),
                forall|r: int, c: int| 0 <= c < i && c < r < n ==> #[trigger] upper.cells()[r][c] == 0,
                forall|c: int| 0 <= c < i ==> #[trigger] upper.cells()[c][c] != 0,
                forall|c: int| 0 <= c < i ==> invertible_mod(#[trigger] upper.cells()[c][c], p),
                lowa ==> lower_exact(upper.cells(), nn),
                lowa ==> forall|c: int| 0 <= c < n ==> #[trigger] upper.cells()[c][c] == a[c][c],
                uppa == scalar_upper_with_pivots(a, nn),
                uppa ==> upper.cells() == a && lower.cells() == identity(nn),
            decreases n - i,
        {
            proof {
                upper.lemma_shape();
                lower.lemma_shape();
            }
            let ghost u_pre = upper.cells();
            let change_index = match upper.first_non_zero_in_column(i, i) {
                Some(idx) => idx,
                None => {
                    proof {
                        if lowa || uppa {
                            assert(upper.cells()[i as int][i as int] == a[i as int][i as int]);
                        }
                        let e = upper.cells();
                        let l = lower.cells();
                        let ii = i as int;
                        lemma_small_mod(0, p as nat);
                        assert(abs(p) == p);
                        assert forall|r: int, c: int| 0 <= c < ii && c < r < nn implies #[trigger] e[r][c] % abs(p) == 0 by {
                            assert(e[r][c] == 0);
                        }
                        assert forall|r: int| ii <= r < nn implies #[trigger] e[r][ii] % abs(p) == 0 by {
                            assert(e[r][ii] == 0);
                        }
                        assert(stuck_at(a, nn, p, ii));
                        assert(elimination_stuck(a, nn, p));
                        if invertible_matrix(a, nn, p) {
                            lemma_invertible_not_stuck(a, nn, p);
                        }
                    }
                    return Err(BirkhoffError::MatrixInversionFailed);
                },
            };
            if i != change_index {
                proof {
                    if lowa || uppa {
                        assert(upper.cells()[i as int][i as int] != 0);
                    }
                }
                let ghost u0 = upper.cells();
                let ghost l0 = lower.cells();
                upper = upper.swap_rows(i, change_index)?;
                lower = lower.swap_rows(i, change_index)?;
                proof {
                    lemma_swap_step(a, u0, l0, g, nn, i as int, change_index as int, p);
                    g = col_swap(g, i as int, change_index as int);
                    assert forall|r: int, c: int| 0 <= c < i && c < r < n implies #[trigger] upper.cells()[r][c] == 0 by {
                        if r == i {
                            assert(upper.cells()[r] == u0[change_index as int]);
                        } else if r == change_index {
                            assert(upper.cells()[r] == u0[i as int]);
                        } else {
                            assert(upper.cells()[r] == u0[r]);
                        }
                    }
                    assert forall|c: int| 0 <= c < i implies #[trigger] upper.cells()[c][c] != 0
                        && invertible_mod(upper.cells()[c][c], p) by {
                        assert(upper.cells()[c] == u0[c]);
                    }
                }
            }
            let ghost w = upper.cells();
            proof {
                assert(w == (if change_index as int != i as int {
                    swap_rows(u_pre, i as int, change_index as int)
                } else {
                    u_pre
                }));
            }
            proof {
                assert(w[i as int][i as int] == u_pre[change_index as int][i as int]);
            }
            let inverse = match upper.mod_inverse(i, i) {
                Ok(v) => v,
                Err(e) => {
                    return Err(e);
                },
            };
            let ghost ui = upper.cells()[i as int];
            let ghost li = lower.cells()[i as int];
            proof {
                assert((ui[i as int] * inverse@) % p == 1int % p);
                assert(invertible_mod(ui[i as int], p));
            }
            let mut j = i + 1;
            while j < n
                invariant
                    self.wf(),
                    n == self.nrows(),
                    n == self.ncols(),
                    nn == n,
                    a == self.cells(),
                    p == group_order(),
                    lowa == scalar_lower_with_pivots(a, nn),
                    is_rect(a, nn, nn),
                    0 <= i < n,
                    i + 1 <= j <= n,
                    upper.wf(),
                    lower.wf(),
                    upper.nrows() == n,
                    upper.ncols() == n,
                    lower.nrows() == n,
                    lower.ncols() == n,
                    mat_cong(mat_mul(lower.cells(), a, nn, nn), upper.cells(), nn, nn, p),
                    is_rect(g, nn, nn),
                    mat_cong(mat_mul(g, lower.cells(), nn, nn), identity(nn), nn, nn, p),
                    upper.cells()[i as int] == ui,
                    lower.cells()[i as int] == li,
                    (ui[i as int] * inverse@) % p == 1,
                    forall|r: int, c: int| 0 <= c < i && c < r < n ==> #[trigger] upper.cells()[r][c] == 0,
                    forall|r: int| i < r < j ==> #[trigger] upper.cells()[r][i as int] == 0,
                    forall|c: int| 0 <= c <= i ==> #[trigger] upper.cells()[c][c] != 0,
                    forall|c: int| 0 <= c <= i ==> invertible_mod(#[trigger] upper.cells()[c][c], p),
                    lowa ==> lower_exact(upper.cells(), nn),
                    lowa ==> forall|c: int| 0 <= c < n ==> #[trigger] upper.cells()[c][c] == a[c][c],
                    uppa == scalar_upper_with_pivots(a, nn),
                    uppa ==> upper.cells() == a && lower.cells() == identity(nn),
                decreases n - j,
            {
                proof {
                    upper.lemma_shape();
                    lower.lemma_shape();
                }
                let ghost u0 = upper.cells();
                let ghost l0 = lower.cells();
                let factor = upper.cells[j][i].times(&inverse);
                let inverse_diagonal_component = factor.negated();
                let ghost c = inverse_diagonal_component@;
                let row_i = upper.get_row(i)?;
                let row_j = upper.get_row(j)?;
                let temp_result_a = self.multiply_scalar(&row_i, inverse_diagonal_component.clone());
                proof {
                    assert(u0[i as int].len() == n && u0[j as int].len() == n);
                    assert(scalar_row(row_i@).len() == row_i@.len());
                    assert(scalar_row(row_j@).len() == row_j@.len());
                }
                let new_upper_row = Self::add_rows(&row_j, &temp_result_a)?;
                let row_lower_i = lower.get_row(i)?;
                let row_lower_j = lower.get_row(j)?;
                let temp_result_identity = self.multiply_scalar(&row_lower_i, inverse_diagonal_component);
                proof {
                    assert(l0[i as int].len() == n && l0[j as int].len() == n);
                    assert(scalar_row(row_lower_i@).len() == row_lower_i@.len());
                    assert(scalar_row(row_lower_j@).len() == row_lower_j@.len());
                }
                let new_lower_row = Self::add_rows(&row_lower_j, &temp_result_identity)?;
                let ghost u_row = scalar_row(new_upper_row@);
                let ghost l_row = scalar_row(new_lower_row@);
                proof {
                    assert forall|t: int| 0 <= t < n implies #[trigger] u_row[t] == (u0[j as int][t] + (u0[i as int][t] * c) % p) % p by {
                        assert(scalar_row(row_i@)[t] == row_i@[t]@);
                        assert(scalar_row(row_j@)[t] == row_j@[t]@);
                    }
                    assert forall|t: int| 0 <= t < n implies #[trigger] l_row[t] == (l0[j as int][t] + (l0[i as int][t] * c) % p) % p by {
                        assert(scalar_row(row_lower_i@)[t] == row_lower_i@[t]@);
                        assert(scalar_row(row_lower_j@)[t] == row_lower_j@[t]@);
                    }
                    lemma_elimination_step(a, u0, l0, g, nn, i as int, j as int, c, p, u_row, l_row);
                    g = col_axpy(g, i as int, j as int, c);
                }
                upper.cells.set(j, new_upper_row);
                lower.cells.set(j, new_lower_row);
                proof {
                    assert(upper.cells() =~= u0.update(j as int, u_row));
                    assert(lower.cells() =~= l0.update(j as int, l_row));
                    assert forall|r: int| 0 <= r < upper.cells@.len() implies #[trigger] upper.cells@[r]@.len()
                        == upper.cells@[0]@.len() by {
                        assert(upper.cells@[r]@.len() == upper.cells()[r].len());
                        assert(upper.cells@[0]@.len() == upper.cells()[0].len());
                    }
                    assert forall|r: int| 0 <= r < lower.cells@.len() implies #[trigger] lower.cells@[r]@.len()
                        == lower.cells@[0]@.len() by {
                        assert(lower.cells@[r]@.len() == lower.cells()[r].len());
                        assert(lower.cells@[0]@.len() == lower.cells()[0].len());
                    }
                    // the eliminated entry
                    let x = u0[j as int][i as int];
                    lemma_elimination_entry(x, ui[i as int], inverse@, p);
                    assert(u_row[i as int] == 0);
                    assert forall|r: int, cc: int| 0 <= cc < i && cc < r < n implies #[trigger] upper.cells()[r][cc] == 0 by {
                        if r == j {
                            assert(u0[i as int][cc] == 0);
                            assert(u0[j as int][cc] == 0);
                            lemma_small_mod(0, p as nat);
                        }
                    }
                    if uppa {
                        assert(u0[j as int][i as int] == 0);
                        lemma_small_mod(0, p as nat);
                        vstd::arithmetic::div_mod::lemma_mod_self_0(p);
                        assert(c == 0);
                        assert forall|t: int| 0 <= t < n implies #[trigger] u_row[t] == u0[j as int][t] by {
                            assert(u0[i as int][t] * 0 == 0);
                            lemma_small_mod(u0[j as int][t] as nat, p as nat);
                        }
                        assert forall|t: int| 0 <= t < n implies #[trigger] l_row[t] == l0[j as int][t] by {
                            assert(l0[i as int][t] * 0 == 0);
                            lemma_small_mod(l0[j as int][t] as nat, p as nat);
                        }
                        assert(u_row =~= u0[j as int]);
                        assert(l_row =~= l0[j as int]);
                        assert(upper.cells() =~= u0);
                        assert(lower.cells() =~= l0);
                    }
                    if lowa {
                        assert forall|r: int, cc: int| 0 <= r < cc < n implies #[trigger] upper.cells()[r][cc] == 0 by {
                            if r == j {
                                assert(u0[i as int][cc] == 0);
                                assert(u0[j as int][cc] == 0);
                                lemma_small_mod(0, p as nat);
                            }
                        }
                        assert forall|cc: int| 0 <= cc < n implies #[trigger] upper.cells()[cc][cc] == a[cc][cc] by {
                            if cc == j {
                                assert(u0[i as int][cc] == 0);
                                lemma_small_mod(0, p as nat);
                                lemma_small_mod(u0[j as int][cc] as nat, p as nat);
                            }
                        }
                    }
                }
                j = j + 1;
            }
            i = i + 1;
        }
        proof {
            upper.lemma_shape();
            lower.lemma_shape();
            assert(is_rect(g, nn, nn) && mat_cong(mat_mul(g, lower.cells(), nn, nn), identity(nn), nn, nn, p));
            let e = upper.cells();
            lemma_small_mod(0, p as nat);
            assert(abs(p) == p);
            assert forall|r: int, c: int| 0 <= c < r < nn implies #[trigger] e[r][c] % abs(p) == 0 by {
                assert(e[r][c] == 0);
            }
            lemma_triangular_factor_invertible(a, nn, p, lower.cells(), e);
        }
        Ok((upper, lower))
    }
}

/// Rows of `m` that `d[i][i]` scales back to the rows of `l2` are, modulo `p`, the rows of
/// `l2` scaled by inverses `ys[i]` of `d[i][i]`.
proof fn lemma_scaled_rows_cong(m: Seq<Seq<int>>, l2: Seq<Seq<int>>, d: Seq<Seq<int>>, ys: Seq<int>, n: nat, p: int)
    requires
        p > 0,
        is_rect(m, n, n),
        is_rect(l2, n, n),
        ys.len() == n,
        forall|i: int, j: int| 0 <= i < n && 0 <= j < n ==> (d[i][i] * #[trigger] m[i][j]) % p == l2[i][j],
        forall|i: int| 0 <= i < n ==> (d[i][i] * #[trigger] ys[i]) % p == 1int % p,
    ensures
        mat_cong(m, Seq::new(n, |i: int| row_scale(l2[i], ys[i])), n, n, p),
{
    let mx = Seq::new(n, |i: int| row_scale(l2[i], ys[i]));
    assert forall|i: int, j: int| 0 <= i < n && 0 <= j < n implies cong(#[trigger] m[i][j], mx[i][j], p) by {
        let x = m[i][j];
        let dd = d[i][i];
        let y = ys[i];
        assert((dd * y) % p == 1int % p);
        assert(mx[i][j] == l2[i][j] * y);
        lemma_mul_mod_noop_left(dd * x, y, p);
        assert((dd * x) * y == dd * (x * y)) by (nonlinear_arith);
        lemma_scale_back(x, dd, y, p);
    }
}

impl BirkhoffMatrix {
    /// The inverse modulo the group order of a square matrix, through two Gaussian
    /// eliminations: `A = L^-1 U`, then `U^T` reduced to its diagonal. Fails with
    /// `NotSquareMatrix` for a matrix that is not square, and with `MatrixInversionFailed`
    /// exactly when the matrix has no inverse modulo the group order. What it returns is a
    /// two-sided inverse.
    pub fn inverse(&self) -> (res: BirkhoffResult<BirkhoffMatrix>)
        requires
            self.wf(),
        ensures
            self.ncols() == self.nrows() && (scalar_upper_with_pivots(self.cells(), self.nrows())
                || scalar_lower_with_pivots(self.cells(), self.nrows())) ==> res is Ok,
            self.ncols() == self.nrows() ==> (res is Ok <==> scalar_invertible(self.cells(), self.nrows())),
            self.ncols() != self.nrows() ==> res == BirkhoffResult::<BirkhoffMatrix>::Err(
                BirkhoffError::NotSquareMatrix { rows: self.nrows() as usize, cols: self.ncols() as usize },
            ),
            self.ncols() == self.nrows() && res is Err ==> res == BirkhoffResult::<BirkhoffMatrix>::Err(
                BirkhoffError::MatrixInversionFailed,
            ),
            res matches Ok(r) ==> {
                &&& r.wf()
                &&& r.nrows() == self.nrows()
                &&& r.ncols() == self.nrows()
                &&& mat_cong(
                    mat_mul(r.cells(), self.cells(), self.nrows(), self.nrows()),
                    identity(self.nrows()),
                    self.nrows(),
                    self.nrows(),
                    group_order(),
                )
                &&& mat_cong(
                    mat_mul(self.cells(), r.cells(), self.nrows(), self.nrows()),
                    identity(self.nrows()),
                    self.nrows(),
                    self.nrows(),
                    group_order(),
                )
            },
    {
        if !self.is_square() {
            return Err(BirkhoffError::NotSquareMatrix { rows: self.rows(), cols: self.cols() });
        }
        let ghost n = self.nrows();
        let ghost a = self.cells();
        let ghost p = group_order();
        let (upper_matrix, lower_matrix) = self.get_gauss_elimination()?;
        let transpose_upper_matrix = upper_matrix.transpose();
        let ghost u = upper_matrix.cells();
        let ghost k = transpose_upper_matrix.cells();
        proof {
            self.lemma_shape();
            upper_matrix.lemma_shape();
            assert forall|x: int, y: int| 0 <= x < y < n implies #[trigger] k[x][y] == 0 by {
                assert(k[x][y] == u[y][x]);
            }
            assert forall|x: int| 0 <= x < n implies #[trigger] k[x][x] != 0 by {
                assert(k[x][x] == u[x][x]);
            }
            assert(scalar_lower_with_pivots(k, n));
        }
        let (temp_upper_matrix, temp_lower_matrix) = transpose_upper_matrix.get_gauss_elimination()?;
        let temp_result = temp_lower_matrix.multi_inverse_diagonal(&temp_upper_matrix)?;
        let transpose_result = temp_result.transpose();
        let result = transpose_result.multiply(&lower_matrix)?;
        proof {
            let l1 = lower_matrix.cells();
            let dd = temp_upper_matrix.cells();
            let l2 = temp_lower_matrix.cells();
            let m = temp_result.cells();
            let t = transpose_result.cells();
            let r = result.cells();
            let id = identity(n);
            lower_matrix.lemma_shape();
            temp_upper_matrix.lemma_shape();
            temp_lower_matrix.lemma_shape();
            temp_result.lemma_shape();
            transpose_result.lemma_shape();
            result.lemma_shape();
            let g1 = choose|g: Seq<Seq<int>>|
                is_rect(g, n, n) && mat_cong(#[trigger] mat_mul(g, l1, n, n), id, n, n, p);
            let g2 = choose|g: Seq<Seq<int>>|
                is_rect(g, n, n) && mat_cong(#[trigger] mat_mul(g, l2, n, n), id, n, n, p);
            let ys = Seq::new(n, |i: int| choose|y: int| #[trigger] (u[i][i] * y) % p == 1int % p);
            assert forall|i: int| 0 <= i < n implies (dd[i][i] * #[trigger] ys[i]) % p == 1int % p by {
                assert(invertible_mod(u[i][i], p));
                assert(dd[i][i] == k[i][i]);
            }
            assert forall|i: int, j: int| 0 <= i < n && 0 <= j < n && i != j implies #[trigger] dd[i][j] == 0 by {}
            assert(diagonal_exact(dd, n));
            let mx = Seq::new(n, |i: int| row_scale(l2[i], ys[i]));
            assert(is_rect(mx, n, n));
            lemma_inverse_by_factors(a, u, l1, dd, l2, g2, mx, ys, g1, n, p);
            lemma_scaled_rows_cong(m, l2, dd, ys, n, p);
            lemma_transpose_cong(m, mx, n, n, p);
            let tmx = transpose(mx, n, n);
            let x = mat_mul(tmx, l1, n, n);
            lemma_mat_cong_refl(l1, n, n, p);
            lemma_mul_cong(t, tmx, l1, l1, n, n, n, p);
            lemma_mul_rect(t, l1, n, n, n);
            lemma_mod_cells_cong(mat_mul(t, l1, n, n), n, n, p);
            lemma_mat_cong_trans(r, mat_mul(t, l1, n, n), x, n, n, p);
            lemma_mat_cong_refl(a, n, n, p);
            lemma_mul_cong(r, x, a, a, n, n, n, p);
            lemma_mat_cong_trans(mat_mul(r, a, n, n), mat_mul(x, a, n, n), id, n, n, p);
            lemma_mul_cong(a, a, r, x, n, n, n, p);
            lemma_mat_cong_trans(mat_mul(a, r, n, n), mat_mul(a, x, n, n), id, n, n, p);
        }
        Ok(result)
    }
}

impl BirkhoffMatrix {
    /// The pseudoinverse `(A^T A)^-1 A^T` modulo the group order, a left inverse of `A`;
    /// it needs linearly independent columns. Fails with `MatrixInversionFailed` exactly when
    /// `A^T A` has no inverse modulo the group order.
    pub fn pseudo_inverse(&self) -> (res: BirkhoffResult<BirkhoffMatrix>)
        requires
            self.wf(),
            self.ncols() >= 1,
        ensures
            res is Ok <==> scalar_invertible(
                mod_cells(
                    mat_mul(transpose(self.cells(), self.nrows(), self.ncols()), self.cells(), self.nrows(), self.ncols()),
                    group_order(),
                ),
                self.ncols(),
            ),
            res is Err ==> res == BirkhoffResult::<BirkhoffMatrix>::Err(BirkhoffError::MatrixInversionFailed),
            res matches Ok(r) ==> {
                &&& r.wf()
                &&& r.nrows() == self.ncols()
                &&& r.ncols() == self.nrows()
                &&& is_pseudoinverse(self.cells(), self.nrows(), self.ncols(), group_order(), r.cells())
                &&& forall|b: Seq<Seq<int>>|
                    is_pseudoinverse(self.cells(), self.nrows(), self.ncols(), group_order(), b) ==> b
                        == r.cells()
                &&& mat_cong(
                    mat_mul(r.cells(), self.cells(), self.nrows(), self.ncols()),
                    identity(self.ncols()),
                    self.ncols(),
                    self.ncols(),
                    group_order(),
                )
            },
    {
        let transpose_matrix = self.transpose();
        let symmetric_form = transpose_matrix.multiply(self)?;
        let inverse_symmetric = symmetric_form.inverse()?;
        let result = inverse_symmetric.multiply(&transpose_matrix)?;
        proof {
            let rows = self.nrows();
            let cols = self.ncols();
            let p = group_order();
            let a = self.cells();
            let t = transpose_matrix.cells();
            let sf = symmetric_form.cells();
            let x = inverse_symmetric.cells();
            let r = result.cells();
            self.lemma_shape();
            transpose_matrix.lemma_shape();
            symmetric_form.lemma_shape();
            inverse_symmetric.lemma_shape();
            result.lemma_shape();
            let ta = mat_mul(t, a, rows, cols);
            let xt = mat_mul(x, t, cols, rows);
            lemma_mul_rect(t, a, cols, rows, cols);
            lemma_mod_cells_cong(ta, cols, cols, p);
            lemma_mat_cong_refl(x, cols, cols, p);
            lemma_mul_cong(x, x, ta, sf, cols, cols, cols, p);
            lemma_mat_cong_trans(mat_mul(x, ta, cols, cols), mat_mul(x, sf, cols, cols), identity(cols), cols, cols, p);
            assert(r == mod_cells(mat_mul(x, transpose(a, rows, cols), cols, rows), p));
            assert(is_pseudoinverse(a, rows, cols, p, r));
            // any pseudoinverse is this one: its left inverse of A^T A agrees with x
            assert forall|b: Seq<Seq<int>>| is_pseudoinverse(a, rows, cols, p, b) implies b == r by {
                let x2 = choose|x2: Seq<Seq<int>>|
                    #![trigger mat_mul(x2, transpose(a, rows, cols), cols, rows)]
                    {
                        &&& is_rect(x2, cols, cols)
                        &&& mat_cong(
                            mat_mul(x2, mat_mul(transpose(a, rows, cols), a, rows, cols), cols, cols),
                            identity(cols),
                            cols,
                            cols,
                            abs(p),
                        )
                        &&& b == mod_cells(mat_mul(x2, transpose(a, rows, cols), cols, rows), p)
                    };
                lemma_mat_cong_refl(x2, cols, cols, p);
                lemma_mat_cong_sym(sf, ta, cols, cols, p);
                lemma_mul_cong(x2, x2, sf, ta, cols, cols, cols, p);
                lemma_mat_cong_trans(mat_mul(x2, sf, cols, cols), mat_mul(x2, ta, cols, cols), identity(cols), cols, cols, p);
                law_left_and_right_inverse_agree(sf, cols, x2, x, p);
                lemma_mat_cong_refl(t, cols, rows, p);
                lemma_mul_cong(x2, x, t, t, cols, cols, rows, p);
                lemma_mul_rect(x2, t, cols, cols, rows);
                lemma_mod_cells_of_cong(mat_mul(x2, t, cols, rows), xt, cols, rows, p);
            }
            lemma_mul_rect(x, t, cols, cols, rows);
            lemma_mod_cells_cong(xt, cols, rows, p);
            lemma_mat_cong_refl(a, rows, cols, p);
            lemma_mul_cong(r, xt, a, a, cols, rows, cols, p);
            lemma_mul_assoc(x, t, a, cols, cols, rows, cols);
            lemma_mat_cong_trans(mat_mul(r, a, rows, cols), mat_mul(xt, a, rows, cols), identity(cols), cols, cols, p);
        }
        Ok(result)
    }
}

/// A copy of a row of scalars.
fn clone_scalars(v: &Vec<Scalar>) -> (r: Vec<Scalar>)
    ensures
        scalar_row(r@) == scalar_row(v@),
        r@.len() == v@.len(),
{
    let mut r: Vec<Scalar> = Vec::new();
    let mut i: usize = 0;
    while i < v.len()
        invariant
            i <= v@.len(),
            r@.len() == i,
            forall|k: int| 0 <= k < i ==> #[trigger] r@[k]@ == v@[k]@,
        decreases v@.len() - i,
    {
        r.push(v[i].clone());
        i = i + 1;
    }
    assert(scalar_row(r@) =~= scalar_row(v@));
    r
}

} // verus!
