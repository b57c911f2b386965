use crate::error::Error;
use crate::grid::{has_shape, lemma_transposed_write, transposed, written};
use core::fmt::Display;
use core::ops::Add;
use vstd::prelude::*;
use vstd::std_specs::ops::AddSpec;
use vstd::string::{to_string_from_display_ensures, StringExecFns};

verus! {

/// Whether `value` is what a clone of `T::default()` may be.
pub open spec fn is_default<T: Default + Clone>(value: T) -> bool {
    exists|d: T| #[trigger] call_ensures(T::default, (), d) && cloned(d, value)
}

/// Row-major position of cell `(x, y)` in a grid with `cols` columns.
spec fn flat_index(cols: nat, x: int, y: int) -> int {
    x * cols + y
}

/// A cell inside a `rows` by `cols` grid has its flat position inside the
/// backing sequence, and distinct cells have distinct positions.
proof fn lemma_flat_index(rows: nat, cols: nat, x: int, y: int)
    requires
        0 <= x < rows,
        0 <= y < cols,
    ensures
        0 <= x * cols <= flat_index(cols, x, y) < rows * cols,
        forall|i: int, j: int|
            0 <= i < rows && 0 <= j < cols && flat_index(cols, i, j) == flat_index(cols, x, y)
                ==> i == x && j == y,
{
    assert(0 <= x * cols <= x * cols + y < rows * cols) by (nonlinear_arith)
        requires
            0 <= x < rows,
            0 <= y < cols,
    ;
    assert forall|i: int, j: int|
        0 <= i < rows && 0 <= j < cols && flat_index(cols, i, j) == flat_index(
            cols,
            x,
            y,
        ) implies i == x && j == y by {
        assert(i == x && j == y) by (nonlinear_arith)
            requires
                0 <= j < cols,
                0 <= y < cols,
                i * cols + j == x * cols + y,
        ;
    }
}

/// The text of the first `n` cells of a row: each cell's text with a space
/// after it.
pub open spec fn row_text(row: Seq<String>, n: nat) -> Seq<char>
    decreases n,
{
    if n == 0 {
        Seq::empty()
    } else {
        row_text(row, (n - 1) as nat) + row[n - 1]@ + seq![' ']
    }
}

/// The text of the first `n` rows of a grid of cell texts: each row's text
/// with a line feed after it.
pub open spec fn grid_text(texts: Seq<Seq<String>>, n: nat) -> Seq<char>
    decreases n,
{
    if n == 0 {
        Seq::empty()
    } else {
        grid_text(texts, (n - 1) as nat) + row_text(texts[n - 1], texts[n - 1].len()) + seq!['\n']
    }
}

/// Whether `texts` has the given dimensions and holds, cell for cell, a text
/// that formatting the cell of `grid` gives.
pub open spec fn shows<T: Display>(
    texts: Seq<Seq<String>>,
    grid: Seq<Seq<T>>,
    rows: nat,
    cols: nat,
) -> bool {
    &&& has_shape(texts, rows, cols)
    &&& forall|x: int, y: int|
        0 <= x < rows && 0 <= y < cols ==> to_string_from_display_ensures::<T>(
            &grid[x][y],
            #[trigger] texts[x][y],
        )
}

/// Appending a cell to a row leaves the text of the cells before it as it
/// was.
proof fn lemma_row_text_push(row: Seq<String>, cell: String, n: nat)
    requires
        n <= row.len(),
    ensures
        row_text(row.push(cell), n) == row_text(row, n),
    decreases n,
{
    if n > 0 {
        lemma_row_text_push(row, cell, (n - 1) as nat);
    }
}

/// Appending a row to a grid leaves the text of the rows before it as it
/// was.
proof fn lemma_grid_text_push(texts: Seq<Seq<String>>, row: Seq<String>, n: nat)
    requires
        n <= texts.len(),
    ensures
        grid_text(texts.push(row), n) == grid_text(texts, n),
    decreases n,
{
    if n > 0 {
        lemma_grid_text_push(texts, row, (n - 1) as nat);
    }
}

/// Dense two-dimensional container over a flat backing vector, laid out row
/// by row: cell `(x, y)` lives at position `x * size_y + y`.
#[derive(Debug)]
pub struct Matrix<T> {
    data: Vec<T>,
    size_x: usize,
    size_y: usize,
}

impl<T> View for Matrix<T> {
    type V = Seq<Seq<T>>;

    /// The matrix as a sequence of rows, each a sequence of cells.
    closed spec fn view(&self) -> Seq<Seq<T>> {
        Seq::new(
            self.size_x as nat,
            |x: int|
                Seq::new(
                    self.size_y as nat,
                    |y: int| self.data@[flat_index(self.size_y as nat, x, y)],
                ),
        )
    }
}

impl<T> Matrix<T> {
    #[verifier::type_invariant]
    spec fn well_formed(&self) -> bool {
        self.data@.len() == self.size_x * self.size_y <= usize::MAX
    }

    /// Number of rows.
    pub closed spec fn rows(&self) -> nat {
        self.size_x as nat
    }

    /// Number of columns.
    pub closed spec fn cols(&self) -> nat {
        self.size_y as nat
    }

    /// The view of a matrix always has the matrix's dimensions.
    pub proof fn lemma_view_shape(&self)
        ensures
            has_shape(self@, self.rows(), self.cols()),
    {
    }

    /// Creates a `size_x` by `size_y` matrix with every cell set to a clone
    /// of the element type's default value.
    pub fn new(size_x: usize, size_y: usize) -> (m: Self) where T: Default + Clone
        requires
            size_x * size_y <= usize::MAX,
        ensures
            m.rows() == size_x,
            m.cols() == size_y,
            has_shape(m@, size_x as nat, size_y as nat),
            forall|x: int, y: int|
                0 <= x < size_x && 0 <= y < size_y ==> is_default(#[trigger] m@[x][y]),
    {
        let zero = T::default();
        let data = vec![zero; size_x * size_y];
        let m = Matrix::<T> { data, size_x, size_y };
        proof {
            assert forall|x: int, y: int| 0 <= x < size_x && 0 <= y < size_y implies is_default(
                #[trigger] m@[x][y],
            ) by {
                lemma_flat_index(size_x as nat, size_y as nat, x, y);
                assert(cloned(zero, m.data@[flat_index(size_y as nat, x, y)]));
            }
        }
        m
    }

    /// Borrows cell `(x, y)`, which the caller knows to exist.
    fn cell(&self, x: usize, y: usize) -> (r: &T)
        requires
            x < self.rows(),
            y < self.cols(),
        ensures
            *r == self@[x as int][y as int],
    {
        proof {
            use_type_invariant(self);
            lemma_flat_index(self.size_x as nat, self.size_y as nat, x as int, y as int);
        }
        &self.data[x * self.size_y + y]
    }

    /// Overwrites cell `(x, y)`, which the caller knows to exist.
    fn put(&mut self, x: usize, y: usize, value: T)
        requires
            x < old(self).rows(),
            y < old(self).cols(),
        ensures
            final(self).rows() == old(self).rows(),
            final(self).cols() == old(self).cols(),
            final(self)@ == written(old(self)@, x as int, y as int, value),
    {
        proof {
            use_type_invariant(&*self);
            lemma_flat_index(self.size_x as nat, self.size_y as nat, x as int, y as int);
        }
        let i = x * self.size_y + y;
        self.data[i] = value;
        proof {
            let before = old(self)@;
            let after = self@;
            let target = written(before, x as int, y as int, value);
            assert forall|a: int| 0 <= a < after.len() implies after[a] =~= target[a] by {
                assert forall|b: int| 0 <= b < self.size_y implies after[a][b] == target[a][b] by {
                    lemma_flat_index(self.size_x as nat, self.size_y as nat, a, b);
                }
            }
            assert(after =~= target);
        }
    }

    /// Formats the matrix for reading: one line per row, each cell's text
    /// followed by a space, each line closed by a line feed.
    pub fn to_text(&self) -> (r: String) where T: Display
        ensures
            exists|texts: Seq<Seq<String>>| #[trigger]
                shows(texts, self@, self.rows(), self.cols()) && r@ == grid_text(
                    texts,
                    self.rows(),
                ),
    {
        let mut out = String::new();
        let ghost mut texts: Seq<Seq<String>> = Seq::empty();
        let mut x: usize = 0;
        while x < self.size_x
            invariant
                x <= self.size_x,
                shows(texts, self@, x as nat, self.size_y as nat),
                out@ == grid_text(texts, x as nat),
            decreases self.size_x - x,
        {
            let ghost above = out@;
            let ghost mut row: Seq<String> = Seq::empty();
            let mut y: usize = 0;
            while y < self.size_y
                invariant
                    x < self.size_x,
                    y <= self.size_y,
                    row.len() == y,
                    forall|j: int|
                        0 <= j < y ==> to_string_from_display_ensures::<T>(
                            &self@[x as int][j],
                            #[trigger] row[j],
                        ),
                    out@ == above + row_text(row, y as nat),
                decreases self.size_y - y,
            {
                let cell = self.cell(x, y).to_string();
                out.append(cell.as_str());
                out.append(" ");
                proof {
                    reveal_strlit(" ");
                    lemma_row_text_push(row, cell, y as nat);
                    assert(out@ =~= above + row_text(row.push(cell), (y + 1) as nat));
                    row = row.push(cell);
                }
                y += 1;
            }
            out.append("\n");
            proof {
                reveal_strlit("\n");
                lemma_grid_text_push(texts, row, x as nat);
                assert(out@ =~= grid_text(texts.push(row), (x + 1) as nat));
                texts = texts.push(row);
            }
            x += 1;
        }
        proof {
            assert(shows(texts, self@, self.rows(), self.cols()));
        }
        out
    }

    /// Reads cell `(x, y)`. A position outside the matrix is refused.
    pub fn get(&self, x: usize, y: usize) -> (r: Result<&T, Error>)
        ensures
            x < self.rows() && y < self.cols() ==> r.is_ok() && *r.unwrap() == self@[x as int][y as int],
            !(x < self.rows() && y < self.cols()) ==> r == Err::<&T, Error>(Error::IndexOutOfBounds),
    {
        if x < self.size_x && y < self.size_y {
            Ok(self.cell(x, y))
        } else {
            Err(Error::IndexOutOfBounds)
        }
    }

    /// Overwrites cell `(x, y)` with `value` and touches no other cell. A
    /// position outside the matrix is refused and leaves the matrix as it
    /// was.
    pub fn set(&mut self, x: usize, y: usize, value: T) -> (r: Result<(), Error>)
        ensures
            final(self).rows() == old(self).rows(),
            final(self).cols() == old(self).cols(),
            final(self)@ == written(old(self)@, x as int, y as int, value),
            r.is_ok() <==> x < old(self).rows() && y < old(self).cols(),
            r.is_err() ==> r == Err::<(), Error>(Error::IndexOutOfBounds) && *final(self) == *old(self),
    {
        if x < self.size_x && y < self.size_y {
            self.put(x, y, value);
            Ok(())
        } else {
            Err(Error::IndexOutOfBounds)
        }
    }
}

impl<T: Clone> Clone for Matrix<T> {
    /// Copies the matrix cell by cell, keeping its dimensions.
    fn clone(&self) -> (r: Self)
        ensures
            r.rows() == self.rows(),
            r.cols() == self.cols(),
            has_shape(r@, self.rows(), self.cols()),
            forall|x: int, y: int|
                0 <= x < self.rows() && 0 <= y < self.cols() ==> cloned(
                    self@[x][y],
                    #[trigger] r@[x][y],
                ),
    {
        proof {
            use_type_invariant(self);
        }
        let r = Matrix::<T> { data: self.data.clone(), size_x: self.size_x, size_y: self.size_y };
        proof {
            assert forall|x: int, y: int| 0 <= x < self.rows() && 0 <= y < self.cols() implies cloned(
                self@[x][y],
                #[trigger] r@[x][y],
            ) by {
                lemma_flat_index(self.size_x as nat, self.size_y as nat, x, y);
            }
        }
        r
    }
}

/// A matrix read and written with its coordinates swapped: an adapter over
/// a plain matrix of the swapped dimensions, not a storage layout of its own.
pub struct TransposedMatrix<T>(Matrix<T>);

impl<T> View for TransposedMatrix<T> {
    type V = Seq<Seq<T>>;

    /// The logical grid: cell `(x, y)` is cell `(y, x)` of the storage.
    closed spec fn view(&self) -> Seq<Seq<T>> {
        transposed(self.0@, self.0.rows(), self.0.cols())
    }
}

impl<T> TransposedMatrix<T> {
    /// Number of logical rows.
    pub closed spec fn rows(&self) -> nat {
        self.0.cols()
    }

    /// Number of logical columns.
    pub closed spec fn cols(&self) -> nat {
        self.0.rows()
    }

    /// The grid of the plain matrix underneath, which has `cols()` rows and
    /// `rows()` columns.
    pub closed spec fn storage(&self) -> Seq<Seq<T>> {
        self.0@
    }

    /// The logical grid has the logical dimensions and is the storage
    /// transposed.
    pub proof fn lemma_view_shape(&self)
        ensures
            has_shape(self@, self.rows(), self.cols()),
            has_shape(self.storage(), self.cols(), self.rows()),
            self@ == transposed(self.storage(), self.cols(), self.rows()),
    {
    }

    /// Creates an adapter with `size_x` logical rows and `size_y` logical
    /// columns over a fresh plain matrix of `size_y` rows and `size_x`
    /// columns, every cell a clone of the default value.
    pub fn new(size_x: usize, size_y: usize) -> (t: Self) where T: Default + Clone
        requires
            size_x * size_y <= usize::MAX,
        ensures
            t.rows() == size_x,
            t.cols() == size_y,
            has_shape(t@, size_x as nat, size_y as nat),
            has_shape(t.storage(), size_y as nat, size_x as nat),
            forall|x: int, y: int|
                0 <= x < size_x && 0 <= y < size_y ==> is_default(#[trigger] t@[x][y]),
    {
        assert(size_y * size_x == size_x * size_y) by (nonlinear_arith);
        Self(Matrix::new(size_y, size_x))
    }

    /// Reads logical cell `(x, y)`, which is cell `(y, x)` of the storage.
    /// A position outside the logical grid is refused.
    pub fn get(&self, x: usize, y: usize) -> (r: Result<&T, Error>)
        ensures
            x < self.rows() && y < self.cols() ==> r.is_ok() && *r.unwrap() == self@[x as int][y as int]
                && *r.unwrap() == self.storage()[y as int][x as int],
            !(x < self.rows() && y < self.cols()) ==> r == Err::<&T, Error>(Error::IndexOutOfBounds),
    {
        self.0.get(y, x)
    }

    /// Overwrites logical cell `(x, y)`, which is cell `(y, x)` of the
    /// storage, and touches no other cell. A position outside the logical
    /// grid is refused and leaves the adapter as it was.
    pub fn set(&mut self, x: usize, y: usize, value: T) -> (r: Result<(), Error>)
        ensures
            final(self).rows() == old(self).rows(),
            final(self).cols() == old(self).cols(),
            final(self)@ == written(old(self)@, x as int, y as int, value),
            final(self).storage() == written(old(self).storage(), y as int, x as int, value),
            r.is_ok() <==> x < old(self).rows() && y < old(self).cols(),
            r.is_err() ==> r == Err::<(), Error>(Error::IndexOutOfBounds) && *final(self) == *old(self),
    {
        proof {
            lemma_transposed_write(
                self.0@,
                self.0.rows(),
                self.0.cols(),
                x as int,
                y as int,
                value,
            );
        }
        self.0.set(y, x, value)
    }

    /// Formats the storage underneath, not the logical grid: one line per
    /// logical column, holding that column's cells.
    pub fn to_text(&self) -> (r: String) where T: Display
        ensures
            exists|texts: Seq<Seq<String>>| #[trigger]
                shows(texts, self.storage(), self.cols(), self.rows()) && r@ == grid_text(
                    texts,
                    self.cols(),
                ),
    {
        let r = self.0.to_text();
        proof {
            let texts = choose|texts: Seq<Seq<String>>| #[trigger]
                shows(texts, self.0@, self.0.rows(), self.0.cols()) && r@ == grid_text(
                    texts,
                    self.0.rows(),
                );
            assert(shows(texts, self.storage(), self.cols(), self.rows()));
        }
        r
    }
}

/// Whether every matrix of the sequence has the dimensions of the first.
pub open spec fn same_shape<T>(matrices: Seq<Matrix<T>>) -> bool {
    forall|k: int|
        0 <= k < matrices.len() ==> (#[trigger] matrices[k]).rows() == matrices[0].rows()
            && matrices[k].cols() == matrices[0].cols()
}

/// Cell `(x, y)` summed over the first `n` matrices, in their order,
/// starting from `zero`: each matrix's cell is added on the right of what
/// was accumulated so far.
pub open spec fn cell_sum<T: Add<Output = T>>(
    zero: T,
    matrices: Seq<Matrix<T>>,
    x: int,
    y: int,
    n: nat,
) -> T
    decreases n,
{
    if n == 0 {
        zero
    } else {
        cell_sum(zero, matrices, x, y, (n - 1) as nat).add_spec(matrices[n - 1]@[x][y])
    }
}

/// Whether the element type accepts every addition that summing the
/// matrices cell by cell performs, starting from a default value.
pub open spec fn sum_defined<T: Default + Clone + Add<Output = T>>(
    matrices: Seq<Matrix<T>>,
) -> bool {
    forall|zero: T, x: int, y: int, k: nat|
        is_default(zero) && 0 <= x < matrices[0].rows() && 0 <= y < matrices[0].cols() && k
            < matrices.len() ==> (#[trigger] cell_sum(zero, matrices, x, y, k)).add_req(
            matrices[k as int]@[x][y],
        )
}

/// Whether `value` is cell `(x, y)` summed over all the matrices, starting
/// from a default value of the element type.
pub open spec fn is_cell_total<T: Default + Clone + Add<Output = T>>(
    value: T,
    matrices: Seq<Matrix<T>>,
    x: int,
    y: int,
) -> bool {
    exists|zero: T| #[trigger]
        is_default(zero) && value == cell_sum(zero, matrices, x, y, matrices.len())
}

/// Sums same-shaped matrices cell by cell. The cells are visited row by row
/// and, within a row, column by column; for each cell the matrices are
/// accumulated in input order onto a default value.
pub fn matrix_sum<T>(matrices: &[Matrix<T>]) -> (r: Result<Matrix<T>, Error>) where
    T: Default + Clone + Copy + Add<Output = T>,

    requires
        T::obeys_add_spec(),
        matrices@.len() > 0 && same_shape(matrices@) ==> sum_defined(matrices@),
    ensures
        matrices@.len() == 0 ==> r == Err::<Matrix<T>, Error>(Error::EmptyInput),
        matrices@.len() > 0 && !same_shape(matrices@) ==> r == Err::<Matrix<T>, Error>(
            Error::ShapeMismatch,
        ),
        matrices@.len() > 0 && same_shape(matrices@) ==> {
            &&& r.is_ok()
            &&& r.unwrap().rows() == matrices@[0].rows()
            &&& r.unwrap().cols() == matrices@[0].cols()
            &&& has_shape(r.unwrap()@, matrices@[0].rows(), matrices@[0].cols())
            &&& forall|x: int, y: int|
                0 <= x < matrices@[0].rows() && 0 <= y < matrices@[0].cols() ==> is_cell_total(
                    #[trigger] r.unwrap()@[x][y],
                    matrices@,
                    x,
                    y,
                )
        },
{
    let n: usize = matrices.len();
    if n == 0 {
        return Err(Error::EmptyInput);
    }
    let first = &matrices[0];
    let size_x: usize = first.size_x;
    let size_y: usize = first.size_y;
    let mut k: usize = 1;
    while k < n
        invariant
            1 <= k <= n,
            n == matrices@.len(),
            size_x == matrices@[0].rows(),
            size_y == matrices@[0].cols(),
            forall|j: int|
                0 <= j < k ==> (#[trigger] matrices@[j]).rows() == size_x && matrices@[j].cols()
                    == size_y,
        decreases n - k,
    {
        if matrices[k].size_x != size_x || matrices[k].size_y != size_y {
            return Err(Error::ShapeMismatch);
        }
        k += 1;
    }
    proof {
        use_type_invariant(first);
    }
    let mut result = Matrix::<T>::new(size_x, size_y);
    let ghost fresh = result@;
    let mut x: usize = 0;
    while x < size_x
        invariant
            T::obeys_add_spec(),
            same_shape(matrices@),
            sum_defined(matrices@),
            n == matrices@.len(),
            n > 0,
            size_x == matrices@[0].rows(),
            size_y == matrices@[0].cols(),
            x <= size_x,
            result.rows() == size_x,
            result.cols() == size_y,
            has_shape(result@, size_x as nat, size_y as nat),
            forall|i: int, j: int|
                0 <= i < size_x && 0 <= j < size_y ==> is_default(#[trigger] fresh[i][j]),
            forall|i: int, j: int|
                0 <= i < size_x && 0 <= j < size_y ==> #[trigger] result@[i][j] == (if i < x {
                    cell_sum(fresh[i][j], matrices@, i, j, n as nat)
                } else {
                    fresh[i][j]
                }),
        decreases size_x - x,
    {
        let mut y: usize = 0;
        while y < size_y
            invariant
                T::obeys_add_spec(),
                same_shape(matrices@),
                sum_defined(matrices@),
                n == matrices@.len(),
                n > 0,
                size_x == matrices@[0].rows(),
                size_y == matrices@[0].cols(),
                x < size_x,
                y <= size_y,
                result.rows() == size_x,
                result.cols() == size_y,
                has_shape(result@, size_x as nat, size_y as nat),
                forall|i: int, j: int|
                    0 <= i < size_x && 0 <= j < size_y ==> is_default(#[trigger] fresh[i][j]),
                forall|i: int, j: int|
                    0 <= i < size_x && 0 <= j < size_y ==> #[trigger] result@[i][j] == (if i < x
                        || (i == x && j < y) {
                        cell_sum(fresh[i][j], matrices@, i, j, n as nat)
                    } else {
                        fresh[i][j]
                    }),
            decreases size_y - y,
        {
            let mut k: usize = 0;
            while k < n
                invariant
                    T::obeys_add_spec(),
                    same_shape(matrices@),
                    sum_defined(matrices@),
                    n == matrices@.len(),
                    size_x == matrices@[0].rows(),
                    size_y == matrices@[0].cols(),
                    x < size_x,
                    y < size_y,
                    k <= n,
                    result.rows() == size_x,
                    result.cols() == size_y,
                    has_shape(result@, size_x as nat, size_y as nat),
                    is_default(fresh[x as int][y as int]),
                    forall|i: int, j: int|
                        0 <= i < size_x && 0 <= j < size_y ==> #[trigger] result@[i][j] == (if i
                            == x && j == y {
                            cell_sum(fresh[i][j], matrices@, i, j, k as nat)
                        } else if i < x || (i == x && j < y) {
                            cell_sum(fresh[i][j], matrices@, i, j, n as nat)
                        } else {
                            fresh[i][j]
                        }),
                decreases n - k,
            {
                let so_far: T = *result.cell(x, y);
                let next: T = *matrices[k].cell(x, y);
                result.put(x, y, so_far + next);
                k += 1;
            }
            y += 1;
        }
        x += 1;
    }
    Ok(result)
}

} // verus!
