use vstd::prelude::*;

verus! {

/// Whether `grid` is made of `rows` rows of `cols` cells each.
pub open spec fn has_shape<T>(grid: Seq<Seq<T>>, rows: nat, cols: nat) -> bool {
    &&& grid.len() == rows
    &&& forall|x: int| 0 <= x < rows ==> (#[trigger] grid[x]).len() == cols
}

/// Whether `(x, y)` names a cell of `grid`.
pub open spec fn in_bounds<T>(grid: Seq<Seq<T>>, x: int, y: int) -> bool {
    0 <= x < grid.len() && 0 <= y < grid[x].len()
}

/// The grid that a write of `value` to `(x, y)` leaves: the named cell is
/// replaced, and a write outside the grid changes nothing.
pub open spec fn written<T>(grid: Seq<Seq<T>>, x: int, y: int, value: T) -> Seq<Seq<T>> {
    if in_bounds(grid, x, y) {
        grid.update(x, grid[x].update(y, value))
    } else {
        grid
    }
}

/// The grid whose cell `(x, y)` is cell `(y, x)` of `grid`, where `grid` has
/// `rows` rows and `cols` columns.
pub open spec fn transposed<T>(grid: Seq<Seq<T>>, rows: nat, cols: nat) -> Seq<Seq<T>> {
    Seq::new(cols, |x: int| Seq::new(rows, |y: int| grid[y][x]))
}

/// The grid left by a sequence of writes `(x, y, value)`, made first to last.
pub open spec fn written_all<T>(grid: Seq<Seq<T>>, writes: Seq<(int, int, T)>) -> Seq<Seq<T>>
    decreases writes.len(),
{
    if writes.len() == 0 {
        grid
    } else {
        let w = writes.last();
        written(written_all(grid, writes.drop_last()), w.0, w.1, w.2)
    }
}

/// The value of the last write in `writes` that names cell `(x, y)`, if any.
pub open spec fn last_write<T>(writes: Seq<(int, int, T)>, x: int, y: int) -> Option<T>
    decreases writes.len(),
{
    if writes.len() == 0 {
        None
    } else {
        let w = writes.last();
        if w.0 == x && w.1 == y {
            Some(w.2)
        } else {
            last_write(writes.drop_last(), x, y)
        }
    }
}

/// A write keeps the grid's dimensions; reading the written cell afterwards
/// gives the written value, and reading any other cell gives what it held
/// before.
pub proof fn lemma_write_then_read<T>(
    grid: Seq<Seq<T>>,
    rows: nat,
    cols: nat,
    x: int,
    y: int,
    value: T,
    i: int,
    j: int,
)
    requires
        has_shape(grid, rows, cols),
        0 <= i < rows,
        0 <= j < cols,
    ensures
        has_shape(written(grid, x, y, value), rows, cols),
        written(grid, x, y, value)[i][j] == (if i == x && j == y {
            value
        } else {
            grid[i][j]
        }),
{
}

/// After any sequence of writes, a cell holds the value last written to it,
/// and a cell that was never written holds what it held at the start.
pub proof fn lemma_writes_then_read<T>(
    grid: Seq<Seq<T>>,
    rows: nat,
    cols: nat,
    writes: Seq<(int, int, T)>,
    i: int,
    j: int,
)
    requires
        has_shape(grid, rows, cols),
        0 <= i < rows,
        0 <= j < cols,
    ensures
        has_shape(written_all(grid, writes), rows, cols),
        written_all(grid, writes)[i][j] == (match last_write(writes, i, j) {
            Some(value) => value,
            None => grid[i][j],
        }),
    decreases writes.len(),
{
    if writes.len() > 0 {
        let w = writes.last();
        lemma_writes_then_read(grid, rows, cols, writes.drop_last(), i, j);
        lemma_write_then_read(
            written_all(grid, writes.drop_last()),
            rows,
            cols,
            w.0,
            w.1,
            w.2,
            i,
            j,
        );
    }
}

/// Writing cell `(x, y)` of the transposed grid is the same as writing cell
/// `(y, x)` of the grid itself and transposing afterwards, and reading cell
/// `(x, y)` of the transposed grid reads cell `(y, x)` of the grid.
pub proof fn lemma_transposed_write<T>(
    grid: Seq<Seq<T>>,
    rows: nat,
    cols: nat,
    x: int,
    y: int,
    value: T,
)
    requires
        has_shape(grid, rows, cols),
    ensures
        has_shape(transposed(grid, rows, cols), cols, rows),
        0 <= x < cols && 0 <= y < rows ==> transposed(grid, rows, cols)[x][y] == grid[y][x],
        written(transposed(grid, rows, cols), x, y, value) == transposed(
            written(grid, y, x, value),
            rows,
            cols,
        ),
        0 <= x < cols && 0 <= y < rows ==> written(transposed(grid, rows, cols), x, y, value)[x][y]
            == value,
{
    let left = written(transposed(grid, rows, cols), x, y, value);
    let right = transposed(written(grid, y, x, value), rows, cols);
    assert forall|a: int| 0 <= a < cols implies left[a] =~= right[a] by {
        assert(left[a].len() == rows);
    }
    assert(left =~= right);
}

} // verus!
