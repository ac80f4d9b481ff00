//! The blur kernel as integers: for every cell of the square kernel, the
//! squared distance of that cell from the centre. A Gaussian weight is a
//! function of this distance and of the standard deviation alone, so the
//! matrix built here fixes the kernel's shape, and its symmetries, exactly.

use vstd::prelude::*;

verus! {

/// The grid crate's two-dimensional container, carried as an opaque value.
#[verifier::external_type_specification]
#[verifier::external_body]
#[verifier::reject_recursive_types(T)]
pub struct ExGrid<T>(grid::Grid<T>);

/// Number of rows of a matrix.
pub uninterp spec fn matrix_rows(m: grid::Grid<u32>) -> nat;

/// Number of columns of a matrix.
pub uninterp spec fn matrix_cols(m: grid::Grid<u32>) -> nat;

/// The cells of a matrix, keyed by `(row, column)`.
pub uninterp spec fn matrix_cells(m: grid::Grid<u32>) -> Map<(int, int), u32>;

/// What a matrix is: its shape and its cells by `(row, column)`.
pub struct Matrix {
    pub rows: nat,
    pub cols: nat,
    pub cells: Map<(int, int), u32>,
}

/// The shape and cells of a matrix.
pub open spec fn matrix_of(m: grid::Grid<u32>) -> Matrix {
    Matrix { rows: matrix_rows(m), cols: matrix_cols(m), cells: matrix_cells(m) }
}

/// The cells of a matrix of the given shape that holds `value` everywhere.
pub open spec fn uniform_cells(rows: nat, cols: nat, value: u32) -> Map<(int, int), u32> {
    Map::new(|c: (int, int)| 0 <= c.0 < rows && 0 <= c.1 < cols, |c: (int, int)| value)
}

/// `Grid::new`: a matrix of the given shape whose cells all hold zero. With
/// either dimension zero the outside function makes an empty matrix of no
/// rows and no columns. It panics when the cells cannot be allocated, which
/// the precondition leaves out.
#[verifier::external_body]
pub(crate) fn zero_matrix(rows: usize, cols: usize) -> (m: grid::Grid<u32>)
    requires
        4 * rows * cols <= isize::MAX,
    ensures
        rows > 0 && cols > 0 ==> matrix_rows(m) == rows && matrix_cols(m) == cols,
        rows == 0 || cols == 0 ==> matrix_rows(m) == 0 && matrix_cols(m) == 0,
        matrix_cells(m) == uniform_cells(rows as nat, cols as nat, 0),
{
    grid::Grid::new(rows, cols)
}

/// `Grid::rows`: the number of rows.
#[verifier::external_body]
pub(crate) fn rows_of(m: &grid::Grid<u32>) -> (n: usize)
    ensures
        n == matrix_rows(*m),
{
    m.rows()
}

/// `Grid::cols`: the number of columns.
#[verifier::external_body]
pub(crate) fn cols_of(m: &grid::Grid<u32>) -> (n: usize)
    ensures
        n == matrix_cols(*m),
{
    m.cols()
}

/// `Grid::get`: the cell at `(row, col)`, or nothing when either index is
/// beyond the matrix.
#[verifier::external_body]
pub(crate) fn cell_of(m: &grid::Grid<u32>, row: usize, col: usize) -> (c: Option<u32>)
    ensures
        row < matrix_rows(*m) && col < matrix_cols(*m) ==> c == Some(
            matrix_cells(*m)[(row as int, col as int)],
        ),
        !(row < matrix_rows(*m) && col < matrix_cols(*m)) ==> c.is_none(),
{
    m.get(row, col).copied()
}

/// `Grid::get_mut`, used to overwrite one cell. The indices must lie
/// inside the matrix; every other cell and the shape stay as they were.
#[verifier::external_body]
pub(crate) fn set_cell(m: &mut grid::Grid<u32>, row: usize, col: usize, value: u32)
    requires
        row < matrix_rows(*old(m)),
        col < matrix_cols(*old(m)),
    ensures
        matrix_rows(*final(m)) == matrix_rows(*old(m)),
        matrix_cols(*final(m)) == matrix_cols(*old(m)),
        matrix_cells(*final(m)) == matrix_cells(*old(m)).insert((row as int, col as int), value),
{
    *m.get_mut(row, col).unwrap() = value;
}

/// Side length of the square kernel of a blur radius.
pub open spec fn kernel_side(radius: int) -> int {
    2 * radius + 1
}

/// Squared Euclidean length of the offset `(dx, dy)` from the kernel's
/// centre.
pub open spec fn squared_distance(dx: int, dy: int) -> int {
    dx * dx + dy * dy
}

/// The kernel of `radius`: square, of side `2 * radius + 1`, each cell
/// holding the squared distance of its offset from the centre.
pub open spec fn kernel(radius: u8) -> Matrix {
    Matrix {
        rows: kernel_side(radius as int) as nat,
        cols: kernel_side(radius as int) as nat,
        cells: Map::new(
            |c: (int, int)|
                0 <= c.0 < kernel_side(radius as int) && 0 <= c.1 < kernel_side(radius as int),
            |c: (int, int)| squared_distance(c.0 - radius, c.1 - radius) as u32,
        ),
    }
}

/// The squared distance of an offset is bounded by that of the kernel's
/// corner.
pub proof fn lemma_squared_distance_bounds(dx: int, dy: int, radius: int)
    requires
        -radius <= dx <= radius,
        -radius <= dy <= radius,
    ensures
        0 <= dx * dx <= radius * radius,
        0 <= dy * dy <= radius * radius,
        0 <= squared_distance(dx, dy) <= 2 * (radius * radius),
{
    assert(0 <= dx * dx <= radius * radius) by (nonlinear_arith)
        requires
            -radius <= dx <= radius,
    ;
    assert(0 <= dy * dy <= radius * radius) by (nonlinear_arith)
        requires
            -radius <= dy <= radius,
    ;
}

/// A weight depends on its offset through the squared distance alone, and
/// that distance does not change when the offset is mirrored in either axis
/// or when its two coordinates are exchanged.
pub proof fn lemma_squared_distance_symmetric(dx: int, dy: int)
    ensures
        squared_distance(dx, dy) == squared_distance(-dx, dy),
        squared_distance(dx, dy) == squared_distance(dx, -dy),
        squared_distance(dx, dy) == squared_distance(-dx, -dy),
        squared_distance(dx, dy) == squared_distance(dy, dx),
{
    assert(dx * dx == (-dx) * (-dx)) by (nonlinear_arith);
    assert(dy * dy == (-dy) * (-dy)) by (nonlinear_arith);
}

/// The cell of a kernel at the offset `(dx, dy)` from the centre.
pub open spec fn kernel_cell(radius: u8, dx: int, dy: int) -> u32 {
    kernel(radius).cells[(radius + dx, radius + dy)]
}

/// In a kernel, the cell at an offset holds the squared distance of that
/// offset, and so the cells at mirrored offsets hold the same value.
pub proof fn lemma_kernel_symmetric(radius: u8, dx: int, dy: int)
    requires
        -radius <= dx <= radius,
        -radius <= dy <= radius,
    ensures
        kernel_cell(radius, dx, dy) == squared_distance(dx, dy),
        kernel_cell(radius, dx, dy) == kernel_cell(radius, -dx, dy),
        kernel_cell(radius, dx, dy) == kernel_cell(radius, dx, -dy),
        kernel_cell(radius, dx, dy) == kernel_cell(radius, -dx, -dy),
        kernel_cell(radius, dx, dy) == kernel_cell(radius, dy, dx),
{
    lemma_squared_distance_symmetric(dx, dy);
    lemma_squared_distance_bounds(dx, dy, 255);
    lemma_squared_distance_bounds(-dx, dy, 255);
    lemma_squared_distance_bounds(dx, -dy, 255);
    lemma_squared_distance_bounds(-dx, -dy, 255);
    lemma_squared_distance_bounds(dy, dx, 255);
}

/// Computes the squared distance of the offset `(dx, dy)`, for offsets no
/// longer than the largest radius.
pub fn offset_distance(dx: i32, dy: i32) -> (d: u32)
    requires
        -255 <= dx <= 255,
        -255 <= dy <= 255,
    ensures
        d == squared_distance(dx as int, dy as int),
{
    proof {
        lemma_squared_distance_bounds(dx as int, dy as int, 255);
    }
    let xx: i32 = dx * dx;
    let yy: i32 = dy * dy;
    (xx + yy) as u32
}

/// Builds the kernel of `radius`: a square matrix of side `2 * radius + 1`
/// whose cell `(i, k)` holds the squared distance of the offset
/// `(i - radius, k - radius)`.
pub fn distance_matrix(radius: u8) -> (m: grid::Grid<u32>)
    ensures
        matrix_of(m) == kernel(radius),
{
    let r: i32 = radius as i32;
    let side: usize = 2 * (radius as usize) + 1;
    assert(4 * side * side <= isize::MAX) by (nonlinear_arith)
        requires
            1 <= side <= 511,
            isize::MAX >= 0x7fff_ffff,
    ;
    let mut m = zero_matrix(side, side);
    let mut i: usize = 0;
    while i < side
        invariant
            side == kernel_side(radius as int),
            r == radius,
            i <= side,
            matrix_rows(m) == side,
            matrix_cols(m) == side,
            matrix_cells(m).dom() =~= kernel(radius).cells.dom(),
            forall|a: int, b: int|
                0 <= a < i && 0 <= b < side ==> #[trigger] matrix_cells(m)[(a, b)]
                    == squared_distance(a - radius, b - radius),
        decreases side - i,
    {
        let mut k: usize = 0;
        while k < side
            invariant
                side == kernel_side(radius as int),
                r == radius,
                i < side,
                k <= side,
                matrix_rows(m) == side,
                matrix_cols(m) == side,
                matrix_cells(m).dom() =~= kernel(radius).cells.dom(),
                forall|a: int, b: int|
                    0 <= a < i && 0 <= b < side ==> #[trigger] matrix_cells(m)[(a, b)]
                        == squared_distance(a - radius, b - radius),
                forall|b: int|
                    0 <= b < k ==> #[trigger] matrix_cells(m)[(i as int, b)] == squared_distance(
                        i - radius,
                        b - radius,
                    ),
            decreases side - k,
        {
            let d = offset_distance(i as i32 - r, k as i32 - r);
            set_cell(&mut m, i, k, d);
            k += 1;
        }
        i += 1;
    }
    assert(matrix_cells(m) =~= kernel(radius).cells);
    m
}

} // verus!
