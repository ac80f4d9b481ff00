//! The samples under a kernel: for one pixel, the source pixels that the
//! kernel's cells fall on, each with the cell that weighs it. Cells that
//! fall outside the raster are skipped, so a pixel near the border is
//! blended from fewer samples.

use vstd::prelude::*;
use crate::kernel::{Matrix, matrix_of, cell_of, rows_of, cols_of};
use crate::raster::{Raster, RasterView, Color};

verus! {

/// One source pixel under the kernel: the kernel's cell, which is the
/// squared distance from the centre, and the pixel's three channels.
#[derive(Clone, Copy, Debug, PartialEq, Eq)]
pub struct Sample {
    pub distance: u32,
    pub red: u8,
    pub green: u8,
    pub blue: u8,
}

/// How far the kernel reaches from its centre: half its number of rows.
pub open spec fn reach(m: Matrix) -> int {
    m.rows as int / 2
}

/// The sample that the cell `(row, col)` of the kernel contributes to the
/// pixel `(x, y)`: the source pixel at `(x + row - reach, y + col - reach)`,
/// or nothing when that coordinate is outside the raster.
pub open spec fn tap(m: Matrix, img: RasterView, x: int, y: int, row: int, col: int) -> Option<
    Sample,
> {
    let sx = x + row - reach(m);
    let sy = y + col - reach(m);
    if img.contains(sx, sy) {
        Some(
            Sample {
                distance: m.cells[(row, col)],
                red: img.pixels[(sx, sy)].0,
                green: img.pixels[(sx, sy)].1,
                blue: img.pixels[(sx, sy)].2,
            },
        )
    } else {
        None
    }
}

/// The numbers `0, 1, .., n - 1`.
pub open spec fn indices(n: nat) -> Seq<int> {
    Seq::new(n, |i: int| i)
}

/// The contribution of each column of one kernel row.
pub open spec fn row_taps(m: Matrix, img: RasterView, x: int, y: int, row: int) -> spec_fn(
    int,
) -> Option<Sample> {
    |col: int| tap(m, img, x, y, row, col)
}

/// The samples of one kernel row, by ascending column.
pub open spec fn row_samples(m: Matrix, img: RasterView, x: int, y: int, row: int) -> Seq<Sample> {
    indices(m.cols).filter_map(row_taps(m, img, x, y, row))
}

/// The samples of each kernel row.
pub open spec fn rows_of_samples(m: Matrix, img: RasterView, x: int, y: int) -> spec_fn(int) -> Seq<
    Sample,
> {
    |row: int| row_samples(m, img, x, y, row)
}

/// The samples for the pixel `(x, y)`: those of every kernel cell that falls
/// inside the raster, by ascending row and, within a row, ascending column.
pub open spec fn samples(m: Matrix, img: RasterView, x: int, y: int) -> Seq<Sample> {
    indices(m.rows).flat_map(rows_of_samples(m, img, x, y))
}

/// Gathers the samples for the pixel `(x, y)` of `img` under the kernel
/// `matrix`, in the order in which they are to be summed.
pub fn gather_samples(x: u32, y: u32, matrix: &grid::Grid<u32>, img: &Raster) -> (out: Vec<Sample>)
    ensures
        out@ == samples(matrix_of(*matrix), img@, x as int, y as int),
{
    let rows = rows_of(matrix);
    let cols = cols_of(matrix);
    let width = img.width();
    let height = img.height();
    let radius: i128 = (rows / 2) as i128;
    let ghost m = matrix_of(*matrix);
    let ghost by_row = rows_of_samples(m, img@, x as int, y as int);
    let mut out: Vec<Sample> = Vec::new();
    let mut i: usize = 0;
    assert(indices(m.rows).take(0).flat_map(by_row) =~= Seq::<Sample>::empty()) by {
        assert(indices(m.rows).take(0).map_values(by_row) =~= Seq::<Seq<Sample>>::empty());
    }
    while i < rows
        invariant
            m == matrix_of(*matrix),
            by_row == rows_of_samples(m, img@, x as int, y as int),
            rows == m.rows,
            cols == m.cols,
            width == img@.width,
            height == img@.height,
            radius == reach(m),
            i <= rows,
            out@ == indices(m.rows).take(i as int).flat_map(by_row),
        decreases rows - i,
    {
        let ghost before = out@;
        let ghost by_col = row_taps(m, img@, x as int, y as int, i as int);
        let mut k: usize = 0;
        assert(indices(m.cols).take(0).filter_map(by_col) =~= Seq::<Sample>::empty());
        while k < cols
            invariant
                m == matrix_of(*matrix),
                by_col == row_taps(m, img@, x as int, y as int, i as int),
                rows == m.rows,
                cols == m.cols,
                width == img@.width,
                height == img@.height,
                radius == reach(m),
                i < rows,
                k <= cols,
                out@ == before + indices(m.cols).take(k as int).filter_map(by_col),
            decreases cols - k,
        {
            proof {
                indices(m.cols).lemma_filter_map_take_succ(by_col, k as int);
            }
            let sx: i128 = x as i128 + i as i128 - radius;
            let sy: i128 = y as i128 + k as i128 - radius;
            if sx >= 0 && sy >= 0 && sx < width as i128 && sy < height as i128 {
                let pixel: Color = img.get_pixel(sx as u32, sy as u32);
                let cell = cell_of(matrix, i, k);
                out.push(
                    Sample {
                        distance: cell.unwrap(),
                        red: pixel.0,
                        green: pixel.1,
                        blue: pixel.2,
                    },
                );
            }
            k += 1;
        }
        proof {
            assert(indices(m.cols).take(cols as int) =~= indices(m.cols));
            indices(m.rows).lemma_flat_map_take_append(by_row, i as int);
        }
        i += 1;
    }
    assert(indices(m.rows).take(rows as int) =~= indices(m.rows));
    out
}

/// The samples of a kernel row among its first `n` columns, when no column
/// of that row falls inside the raster.
proof fn lemma_row_prefix_empty(m: Matrix, img: RasterView, x: int, y: int, row: int, n: int)
    requires
        0 <= n <= m.cols,
        forall|col: int| 0 <= col < m.cols ==> tap(m, img, x, y, row, col).is_none(),
    ensures
        indices(m.cols).take(n).filter_map(row_taps(m, img, x, y, row)) == Seq::<Sample>::empty(),
    decreases n,
{
    let f = row_taps(m, img, x, y, row);
    if n == 0 {
        assert(indices(m.cols).take(0).filter_map(f) =~= Seq::<Sample>::empty());
    } else {
        lemma_row_prefix_empty(m, img, x, y, row, n - 1);
        indices(m.cols).lemma_filter_map_take_succ(f, n - 1);
        assert(f(indices(m.cols)[n - 1]) == tap(m, img, x, y, row, n - 1));
        assert(indices(m.cols).take(n).filter_map(f) =~= Seq::<Sample>::empty());
    }
}

/// The samples of a kernel row among its first `n` columns, when `only` is
/// the one column of that row that falls inside the raster.
proof fn lemma_row_prefix_single(
    m: Matrix,
    img: RasterView,
    x: int,
    y: int,
    row: int,
    only: int,
    n: int,
)
    requires
        0 <= n <= m.cols,
        0 <= only < m.cols,
        tap(m, img, x, y, row, only).is_some(),
        forall|col: int| 0 <= col < m.cols && col != only ==> tap(m, img, x, y, row, col).is_none(),
    ensures
        indices(m.cols).take(n).filter_map(row_taps(m, img, x, y, row)) == if n > only {
            seq![tap(m, img, x, y, row, only).unwrap()]
        } else {
            Seq::<Sample>::empty()
        },
    decreases n,
{
    let f = row_taps(m, img, x, y, row);
    if n == 0 {
        assert(indices(m.cols).take(0).filter_map(f) =~= Seq::<Sample>::empty());
    } else {
        lemma_row_prefix_single(m, img, x, y, row, only, n - 1);
        indices(m.cols).lemma_filter_map_take_succ(f, n - 1);
        assert(f(indices(m.cols)[n - 1]) == tap(m, img, x, y, row, n - 1));
        if n - 1 == only {
            assert(indices(m.cols).take(n).filter_map(f) =~= seq![
                tap(m, img, x, y, row, only).unwrap(),
            ]);
        } else if n > only {
            assert(indices(m.cols).take(n).filter_map(f) =~= seq![
                tap(m, img, x, y, row, only).unwrap(),
            ]);
        } else {
            assert(indices(m.cols).take(n).filter_map(f) =~= Seq::<Sample>::empty());
        }
    }
}

/// The samples among the first `n` kernel rows, when `(row, col)` is the one
/// cell of the kernel that falls inside the raster.
proof fn lemma_rows_prefix_single(
    m: Matrix,
    img: RasterView,
    x: int,
    y: int,
    row: int,
    col: int,
    n: int,
)
    requires
        0 <= n <= m.rows,
        0 <= row < m.rows,
        0 <= col < m.cols,
        tap(m, img, x, y, row, col).is_some(),
        forall|i: int, k: int|
            0 <= i < m.rows && 0 <= k < m.cols && (i != row || k != col) ==> tap(
                m,
                img,
                x,
                y,
                i,
                k,
            ).is_none(),
    ensures
        indices(m.rows).take(n).flat_map(rows_of_samples(m, img, x, y)) == if n > row {
            seq![tap(m, img, x, y, row, col).unwrap()]
        } else {
            Seq::<Sample>::empty()
        },
    decreases n,
{
    let g = rows_of_samples(m, img, x, y);
    if n == 0 {
        assert(indices(m.rows).take(0).map_values(g) =~= Seq::<Seq<Sample>>::empty());
        assert(indices(m.rows).take(0).flat_map(g) =~= Seq::<Sample>::empty());
    } else {
        lemma_rows_prefix_single(m, img, x, y, row, col, n - 1);
        indices(m.rows).lemma_flat_map_take_append(g, n - 1);
        assert(g(indices(m.rows)[n - 1]) == row_samples(m, img, x, y, n - 1));
        assert(indices(m.cols).take(m.cols as int) =~= indices(m.cols));
        if n - 1 == row {
            lemma_row_prefix_single(m, img, x, y, row, col, m.cols as int);
            assert(indices(m.rows).take(n).flat_map(g) =~= seq![
                tap(m, img, x, y, row, col).unwrap(),
            ]);
        } else {
            lemma_row_prefix_empty(m, img, x, y, n - 1, m.cols as int);
            if n > row {
                assert(indices(m.rows).take(n).flat_map(g) =~= seq![
                    tap(m, img, x, y, row, col).unwrap(),
                ]);
            } else {
                assert(indices(m.rows).take(n).flat_map(g) =~= Seq::<Sample>::empty());
            }
        }
    }
}

/// Where one cell of the kernel alone falls inside the raster, the samples
/// are the one that this cell contributes.
pub proof fn lemma_single_tap(m: Matrix, img: RasterView, x: int, y: int, row: int, col: int)
    requires
        0 <= row < m.rows,
        0 <= col < m.cols,
        tap(m, img, x, y, row, col).is_some(),
        forall|i: int, k: int|
            0 <= i < m.rows && 0 <= k < m.cols && (i != row || k != col) ==> tap(
                m,
                img,
                x,
                y,
                i,
                k,
            ).is_none(),
    ensures
        samples(m, img, x, y) == seq![tap(m, img, x, y, row, col).unwrap()],
{
    lemma_rows_prefix_single(m, img, x, y, row, col, m.rows as int);
    assert(indices(m.rows).take(m.rows as int) =~= indices(m.rows));
}

/// Under a kernel of one cell, the samples of a pixel are that pixel alone.
pub proof fn lemma_samples_of_single_cell(m: Matrix, img: RasterView, x: int, y: int)
    requires
        m.rows == 1,
        m.cols == 1,
        img.contains(x, y),
    ensures
        samples(m, img, x, y) == seq![
            Sample {
                distance: m.cells[(0, 0)],
                red: img.pixels[(x, y)].0,
                green: img.pixels[(x, y)].1,
                blue: img.pixels[(x, y)].2,
            },
        ],
{
    lemma_single_tap(m, img, x, y, 0, 0);
}

/// In a raster of one pixel, the samples of that pixel are the pixel alone,
/// weighed by the kernel's centre, however far the kernel reaches.
pub proof fn lemma_samples_of_single_pixel(m: Matrix, img: RasterView)
    requires
        img.width == 1,
        img.height == 1,
        m.rows >= 1,
        reach(m) < m.cols,
    ensures
        samples(m, img, 0, 0) == seq![
            Sample {
                distance: m.cells[(reach(m), reach(m))],
                red: img.pixels[(0, 0)].0,
                green: img.pixels[(0, 0)].1,
                blue: img.pixels[(0, 0)].2,
            },
        ],
{
    lemma_single_tap(m, img, 0, 0, reach(m), reach(m));
}

/// Whether some column below `n` of the kernel row contributes `s`.
pub open spec fn row_contributes(
    m: Matrix,
    img: RasterView,
    x: int,
    y: int,
    row: int,
    n: int,
    s: Sample,
) -> bool {
    exists|col: int| 0 <= col < n && #[trigger] tap(m, img, x, y, row, col) == Some(s)
}

/// Whether some cell in a kernel row below `n` contributes `s`.
pub open spec fn rows_contribute(m: Matrix, img: RasterView, x: int, y: int, n: int, s: Sample) -> bool {
    exists|row: int, col: int|
        0 <= row < n && 0 <= col < m.cols && #[trigger] tap(m, img, x, y, row, col) == Some(s)
}

/// A sample is among those of the first `n` columns of a kernel row exactly
/// when one of these columns contributes it.
proof fn lemma_row_prefix_membership(
    m: Matrix,
    img: RasterView,
    x: int,
    y: int,
    row: int,
    n: int,
    s: Sample,
)
    requires
        0 <= n <= m.cols,
    ensures
        indices(m.cols).take(n).filter_map(row_taps(m, img, x, y, row)).contains(s)
            <==> row_contributes(m, img, x, y, row, n, s),
    decreases n,
{
    let f = row_taps(m, img, x, y, row);
    let now = indices(m.cols).take(n).filter_map(f);
    if n == 0 {
        assert(now =~= Seq::<Sample>::empty());
    } else {
        let before = indices(m.cols).take(n - 1).filter_map(f);
        lemma_row_prefix_membership(m, img, x, y, row, n - 1, s);
        indices(m.cols).lemma_filter_map_take_succ(f, n - 1);
        assert(f(indices(m.cols)[n - 1]) == tap(m, img, x, y, row, n - 1));
        let last = tap(m, img, x, y, row, n - 1);
        if now.contains(s) {
            let i = choose|i: int| 0 <= i < now.len() && now[i] == s;
            if i < before.len() {
                assert(before[i] == s);
                assert(before.contains(s));
                let col = choose|col: int|
                    0 <= col < n - 1 && #[trigger] tap(m, img, x, y, row, col) == Some(s);
                assert(0 <= col < n && tap(m, img, x, y, row, col) == Some(s));
            } else {
                assert(last == Some(s));
            }
        }
        if row_contributes(m, img, x, y, row, n, s) {
            let col = choose|col: int|
                0 <= col < n && #[trigger] tap(m, img, x, y, row, col) == Some(s);
            if col < n - 1 {
                assert(row_contributes(m, img, x, y, row, n - 1, s));
                let i = choose|i: int| 0 <= i < before.len() && before[i] == s;
                assert(now[i] == s);
            } else {
                assert(now[before.len() as int] == s);
            }
        }
    }
}

/// A sample is among those of the first `n` kernel rows exactly when a cell
/// of these rows contributes it.
proof fn lemma_rows_prefix_membership(m: Matrix, img: RasterView, x: int, y: int, n: int, s: Sample)
    requires
        0 <= n <= m.rows,
    ensures
        indices(m.rows).take(n).flat_map(rows_of_samples(m, img, x, y)).contains(s)
            <==> rows_contribute(m, img, x, y, n, s),
    decreases n,
{
    let g = rows_of_samples(m, img, x, y);
    let now = indices(m.rows).take(n).flat_map(g);
    if n == 0 {
        assert(indices(m.rows).take(0).map_values(g) =~= Seq::<Seq<Sample>>::empty());
        assert(now =~= Seq::<Sample>::empty());
    } else {
        let before = indices(m.rows).take(n - 1).flat_map(g);
        let added = row_samples(m, img, x, y, n - 1);
        lemma_rows_prefix_membership(m, img, x, y, n - 1, s);
        indices(m.rows).lemma_flat_map_take_append(g, n - 1);
        assert(g(indices(m.rows)[n - 1]) == added);
        assert(indices(m.cols).take(m.cols as int) =~= indices(m.cols));
        lemma_row_prefix_membership(m, img, x, y, n - 1, m.cols as int, s);
        assert(now =~= before + added);
        if now.contains(s) {
            let i = choose|i: int| 0 <= i < now.len() && now[i] == s;
            if i < before.len() {
                assert(before[i] == s);
                assert(before.contains(s));
                let (row, col) = choose|row: int, col: int|
                    0 <= row < n - 1 && 0 <= col < m.cols && #[trigger] tap(m, img, x, y, row, col)
                        == Some(s);
                assert(0 <= row < n && 0 <= col < m.cols && tap(m, img, x, y, row, col) == Some(s));
            } else {
                assert(added[i - before.len()] == s);
                assert(added.contains(s));
                let col = choose|col: int|
                    0 <= col < m.cols && #[trigger] tap(m, img, x, y, n - 1, col) == Some(s);
                assert(0 <= n - 1 < n && 0 <= col < m.cols && tap(m, img, x, y, n - 1, col) == Some(
                    s,
                ));
            }
        }
        if rows_contribute(m, img, x, y, n, s) {
            let (row, col) = choose|row: int, col: int|
                0 <= row < n && 0 <= col < m.cols && #[trigger] tap(m, img, x, y, row, col) == Some(
                    s,
                );
            if row < n - 1 {
                assert(rows_contribute(m, img, x, y, n - 1, s));
                let i = choose|i: int| 0 <= i < before.len() && before[i] == s;
                assert(now[i] == s);
            } else {
                assert(row_contributes(m, img, x, y, n - 1, m.cols as int, s));
                let i = choose|i: int| 0 <= i < added.len() && added[i] == s;
                assert(now[before.len() + i] == s);
            }
        }
    }
}

/// A sample is among those of a pixel exactly when some cell of the kernel
/// falls inside the raster and contributes it.
pub proof fn lemma_samples_membership(m: Matrix, img: RasterView, x: int, y: int, s: Sample)
    ensures
        samples(m, img, x, y).contains(s) <==> rows_contribute(m, img, x, y, m.rows as int, s),
{
    lemma_rows_prefix_membership(m, img, x, y, m.rows as int, s);
    assert(indices(m.rows).take(m.rows as int) =~= indices(m.rows));
}

/// The pixel itself is always among its samples, weighed by the kernel's
/// centre: no pixel of the raster is left without a sample.
pub proof fn lemma_centre_sampled(m: Matrix, img: RasterView, x: int, y: int)
    requires
        img.contains(x, y),
        m.rows >= 1,
        reach(m) < m.cols,
    ensures
        samples(m, img, x, y).contains(
            Sample {
                distance: m.cells[(reach(m), reach(m))],
                red: img.pixels[(x, y)].0,
                green: img.pixels[(x, y)].1,
                blue: img.pixels[(x, y)].2,
            },
        ),
        samples(m, img, x, y).len() > 0,
{
    let centre = Sample {
        distance: m.cells[(reach(m), reach(m))],
        red: img.pixels[(x, y)].0,
        green: img.pixels[(x, y)].1,
        blue: img.pixels[(x, y)].2,
    };
    assert(tap(m, img, x, y, reach(m), reach(m)) == Some(centre));
    lemma_samples_membership(m, img, x, y, centre);
}

/// In a raster of one colour, every sample has that colour.
pub proof fn lemma_samples_of_uniform_raster(
    m: Matrix,
    img: RasterView,
    x: int,
    y: int,
    color: (u8, u8, u8),
)
    requires
        forall|a: int, b: int| img.contains(a, b) ==> #[trigger] img.pixels[(a, b)] == color,
    ensures
        forall|i: int|
            0 <= i < samples(m, img, x, y).len() ==> {
                &&& (#[trigger] samples(m, img, x, y)[i]).red == color.0
                &&& samples(m, img, x, y)[i].green == color.1
                &&& samples(m, img, x, y)[i].blue == color.2
            },
{
    assert forall|i: int| 0 <= i < samples(m, img, x, y).len() implies {
        &&& (#[trigger] samples(m, img, x, y)[i]).red == color.0
        &&& samples(m, img, x, y)[i].green == color.1
        &&& samples(m, img, x, y)[i].blue == color.2
    } by {
        let s = samples(m, img, x, y)[i];
        assert(samples(m, img, x, y).contains(s));
        lemma_samples_membership(m, img, x, y, s);
        let (row, col) = choose|row: int, col: int|
            0 <= row < m.rows && 0 <= col < m.cols && #[trigger] tap(m, img, x, y, row, col) == Some(
                s,
            );
        assert(img.contains(x + row - reach(m), y + col - reach(m)));
    }
}

} // verus!
