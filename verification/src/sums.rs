//! Sums over the cells of a grid, and the few rules of reckoning with them
//! that the counting laws need.

use vstd::prelude::*;
use crate::grid::in_grid;

verus! {

/// Sum of `f(x, y)` over the first `width` cells of the row `y`.
pub open spec fn row_sum(width: int, y: int, f: spec_fn(int, int) -> int) -> int
    decreases width,
{
    if width <= 0 {
        0
    } else {
        row_sum(width - 1, y, f) + f(width - 1, y)
    }
}

/// Sum of `f(x, y)` over the cells of a `width` by `height` grid.
pub open spec fn grid_sum(width: int, height: int, f: spec_fn(int, int) -> int) -> int
    decreases height,
{
    if height <= 0 {
        0
    } else {
        grid_sum(width, height - 1, f) + row_sum(width, height - 1, f)
    }
}

/// Rows whose terms agree one by one have the same sum.
pub proof fn lemma_row_sum_equal(
    width: int,
    ya: int,
    f: spec_fn(int, int) -> int,
    yb: int,
    g: spec_fn(int, int) -> int,
)
    requires
        forall|x: int| 0 <= x < width ==> #[trigger] f(x, ya) == g(x, yb),
    ensures
        row_sum(width, ya, f) == row_sum(width, yb, g),
    decreases width,
{
    if width > 0 {
        lemma_row_sum_equal(width - 1, ya, f, yb, g);
        assert(f(width - 1, ya) == g(width - 1, yb));
    }
}

/// A row of zeros sums to zero.
pub proof fn lemma_row_sum_zero(width: int, y: int, f: spec_fn(int, int) -> int)
    requires
        forall|x: int| 0 <= x < width ==> #[trigger] f(x, y) == 0,
    ensures
        row_sum(width, y, f) == 0,
    decreases width,
{
    if width > 0 {
        lemma_row_sum_zero(width - 1, y, f);
        assert(f(width - 1, y) == 0);
    }
}

/// The sum of a row of sums is the sum of the two rows.
pub proof fn lemma_row_sum_add(
    width: int,
    y: int,
    f: spec_fn(int, int) -> int,
    g: spec_fn(int, int) -> int,
    both: spec_fn(int, int) -> int,
)
    requires
        forall|x: int| 0 <= x < width ==> #[trigger] both(x, y) == f(x, y) + g(x, y),
    ensures
        row_sum(width, y, both) == row_sum(width, y, f) + row_sum(width, y, g),
    decreases width,
{
    if width > 0 {
        lemma_row_sum_add(width - 1, y, f, g, both);
        assert(both(width - 1, y) == f(width - 1, y) + g(width - 1, y));
    }
}

/// Reading a row one place to the left of where it is written: the sum loses
/// its last term and gains the one before the first.
proof fn lemma_row_moved_right(
    width: int,
    y: int,
    f: spec_fn(int, int) -> int,
    g: spec_fn(int, int) -> int,
)
    requires
        width >= 0,
        forall|x: int| 0 <= x < width ==> #[trigger] g(x, y) == f(x - 1, y),
    ensures
        row_sum(width, y, g) + f(width - 1, y) == row_sum(width, y, f) + f(-1, y),
    decreases width,
{
    if width > 0 {
        lemma_row_moved_right(width - 1, y, f, g);
        assert(g(width - 1, y) == f(width - 2, y));
    }
}

/// Reading a row one place to the right of where it is written: the sum
/// loses its first term and gains the one after the last.
proof fn lemma_row_moved_left(
    width: int,
    y: int,
    f: spec_fn(int, int) -> int,
    g: spec_fn(int, int) -> int,
)
    requires
        width >= 0,
        forall|x: int| 0 <= x < width ==> #[trigger] g(x, y) == f(x + 1, y),
    ensures
        row_sum(width, y, g) + f(0, y) == row_sum(width, y, f) + f(width, y),
    decreases width,
{
    if width > 0 {
        lemma_row_moved_left(width - 1, y, f, g);
        assert(g(width - 1, y) == f(width, y));
    }
}

/// Grids whose terms agree cell by cell have the same sum.
pub proof fn lemma_grid_sum_equal(
    width: int,
    height: int,
    f: spec_fn(int, int) -> int,
    g: spec_fn(int, int) -> int,
)
    requires
        forall|x: int, y: int| in_grid(width, height, x, y) ==> #[trigger] f(x, y) == g(x, y),
    ensures
        grid_sum(width, height, f) == grid_sum(width, height, g),
    decreases height,
{
    if height > 0 {
        lemma_grid_sum_equal(width, height - 1, f, g);
        assert forall|x: int| 0 <= x < width implies #[trigger] f(x, height - 1) == g(
            x,
            height - 1,
        ) by {
            assert(in_grid(width, height, x, height - 1));
        }
        lemma_row_sum_equal(width, height - 1, f, height - 1, g);
    }
}

/// The sum of a grid of sums is the sum of the two grids.
pub proof fn lemma_grid_sum_add(
    width: int,
    height: int,
    f: spec_fn(int, int) -> int,
    g: spec_fn(int, int) -> int,
    both: spec_fn(int, int) -> int,
)
    requires
        forall|x: int, y: int|
            in_grid(width, height, x, y) ==> #[trigger] both(x, y) == f(x, y) + g(x, y),
    ensures
        grid_sum(width, height, both) == grid_sum(width, height, f) + grid_sum(width, height, g),
    decreases height,
{
    if height > 0 {
        lemma_grid_sum_add(width, height - 1, f, g, both);
        assert forall|x: int| 0 <= x < width implies #[trigger] both(x, height - 1) == f(
            x,
            height - 1,
        ) + g(x, height - 1) by {
            assert(in_grid(width, height, x, height - 1));
        }
        lemma_row_sum_add(width, height - 1, f, g, both);
    }
}

/// Reading a grid one row above where it is written: the sum loses its last
/// row and gains the one before the first.
proof fn lemma_grid_moved_down(
    width: int,
    height: int,
    f: spec_fn(int, int) -> int,
    g: spec_fn(int, int) -> int,
)
    requires
        height >= 0,
        forall|x: int, y: int| in_grid(width, height, x, y) ==> #[trigger] g(x, y) == f(x, y - 1),
    ensures
        grid_sum(width, height, g) + row_sum(width, height - 1, f) == grid_sum(width, height, f)
            + row_sum(width, -1, f),
    decreases height,
{
    if height > 0 {
        lemma_grid_moved_down(width, height - 1, f, g);
        assert forall|x: int| 0 <= x < width implies #[trigger] g(x, height - 1) == f(
            x,
            height - 2,
        ) by {
            assert(in_grid(width, height, x, height - 1));
        }
        lemma_row_sum_equal(width, height - 1, g, height - 2, f);
    }
}

/// Reading a grid one row below where it is written: the sum loses its first
/// row and gains the one after the last.
proof fn lemma_grid_moved_up(
    width: int,
    height: int,
    f: spec_fn(int, int) -> int,
    g: spec_fn(int, int) -> int,
)
    requires
        height >= 0,
        forall|x: int, y: int| in_grid(width, height, x, y) ==> #[trigger] g(x, y) == f(x, y + 1),
    ensures
        grid_sum(width, height, g) + row_sum(width, 0, f) == grid_sum(width, height, f) + row_sum(
            width,
            height,
            f,
        ),
    decreases height,
{
    if height > 0 {
        lemma_grid_moved_up(width, height - 1, f, g);
        assert forall|x: int| 0 <= x < width implies #[trigger] g(x, height - 1) == f(x, height) by {
            assert(in_grid(width, height, x, height - 1));
        }
        lemma_row_sum_equal(width, height - 1, g, height, f);
    }
}

/// Moving the terms of a grid by one step, along a row: where `f` is zero at
/// every place from which the step `(dx, 0)` does not lead from a column of
/// the grid to a column of the grid, each row of `f` read `dx` places back
/// has the sum of the row itself.
proof fn lemma_rows_shift(
    width: int,
    height: int,
    dx: int,
    f: spec_fn(int, int) -> int,
    g: spec_fn(int, int) -> int,
)
    requires
        -1 <= dx <= 1,
        forall|x: int, y: int| in_grid(width, height, x, y) ==> #[trigger] g(x, y) == f(x - dx, y),
        forall|x: int, y: int| !(0 <= x < width && 0 <= x + dx < width) ==> #[trigger] f(x, y) == 0,
    ensures
        forall|y: int| 0 <= y < height ==> #[trigger] row_sum(width, y, g) == row_sum(width, y, f),
{
    assert forall|y: int| 0 <= y < height implies #[trigger] row_sum(width, y, g) == row_sum(
        width,
        y,
        f,
    ) by {
        if width > 0 {
            assert forall|x: int| 0 <= x < width implies #[trigger] g(x, y) == f(x - dx, y) by {
                assert(in_grid(width, height, x, y));
            }
            if dx == 1 {
                lemma_row_moved_right(width, y, f, g);
                assert(f(width - 1, y) == 0);
                assert(f(-1, y) == 0);
            } else if dx == -1 {
                lemma_row_moved_left(width, y, f, g);
                assert(f(0, y) == 0);
                assert(f(width, y) == 0);
            } else {
                lemma_row_sum_equal(width, y, g, y, f);
            }
        }
    }
}

/// Summing row sums that agree row by row.
proof fn lemma_grid_sum_by_rows(
    width: int,
    height: int,
    f: spec_fn(int, int) -> int,
    g: spec_fn(int, int) -> int,
)
    requires
        forall|y: int| 0 <= y < height ==> #[trigger] row_sum(width, y, g) == row_sum(width, y, f),
    ensures
        grid_sum(width, height, g) == grid_sum(width, height, f),
    decreases height,
{
    if height > 0 {
        lemma_grid_sum_by_rows(width, height - 1, f, g);
        assert(row_sum(width, height - 1, g) == row_sum(width, height - 1, f));
    }
}

/// Moving the terms of a grid by one step: where `f` is zero at every place
/// from which the step `(dx, dy)` does not lead from a cell to a cell, the
/// grid of `f` read one step back has the sum of `f` itself.
pub proof fn lemma_grid_sum_shift(
    width: int,
    height: int,
    dx: int,
    dy: int,
    f: spec_fn(int, int) -> int,
    g: spec_fn(int, int) -> int,
)
    requires
        -1 <= dx <= 1,
        -1 <= dy <= 1,
        forall|x: int, y: int|
            in_grid(width, height, x, y) ==> #[trigger] g(x, y) == f(x - dx, y - dy),
        forall|x: int, y: int|
            !(in_grid(width, height, x, y) && in_grid(width, height, x + dx, y + dy))
                ==> #[trigger] f(x, y) == 0,
    ensures
        grid_sum(width, height, g) == grid_sum(width, height, f),
{
    if width > 0 && height > 0 {
        // first along the rows
        let mid = |x: int, y: int| f(x - dx, y);
        lemma_rows_shift(width, height, dx, f, mid);
        lemma_grid_sum_by_rows(width, height, f, mid);
        // then from row to row
        assert forall|x: int, y: int| in_grid(width, height, x, y) implies #[trigger] g(x, y)
            == mid(x, y - dy) by {}
        assert forall|y: int| !(0 <= y < height && 0 <= y + dy < height) implies row_sum(
            width,
            y,
            mid,
        ) == 0 by {
            assert forall|x: int| 0 <= x < width implies #[trigger] mid(x, y) == 0 by {
                assert(f(x - dx, y) == 0);
            }
            lemma_row_sum_zero(width, y, mid);
        }
        if dy == 1 {
            lemma_grid_moved_down(width, height, mid, g);
            assert(row_sum(width, height - 1, mid) == 0);
            assert(row_sum(width, -1, mid) == 0);
        } else if dy == -1 {
            lemma_grid_moved_up(width, height, mid, g);
            assert(row_sum(width, 0, mid) == 0);
            assert(row_sum(width, height, mid) == 0);
        } else {
            lemma_grid_sum_equal(width, height, g, mid);
        }
    } else if height > 0 {
        lemma_zero_width(width, height, f);
        lemma_zero_width(width, height, g);
    }
}

/// A grid without columns sums to zero.
proof fn lemma_zero_width(width: int, height: int, f: spec_fn(int, int) -> int)
    requires
        width <= 0,
    ensures
        grid_sum(width, height, f) == 0,
    decreases height,
{
    if height > 0 {
        lemma_zero_width(width, height - 1, f);
    }
}

} // verus!
