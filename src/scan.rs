use vstd::prelude::*;

use crate::grid::Grid;
use crate::square::SquareType;
use crate::wall::{Point, Wall};

verus! {

/// The wall that covers columns `x0..=x1` of row `y`; `end` is absent for one cell.
pub open spec fn row_wall(x0: int, x1: int, y: int) -> Wall {
    Wall {
        start: Point { x: x0 as u32, y: y as u32 },
        end: if x1 > x0 { Some(Point { x: x1 as u32, y: y as u32 }) } else { None },
    }
}

/// The wall that covers rows `y0..=y1` of column `x`.
pub open spec fn column_wall(x: int, y0: int, y1: int) -> Wall {
    Wall {
        start: Point { x: x as u32, y: y0 as u32 },
        end: if y1 > y0 { Some(Point { x: x as u32, y: y1 as u32 }) } else { None },
    }
}

/// A wall whose `end`, if present, lies strictly to the right on the same row.
pub open spec fn is_row_shaped(w: Wall) -> bool {
    w.end matches Some(e) ==> e.y == w.start.y && e.x > w.start.x
}

/// A wall with an `end` strictly below `start` in the same column.
pub open spec fn is_column_shaped(w: Wall) -> bool {
    w.end matches Some(e) && e.x == w.start.x && e.y > w.start.y
}

/// The last column of the run of wall cells in row `y` that goes on from column `x`.
pub open spec fn run_end_x(g: Grid, x: int, y: int) -> int
    decreases g.width - x,
{
    if x + 1 < g.width && g.wall_at(x + 1, y) {
        run_end_x(g, x + 1, y)
    } else {
        x
    }
}

/// The last row of the run of wall cells in column `x` that goes on from row `y`.
pub open spec fn run_end_y(g: Grid, x: int, y: int) -> int
    decreases g.height - y,
{
    if y + 1 < g.height && g.wall_at(x, y + 1) {
        run_end_y(g, x, y + 1)
    } else {
        y
    }
}

/// A horizontal run starts at a wall cell whose left neighbour is not a wall.
pub open spec fn starts_row_run(g: Grid, x: int, y: int) -> bool {
    g.wall_at(x, y) && (x == 0 || !g.wall_at(x - 1, y))
}

/// A vertical run starts at a wall cell whose upper neighbour is not a wall.
pub open spec fn starts_column_run(g: Grid, x: int, y: int) -> bool {
    g.wall_at(x, y) && (y == 0 || !g.wall_at(x, y - 1))
}

/// The maximal horizontal runs of row `y` that start at column `x` or later, left to right.
pub open spec fn row_runs(g: Grid, x: int, y: int) -> Seq<Wall>
    decreases g.width - x,
{
    if x < 0 || x >= g.width {
        Seq::empty()
    } else if starts_row_run(g, x, y) {
        seq![row_wall(x, run_end_x(g, x, y), y)] + row_runs(g, x + 1, y)
    } else {
        row_runs(g, x + 1, y)
    }
}

/// The maximal vertical runs of two or more cells in column `x` that start at row `y` or
/// later, top to bottom.
pub open spec fn column_runs(g: Grid, x: int, y: int) -> Seq<Wall>
    decreases g.height - y,
{
    if y < 0 || y >= g.height {
        Seq::empty()
    } else if starts_column_run(g, x, y) && run_end_y(g, x, y) > y {
        seq![column_wall(x, y, run_end_y(g, x, y))] + column_runs(g, x, y + 1)
    } else {
        column_runs(g, x, y + 1)
    }
}

/// The horizontal runs of the first `n` rows, in row-major order.
pub open spec fn horizontal_runs_of(g: Grid, n: int) -> Seq<Wall>
    decreases n,
{
    if n <= 0 {
        Seq::empty()
    } else {
        horizontal_runs_of(g, n - 1) + row_runs(g, 0, n - 1)
    }
}

/// The multi-cell vertical runs of the first `n` columns, in column-major order.
pub open spec fn vertical_runs_of(g: Grid, n: int) -> Seq<Wall>
    decreases n,
{
    if n <= 0 {
        Seq::empty()
    } else {
        vertical_runs_of(g, n - 1) + column_runs(g, n - 1, 0)
    }
}

/// Past a stretch of wall cells no run starts, so the remaining runs are the same.
proof fn lemma_row_runs_skip(g: Grid, a: int, b: int, y: int)
    requires
        0 < a <= b <= g.width,
        forall|x: int| a - 1 <= x < b ==> #[trigger] g.wall_at(x, y),
    ensures
        row_runs(g, a, y) == row_runs(g, b, y),
    decreases b - a,
{
    if a < b {
        assert(g.wall_at(a - 1, y));
        lemma_row_runs_skip(g, a + 1, b, y);
    }
}

proof fn lemma_column_runs_skip(g: Grid, x: int, a: int, b: int)
    requires
        0 < a <= b <= g.height,
        forall|y: int| a - 1 <= y < b ==> #[trigger] g.wall_at(x, y),
    ensures
        column_runs(g, x, a) == column_runs(g, x, b),
    decreases b - a,
{
    if a < b {
        assert(g.wall_at(x, a - 1));
        lemma_column_runs_skip(g, x, a + 1, b);
    }
}

/// The maximal horizontal wall runs of the grid, row by row, left to right; a run of
/// one cell has no `end`.
pub fn horizontal_runs(grid: &Grid) -> (r: Vec<Wall>)
    requires
        grid.wf(),
    ensures
        r@ == horizontal_runs_of(*grid, grid.height as int),
        forall|i: int| 0 <= i < r@.len() ==> is_row_shaped(#[trigger] r@[i]),
{
    let mut walls: Vec<Wall> = Vec::new();
    let mut y: u32 = 0;
    while y < grid.height
        invariant
            grid.wf(),
            y <= grid.height,
            walls@ == horizontal_runs_of(*grid, y as int),
            forall|i: int| 0 <= i < walls@.len() ==> is_row_shaped(#[trigger] walls@[i]),
        decreases grid.height - y,
    {
        let mut x: u32 = 0;
        while x < grid.width
            invariant
                grid.wf(),
                y < grid.height,
                x <= grid.width,
                walls@ + row_runs(*grid, x as int, y as int) == horizontal_runs_of(
                    *grid,
                    y as int + 1,
                ),
                x < grid.width ==> (x == 0 || !grid.wall_at(x - 1, y as int) || !grid.wall_at(
                    x as int,
                    y as int,
                )),
                forall|i: int| 0 <= i < walls@.len() ==> is_row_shaped(#[trigger] walls@[i]),
            decreases grid.width - x,
        {
            if grid.is_kind_at(SquareType::Wall, x, y) {
                let start = Point::new(x, y);
                let ghost x0 = x as int;
                while x + 1 < grid.width && grid.is_kind_at(SquareType::Wall, x + 1, y)
                    invariant
                        grid.wf(),
                        y < grid.height,
                        x0 <= x < grid.width,
                        run_end_x(*grid, x0, y as int) == run_end_x(*grid, x as int, y as int),
                        forall|c: int| x0 <= c <= x ==> #[trigger] grid.wall_at(c, y as int),
                    decreases grid.width - x,
                {
                    x = x + 1;
                }
                let end = if start.x != x {
                    Some(Point::new(x, y))
                } else {
                    None
                };
                let w = Wall { start, end };
                proof {
                    let g = *grid;
                    assert(starts_row_run(g, x0, y as int));
                    assert(w == row_wall(x0, run_end_x(g, x0, y as int), y as int));
                    lemma_row_runs_skip(g, x0 + 1, x + 1, y as int);
                    assert(walls@.push(w) + row_runs(g, x + 1, y as int) =~= walls@ + row_runs(
                        g,
                        x0,
                        y as int,
                    ));
                }
                walls.push(w);
            }
            x = x + 1;
        }
        assert(walls@ =~= walls@ + row_runs(*grid, grid.width as int, y as int));
        y = y + 1;
    }
    walls
}

/// The multi-cell vertical wall runs of the grid, column by column, top to bottom;
/// a run of a single cell is left out.
pub fn vertical_runs(grid: &Grid) -> (r: Vec<Wall>)
    requires
        grid.wf(),
    ensures
        r@ == vertical_runs_of(*grid, grid.width as int),
        forall|i: int| 0 <= i < r@.len() ==> is_column_shaped(#[trigger] r@[i]),
{
    let mut walls: Vec<Wall> = Vec::new();
    let mut x: u32 = 0;
    while x < grid.width
        invariant
            grid.wf(),
            x <= grid.width,
            walls@ == vertical_runs_of(*grid, x as int),
            forall|i: int| 0 <= i < walls@.len() ==> is_column_shaped(#[trigger] walls@[i]),
        decreases grid.width - x,
    {
        let mut y: u32 = 0;
        while y < grid.height
            invariant
                grid.wf(),
                x < grid.width,
                y <= grid.height,
                walls@ + column_runs(*grid, x as int, y as int) == vertical_runs_of(
                    *grid,
                    x as int + 1,
                ),
                y < grid.height ==> (y == 0 || !grid.wall_at(x as int, y - 1) || !grid.wall_at(
                    x as int,
                    y as int,
                )),
                forall|i: int| 0 <= i < walls@.len() ==> is_column_shaped(#[trigger] walls@[i]),
            decreases grid.height - y,
        {
            if grid.is_kind_at(SquareType::Wall, x, y) {
                let start = Point::new(x, y);
                let ghost y0 = y as int;
                while y + 1 < grid.height && grid.is_kind_at(SquareType::Wall, x, y + 1)
                    invariant
                        grid.wf(),
                        x < grid.width,
                        y0 <= y < grid.height,
                        run_end_y(*grid, x as int, y0) == run_end_y(*grid, x as int, y as int),
                        forall|c: int| y0 <= c <= y ==> #[trigger] grid.wall_at(x as int, c),
                    decreases grid.height - y,
                {
                    y = y + 1;
                }
                proof {
                    let g = *grid;
                    assert(starts_column_run(g, x as int, y0));
                    lemma_column_runs_skip(g, x as int, y0 + 1, y + 1);
                }
                if start.y != y {
                    let w = Wall { start, end: Some(Point::new(x, y)) };
                    proof {
                        let g = *grid;
                        assert(w == column_wall(x as int, y0, run_end_y(g, x as int, y0)));
                        assert(walls@.push(w) + column_runs(g, x as int, y + 1) =~= walls@
                            + column_runs(g, x as int, y0));
                    }
                    walls.push(w);
                }
            }
            y = y + 1;
        }
        assert(walls@ =~= walls@ + column_runs(*grid, x as int, grid.height as int));
        x = x + 1;
    }
    walls
}

/// The cells of kind `k` in row `y` with a column below `x`, left to right.
pub open spec fn row_points(g: Grid, k: SquareType, x: int, y: int) -> Seq<Point>
    decreases x,
{
    if x <= 0 {
        Seq::empty()
    } else if g.kind_at(k, x - 1, y) {
        row_points(g, k, x - 1, y).push(Point { x: (x - 1) as u32, y: y as u32 })
    } else {
        row_points(g, k, x - 1, y)
    }
}

/// The cells of kind `k` in the first `n` rows, in row-major order.
pub open spec fn points_of(g: Grid, k: SquareType, n: int) -> Seq<Point>
    decreases n,
{
    if n <= 0 {
        Seq::empty()
    } else {
        points_of(g, k, n - 1) + row_points(g, k, g.width as int, n - 1)
    }
}

/// The last point of `s`, or the origin when `s` is empty.
pub open spec fn last_or_origin(s: Seq<Point>) -> Point {
    if s.len() == 0 {
        Point { x: 0, y: 0 }
    } else {
        s.last()
    }
}

/// The start, end and checkpoint cells found by a row-major pass: the last start and
/// end cells win (the origin when there is none), checkpoints keep their order.
pub fn markers(grid: &Grid) -> (r: (Point, Point, Vec<Point>))
    requires
        grid.wf(),
    ensures
        r.0 == last_or_origin(points_of(*grid, SquareType::Start, grid.height as int)),
        r.1 == last_or_origin(points_of(*grid, SquareType::End, grid.height as int)),
        r.2@ == points_of(*grid, SquareType::Checkpoint, grid.height as int),
{
    let mut start = Point::new(0, 0);
    let mut end = Point::new(0, 0);
    let mut checkpoints: Vec<Point> = Vec::new();
    let mut y: u32 = 0;
    while y < grid.height
        invariant
            grid.wf(),
            y <= grid.height,
            start == last_or_origin(points_of(*grid, SquareType::Start, y as int)),
            end == last_or_origin(points_of(*grid, SquareType::End, y as int)),
            checkpoints@ == points_of(*grid, SquareType::Checkpoint, y as int),
        decreases grid.height - y,
    {
        let mut x: u32 = 0;
        while x < grid.width
            invariant
                grid.wf(),
                y < grid.height,
                x <= grid.width,
                start == last_or_origin(
                    points_of(*grid, SquareType::Start, y as int) + row_points(
                        *grid,
                        SquareType::Start,
                        x as int,
                        y as int,
                    ),
                ),
                end == last_or_origin(
                    points_of(*grid, SquareType::End, y as int) + row_points(
                        *grid,
                        SquareType::End,
                        x as int,
                        y as int,
                    ),
                ),
                checkpoints@ == points_of(*grid, SquareType::Checkpoint, y as int) + row_points(
                    *grid,
                    SquareType::Checkpoint,
                    x as int,
                    y as int,
                ),
            decreases grid.width - x,
        {
            let ghost g = *grid;
            let ghost xi = x as int + 1;
            let ghost yi = y as int;
            proof {
                assert(points_of(g, SquareType::Start, yi) + row_points(g, SquareType::Start, xi, yi)
                    =~= if g.kind_at(SquareType::Start, x as int, yi) {
                    (points_of(g, SquareType::Start, yi) + row_points(g, SquareType::Start, x as int, yi)).push(Point { x: x, y: y })
                } else {
                    points_of(g, SquareType::Start, yi) + row_points(g, SquareType::Start, x as int, yi)
                });
                assert(points_of(g, SquareType::End, yi) + row_points(g, SquareType::End, xi, yi)
                    =~= if g.kind_at(SquareType::End, x as int, yi) {
                    (points_of(g, SquareType::End, yi) + row_points(g, SquareType::End, x as int, yi)).push(Point { x: x, y: y })
                } else {
                    points_of(g, SquareType::End, yi) + row_points(g, SquareType::End, x as int, yi)
                });
                assert(points_of(g, SquareType::Checkpoint, yi) + row_points(g, SquareType::Checkpoint, xi, yi)
                    =~= if g.kind_at(SquareType::Checkpoint, x as int, yi) {
                    (points_of(g, SquareType::Checkpoint, yi) + row_points(g, SquareType::Checkpoint, x as int, yi)).push(Point { x: x, y: y })
                } else {
                    points_of(g, SquareType::Checkpoint, yi) + row_points(g, SquareType::Checkpoint, x as int, yi)
                });
            }
            match SquareType::classify(grid.pixel(x, y)) {
                Ok(SquareType::Start) => {
                    start = Point::new(x, y);
                },
                Ok(SquareType::End) => {
                    end = Point::new(x, y);
                },
                Ok(SquareType::Checkpoint) => {
                    checkpoints.push(Point::new(x, y));
                },
                _ => {},
            }
            x = x + 1;
        }
        y = y + 1;
    }
    (start, end, checkpoints)
}

} // verus!
