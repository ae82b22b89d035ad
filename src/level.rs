use vstd::prelude::*;

use crate::grid::Grid;
use crate::rank::{is_ranking, lemma_ranking_members, rank_walls, sorted_by_length};
use crate::reconcile::{kept, lemma_kept_members, reconcile, reconciled};
use crate::scan::{
    horizontal_runs,
    horizontal_runs_of,
    is_column_shaped,
    is_row_shaped,
    last_or_origin,
    markers,
    points_of,
    vertical_runs,
    vertical_runs_of,
};
use crate::square::{in_palette, SquareType, UnsupportedColor};
use crate::wall::{covered_by, Point, Wall};

verus! {

/// The level described by an image.
pub struct Level {
    pub width: u32,
    pub height: u32,
    pub walls: Vec<Wall>,
    pub start: Point,
    pub end: Point,
    pub checkpoints: Vec<Point>,
}

/// Every sample of the grid is in the palette.
pub open spec fn all_in_palette(g: Grid) -> bool {
    forall|i: int| 0 <= i < g.pixels@.len() ==> in_palette(#[trigger] g.pixels@[i])
}

/// Sample `i` is the first, in row-major order, that lies outside the palette.
pub open spec fn first_unsupported(g: Grid, i: int) -> bool {
    &&& 0 <= i < g.pixels@.len()
    &&& !in_palette(g.pixels@[i])
    &&& forall|j: int| 0 <= j < i ==> in_palette(#[trigger] g.pixels@[j])
}

/// The ranked wall list of a grid: its horizontal and vertical runs, reconciled.
pub open spec fn level_walls_input(g: Grid) -> Seq<Wall> {
    reconciled(horizontal_runs_of(g, g.height as int), vertical_runs_of(g, g.width as int))
}

/// Fails with the first sample, in row-major order, that is outside the palette.
pub fn check_palette(grid: &Grid) -> (r: Result<(), UnsupportedColor>)
    ensures
        r is Ok <==> all_in_palette(*grid),
        r matches Err(e) ==> exists|i: int| first_unsupported(*grid, i) && e.color == grid.pixels@[i],
{
    let mut i: usize = 0;
    while i < grid.pixels.len()
        invariant
            0 <= i <= grid.pixels@.len(),
            forall|j: int| 0 <= j < i ==> in_palette(#[trigger] grid.pixels@[j]),
        decreases grid.pixels@.len() - i,
    {
        match SquareType::classify(grid.pixels[i]) {
            Ok(_) => {},
            Err(e) => {
                assert(first_unsupported(*grid, i as int));
                return Err(e);
            },
        }
        i = i + 1;
    }
    Ok(())
}

/// A wall of a reconciled list is a surviving horizontal wall or a vertical one.
proof fn lemma_reconciled_member(h: Seq<Wall>, v: Seq<Wall>, w: Wall)
    requires
        reconciled(h, v).contains(w),
    ensures
        (h.contains(w) && (w.end is Some || !covered_by(v, w.start.x as int, w.start.y as int)))
            || v.contains(w),
{
    let k = kept(h, v);
    let j = choose|j: int| 0 <= j < reconciled(h, v).len() && reconciled(h, v)[j] == w;
    lemma_kept_members(h, v);
    if j < k.len() {
        assert(k[j] == w);
        assert(k.contains(w));
    } else {
        assert(v[j - k.len()] == w);
    }
}

/// Turns a grid into a level: walls from the two scans, reconciled and ranked by
/// descending length, and the start, end and checkpoints of a row-major pass.
pub fn build_level(grid: &Grid) -> (r: Result<Level, UnsupportedColor>)
    requires
        grid.wf(),
    ensures
        r is Ok <==> all_in_palette(*grid),
        r matches Err(e) ==> exists|i: int| first_unsupported(*grid, i) && e.color == grid.pixels@[i],
        r matches Ok(lvl) ==> {
            &&& lvl.width == grid.width
            &&& lvl.height == grid.height
            &&& is_ranking(lvl.walls@, level_walls_input(*grid))
            &&& lvl.start == last_or_origin(points_of(*grid, SquareType::Start, grid.height as int))
            &&& lvl.end == last_or_origin(points_of(*grid, SquareType::End, grid.height as int))
            &&& lvl.checkpoints@ == points_of(*grid, SquareType::Checkpoint, grid.height as int)
        },
        r matches Ok(lvl) ==> forall|i: int| 0 <= i < lvl.walls@.len() ==> (#[trigger] lvl.walls@[i]).wf(),
        r matches Ok(lvl) ==> sorted_by_length(lvl.walls@),
        r matches Ok(lvl) ==> forall|i: int, j: int|
            0 <= i < lvl.walls@.len() && 0 <= j < lvl.walls@.len() && (#[trigger] lvl.walls@[i]).end is None
                && (#[trigger] lvl.walls@[j]).is_vertical() ==> !lvl.walls@[j].covers(
                lvl.walls@[i].start.x as int,
                lvl.walls@[i].start.y as int,
            ),
{
    match check_palette(grid) {
        Ok(()) => {},
        Err(e) => {
            return Err(e);
        },
    }
    let horizontal = horizontal_runs(grid);
    let vertical = vertical_runs(grid);
    let ghost h = horizontal@;
    let ghost v = vertical@;
    let merged = reconcile(horizontal, vertical);
    proof {
        assert forall|i: int| 0 <= i < merged@.len() implies (#[trigger] merged@[i]).wf() by {
            assert(merged@.contains(merged@[i]));
            lemma_reconciled_member(h, v, merged@[i]);
            if h.contains(merged@[i]) {
                let k = choose|k: int| 0 <= k < h.len() && h[k] == merged@[i];
                assert(is_row_shaped(h[k]));
            } else {
                let k = choose|k: int| 0 <= k < v.len() && v[k] == merged@[i];
                assert(is_column_shaped(v[k]));
            }
        }
    }
    let walls = rank_walls(merged);
    let ghost m = merged@;
    let (start, end, checkpoints) = markers(grid);
    let lvl = Level { width: grid.width, height: grid.height, walls, start, end, checkpoints };
    proof {
        let out = lvl.walls@;
        lemma_ranking_members(out, m);
        assert forall|i: int| 0 <= i < out.len() implies (#[trigger] out[i]).wf() by {
            assert(out.contains(out[i]));
            let k = choose|k: int| 0 <= k < m.len() && m[k] == out[i];
            assert(m[k].wf());
        }
        assert forall|i: int, j: int|
            0 <= i < out.len() && 0 <= j < out.len() && (#[trigger] out[i]).end is None
                && (#[trigger] out[j]).is_vertical() implies !out[j].covers(
            out[i].start.x as int,
            out[i].start.y as int,
        ) by {
            let wi = out[i];
            let wj = out[j];
            assert(out.contains(wi));
            assert(out.contains(wj));
            lemma_reconciled_member(h, v, wi);
            lemma_reconciled_member(h, v, wj);
            if v.contains(wi) {
                let k = choose|k: int| 0 <= k < v.len() && v[k] == wi;
                assert(is_column_shaped(v[k]));
            }
            if h.contains(wj) {
                let k = choose|k: int| 0 <= k < h.len() && h[k] == wj;
                assert(is_row_shaped(h[k]));
            }
            let k = choose|k: int| 0 <= k < v.len() && v[k] == wj;
            assert(!v[k].covers(wi.start.x as int, wi.start.y as int));
        }
    }
    Ok(lvl)
}

} // verus!
