use vstd::prelude::*;

verus! {

/// A position on the grid: `x` grows rightward, `y` downward, origin top-left.
#[derive(Clone, Copy, Debug, PartialEq, Eq, Structural)]
pub struct Point {
    pub x: u32,
    pub y: u32,
}

impl Point {
    pub fn new(x: u32, y: u32) -> (r: Point)
        ensures
            r.x == x,
            r.y == y,
    {
        Point { x, y }
    }
}

/// An axis-aligned wall segment; `end` is absent for a single cell.
#[derive(Clone, Copy, Debug, PartialEq, Eq, Structural)]
pub struct Wall {
    pub start: Point,
    pub end: Option<Point>,
}

impl Wall {
    /// A present `end` lies on the same row or the same column as `start`, not both,
    /// and is not before it on either axis.
    pub open spec fn wf(self) -> bool {
        self.end matches Some(e) ==> (
            ((e.x == self.start.x) != (e.y == self.start.y))
            && e.x >= self.start.x
            && e.y >= self.start.y
        )
    }

    /// Geometric length: 1 for a single cell, otherwise the extent along its axis.
    pub open spec fn spec_length(self) -> int {
        match self.end {
            Some(e) => (e.x - self.start.x) + (e.y - self.start.y),
            None => 1,
        }
    }

    /// A multi-cell wall that runs down a column.
    pub open spec fn is_vertical(self) -> bool {
        self.end matches Some(e) && e.x == self.start.x
    }

    /// The last cell of the wall: `end`, or `start` when `end` is absent.
    pub open spec fn last_cell(self) -> Point {
        match self.end {
            Some(e) => e,
            None => self.start,
        }
    }

    /// Whether `(x, y)` lies in the wall's inclusive bounding box.
    pub open spec fn covers(self, x: int, y: int) -> bool {
        self.start.x <= x <= self.last_cell().x && self.start.y <= y <= self.last_cell().y
    }

    pub fn length(self) -> (r: u32)
        requires
            self.wf(),
        ensures
            r == self.spec_length(),
    {
        match self.end {
            Some(end) => (end.x - self.start.x) + (end.y - self.start.y),
            None => 1,
        }
    }
}

/// Whether some wall of `walls` has `(x, y)` in its bounding box.
pub open spec fn covered_by(walls: Seq<Wall>, x: int, y: int) -> bool {
    exists|i: int| 0 <= i < walls.len() && #[trigger] walls[i].covers(x, y)
}

pub fn check_if_point_is_wall(x: u32, y: u32, walls: &[Wall]) -> (r: bool)
    ensures
        r == covered_by(walls@, x as int, y as int),
{
    let mut i: usize = 0;
    while i < walls.len()
        invariant
            0 <= i <= walls@.len(),
            forall|j: int| 0 <= j < i ==> !(#[trigger] walls@[j].covers(x as int, y as int)),
        decreases walls@.len() - i,
    {
        let w = walls[i];
        let last = match w.end {
            Some(e) => e,
            None => w.start,
        };
        if w.start.x <= x && x <= last.x && w.start.y <= y && y <= last.y {
            assert(walls@[i as int].covers(x as int, y as int));
            return true;
        }
        i = i + 1;
    }
    false
}

} // verus!
