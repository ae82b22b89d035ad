use vstd::prelude::*;

use crate::square::{is_kind, SquareType};

verus! {

/// A decoded image: `width * height` color samples in row-major order.
pub struct Grid {
    pub width: u32,
    pub height: u32,
    pub pixels: Vec<[u8; 4]>,
}

impl Grid {
    /// The sample count matches the dimensions.
    pub open spec fn wf(&self) -> bool {
        self.pixels@.len() == self.width * self.height
    }

    /// The sample at column `x`, row `y`.
    pub open spec fn cell(&self, x: int, y: int) -> [u8; 4] {
        self.pixels@[y * self.width + x]
    }

    /// Whether the cell at `(x, y)` is of kind `k`.
    pub open spec fn kind_at(&self, k: SquareType, x: int, y: int) -> bool {
        is_kind(self.cell(x, y), k)
    }

    pub open spec fn wall_at(&self, x: int, y: int) -> bool {
        self.kind_at(SquareType::Wall, x, y)
    }

    /// Builds a grid; `None` when the number of samples is not `width * height`.
    pub fn new(width: u32, height: u32, pixels: Vec<[u8; 4]>) -> (r: Option<Grid>)
        ensures
            r is Some <==> pixels@.len() == width * height,
            r matches Some(g) ==> g.width == width && g.height == height && g.pixels@ == pixels@,
    {
        let n = pixels.len() as u64;
        assert((width as u64) * (height as u64) <= 0xffff_ffff_ffff_ffff) by (nonlinear_arith)
            requires
                width <= 0xffff_ffff,
                height <= 0xffff_ffff,
        ;
        if (width as u64) * (height as u64) == n {
            Some(Grid { width, height, pixels })
        } else {
            None
        }
    }

    /// The sample at column `x`, row `y`.
    pub fn pixel(&self, x: u32, y: u32) -> (r: [u8; 4])
        requires
            self.wf(),
            x < self.width,
            y < self.height,
        ensures
            r == self.cell(x as int, y as int),
    {
        let n = self.pixels.len();
        proof {
            lemma_index_in_bounds(x as int, y as int, self.width as int, self.height as int);
        }
        self.pixels[(y as usize) * (self.width as usize) + (x as usize)]
    }

    /// Whether the cell at column `x`, row `y` is of kind `k`.
    pub fn is_kind_at(&self, k: SquareType, x: u32, y: u32) -> (r: bool)
        requires
            self.wf(),
            x < self.width,
            y < self.height,
        ensures
            r == self.kind_at(k, x as int, y as int),
    {
        match SquareType::classify(self.pixel(x, y)) {
            Ok(s) => s == k,
            Err(_) => false,
        }
    }
}

proof fn lemma_index_in_bounds(x: int, y: int, w: int, h: int)
    requires
        0 <= x < w,
        0 <= y < h,
    ensures
        0 <= y * w <= y * w + x < w * h,
{
    assert(0 <= y * w <= y * w + x < w * h) by (nonlinear_arith)
        requires
            0 <= x < w,
            0 <= y < h,
    ;
}

} // verus!
