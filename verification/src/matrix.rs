//! The dense scoring matrix: a grid of signed scores stored row by row,
//! owned by a single writer.

use vstd::prelude::*;

verus! {

/// A dense `rows x cols` grid of `isize` scores.
#[derive(Debug)]
pub struct ScoreMatrix {
    pub rows: usize,
    pub cols: usize,
    pub cells: Vec<Vec<isize>>,
}

impl ScoreMatrix {
    /// The grid really has `rows` rows of `cols` cells each.
    pub open spec fn wf(self) -> bool {
        &&& self.cells@.len() == self.rows
        &&& forall|i: int| 0 <= i < self.rows ==> (#[trigger] self.cells@[i])@.len() == self.cols
    }

    /// The score stored at `(row, col)`, as a mathematical integer.
    pub open spec fn entry(self, row: int, col: int) -> int {
        self.cells@[row]@[col] as int
    }

    /// A fresh all-zero grid.
    pub fn new_zeros(rows: usize, cols: usize) -> (m: ScoreMatrix)
        ensures
            m.wf(),
            m.rows == rows,
            m.cols == cols,
            forall|r: int, c: int| 0 <= r < rows && 0 <= c < cols ==> m.entry(r, c) == 0,
    {
        let mut cells: Vec<Vec<isize>> = Vec::new();
        let mut r: usize = 0;
        while r < rows
            invariant
                r <= rows,
                cells@.len() == r,
                forall|i: int| 0 <= i < r ==> (#[trigger] cells@[i])@.len() == cols,
                forall|i: int, j: int| 0 <= i < r && 0 <= j < cols ==> (#[trigger] cells@[i]@[j]) == 0isize,
            decreases rows - r,
        {
            let mut row_cells: Vec<isize> = Vec::new();
            let mut c: usize = 0;
            while c < cols
                invariant
                    c <= cols,
                    row_cells@.len() == c,
                    forall|j: int| 0 <= j < c ==> (#[trigger] row_cells@[j]) == 0isize,
                decreases cols - c,
            {
                row_cells.push(0);
                c += 1;
            }
            cells.push(row_cells);
            r += 1;
        }
        ScoreMatrix { rows, cols, cells }
    }

    /// Read the score at `(row, col)`.
    pub fn get(&self, row: usize, col: usize) -> (v: isize)
        requires
            self.wf(),
            row < self.rows,
            col < self.cols,
        ensures
            v as int == self.entry(row as int, col as int),
    {
        self.cells[row][col]
    }

    /// Write the score at `(row, col)`; every other cell keeps its value.
    pub fn set(&mut self, row: usize, col: usize, v: isize)
        requires
            old(self).wf(),
            row < old(self).rows,
            col < old(self).cols,
        ensures
            final(self).wf(),
            final(self).rows == old(self).rows,
            final(self).cols == old(self).cols,
            final(self).entry(row as int, col as int) == v as int,
            forall|r: int, c: int|
                0 <= r < old(self).rows && 0 <= c < old(self).cols && !(r == row && c == col)
                    ==> final(self).entry(r, c) == old(self).entry(r, c),
    {
        self.cells[row][col] = v;
    }
}

} // verus!
