//! The alignment engine: a genome/read pair, the scoring policy, the scoring
//! matrix, the serial fill strategies, and the backtrace that turns a filled
//! matrix into an aligned pair of strings.

use vstd::prelude::*;

use crate::matrix::ScoreMatrix;
use crate::model::{backtrace, cell_score, clamped_add, cm_scan_state, interior, is_row_major_max, lemma_cm_index_bound, lemma_cm_index_unique, lemma_score_nonneg, max2, rm_scan_state, sw_score};

verus! {

/// Relies on `String::push` from std: it appends the given character to the
/// end of the string.
pub assume_specification[ String::push ](s: &mut String, ch: char)
    ensures
        final(s)@ == old(s)@.push(ch),
;

/// The direction of one backtrace step.
pub enum GraphMovements {
    Blank,
    Left,
    Top,
    Diagonal,
}

/// A Smith-Waterman alignment engine over two symbol sequences.
///
/// `matrix` holds `(read length + 1)` rows by `(genome length + 1)` columns
/// of local-alignment scores once a fill strategy has run; `matched` is the
/// reward added on a symbol match and `missed` the penalty added on a
/// mismatch or gap.
#[derive(Debug)]
pub struct SmithWaterman {
    pub genome_sequence: Vec<char>,
    pub read_sequence: Vec<char>,
    pub matrix: ScoreMatrix,
    pub matched: isize,
    pub missed: isize,
}

impl SmithWaterman {
    /// The matrix has the dimensions of the sequence pair and every cell
    /// holds the value of the Smith-Waterman recurrence.
    pub open spec fn filled(self) -> bool {
        &&& self.matrix.wf()
        &&& self.matrix.rows == self.read_sequence@.len() + 1
        &&& self.matrix.cols == self.genome_sequence@.len() + 1
        &&& forall|r: int, c: int|
            0 <= r < self.matrix.rows && 0 <= c < self.matrix.cols
                ==> #[trigger] self.matrix.entry(r, c) == sw_score(
                self.genome_sequence@,
                self.read_sequence@,
                self.matched as int,
                self.missed as int,
                r,
                c,
            )
    }

    /// The sequences and the scoring constants of `self` and `other` agree.
    pub open spec fn same_inputs(self, other: Self) -> bool {
        &&& self.genome_sequence@ == other.genome_sequence@
        &&& self.read_sequence@ == other.read_sequence@
        &&& self.matched == other.matched
        &&& self.missed == other.missed
    }

    /// What the recurrence step computes at `(row, col)` from the current
    /// matrix contents: the clamped left, top and diagonal candidates, with
    /// row 0 and column 0 neighbours read as stored.
    pub open spec fn movement_score(self, row: int, col: int) -> int {
        let left = if col >= 1 {
            clamped_add(self.matrix.entry(row, col - 1), self.missed as int)
        } else {
            0
        };
        let top = if row >= 1 {
            clamped_add(self.matrix.entry(row - 1, col), self.missed as int)
        } else {
            0
        };
        let diagonal_value = if row >= 1 && col >= 1 {
            self.matrix.entry(row - 1, col - 1)
        } else {
            0
        };
        let diagonal_match = if row == 0 || col == 0 {
            0
        } else if self.read_sequence@[row - 1] == self.genome_sequence@[col - 1] {
            clamped_add(diagonal_value, self.matched as int)
        } else {
            clamped_add(diagonal_value, self.missed as int)
        };
        max2(left, max2(top, diagonal_match))
    }

    /// Constructs a new engine over the given sequences, with the default
    /// scoring constants (+2 match, -1 mismatch/gap) and an empty matrix.
    pub fn new(genome_sequence: &Vec<char>, read_sequence: &Vec<char>) -> (sw: SmithWaterman)
        ensures
            sw.genome_sequence@ == genome_sequence@,
            sw.read_sequence@ == read_sequence@,
            sw.matched == 2isize,
            sw.missed == -1isize,
            sw.matrix.wf(),
            sw.matrix.rows == 0,
            sw.matrix.cols == 0,
    {
        SmithWaterman {
            genome_sequence: copy_chars(genome_sequence),
            read_sequence: copy_chars(read_sequence),
            matrix: ScoreMatrix::new_zeros(0, 0),
            matched: 2,
            missed: -1,
        }
    }

    /// `max(0, value + penalty_value)`: adds the signed penalty or reward and
    /// clamps a negative or overflowing sum to zero.
    fn penalty(&self, value: isize, penalty_value: isize) -> (r: isize)
        ensures
            r as int == clamped_add(value as int, penalty_value as int),
    {
        match value.checked_add(penalty_value) {
            Some(i) => if i < 0 {
                0
            } else {
                i
            },
            _ => 0,
        }
    }

    /// The recurrence step at `(row, col)`, read from the current matrix.
    fn calculated_movement(&self, row: usize, col: usize) -> (n: isize)
        requires
            self.matrix.wf(),
            row < self.matrix.rows,
            col < self.matrix.cols,
            self.matrix.rows == self.read_sequence@.len() + 1,
            self.matrix.cols == self.genome_sequence@.len() + 1,
        ensures
            n as int == self.movement_score(row as int, col as int),
            n >= 0,
    {
        let left = if col >= 1 {
            self.penalty(self.matrix.get(row, col - 1), self.missed)
        } else {
            0
        };
        let top = if row >= 1 {
            self.penalty(self.matrix.get(row - 1, col), self.missed)
        } else {
            0
        };
        let diagonal_value = if row >= 1 && col >= 1 {
            self.matrix.get(row - 1, col - 1)
        } else {
            0
        };
        let diagonal_match = if row == 0 || col == 0 {
            0
        } else if self.read_sequence[row - 1] == self.genome_sequence[col - 1] {
            self.penalty(diagonal_value, self.matched)
        } else {
            self.penalty(diagonal_value, self.missed)
        };
        max_isize(left, max_isize(top, diagonal_match))
    }

    /// Fills the matrix with a nested row-major double loop and returns the
    /// `(row, col)` of the largest value, later cells in row-major order
    /// winning ties. Every fill strategy reports this same cell.
    pub fn set_matrix_loops(&mut self) -> (max_point: (usize, usize))
        requires
            old(self).read_sequence@.len() < usize::MAX,
            old(self).genome_sequence@.len() < usize::MAX,
        ensures
            final(self).filled(),
            final(self).same_inputs(*old(self)),
            is_row_major_max(
                old(self).genome_sequence@,
                old(self).read_sequence@,
                old(self).matched as int,
                old(self).missed as int,
                (max_point.0 as int, max_point.1 as int),
            ),
            max_point.0 < final(self).matrix.rows,
            max_point.1 < final(self).matrix.cols,
    {
        let ghost g = self.genome_sequence@;
        let ghost r = self.read_sequence@;
        let ghost ma = self.matched as int;
        let ghost mi = self.missed as int;
        let rows: usize = self.read_sequence.len() + 1;
        let cols: usize = self.genome_sequence.len() + 1;
        self.matrix = ScoreMatrix::new_zeros(rows, cols);
        let mut max_point: (usize, usize) = (0, 0);
        let mut max: isize = 0;
        let mut row: usize = 1;
        while row < rows
            invariant
                self.genome_sequence@ == g,
                self.read_sequence@ == r,
                self.matched as int == ma,
                self.missed as int == mi,
                rows == r.len() + 1,
                cols == g.len() + 1,
                self.matrix.wf(),
                self.matrix.rows == rows,
                self.matrix.cols == cols,
                1 <= row <= rows,
                forall|qr: int, qc: int|
                    0 <= qr < rows && 0 <= qc < cols && (qr == 0 || qc == 0 || qr < row)
                        ==> #[trigger] self.matrix.entry(qr, qc) == sw_score(g, r, ma, mi, qr, qc),
                max as int >= 0,
                max_point.0 < rows && max_point.1 < cols,
                rm_scan_state(g, r, ma, mi, row as int, 1, max as int, (max_point.0 as int, max_point.1 as int)),
            decreases rows - row,
        {
            let mut col: usize = 1;
            while col < cols
                invariant
                    self.genome_sequence@ == g,
                    self.read_sequence@ == r,
                    self.matched as int == ma,
                    self.missed as int == mi,
                    rows == r.len() + 1,
                    cols == g.len() + 1,
                    self.matrix.wf(),
                    self.matrix.rows == rows,
                    self.matrix.cols == cols,
                    1 <= row < rows,
                    1 <= col <= cols,
                    forall|qr: int, qc: int|
                        0 <= qr < rows && 0 <= qc < cols && (qr == 0 || qc == 0 || qr < row || (qr
                            == row && qc < col)) ==> #[trigger] self.matrix.entry(qr, qc)
                            == sw_score(g, r, ma, mi, qr, qc),
                    max as int >= 0,
                    max_point.0 < rows && max_point.1 < cols,
                    rm_scan_state(g, r, ma, mi, row as int, col as int, max as int, (max_point.0 as int, max_point.1 as int)),
                decreases cols - col,
            {
                let n: isize = self.calculated_movement(row, col);
                proof {
                    lemma_movement_matches_recurrence(*self, row as int, col as int);
                    lemma_score_nonneg(g, r, ma, mi, row as int, col as int);
                }
                if n >= max {
                    max = n;
                    max_point = (row, col);
                }
                self.matrix.set(row, col, n);
                col += 1;
            }
            row += 1;
        }
        max_point
    }

    /// Fills the matrix with a single loop over a linear counter, deriving
    /// each cell's column and row on the fly (a column-major traversal).
    /// Produces exactly the matrix of `set_matrix_loops` and reports exactly
    /// its maximum cell: ties are broken by row-major position, not by visit
    /// order, so the traversal order leaves no trace in the result.
    ///
    /// Unlike the nested loops, this traversal recomputes the cells of row 0
    /// and column 0, so it needs a nonpositive `missed` for them to stay
    /// zero.
    pub fn set_matrix_fn(&mut self) -> (max_point: (usize, usize))
        requires
            old(self).read_sequence@.len() < usize::MAX,
            old(self).genome_sequence@.len() < usize::MAX,
            (old(self).read_sequence@.len() + 1) * (old(self).genome_sequence@.len() + 1)
                <= usize::MAX,
            old(self).missed <= 0,
        ensures
            final(self).filled(),
            final(self).same_inputs(*old(self)),
            is_row_major_max(
                old(self).genome_sequence@,
                old(self).read_sequence@,
                old(self).matched as int,
                old(self).missed as int,
                (max_point.0 as int, max_point.1 as int),
            ),
            max_point.0 < final(self).matrix.rows,
            max_point.1 < final(self).matrix.cols,
    {
        let ghost g = self.genome_sequence@;
        let ghost r = self.read_sequence@;
        let ghost ma = self.matched as int;
        let ghost mi = self.missed as int;
        let rows: usize = self.read_sequence.len() + 1;
        let cols: usize = self.genome_sequence.len() + 1;
        self.matrix = ScoreMatrix::new_zeros(rows, cols);
        let mut max_point: (usize, usize) = (0, 0);
        let mut max: isize = 0;
        let total: usize = rows * cols;
        let mut i: usize = 0;
        while i < total
            invariant
                self.genome_sequence@ == g,
                self.read_sequence@ == r,
                self.matched as int == ma,
                self.missed as int == mi,
                mi <= 0,
                rows == r.len() + 1,
                cols == g.len() + 1,
                total == rows * cols,
                self.matrix.wf(),
                self.matrix.rows == rows,
                self.matrix.cols == cols,
                i <= total,
                forall|qr: int, qc: int|
                    0 <= qr < rows && 0 <= qc < cols && qc * (rows as int) + qr < i
                        ==> #[trigger] self.matrix.entry(qr, qc) == sw_score(g, r, ma, mi, qr, qc),
                max as int >= 0,
                max_point.0 < rows && max_point.1 < cols,
                cm_scan_state(g, r, ma, mi, i as int, max as int, (max_point.0 as int, max_point.1 as int)),
            decreases total - i,
        {
            let col: usize = i / rows;
            proof {
                vstd::arithmetic::div_mod::lemma_fundamental_div_mod(i as int, rows as int);
                vstd::arithmetic::div_mod::lemma_mod_division_less_than_divisor(i as int, rows as int);
                assert(col as int * rows as int <= i as int);
                if col as int >= cols as int {
                    vstd::arithmetic::mul::lemma_mul_inequality(cols as int, col as int, rows as int);
                    vstd::arithmetic::mul::lemma_mul_is_commutative(rows as int, cols as int);
                    assert(false);
                }
            }
            let row: usize = i - col * rows;
            proof {
                assert(col as int * rows as int + row as int == i as int);
                if col >= 1 {
                    assert((col as int - 1) * rows as int + row as int == i as int - rows as int)
                        by (nonlinear_arith)
                        requires
                            i as int == col as int * rows as int + row as int,
                    ;
                }
            }
            let n: isize = self.calculated_movement(row, col);
            proof {
                lemma_movement_matches_recurrence(*self, row as int, col as int);
                lemma_score_nonneg(g, r, ma, mi, row as int, col as int);
            }
            if row >= 1 && col >= 1 && (n > max || (n == max && (row > max_point.0 || (row
                == max_point.0 && col > max_point.1)))) {
                max = n;
                max_point = (row, col);
            }
            self.matrix.set(row, col, n);
            proof {
                assert forall|qr: int, qc: int|
                    0 <= qr < rows && 0 <= qc < cols && qc * (rows as int) + qr < i + 1
                        implies #[trigger] self.matrix.entry(qr, qc) == sw_score(g, r, ma, mi, qr, qc)
                by {
                    if qc * (rows as int) + qr == i as int {
                        lemma_cm_index_unique(rows as int, qr, qc, row as int, col as int);
                    }
                }
                assert forall|qr: int, qc: int|
                    interior(r.len() as int, g.len() as int, qr, qc) && qc * (rows as int) + qr
                        < i + 1 implies #[trigger] sw_score(g, r, ma, mi, qr, qc) <= max as int
                by {
                    if qc * (rows as int) + qr == i as int {
                        lemma_cm_index_unique(rows as int, qr, qc, row as int, col as int);
                    }
                }
                assert forall|qr: int, qc: int|
                    interior(r.len() as int, g.len() as int, qr, qc) && qc * (rows as int) + qr
                        < i + 1 && (qr > max_point.0 as int || (qr == max_point.0 as int && qc
                        > max_point.1 as int)) implies #[trigger] sw_score(g, r, ma, mi, qr, qc)
                        < max as int
                by {
                    if qc * (rows as int) + qr == i as int {
                        lemma_cm_index_unique(rows as int, qr, qc, row as int, col as int);
                    }
                }
                assert(cm_scan_state(g, r, ma, mi, i as int + 1, max as int, (max_point.0 as int, max_point.1 as int)));
            }
            i += 1;
        }
        proof {
            assert forall|qr: int, qc: int| 0 <= qr < rows && 0 <= qc < cols
                implies #[trigger] self.matrix.entry(qr, qc) == sw_score(g, r, ma, mi, qr, qc)
            by {
                lemma_cm_index_bound(r.len() as int, g.len() as int, qr, qc);
            }
            if r.len() == 0 || g.len() == 0 {
                assert(max_point.0 == 0 && max_point.1 == 0);
            } else {
                if max_point.0 == 0 && max_point.1 == 0 {
                    lemma_cm_index_bound(r.len() as int, g.len() as int, 1, 1);
                    lemma_score_nonneg(g, r, ma, mi, 1, 1);
                    assert(false);
                }
                assert forall|qr: int, qc: int| interior(r.len() as int, g.len() as int, qr, qc)
                    implies #[trigger] sw_score(g, r, ma, mi, qr, qc) <= sw_score(
                    g,
                    r,
                    ma,
                    mi,
                    max_point.0 as int,
                    max_point.1 as int,
                )
                by {
                    lemma_cm_index_bound(r.len() as int, g.len() as int, qr, qc);
                }
                assert forall|qr: int, qc: int|
                    interior(r.len() as int, g.len() as int, qr, qc) && (qr > max_point.0 as int
                        || (qr == max_point.0 as int && qc > max_point.1 as int))
                        implies #[trigger] sw_score(g, r, ma, mi, qr, qc) < sw_score(
                        g,
                        r,
                        ma,
                        mi,
                        max_point.0 as int,
                        max_point.1 as int,
                    )
                by {
                    lemma_cm_index_bound(r.len() as int, g.len() as int, qr, qc);
                }
            }
        }
        max_point
    }

    /// Walks back from `max_point_value` to the first zero-score cell and
    /// returns the aligned pair, genome side first, in original left-to-right
    /// orientation, with `-` marking gaps.
    fn local_alignment(&self, max_point_value: (usize, usize)) -> (alignment: (String, String))
        requires
            self.filled(),
            max_point_value.0 < self.matrix.rows,
            max_point_value.1 < self.matrix.cols,
        ensures
            alignment.0@ == backtrace(
                self.genome_sequence@,
                self.read_sequence@,
                self.matched as int,
                self.missed as int,
                max_point_value.0 as int,
                max_point_value.1 as int,
            ).0,
            alignment.1@ == backtrace(
                self.genome_sequence@,
                self.read_sequence@,
                self.matched as int,
                self.missed as int,
                max_point_value.0 as int,
                max_point_value.1 as int,
            ).1,
    {
        let ghost g = self.genome_sequence@;
        let ghost r = self.read_sequence@;
        let ghost ma = self.matched as int;
        let ghost mi = self.missed as int;
        let ghost target = backtrace(g, r, ma, mi, max_point_value.0 as int, max_point_value.1 as int);
        let mut max_point: (usize, usize) = max_point_value;
        let mut max: isize = self.matrix.get(max_point.0, max_point.1);
        let mut last_movement: GraphMovements = GraphMovements::Blank;
        let mut genome_sequence_alignment: Vec<char> = Vec::new();
        let mut read_sequence_alignment: Vec<char> = Vec::new();
        while max > 0
            invariant
                self.filled(),
                self.genome_sequence@ == g,
                self.read_sequence@ == r,
                self.matched as int == ma,
                self.missed as int == mi,
                max_point.0 < self.matrix.rows,
                max_point.1 < self.matrix.cols,
                max as int == sw_score(g, r, ma, mi, max_point.0 as int, max_point.1 as int),
                target == backtrace(g, r, ma, mi, max_point_value.0 as int, max_point_value.1 as int),
                target.0 == backtrace(g, r, ma, mi, max_point.0 as int, max_point.1 as int).0
                    + genome_sequence_alignment@.reverse(),
                target.1 == backtrace(g, r, ma, mi, max_point.0 as int, max_point.1 as int).1
                    + read_sequence_alignment@.reverse(),
            decreases max_point.0 + max_point.1,
        {
            let (row, col) = max_point;
            proof {
                if row == 0 || col == 0 {
                    assert(sw_score(g, r, ma, mi, row as int, col as int) == 0);
                }
            }
            let one: char = self.genome_sequence[col - 1];
            let two: char = self.read_sequence[row - 1];
            let top: isize = self.matrix.get(row - 1, col);
            let left: isize = self.matrix.get(row, col - 1);
            let diagonal: isize = self.matrix.get(row - 1, col - 1);
            let ghost acc_g0 = genome_sequence_alignment@;
            let ghost acc_r0 = read_sequence_alignment@;
            max = max_isize(left, max_isize(top, diagonal));
            max_point = if diagonal == max {
                last_movement = GraphMovements::Diagonal;
                (row - 1, col - 1)
            } else if left == max {
                last_movement = GraphMovements::Left;
                (row, col - 1)
            } else {
                last_movement = GraphMovements::Top;
                (row - 1, col)
            };
            match last_movement {
                GraphMovements::Blank => {
                    genome_sequence_alignment.push(one);
                    read_sequence_alignment.push(two);
                },
                GraphMovements::Diagonal => {
                    genome_sequence_alignment.push(one);
                    read_sequence_alignment.push(two);
                },
                GraphMovements::Top => {
                    genome_sequence_alignment.push('-');
                    read_sequence_alignment.push(two);
                },
                GraphMovements::Left => {
                    genome_sequence_alignment.push(one);
                    read_sequence_alignment.push('-');
                },
            }
            proof {
                let bt_cur = backtrace(g, r, ma, mi, row as int, col as int);
                let bt_new = backtrace(g, r, ma, mi, max_point.0 as int, max_point.1 as int);
                let pg = genome_sequence_alignment@.last();
                let pr = read_sequence_alignment@.last();
                assert(genome_sequence_alignment@ == acc_g0.push(pg));
                assert(read_sequence_alignment@ == acc_r0.push(pr));
                assert(bt_cur.0 == bt_new.0.push(pg));
                assert(bt_cur.1 == bt_new.1.push(pr));
                assert(acc_g0.push(pg).reverse() =~= seq![pg] + acc_g0.reverse());
                assert(acc_r0.push(pr).reverse() =~= seq![pr] + acc_r0.reverse());
                assert(bt_new.0 + genome_sequence_alignment@.reverse() =~= bt_cur.0
                    + acc_g0.reverse());
                assert(bt_new.1 + read_sequence_alignment@.reverse() =~= bt_cur.1
                    + acc_r0.reverse());
            }
        }
        proof {
            lemma_score_nonneg(g, r, ma, mi, max_point.0 as int, max_point.1 as int);
            assert(target.0 =~= genome_sequence_alignment@.reverse());
            assert(target.1 =~= read_sequence_alignment@.reverse());
        }
        let genome_out = reversed_string(&genome_sequence_alignment);
        let read_out = reversed_string(&read_sequence_alignment);
        (genome_out, read_out)
    }

    /// Runs the row-major fill and reconstructs the optimum local alignment.
    /// Returns the aligned genome, then the aligned read.
    pub fn align(&mut self) -> (alignment: (String, String))
        requires
            old(self).read_sequence@.len() < usize::MAX,
            old(self).genome_sequence@.len() < usize::MAX,
        ensures
            final(self).filled(),
            final(self).same_inputs(*old(self)),
            exists|p: (int, int)|
                {
                    &&& #[trigger] is_row_major_max(
                        old(self).genome_sequence@,
                        old(self).read_sequence@,
                        old(self).matched as int,
                        old(self).missed as int,
                        p,
                    )
                    &&& alignment.0@ == backtrace(
                        old(self).genome_sequence@,
                        old(self).read_sequence@,
                        old(self).matched as int,
                        old(self).missed as int,
                        p.0,
                        p.1,
                    ).0
                    &&& alignment.1@ == backtrace(
                        old(self).genome_sequence@,
                        old(self).read_sequence@,
                        old(self).matched as int,
                        old(self).missed as int,
                        p.0,
                        p.1,
                    ).1
                },
    {
        let max_point = self.set_matrix_loops();
        let alignment = self.local_alignment(max_point);
        proof {
            let p = (max_point.0 as int, max_point.1 as int);
            assert(is_row_major_max(
                old(self).genome_sequence@,
                old(self).read_sequence@,
                old(self).matched as int,
                old(self).missed as int,
                p,
            ));
        }
        alignment
    }

    /// Runs the linearized fill and reconstructs the optimum local alignment.
    /// Returns the aligned genome, then the aligned read: the same pair, for
    /// the same inputs, as `align` returns.
    pub fn align_fn(&mut self) -> (alignment: (String, String))
        requires
            old(self).read_sequence@.len() < usize::MAX,
            old(self).genome_sequence@.len() < usize::MAX,
            (old(self).read_sequence@.len() + 1) * (old(self).genome_sequence@.len() + 1)
                <= usize::MAX,
            old(self).missed <= 0,
        ensures
            final(self).filled(),
            final(self).same_inputs(*old(self)),
            exists|p: (int, int)|
                {
                    &&& #[trigger] is_row_major_max(
                        old(self).genome_sequence@,
                        old(self).read_sequence@,
                        old(self).matched as int,
                        old(self).missed as int,
                        p,
                    )
                    &&& alignment.0@ == backtrace(
                        old(self).genome_sequence@,
                        old(self).read_sequence@,
                        old(self).matched as int,
                        old(self).missed as int,
                        p.0,
                        p.1,
                    ).0
                    &&& alignment.1@ == backtrace(
                        old(self).genome_sequence@,
                        old(self).read_sequence@,
                        old(self).matched as int,
                        old(self).missed as int,
                        p.0,
                        p.1,
                    ).1
                },
    {
        let max_point = self.set_matrix_fn();
        let alignment = self.local_alignment(max_point);
        proof {
            let p = (max_point.0 as int, max_point.1 as int);
            assert(is_row_major_max(
                old(self).genome_sequence@,
                old(self).read_sequence@,
                old(self).matched as int,
                old(self).missed as int,
                p,
            ));
        }
        alignment
    }
}

/// The characters of `v` in reverse order, collected into a `String`.
fn reversed_string(v: &Vec<char>) -> (out: String)
    ensures
        out@ == v@.reverse(),
{
    let mut out = String::new();
    let mut i: usize = v.len();
    while i > 0
        invariant
            i <= v@.len(),
            out@ == v@.reverse().take(v@.len() - i),
        decreases i,
    {
        i -= 1;
        out.push(v[i]);
        proof {
            assert(out@ =~= v@.reverse().take(v@.len() - i));
        }
    }
    proof {
        assert(v@.reverse().take(v@.len() - 0) =~= v@.reverse());
    }
    out
}

/// When the three neighbours of `(row, col)` already hold their recurrence
/// values, the recurrence step at `(row, col)` computes the recurrence value
/// of `(row, col)` itself. On row 0 and column 0 this needs a nonpositive
/// `missed`, so that the clamp takes the stored zeros back to zero.
pub proof fn lemma_movement_matches_recurrence(e: SmithWaterman, row: int, col: int)
    requires
        e.matrix.rows == e.read_sequence@.len() + 1,
        e.matrix.cols == e.genome_sequence@.len() + 1,
        0 <= row < e.matrix.rows,
        0 <= col < e.matrix.cols,
        col >= 1 ==> e.matrix.entry(row, col - 1) == sw_score(
            e.genome_sequence@,
            e.read_sequence@,
            e.matched as int,
            e.missed as int,
            row,
            col - 1,
        ),
        row >= 1 ==> e.matrix.entry(row - 1, col) == sw_score(
            e.genome_sequence@,
            e.read_sequence@,
            e.matched as int,
            e.missed as int,
            row - 1,
            col,
        ),
        row >= 1 && col >= 1 ==> e.matrix.entry(row - 1, col - 1) == sw_score(
            e.genome_sequence@,
            e.read_sequence@,
            e.matched as int,
            e.missed as int,
            row - 1,
            col - 1,
        ),
        row == 0 || col == 0 ==> e.missed <= 0,
    ensures
        e.movement_score(row, col) == sw_score(
            e.genome_sequence@,
            e.read_sequence@,
            e.matched as int,
            e.missed as int,
            row,
            col,
        ),
{
    let g = e.genome_sequence@;
    let r = e.read_sequence@;
    let ma = e.matched as int;
    let mi = e.missed as int;
    if row >= 1 && col >= 1 {
        assert(sw_score(g, r, ma, mi, row, col) == cell_score(
            sw_score(g, r, ma, mi, row, col - 1),
            sw_score(g, r, ma, mi, row - 1, col),
            sw_score(g, r, ma, mi, row - 1, col - 1),
            r[row - 1] == g[col - 1],
            ma,
            mi,
        ));
    }
}

/// The larger of two `isize` values.
pub(crate) fn max_isize(a: isize, b: isize) -> (r: isize)
    ensures
        r as int == max2(a as int, b as int),
{
    if a >= b {
        a
    } else {
        b
    }
}

/// An owned copy of a sequence of symbols.
fn copy_chars(v: &Vec<char>) -> (out: Vec<char>)
    ensures
        out@ == v@,
{
    let mut out: Vec<char> = Vec::new();
    let mut i: usize = 0;
    while i < v.len()
        invariant
            i <= v@.len(),
            out@ == v@.take(i as int),
        decreases v@.len() - i,
    {
        let c = v[i];
        out.push(c);
        proof {
            assert(out@ =~= v@.take(i as int + 1));
        }
        i += 1;
    }
    proof {
        assert(v@.take(v@.len() as int) =~= v@);
    }
    out
}

} // verus!
