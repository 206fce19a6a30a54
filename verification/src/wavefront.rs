//! The wavefront fill strategy: the matrix is filled one anti-diagonal at a
//! time. The cells of one anti-diagonal depend only on the two previous
//! anti-diagonals, so they may be computed in any order, or concurrently by a
//! pool of workers, from copies of already-committed neighbour scores. A
//! single committer writes the results back and tracks the maximum cell, so
//! the matrix has exactly one writer.

use vstd::prelude::*;

use crate::engine::max_isize;
use crate::engine::SmithWaterman;
use crate::matrix::ScoreMatrix;
use crate::model::{cell_score, clamped_add, interior, is_row_major_max, lemma_score_nonneg, sw_score};

verus! {

/// One cell's work for a wavefront worker: the cell position, copies of the
/// three committed neighbour scores, and whether the two symbols at the cell
/// are equal. A task carries plain values only, so a worker needs no access
/// to the shared matrix.
#[derive(Clone, Copy, Debug)]
pub struct CellTask {
    pub row: usize,
    pub col: usize,
    pub left: isize,
    pub top: isize,
    pub diagonal: isize,
    pub symbols_match: bool,
}

/// The highest score committed so far and the cell that last attained it.
#[derive(Clone, Copy, Debug)]
pub struct MaxCell {
    pub row: usize,
    pub col: usize,
    pub value: isize,
}

/// The first row of the interior cells on anti-diagonal `k` of a matrix for
/// a genome of length `m`.
pub open spec fn diag_lo(m: int, k: int) -> int {
    if k - m > 1 {
        k - m
    } else {
        1
    }
}

/// The last row of the interior cells on anti-diagonal `k` of a matrix for a
/// read of length `n`.
pub open spec fn diag_hi(n: int, k: int) -> int {
    if n < k - 1 {
        n
    } else {
        k - 1
    }
}

/// How many interior cells lie on anti-diagonal `k`.
pub open spec fn diag_len(n: int, m: int, k: int) -> int {
    if diag_hi(n, k) >= diag_lo(m, k) {
        diag_hi(n, k) - diag_lo(m, k) + 1
    } else {
        0
    }
}

/// The maximum-cell state after committing `results`, starting from maximum
/// `mx` at `mp`: a result takes the maximum over when its value is strictly
/// larger, or equal and its cell later in row-major order. Ties are broken
/// by position, not by commit order, so the state a wavefront leaves behind
/// does not depend on the order its cells were computed in, and the fill as
/// a whole reports the same maximum cell as the row-major scan.
pub open spec fn scan_results(results: Seq<(usize, usize, isize)>, mx: int, mp: (int, int)) -> (int, (int, int))
    decreases results.len(),
{
    if results.len() == 0 {
        (mx, mp)
    } else {
        let first = results[0];
        if first.2 as int > mx || (first.2 as int == mx && (first.0 as int > mp.0 || (
        first.0 as int == mp.0 && first.1 as int > mp.1))) {
            scan_results(results.skip(1), first.2 as int, (first.0 as int, first.1 as int))
        } else {
            scan_results(results.skip(1), mx, mp)
        }
    }
}

/// What committing one wavefront's results does to a sound maximum-cell
/// state: the maximum never drops; the reported cell carries its own score,
/// stays where it was or moves to a committed cell, and on an unchanged
/// maximum moves row-major forward only; every committed value is bounded by
/// the new maximum, strictly so for committed cells in row-major order after
/// the reported one.
pub proof fn lemma_scan_results_sound(
    g: Seq<char>,
    r: Seq<char>,
    matched: int,
    missed: int,
    results: Seq<(usize, usize, isize)>,
    mx0: int,
    mp0: (int, int),
)
    requires
        mx0 >= 0,
        0 <= mp0.0 <= r.len() && 0 <= mp0.1 <= g.len(),
        (mp0 == (0int, 0int) && mx0 == 0) || (interior(
            r.len() as int,
            g.len() as int,
            mp0.0,
            mp0.1,
        ) && sw_score(g, r, matched, missed, mp0.0, mp0.1) == mx0),
        forall|t: int|
            0 <= t < results.len() ==> {
                let rt = #[trigger] results[t];
                &&& interior(r.len() as int, g.len() as int, rt.0 as int, rt.1 as int)
                &&& rt.2 as int == sw_score(g, r, matched, missed, rt.0 as int, rt.1 as int)
            },
    ensures
        ({
            let (mx1, mp1) = scan_results(results, mx0, mp0);
            &&& mx1 >= mx0
            &&& 0 <= mp1.0 <= r.len() && 0 <= mp1.1 <= g.len()
            &&& (mp1 == mp0 || (exists|t: int|
                {
                    let rt = #[trigger] results[t];
                    0 <= t < results.len() && mp1 == (rt.0 as int, rt.1 as int)
                }))
            &&& ((mp1 == (0int, 0int) && mx1 == 0) || (interior(
                r.len() as int,
                g.len() as int,
                mp1.0,
                mp1.1,
            ) && sw_score(g, r, matched, missed, mp1.0, mp1.1) == mx1))
            &&& (mx1 == mx0 ==> (mp1 == mp0 || mp1.0 > mp0.0 || (mp1.0 == mp0.0 && mp1.1 > mp0.1)))
            &&& forall|t: int|
                0 <= t < results.len() ==> (#[trigger] results[t]).2 as int <= mx1
            &&& forall|t: int|
                0 <= t < results.len() ==> (((#[trigger] results[t]).2 as int) < mx1 ||
                ((results[t]).0 as int) < mp1.0 || (results[t].0 as int == mp1.0 &&
                results[t].1 as int <= mp1.1))
        }),
    decreases results.len(),
{
    if results.len() == 0 {
    } else {
        let first = results[0];
        let rest = results.skip(1);
        assert forall|t: int| 0 <= t < rest.len() implies {
            let rt = #[trigger] rest[t];
            &&& interior(r.len() as int, g.len() as int, rt.0 as int, rt.1 as int)
            &&& rt.2 as int == sw_score(g, r, matched, missed, rt.0 as int, rt.1 as int)
        } by {
            assert(rest[t] == results[t + 1]);
        }
        lemma_score_nonneg(g, r, matched, missed, first.0 as int, first.1 as int);
        let (mx1, mp1) = scan_results(results, mx0, mp0);
        if first.2 as int > mx0 || (first.2 as int == mx0 && (first.0 as int > mp0.0 || (
        first.0 as int == mp0.0 && first.1 as int > mp0.1))) {
            lemma_scan_results_sound(
                g,
                r,
                matched,
                missed,
                rest,
                first.2 as int,
                (first.0 as int, first.1 as int),
            );
        } else {
            lemma_scan_results_sound(g, r, matched, missed, rest, mx0, mp0);
        }
        if mp1 == (first.0 as int, first.1 as int) {
            let rt = results[0];
            assert(0 <= 0 < results.len() && mp1 == (rt.0 as int, rt.1 as int));
        } else if mp1 != mp0 {
            let t0 = choose|t: int|
                {
                    let rt = #[trigger] rest[t];
                    0 <= t < rest.len() && mp1 == (rt.0 as int, rt.1 as int)
                };
            assert(rest[t0] == results[t0 + 1]);
            let rt = results[t0 + 1];
            assert(0 <= t0 + 1 < results.len() && mp1 == (rt.0 as int, rt.1 as int));
        }
        assert forall|t: int| 0 <= t < results.len() implies (#[trigger] results[t]).2 as int
            <= mx1 by {
            if t >= 1 {
                assert(rest[t - 1] == results[t]);
            }
        }
        assert forall|t: int|
            0 <= t < results.len() implies (((#[trigger] results[t]).2 as int) < mx1 ||
            ((results[t]).0 as int) < mp1.0 || (results[t].0 as int == mp1.0 &&
            results[t].1 as int <= mp1.1)) by {
            if t >= 1 {
                assert(rest[t - 1] == results[t]);
            }
        }
    }
}

impl SmithWaterman {
    /// `max(0, value + penalty_value)`: the clamp used by wavefront workers,
    /// an overflowing or negative sum counting as zero.
    fn penalty_thread(value: isize, penalty_value: isize) -> (r: isize)
        ensures
            r as int == clamped_add(value as int, penalty_value as int),
    {
        match value.checked_add(penalty_value) {
            Some(i) => if i < 0 {
                0
            } else {
                i
            },
            _ => 0,
        }
    }

    /// One task per interior cell of anti-diagonal `k`, in increasing row
    /// order, each carrying copies of its committed neighbour scores.
    pub fn wavefront_tasks(&self, k: usize) -> (tasks: Vec<CellTask>)
        requires
            self.matrix.wf(),
            self.matrix.rows == self.read_sequence@.len() + 1,
            self.matrix.cols == self.genome_sequence@.len() + 1,
            2 <= k,
            k <= self.read_sequence@.len() + self.genome_sequence@.len(),
        ensures
            tasks@.len() == diag_len(
                self.read_sequence@.len() as int,
                self.genome_sequence@.len() as int,
                k as int,
            ),
            forall|t: int|
                0 <= t < tasks@.len() ==> {
                    let task = #[trigger] tasks@[t];
                    &&& task.row as int == diag_lo(self.genome_sequence@.len() as int, k as int)
                        + t
                    &&& task.row as int + task.col as int == k
                    &&& interior(
                        self.read_sequence@.len() as int,
                        self.genome_sequence@.len() as int,
                        task.row as int,
                        task.col as int,
                    )
                    &&& task.left as int == self.matrix.entry(task.row as int, task.col as int - 1)
                    &&& task.top as int == self.matrix.entry(task.row as int - 1, task.col as int)
                    &&& task.diagonal as int == self.matrix.entry(
                        task.row as int - 1,
                        task.col as int - 1,
                    )
                    &&& task.symbols_match == (self.read_sequence@[task.row as int - 1]
                        == self.genome_sequence@[task.col as int - 1])
                },
    {
        let n: usize = self.read_sequence.len();
        let m: usize = self.genome_sequence.len();
        let lo: usize = if k > m {
            k - m
        } else {
            1
        };
        let hi: usize = if k - 1 < n {
            k - 1
        } else {
            n
        };
        let mut tasks: Vec<CellTask> = Vec::new();
        if lo > hi {
            return tasks;
        }
        let mut row: usize = lo;
        while row <= hi
            invariant
                self.matrix.wf(),
                self.matrix.rows == self.read_sequence@.len() + 1,
                self.matrix.cols == self.genome_sequence@.len() + 1,
                n == self.read_sequence@.len(),
                m == self.genome_sequence@.len(),
                2 <= k <= n + m,
                lo == diag_lo(m as int, k as int),
                hi == diag_hi(n as int, k as int),
                lo <= hi,
                lo <= row <= hi + 1,
                tasks@.len() == row - lo,
                forall|t: int|
                    0 <= t < tasks@.len() ==> {
                        let task = #[trigger] tasks@[t];
                        &&& task.row as int == lo + t
                        &&& task.row as int + task.col as int == k
                        &&& interior(n as int, m as int, task.row as int, task.col as int)
                        &&& task.left as int == self.matrix.entry(
                            task.row as int,
                            task.col as int - 1,
                        )
                        &&& task.top as int == self.matrix.entry(
                            task.row as int - 1,
                            task.col as int,
                        )
                        &&& task.diagonal as int == self.matrix.entry(
                            task.row as int - 1,
                            task.col as int - 1,
                        )
                        &&& task.symbols_match == (self.read_sequence@[task.row as int - 1]
                            == self.genome_sequence@[task.col as int - 1])
                    },
            decreases hi + 1 - row,
        {
            let col: usize = k - row;
            let task = CellTask {
                row,
                col,
                left: self.matrix.get(row, col - 1),
                top: self.matrix.get(row - 1, col),
                diagonal: self.matrix.get(row - 1, col - 1),
                symbols_match: self.read_sequence[row - 1] == self.genome_sequence[col - 1],
            };
            tasks.push(task);
            row += 1;
        }
        tasks
    }

    /// The recurrence step for one wavefront task, computed from the copies
    /// the task carries alone, so any worker may run it.
    pub fn compute_cell(task: &CellTask, matched: isize, missed: isize) -> (value: isize)
        ensures
            value as int == cell_score(
                task.left as int,
                task.top as int,
                task.diagonal as int,
                task.symbols_match,
                matched as int,
                missed as int,
            ),
    {
        let left: isize = Self::penalty_thread(task.left, missed);
        let top: isize = Self::penalty_thread(task.top, missed);
        let diagonal_match: isize = if task.symbols_match {
            Self::penalty_thread(task.diagonal, matched)
        } else {
            Self::penalty_thread(task.diagonal, missed)
        };
        max_isize(left, max_isize(top, diagonal_match))
    }

    /// Commits one wavefront's results: writes each `(row, col, value)` into
    /// the matrix and folds the values into the maximum cell, row-major-later
    /// cells winning ties so that the commit order cannot show in the
    /// outcome. The results must be the consecutive cells of one
    /// anti-diagonal, in increasing row order; every other cell of the
    /// matrix keeps its score.
    pub fn commit_wavefront(&mut self, results: &Vec<(usize, usize, isize)>, best: &mut MaxCell)
        requires
            old(self).matrix.wf(),
            old(self).matrix.rows == old(self).read_sequence@.len() + 1,
            old(self).matrix.cols == old(self).genome_sequence@.len() + 1,
            forall|t: int|
                0 <= t < results@.len() ==> {
                    let rt = #[trigger] results@[t];
                    &&& rt.0 as int == results@[0].0 as int + t
                    &&& rt.0 as int + rt.1 as int == results@[0].0 as int + results@[0].1 as int
                    &&& interior(
                        old(self).read_sequence@.len() as int,
                        old(self).genome_sequence@.len() as int,
                        rt.0 as int,
                        rt.1 as int,
                    )
                },
        ensures
            final(self).matrix.wf(),
            final(self).matrix.rows == old(self).matrix.rows,
            final(self).matrix.cols == old(self).matrix.cols,
            final(self).same_inputs(*old(self)),
            forall|t: int|
                0 <= t < results@.len() ==> {
                    let rt = #[trigger] results@[t];
                    final(self).matrix.entry(rt.0 as int, rt.1 as int) == rt.2 as int
                },
            forall|qr: int, qc: int|
                0 <= qr < old(self).matrix.rows && 0 <= qc < old(self).matrix.cols && !(
                results@.len() > 0 && results@[0].0 <= qr < results@[0].0 + results@.len() && qr
                    + qc == results@[0].0 + results@[0].1) ==> #[trigger] final(self).matrix.entry(
                    qr,
                    qc,
                ) == old(self).matrix.entry(qr, qc),
            (final(best).value as int, (final(best).row as int, final(best).col as int))
                == scan_results(
                results@,
                old(best).value as int,
                (old(best).row as int, old(best).col as int),
            ),
    {
        let ghost b0v = best.value as int;
        let ghost b0p = (best.row as int, best.col as int);
        proof {
            assert(results@.skip(0) =~= results@);
        }
        let mut t: usize = 0;
        while t < results.len()
            invariant
                self.matrix.wf(),
                self.matrix.rows == old(self).matrix.rows,
                self.matrix.cols == old(self).matrix.cols,
                self.matrix.rows == self.read_sequence@.len() + 1,
                self.matrix.cols == self.genome_sequence@.len() + 1,
                self.same_inputs(*old(self)),
                t <= results@.len(),
                forall|u: int|
                    0 <= u < results@.len() ==> {
                        let rt = #[trigger] results@[u];
                        &&& rt.0 as int == results@[0].0 as int + u
                        &&& rt.0 as int + rt.1 as int == results@[0].0 as int
                            + results@[0].1 as int
                        &&& interior(
                            self.read_sequence@.len() as int,
                            self.genome_sequence@.len() as int,
                            rt.0 as int,
                            rt.1 as int,
                        )
                    },
                forall|u: int|
                    0 <= u < t ==> {
                        let rt = #[trigger] results@[u];
                        self.matrix.entry(rt.0 as int, rt.1 as int) == rt.2 as int
                    },
                forall|qr: int, qc: int|
                    0 <= qr < old(self).matrix.rows && 0 <= qc < old(self).matrix.cols && !(t > 0
                        && results@[0].0 <= qr < results@[0].0 + t && qr + qc == results@[0].0
                        + results@[0].1) ==> #[trigger] self.matrix.entry(qr, qc) == old(
                        self,
                    ).matrix.entry(qr, qc),
                scan_results(
                    results@.skip(t as int),
                    best.value as int,
                    (best.row as int, best.col as int),
                ) == scan_results(results@, b0v, b0p),
            decreases results@.len() - t,
        {
            let ghost rem = results@.skip(t as int);
            let (row, col, value) = results[t];
            proof {
                assert(rem[0] == results@[t as int]);
                assert(rem.skip(1) =~= results@.skip(t as int + 1));
            }
            if value > best.value || (value == best.value && (row > best.row || (row == best.row
                && col > best.col))) {
                best.value = value;
                best.row = row;
                best.col = col;
            }
            self.matrix.set(row, col, value);
            t += 1;
        }
        proof {
            assert(results@.skip(results@.len() as int) =~= Seq::<(usize, usize, isize)>::empty());
        }
    }

    /// Fills the matrix by the wavefront schedule: for each anti-diagonal in
    /// turn, the tasks are generated, every task's cell is computed from the
    /// copies it carries, and the results are committed by the single
    /// writer. Produces exactly the matrix of `set_matrix_loops` and reports
    /// exactly its maximum cell: the commit breaks ties by row-major
    /// position, so neither the wavefront order nor the order cells were
    /// computed in can show in the result. The cells of one anti-diagonal
    /// are mutually independent, so a caller distributing the tasks of each
    /// wavefront over a worker pool and committing each wavefront before
    /// releasing the next arrives at the same matrix and maximum cell.
    pub fn set_matrix_wavefront(&mut self) -> (max_point: (usize, usize))
        requires
            old(self).read_sequence@.len() < usize::MAX,
            old(self).genome_sequence@.len() < usize::MAX,
            old(self).read_sequence@.len() + old(self).genome_sequence@.len() < usize::MAX,
        ensures
            final(self).filled(),
            final(self).same_inputs(*old(self)),
            is_row_major_max(
                old(self).genome_sequence@,
                old(self).read_sequence@,
                old(self).matched as int,
                old(self).missed as int,
                (max_point.0 as int, max_point.1 as int),
            ),
            max_point.0 < final(self).matrix.rows,
            max_point.1 < final(self).matrix.cols,
    {
        let ghost g = self.genome_sequence@;
        let ghost r = self.read_sequence@;
        let ghost ma = self.matched as int;
        let ghost mi = self.missed as int;
        let n: usize = self.read_sequence.len();
        let m: usize = self.genome_sequence.len();
        self.matrix = ScoreMatrix::new_zeros(n + 1, m + 1);
        let mut best = MaxCell { row: 0, col: 0, value: 0 };
        let total: usize = n + m;
        let mut k: usize = 2;
        while k <= total
            invariant
                self.genome_sequence@ == g,
                self.read_sequence@ == r,
                self.matched as int == ma,
                self.missed as int == mi,
                n == r.len(),
                m == g.len(),
                total == n + m,
                total < usize::MAX,
                self.matrix.wf(),
                self.matrix.rows == n + 1,
                self.matrix.cols == m + 1,
                2 <= k,
                forall|qr: int, qc: int|
                    0 <= qr <= n && 0 <= qc <= m && (qr == 0 || qc == 0 || qr + qc < k)
                        ==> #[trigger] self.matrix.entry(qr, qc) == sw_score(g, r, ma, mi, qr, qc),
                best.value as int >= 0,
                best.row <= n,
                best.col <= m,
                ((best.row == 0 && best.col == 0 && best.value == 0) || (interior(
                    n as int,
                    m as int,
                    best.row as int,
                    best.col as int,
                ) && best.row as int + (best.col as int) < k && sw_score(
                    g,
                    r,
                    ma,
                    mi,
                    best.row as int,
                    best.col as int,
                ) == best.value as int)),
                forall|qr: int, qc: int|
                    interior(n as int, m as int, qr, qc) && qr + qc < k ==> #[trigger] sw_score(
                        g,
                        r,
                        ma,
                        mi,
                        qr,
                        qc,
                    ) <= best.value as int,
                forall|qr: int, qc: int|
                    interior(n as int, m as int, qr, qc) && qr + qc < k && (qr > best.row || (qr
                        == best.row && qc > best.col)) ==> #[trigger] sw_score(g, r, ma, mi, qr, qc)
                        < best.value as int,
            decreases total + 1 - k,
        {
            let tasks = self.wavefront_tasks(k);
            let mut results: Vec<(usize, usize, isize)> = Vec::new();
            let mut t: usize = 0;
            while t < tasks.len()
                invariant
                    self.genome_sequence@ == g,
                    self.read_sequence@ == r,
                    self.matched as int == ma,
                    self.missed as int == mi,
                    n == r.len(),
                    m == g.len(),
                    self.matrix.wf(),
                    self.matrix.rows == n + 1,
                    self.matrix.cols == m + 1,
                    2 <= k <= n + m,
                    forall|qr: int, qc: int|
                        0 <= qr <= n && 0 <= qc <= m && (qr == 0 || qc == 0 || qr + qc < k)
                            ==> #[trigger] self.matrix.entry(qr, qc) == sw_score(
                            g,
                            r,
                            ma,
                            mi,
                            qr,
                            qc,
                        ),
                    tasks@.len() == diag_len(n as int, m as int, k as int),
                    forall|u: int|
                        0 <= u < tasks@.len() ==> {
                            let task = #[trigger] tasks@[u];
                            &&& task.row as int == diag_lo(m as int, k as int) + u
                            &&& task.row as int + task.col as int == k
                            &&& interior(n as int, m as int, task.row as int, task.col as int)
                            &&& task.left as int == self.matrix.entry(
                                task.row as int,
                                task.col as int - 1,
                            )
                            &&& task.top as int == self.matrix.entry(
                                task.row as int - 1,
                                task.col as int,
                            )
                            &&& task.diagonal as int == self.matrix.entry(
                                task.row as int - 1,
                                task.col as int - 1,
                            )
                            &&& task.symbols_match == (r[task.row as int - 1] == g[task.col as int
                                - 1])
                        },
                    t <= tasks@.len(),
                    results@.len() == t,
                    forall|u: int|
                        0 <= u < t ==> {
                            let rt = #[trigger] results@[u];
                            &&& rt.0 == tasks@[u].row
                            &&& rt.1 == tasks@[u].col
                            &&& rt.2 as int == sw_score(g, r, ma, mi, rt.0 as int, rt.1 as int)
                        },
                decreases tasks@.len() - t,
            {
                let task = tasks[t];
                let value: isize = Self::compute_cell(&task, self.matched, self.missed);
                proof {
                    let row = task.row as int;
                    let col = task.col as int;
                    assert(sw_score(g, r, ma, mi, row, col) == cell_score(
                        sw_score(g, r, ma, mi, row, col - 1),
                        sw_score(g, r, ma, mi, row - 1, col),
                        sw_score(g, r, ma, mi, row - 1, col - 1),
                        r[row - 1] == g[col - 1],
                        ma,
                        mi,
                    ));
                }
                results.push((task.row, task.col, value));
                t += 1;
            }
            let ghost b0v = best.value as int;
            let ghost b0p = (best.row as int, best.col as int);
            let ghost results_snapshot = results@;
            self.commit_wavefront(&results, &mut best);
            proof {
                lemma_scan_results_sound(g, r, ma, mi, results_snapshot, b0v, b0p);
                assert forall|qr: int, qc: int|
                    0 <= qr <= n && 0 <= qc <= m && (qr == 0 || qc == 0 || qr + qc < k + 1)
                        implies #[trigger] self.matrix.entry(qr, qc) == sw_score(g, r, ma, mi, qr, qc)
                by {
                    if qr >= 1 && qc >= 1 && qr + qc == k {
                        let u = qr - diag_lo(m as int, k as int);
                        assert(0 <= u < results_snapshot.len());
                        assert(results_snapshot[u].0 == qr && results_snapshot[u].1 == qc);
                    }
                }
                assert forall|qr: int, qc: int|
                    interior(n as int, m as int, qr, qc) && qr + qc < k + 1
                        implies #[trigger] sw_score(g, r, ma, mi, qr, qc) <= best.value as int
                by {
                    if qr + qc == k {
                        let u = qr - diag_lo(m as int, k as int);
                        assert(0 <= u < results_snapshot.len());
                        assert(results_snapshot[u].0 == qr && results_snapshot[u].1 == qc);
                        assert(results_snapshot[u].2 as int <= best.value as int);
                    }
                }
                if (best.row as int, best.col as int) != b0p {
                    let t1 = choose|t: int|
                        0 <= t < results_snapshot.len() && (best.row as int, best.col as int) == (
                        (results_snapshot[t]).0 as int,
                        (results_snapshot[t]).1 as int,
                        );
                    assert(results_snapshot[t1].0 as int + results_snapshot[t1].1 as int
                        == k as int);
                }
                assert forall|qr: int, qc: int|
                    interior(n as int, m as int, qr, qc) && qr + qc < k + 1 && (qr
                        > best.row as int || (qr == best.row as int && qc > best.col as int))
                        implies #[trigger] sw_score(g, r, ma, mi, qr, qc) < best.value as int
                by {
                    if qr + qc == k {
                        let u = qr - diag_lo(m as int, k as int);
                        assert(0 <= u < results_snapshot.len());
                        assert(results_snapshot[u].0 == qr && results_snapshot[u].1 == qc);
                        assert((results_snapshot[u].2 as int) < best.value as int);
                    } else {
                        if best.value as int == b0v {
                            assert(sw_score(g, r, ma, mi, qr, qc) < b0v);
                        }
                    }
                }
            }
            k += 1;
        }
        proof {
            assert forall|qr: int, qc: int| 0 <= qr <= n && 0 <= qc <= m
                implies #[trigger] self.matrix.entry(qr, qc) == sw_score(g, r, ma, mi, qr, qc)
            by {
                assert(qr == 0 || qc == 0 || qr + qc < k);
            }
            if n == 0 || m == 0 {
                assert(best.row == 0 && best.col == 0);
            } else if best.row == 0 && best.col == 0 {
                lemma_score_nonneg(g, r, ma, mi, 1, 1);
                assert(sw_score(g, r, ma, mi, 1, 1) < 0);
                assert(false);
            }
        }
        (best.row, best.col)
    }

    /// Builds an engine over the given sequences and fills its matrix by the
    /// wavefront schedule of `set_matrix_wavefront`. The pool size is the
    /// caller's concern: a driver that owns a worker pool dispatches each
    /// wavefront's tasks to it and commits each wavefront before releasing
    /// the next, and arrives at the same matrix.
    #[allow(unused_variables)]
    pub fn new_thread(genome_sequence: &Vec<char>, read_sequence: &Vec<char>, thread_pool_size: usize) -> (sw: SmithWaterman)
        requires
            read_sequence@.len() < usize::MAX,
            genome_sequence@.len() < usize::MAX,
            read_sequence@.len() + genome_sequence@.len() < usize::MAX,
        ensures
            sw.filled(),
            sw.genome_sequence@ == genome_sequence@,
            sw.read_sequence@ == read_sequence@,
            sw.matched == 2isize,
            sw.missed == -1isize,
    {
        let mut sw = SmithWaterman::new(genome_sequence, read_sequence);
        sw.set_matrix_wavefront();
        sw
    }
}

} // verus!
