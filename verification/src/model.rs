//! The mathematical model of Smith-Waterman local alignment: the clamped
//! scoring step, the cell recurrence, the rule that picks the maximum cell,
//! and the backtrace that reconstructs the aligned pair.

use vstd::prelude::*;

verus! {

/// `max(0, value + delta)`, where a sum that overflows `isize` counts the
/// same as a negative sum and is clamped to zero.
pub open spec fn clamped_add(value: int, delta: int) -> int {
    if value + delta < 0 || value + delta > isize::MAX as int {
        0
    } else {
        value + delta
    }
}

/// The larger of two integers.
pub open spec fn max2(a: int, b: int) -> int {
    if a >= b {
        a
    } else {
        b
    }
}

/// The smaller of two integers.
pub open spec fn min2(a: int, b: int) -> int {
    if a <= b {
        a
    } else {
        b
    }
}

/// The score of one interior cell, given the raw scores of its left, top and
/// diagonal neighbours, whether the two symbols at this cell are equal, and
/// the match reward and mismatch/gap penalty.
pub open spec fn cell_score(
    left_neighbor: int,
    top_neighbor: int,
    diag_neighbor: int,
    symbols_equal: bool,
    matched: int,
    missed: int,
) -> int {
    let left = clamped_add(left_neighbor, missed);
    let top = clamped_add(top_neighbor, missed);
    let diag = if symbols_equal {
        clamped_add(diag_neighbor, matched)
    } else {
        clamped_add(diag_neighbor, missed)
    };
    max2(left, max2(top, diag))
}

/// The Smith-Waterman recurrence: the score of cell `(row, col)` of the
/// matrix for genome `g` and read `r`. Row 0 and column 0 are fixed at zero.
pub open spec fn sw_score(g: Seq<char>, r: Seq<char>, matched: int, missed: int, row: int, col: int) -> int
    recommends
        row <= r.len(),
        col <= g.len(),
    decreases row + col,
{
    if row <= 0 || col <= 0 {
        0
    } else {
        cell_score(
            sw_score(g, r, matched, missed, row, col - 1),
            sw_score(g, r, matched, missed, row - 1, col),
            sw_score(g, r, matched, missed, row - 1, col - 1),
            r[row - 1] == g[col - 1],
            matched,
            missed,
        )
    }
}

/// `(row, col)` is an interior cell of the matrix for a read of length `n`
/// and a genome of length `m`.
pub open spec fn interior(n: int, m: int, row: int, col: int) -> bool {
    1 <= row <= n && 1 <= col <= m
}

/// `p` is the cell that every fill strategy reports as the maximum: the
/// last interior cell in row-major order whose score equals the largest
/// interior score, or `(0, 0)` when there are no interior cells.
pub open spec fn is_row_major_max(g: Seq<char>, r: Seq<char>, matched: int, missed: int, p: (int, int)) -> bool {
    let n = r.len() as int;
    let m = g.len() as int;
    if n == 0 || m == 0 {
        p == (0int, 0int)
    } else {
        &&& interior(n, m, p.0, p.1)
        &&& forall|qr: int, qc: int|
            interior(n, m, qr, qc) ==> #[trigger] sw_score(g, r, matched, missed, qr, qc)
                <= sw_score(g, r, matched, missed, p.0, p.1)
        &&& forall|qr: int, qc: int|
            interior(n, m, qr, qc) && (qr > p.0 || (qr == p.0 && qc > p.1))
                ==> #[trigger] sw_score(g, r, matched, missed, qr, qc)
                    < sw_score(g, r, matched, missed, p.0, p.1)
    }
}

/// `(qr, qc)` comes strictly before `(row, col)` in row-major order.
pub open spec fn rm_before(row: int, col: int, qr: int, qc: int) -> bool {
    qr < row || (qr == row && qc < col)
}

/// The running maximum of a row-major scan of the interior cells that has
/// visited every interior cell before `(row, col)`: `mx` is the largest
/// score seen and `mp` the last cell that attained it, updated on ties;
/// `(0, 0)` and zero while nothing has been visited.
pub open spec fn rm_scan_state(
    g: Seq<char>,
    r: Seq<char>,
    matched: int,
    missed: int,
    row: int,
    col: int,
    mx: int,
    mp: (int, int),
) -> bool {
    let n = r.len() as int;
    let m = g.len() as int;
    if n == 0 || m == 0 || (row == 1 && col == 1) {
        mx == 0 && mp == (0int, 0int)
    } else {
        &&& interior(n, m, mp.0, mp.1)
        &&& rm_before(row, col, mp.0, mp.1)
        &&& sw_score(g, r, matched, missed, mp.0, mp.1) == mx
        &&& forall|qr: int, qc: int|
            interior(n, m, qr, qc) && rm_before(row, col, qr, qc)
                ==> #[trigger] sw_score(g, r, matched, missed, qr, qc) <= mx
        &&& forall|qr: int, qc: int|
            interior(n, m, qr, qc) && rm_before(row, col, qr, qc) && (qr > mp.0 || (qr == mp.0
                && qc > mp.1)) ==> #[trigger] sw_score(g, r, matched, missed, qr, qc) < mx
    }
}

/// The running maximum of the column-major scan after visiting the `i` cells
/// of linear index `col * rows + row` below `i`: `mx` is the largest
/// interior score seen and `mp` the row-major-latest interior cell attaining
/// it, or `(0, 0)` and zero while no interior cell has been visited.
/// Breaking ties by row-major position, not by visit order, makes the
/// reported cell independent of the scan order, so this scan names the same
/// cell as the row-major one.
pub open spec fn cm_scan_state(
    g: Seq<char>,
    r: Seq<char>,
    matched: int,
    missed: int,
    i: int,
    mx: int,
    mp: (int, int),
) -> bool {
    let n = r.len() as int;
    let m = g.len() as int;
    let rows = n + 1;
    &&& mx >= 0
    &&& 0 <= mp.0 <= n && 0 <= mp.1 <= m
    &&& ((mp == (0int, 0int) && mx == 0) || (interior(n, m, mp.0, mp.1) && mp.1 * rows + mp.0 < i
        && sw_score(g, r, matched, missed, mp.0, mp.1) == mx))
    &&& forall|qr: int, qc: int|
        interior(n, m, qr, qc) && qc * rows + qr < i ==> #[trigger] sw_score(
            g,
            r,
            matched,
            missed,
            qr,
            qc,
        ) <= mx
    &&& forall|qr: int, qc: int|
        interior(n, m, qr, qc) && qc * rows + qr < i && (qr > mp.0 || (qr == mp.0 && qc > mp.1))
            ==> #[trigger] sw_score(g, r, matched, missed, qr, qc) < mx
}

/// Two cells with the same column-major linear index are the same cell.
pub proof fn lemma_cm_index_unique(rows: int, r1: int, c1: int, r2: int, c2: int)
    requires
        rows >= 1,
        0 <= r1 < rows,
        0 <= r2 < rows,
        c1 * rows + r1 == c2 * rows + r2,
    ensures
        r1 == r2 && c1 == c2,
{
    vstd::arithmetic::div_mod::lemma_fundamental_div_mod_converse(c1 * rows + r1, rows, c1, r1);
    vstd::arithmetic::div_mod::lemma_fundamental_div_mod_converse(c2 * rows + r2, rows, c2, r2);
}

/// Every cell of an `(n + 1) x (m + 1)` matrix has a column-major linear
/// index below `(n + 1) * (m + 1)`.
pub proof fn lemma_cm_index_bound(n: int, m: int, qr: int, qc: int)
    requires
        0 <= qr <= n,
        0 <= qc <= m,
    ensures
        qc * (n + 1) + qr < (n + 1) * (m + 1),
{
    assert(qc * (n + 1) + qr < (n + 1) * (m + 1)) by (nonlinear_arith)
        requires
            0 <= qr <= n,
            0 <= qc <= m,
    ;
}

/// Every cell of the scoring matrix is nonnegative: the clamp in the scoring
/// step never lets a score drop below zero.
pub proof fn lemma_score_nonneg(g: Seq<char>, r: Seq<char>, matched: int, missed: int, row: int, col: int)
    ensures
        sw_score(g, r, matched, missed, row, col) >= 0,
{
    if row <= 0 || col <= 0 {
    } else {
        assert(sw_score(g, r, matched, missed, row, col) >= clamped_add(
            sw_score(g, r, matched, missed, row, col - 1),
            missed,
        ));
    }
}

/// Row 0 and column 0 of the scoring matrix are always zero.
pub proof fn lemma_border_zero(g: Seq<char>, r: Seq<char>, matched: int, missed: int, row: int, col: int)
    requires
        row == 0 || col == 0,
    ensures
        sw_score(g, r, matched, missed, row, col) == 0,
{
}

/// The aligned pair reconstructed by walking back from `(row, col)` to the
/// first zero-score cell. The walk moves to the neighbour with the largest
/// score, preferring diagonal over left over top, and emits one symbol pair
/// per step: both symbols on a diagonal move, a `-` gap in the read on a left
/// move, and a `-` gap in the genome on a top move. The pair is in original
/// left-to-right orientation.
pub open spec fn backtrace(g: Seq<char>, r: Seq<char>, matched: int, missed: int, row: int, col: int) -> (Seq<char>, Seq<char>)
    recommends
        row <= r.len(),
        col <= g.len(),
    decreases row + col,
{
    if row <= 0 || col <= 0 || sw_score(g, r, matched, missed, row, col) <= 0 {
        (Seq::<char>::empty(), Seq::<char>::empty())
    } else {
        let top = sw_score(g, r, matched, missed, row - 1, col);
        let left = sw_score(g, r, matched, missed, row, col - 1);
        let diag = sw_score(g, r, matched, missed, row - 1, col - 1);
        let best = max2(left, max2(top, diag));
        if diag == best {
            let rest = backtrace(g, r, matched, missed, row - 1, col - 1);
            (rest.0.push(g[col - 1]), rest.1.push(r[row - 1]))
        } else if left == best {
            let rest = backtrace(g, r, matched, missed, row, col - 1);
            (rest.0.push(g[col - 1]), rest.1.push('-'))
        } else {
            let rest = backtrace(g, r, matched, missed, row - 1, col);
            (rest.0.push('-'), rest.1.push(r[row - 1]))
        }
    }
}

/// How many positions of the aligned pair carry a symbol on both sides, that
/// is, are not a gap on either side.
pub open spec fn gapless_pairs(a: Seq<char>, b: Seq<char>) -> int
    decreases a.len(),
{
    if a.len() == 0 || b.len() == 0 {
        0
    } else {
        (if a.last() != '-' && b.last() != '-' {
            1int
        } else {
            0int
        }) + gapless_pairs(a.drop_last(), b.drop_last())
    }
}

} // verus!
