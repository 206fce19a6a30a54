//! The laws that hold across the library's operations: every fill strategy
//! computes the same matrix and reports the same maximum cell, sequences
//! without a shared symbol align to the empty pair, and an alignment never
//! pairs more symbols than the shorter sequence holds.

use vstd::prelude::*;

use crate::engine::SmithWaterman;
use crate::model::{backtrace, gapless_pairs, interior, is_row_major_max, min2, sw_score};

verus! {

/// Every fill strategy computes the same matrix: a filled engine's matrix is
/// the recurrence grid of its inputs, so two filled engines over the same
/// sequences and scoring constants hold cell-for-cell identical matrices.
/// In particular, filling an unmodified engine a second time, by the same
/// strategy or another, recomputes the identical matrix: no state leaks
/// from one fill into the next.
pub proof fn lemma_fill_deterministic(e1: SmithWaterman, e2: SmithWaterman)
    requires
        e1.filled(),
        e2.filled(),
        e1.same_inputs(e2),
    ensures
        e1.matrix.rows == e2.matrix.rows,
        e1.matrix.cols == e2.matrix.cols,
        forall|qr: int, qc: int|
            0 <= qr < e1.matrix.rows && 0 <= qc < e1.matrix.cols ==> #[trigger] e1.matrix.entry(
                qr,
                qc,
            ) == e2.matrix.entry(qr, qc),
{
}

/// In any filled matrix, row 0 and column 0 are zero and every cell is
/// nonnegative.
pub proof fn lemma_filled_borders_and_floor(e: SmithWaterman)
    requires
        e.filled(),
    ensures
        forall|qc: int| 0 <= qc < e.matrix.cols ==> #[trigger] e.matrix.entry(0, qc) == 0,
        forall|qr: int| 0 <= qr < e.matrix.rows ==> #[trigger] e.matrix.entry(qr, 0) == 0,
        forall|qr: int, qc: int|
            0 <= qr < e.matrix.rows && 0 <= qc < e.matrix.cols ==> #[trigger] e.matrix.entry(
                qr,
                qc,
            ) >= 0,
{
    let g = e.genome_sequence@;
    let r = e.read_sequence@;
    let ma = e.matched as int;
    let mi = e.missed as int;
    assert forall|qr: int, qc: int|
        0 <= qr < e.matrix.rows && 0 <= qc < e.matrix.cols implies #[trigger] e.matrix.entry(
        qr,
        qc,
    ) >= 0 by {
        crate::model::lemma_score_nonneg(g, r, ma, mi, qr, qc);
    }
}

/// Exactly one cell satisfies the row-major maximum rule that every fill
/// strategy's contract names: of two distinct cells, one is always the later
/// in row-major order. All fill strategies therefore report the identical
/// maximum cell for every input, ties included, and `align` and `align_fn`
/// return the identical alignment.
pub proof fn lemma_row_major_max_unique(
    g: Seq<char>,
    r: Seq<char>,
    matched: int,
    missed: int,
    p1: (int, int),
    p2: (int, int),
)
    requires
        is_row_major_max(g, r, matched, missed, p1),
        is_row_major_max(g, r, matched, missed, p2),
    ensures
        p1 == p2,
{
    let n = r.len() as int;
    let m = g.len() as int;
    if n == 0 || m == 0 {
    } else if p1 != p2 {
        if p2.0 > p1.0 || (p2.0 == p1.0 && p2.1 > p1.1) {
            assert(sw_score(g, r, matched, missed, p2.0, p2.1) < sw_score(
                g,
                r,
                matched,
                missed,
                p1.0,
                p1.1,
            ));
            assert(false);
        } else {
            assert(sw_score(g, r, matched, missed, p1.0, p1.1) < sw_score(
                g,
                r,
                matched,
                missed,
                p2.0,
                p2.1,
            ));
            assert(false);
        }
    }
}

/// When no genome symbol equals any read symbol and the mismatch penalty is
/// nonpositive, the matrix is entirely zero: with nothing to reward, the
/// clamp pins every cell at the zero floor.
pub proof fn lemma_no_shared_symbol_all_zero(
    g: Seq<char>,
    r: Seq<char>,
    matched: int,
    missed: int,
    row: int,
    col: int,
)
    requires
        missed <= 0,
        forall|i: int, j: int| 0 <= i < g.len() && 0 <= j < r.len() ==> g[i] != r[j],
        0 <= row <= r.len(),
        0 <= col <= g.len(),
    ensures
        sw_score(g, r, matched, missed, row, col) == 0,
    decreases row + col,
{
    if row <= 0 || col <= 0 {
    } else {
        lemma_no_shared_symbol_all_zero(g, r, matched, missed, row, col - 1);
        lemma_no_shared_symbol_all_zero(g, r, matched, missed, row - 1, col);
        lemma_no_shared_symbol_all_zero(g, r, matched, missed, row - 1, col - 1);
        assert(g[col - 1] != r[row - 1]);
    }
}

/// A filled engine whose sequences share no symbol holds an entirely zero
/// matrix, whatever cell a fill strategy reported as the maximum. Needs a
/// nonpositive mismatch penalty, as the default -1 is.
pub proof fn lemma_no_shared_symbol_zero_matrix(e: SmithWaterman)
    requires
        e.filled(),
        e.missed <= 0,
        forall|i: int, j: int|
            0 <= i < e.genome_sequence@.len() && 0 <= j < e.read_sequence@.len()
                ==> e.genome_sequence@[i] != e.read_sequence@[j],
    ensures
        forall|qr: int, qc: int|
            0 <= qr < e.matrix.rows && 0 <= qc < e.matrix.cols ==> #[trigger] e.matrix.entry(
                qr,
                qc,
            ) == 0,
{
    let g = e.genome_sequence@;
    let r = e.read_sequence@;
    let ma = e.matched as int;
    let mi = e.missed as int;
    assert forall|qr: int, qc: int|
        0 <= qr < e.matrix.rows && 0 <= qc < e.matrix.cols implies #[trigger] e.matrix.entry(
        qr,
        qc,
    ) == 0 by {
        lemma_no_shared_symbol_all_zero(g, r, ma, mi, qr, qc);
    }
}

/// When no genome symbol equals any read symbol and the mismatch penalty is
/// nonpositive, the backtrace from any in-range cell is the empty pair: the
/// walk stops at once on an all-zero matrix.
pub proof fn lemma_no_shared_symbol_empty_alignment(
    g: Seq<char>,
    r: Seq<char>,
    matched: int,
    missed: int,
    row: int,
    col: int,
)
    requires
        missed <= 0,
        forall|i: int, j: int| 0 <= i < g.len() && 0 <= j < r.len() ==> g[i] != r[j],
        0 <= row <= r.len(),
        0 <= col <= g.len(),
    ensures
        backtrace(g, r, matched, missed, row, col) == (Seq::<char>::empty(), Seq::<char>::empty()),
{
    lemma_no_shared_symbol_all_zero(g, r, matched, missed, row, col);
}

/// The two sides of an aligned pair always have the same length: every
/// backtrace step emits one symbol on each side.
pub proof fn lemma_backtrace_lengths(
    g: Seq<char>,
    r: Seq<char>,
    matched: int,
    missed: int,
    row: int,
    col: int,
)
    ensures
        backtrace(g, r, matched, missed, row, col).0.len() == backtrace(
            g,
            r,
            matched,
            missed,
            row,
            col,
        ).1.len(),
    decreases row + col,
{
    if row <= 0 || col <= 0 || sw_score(g, r, matched, missed, row, col) <= 0 {
    } else {
        lemma_backtrace_lengths(g, r, matched, missed, row - 1, col - 1);
        lemma_backtrace_lengths(g, r, matched, missed, row, col - 1);
        lemma_backtrace_lengths(g, r, matched, missed, row - 1, col);
    }
}

/// The number of aligned positions that carry a symbol on both sides never
/// exceeds `min(row, col)` for a backtrace from `(row, col)`, and so never
/// exceeds the length of the shorter input sequence: only a diagonal step
/// pairs two symbols, and each diagonal step uses up one row and one column.
pub proof fn lemma_gapless_pairs_bound(
    g: Seq<char>,
    r: Seq<char>,
    matched: int,
    missed: int,
    row: int,
    col: int,
)
    requires
        0 <= row,
        0 <= col,
    ensures
        gapless_pairs(
            backtrace(g, r, matched, missed, row, col).0,
            backtrace(g, r, matched, missed, row, col).1,
        ) <= min2(row, col),
    decreases row + col,
{
    if row <= 0 || col <= 0 || sw_score(g, r, matched, missed, row, col) <= 0 {
    } else {
        let bt = backtrace(g, r, matched, missed, row, col);
        let top = sw_score(g, r, matched, missed, row - 1, col);
        let left = sw_score(g, r, matched, missed, row, col - 1);
        let diag = sw_score(g, r, matched, missed, row - 1, col - 1);
        if diag == crate::model::max2(left, crate::model::max2(top, diag)) {
            let rest = backtrace(g, r, matched, missed, row - 1, col - 1);
            lemma_gapless_pairs_bound(g, r, matched, missed, row - 1, col - 1);
            assert(bt.0.drop_last() =~= rest.0);
            assert(bt.1.drop_last() =~= rest.1);
        } else if left == crate::model::max2(left, crate::model::max2(top, diag)) {
            let rest = backtrace(g, r, matched, missed, row, col - 1);
            lemma_gapless_pairs_bound(g, r, matched, missed, row, col - 1);
            assert(bt.0.drop_last() =~= rest.0);
            assert(bt.1.drop_last() =~= rest.1);
            assert(bt.1.last() == '-');
        } else {
            let rest = backtrace(g, r, matched, missed, row - 1, col);
            lemma_gapless_pairs_bound(g, r, matched, missed, row - 1, col);
            assert(bt.0.drop_last() =~= rest.0);
            assert(bt.1.drop_last() =~= rest.1);
            assert(bt.0.last() == '-');
        }
    }
}

} // verus!
