use smith_waterman::CellTask;
use smith_waterman::MaxCell;
use smith_waterman::SmithWaterman;

fn cells(sw: &SmithWaterman) -> Vec<Vec<isize>> {
    let mut out: Vec<Vec<isize>> = Vec::new();
    for row in 0..sw.matrix.rows {
        let mut line: Vec<isize> = Vec::new();
        for col in 0..sw.matrix.cols {
            line.push(sw.matrix.get(row, col));
        }
        out.push(line);
    }
    out
}

#[test]
fn it_sets_the_matrix_fn_no_match() {
    let g = "ab".chars().collect();
    let r = "cd".chars().collect();
    let mut smitty = SmithWaterman::new(&g, &r);
    smitty.set_matrix_fn();
    let alignment = smitty.align();
    assert_eq!(("".to_string(), "".to_string()), alignment);
}

#[test]
fn it_sets_the_matrix_loop_no_match() {
    let g = "ab".chars().collect();
    let r = "cd".chars().collect();
    let mut smitty = SmithWaterman::new(&g, &r);
    smitty.set_matrix_loops();
    let alignment = smitty.align();
    assert_eq!(("".to_string(), "".to_string()), alignment);
}

#[test]
fn it_sets_the_matrix_fn_one_match() {
    let g = "ab".chars().collect();
    let r = "cb".chars().collect();
    let mut smitty = SmithWaterman::new(&g, &r);
    smitty.set_matrix_fn();
    assert_eq!(2, smitty.matrix.get(2, 2));
}

#[test]
fn it_sets_the_matrix_loop_one_match() {
    let g = "ab".chars().collect();
    let r = "cb".chars().collect();
    let mut smitty = SmithWaterman::new(&g, &r);
    smitty.set_matrix_loops();
    assert_eq!(2, smitty.matrix.get(2, 2));
}

#[test]
fn it_sets_aligns_wiki_example() {
    let g = "ACACACTA".chars().collect();
    let r = "AGCACACA".chars().collect();
    let mut smitty = SmithWaterman::new(&g, &r);
    let alignment = smitty.align();
    assert_eq!(("A-CACACTA".to_string(), "AGCACAC-A".to_string()), alignment);
}

#[test]
fn its_debugging() {
    let g = "ACACACTA".chars().collect();
    let r = "AGCACACA".chars().collect();
    let mut smitty = SmithWaterman::new(&g, &r);
    let alignment = smitty.align_fn();
    println!("fn::{:?}", smitty);
    println!("fn::\n{:?}", alignment);

    let g = "ACACACTA".chars().collect();
    let r = "AGCACACA".chars().collect();
    let smitty = SmithWaterman::new_thread(&g, &r, 16);
    println!("fn::\n{:?}", smitty);
}

#[test]
fn all_fillers_produce_the_same_matrix() {
    let g: Vec<char> = "ACACACTA".chars().collect();
    let r: Vec<char> = "AGCACACA".chars().collect();
    let mut by_loops = SmithWaterman::new(&g, &r);
    by_loops.set_matrix_loops();
    let mut by_fn = SmithWaterman::new(&g, &r);
    by_fn.set_matrix_fn();
    let mut by_wavefront = SmithWaterman::new(&g, &r);
    by_wavefront.set_matrix_wavefront();
    assert_eq!(cells(&by_loops), cells(&by_fn));
    assert_eq!(cells(&by_loops), cells(&by_wavefront));
}

#[test]
fn all_fillers_agree_on_a_unique_maximum() {
    let g: Vec<char> = "ab".chars().collect();
    let r: Vec<char> = "cb".chars().collect();
    let mut by_loops = SmithWaterman::new(&g, &r);
    let p_loops = by_loops.set_matrix_loops();
    let mut by_fn = SmithWaterman::new(&g, &r);
    let p_fn = by_fn.set_matrix_fn();
    let mut by_wavefront = SmithWaterman::new(&g, &r);
    let p_wavefront = by_wavefront.set_matrix_wavefront();
    assert_eq!((2, 2), p_loops);
    assert_eq!((2, 2), p_fn);
    assert_eq!((2, 2), p_wavefront);
}

#[test]
fn all_fillers_agree_on_a_tied_maximum() {
    let g: Vec<char> = "ab".chars().collect();
    let r: Vec<char> = "ba".chars().collect();
    let mut by_loops = SmithWaterman::new(&g, &r);
    let p_loops = by_loops.set_matrix_loops();
    let mut by_fn = SmithWaterman::new(&g, &r);
    let p_fn = by_fn.set_matrix_fn();
    let mut by_wavefront = SmithWaterman::new(&g, &r);
    let p_wavefront = by_wavefront.set_matrix_wavefront();
    assert_eq!((2, 1), p_loops);
    assert_eq!((2, 1), p_fn);
    assert_eq!((2, 1), p_wavefront);

    let mut sequential = SmithWaterman::new(&g, &r);
    let mut linearized = SmithWaterman::new(&g, &r);
    let aligned = sequential.align();
    assert_eq!(("a".to_string(), "a".to_string()), aligned);
    assert_eq!(aligned, linearized.align_fn());
}

#[test]
fn row_zero_and_column_zero_stay_zero() {
    let g: Vec<char> = "ACACACTA".chars().collect();
    let r: Vec<char> = "AGCACACA".chars().collect();
    let mut smitty = SmithWaterman::new(&g, &r);
    smitty.set_matrix_fn();
    for col in 0..smitty.matrix.cols {
        assert_eq!(0, smitty.matrix.get(0, col));
    }
    for row in 0..smitty.matrix.rows {
        assert_eq!(0, smitty.matrix.get(row, 0));
    }
}

#[test]
fn every_cell_is_nonnegative() {
    let g: Vec<char> = "ACACACTA".chars().collect();
    let r: Vec<char> = "AGCACACA".chars().collect();
    let mut smitty = SmithWaterman::new(&g, &r);
    smitty.set_matrix_loops();
    for row in 0..smitty.matrix.rows {
        for col in 0..smitty.matrix.cols {
            assert!(smitty.matrix.get(row, col) >= 0);
        }
    }
}

#[test]
fn no_shared_symbol_gives_an_all_zero_matrix() {
    let g: Vec<char> = "ab".chars().collect();
    let r: Vec<char> = "cd".chars().collect();
    let mut smitty = SmithWaterman::new(&g, &r);
    smitty.set_matrix_loops();
    for row in 0..smitty.matrix.rows {
        for col in 0..smitty.matrix.cols {
            assert_eq!(0, smitty.matrix.get(row, col));
        }
    }
    let alignment = smitty.align();
    assert_eq!(("".to_string(), "".to_string()), alignment);
}

#[test]
fn filling_twice_gives_the_same_matrix() {
    let g: Vec<char> = "ACACACTA".chars().collect();
    let r: Vec<char> = "AGCACACA".chars().collect();
    let mut smitty = SmithWaterman::new(&g, &r);
    smitty.set_matrix_loops();
    let first = cells(&smitty);
    smitty.set_matrix_loops();
    let second = cells(&smitty);
    assert_eq!(first, second);

    let mut linear = SmithWaterman::new(&g, &r);
    linear.set_matrix_fn();
    let first_linear = cells(&linear);
    linear.set_matrix_fn();
    let second_linear = cells(&linear);
    assert_eq!(first_linear, second_linear);
}

#[test]
fn paired_symbols_never_exceed_the_shorter_sequence() {
    let g: Vec<char> = "ACACACTA".chars().collect();
    let r: Vec<char> = "AGCACACA".chars().collect();
    let shorter = g.len().min(r.len());
    let mut smitty = SmithWaterman::new(&g, &r);
    let alignment = smitty.align();
    let paired = alignment
        .0
        .chars()
        .zip(alignment.1.chars())
        .filter(|(a, b)| *a != '-' && *b != '-')
        .count();
    assert!(paired <= shorter);
}

#[test]
fn new_thread_fills_like_the_serial_fillers() {
    let g: Vec<char> = "ACACACTA".chars().collect();
    let r: Vec<char> = "AGCACACA".chars().collect();
    let threaded = SmithWaterman::new_thread(&g, &r, 4);
    let mut serial = SmithWaterman::new(&g, &r);
    serial.set_matrix_loops();
    assert_eq!(cells(&serial), cells(&threaded));
}

#[test]
fn empty_sequences_align_to_the_empty_pair() {
    let g: Vec<char> = Vec::new();
    let r: Vec<char> = Vec::new();
    let mut smitty = SmithWaterman::new(&g, &r);
    let alignment = smitty.align();
    assert_eq!(("".to_string(), "".to_string()), alignment);
    assert_eq!(1, smitty.matrix.rows);
    assert_eq!(1, smitty.matrix.cols);
    assert_eq!(0, smitty.matrix.get(0, 0));
}

#[test]
fn compute_cell_applies_the_clamped_recurrence() {
    let task = CellTask {
        row: 1,
        col: 1,
        left: 3,
        top: 1,
        diagonal: 5,
        symbols_match: true,
    };
    assert_eq!(7, SmithWaterman::compute_cell(&task, 2, -1));

    let mismatch = CellTask {
        row: 1,
        col: 1,
        left: 0,
        top: 0,
        diagonal: 4,
        symbols_match: false,
    };
    assert_eq!(3, SmithWaterman::compute_cell(&mismatch, 2, -1));
}

#[test]
fn compute_cell_clamps_an_overflowing_sum_to_zero() {
    let task = CellTask {
        row: 1,
        col: 1,
        left: 0,
        top: 0,
        diagonal: isize::MAX,
        symbols_match: true,
    };
    assert_eq!(0, SmithWaterman::compute_cell(&task, 2, -1));
}

#[test]
fn wavefront_pieces_fill_a_diagonal_at_a_time() {
    let g: Vec<char> = "ab".chars().collect();
    let r: Vec<char> = "cb".chars().collect();
    let mut smitty = SmithWaterman::new(&g, &r);
    smitty.matrix = smith_waterman::ScoreMatrix::new_zeros(3, 3);
    let mut best = MaxCell { row: 0, col: 0, value: 0 };
    for k in 2..=4 {
        let tasks = smitty.wavefront_tasks(k);
        let mut results: Vec<(usize, usize, isize)> = Vec::new();
        for task in &tasks {
            let value = SmithWaterman::compute_cell(task, smitty.matched, smitty.missed);
            results.push((task.row, task.col, value));
        }
        smitty.commit_wavefront(&results, &mut best);
    }
    assert_eq!(2, smitty.matrix.get(2, 2));
    assert_eq!((2, 2, 2), (best.row, best.col, best.value));
}
