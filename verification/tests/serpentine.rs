//! The serpentine mapping: bijectivity and per-column ordering on a
//! concrete grid.

use pleiades::pattern::Pattern;

#[test]
fn serpentine_is_bijective_on_grid() {
    let columns = 5usize;
    let rows = 4usize;
    let n = columns * rows;
    let mut seen = vec![false; n];
    for x in 0..columns {
        for y in 0..rows {
            let idx = Pattern::index(x, y, rows);
            assert!(idx < n, "index out of range");
            assert!(!seen[idx], "two cells collided on one index");
            seen[idx] = true;
        }
    }
    assert!(seen.iter().all(|&s| s), "some strip index was never hit");
}

#[test]
fn serpentine_even_columns_rise_with_row() {
    let rows = 7usize;
    for x in [0usize, 2, 4, 6] {
        for y in 0..rows - 1 {
            assert!(Pattern::index(x, y, rows) < Pattern::index(x, y + 1, rows));
        }
    }
}

#[test]
fn serpentine_odd_columns_fall_with_row() {
    let rows = 7usize;
    for x in [1usize, 3, 5] {
        for y in 0..rows - 1 {
            assert!(Pattern::index(x, y, rows) > Pattern::index(x, y + 1, rows));
        }
    }
}

#[test]
fn serpentine_matches_wiring_formula() {
    let rows = 5usize;
    assert_eq!(Pattern::index(0, 0, rows), 0);
    assert_eq!(Pattern::index(0, 4, rows), 4);
    assert_eq!(Pattern::index(1, 0, rows), 9);
    assert_eq!(Pattern::index(1, 4, rows), 5);
    assert_eq!(Pattern::index(2, 0, rows), 10);
    assert_eq!(Pattern::index(3, 2, rows), 17);
}
