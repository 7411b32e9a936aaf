//! Pattern creation and envelope: hand-computed cell intensities and the
//! triangular fade shape.

use pleiades::pattern::Pattern;

fn flat_samples(n: usize, value: i32) -> Vec<i32> {
    vec![value; n]
}

#[test]
fn intensity_of_known_cell_matches_hand_computation() {
    // 3x3 grid, cutoff 0.5, shift 0.3; cell (1, 2) carries sample 0.8, so
    // its intensity is (0.8 - 0.5) + 0.3 = 0.6, stored at the cell's
    // serpentine index.
    let columns = 3usize;
    let rows = 3usize;
    let mut samples = flat_samples(columns * rows, 0);
    samples[1 * rows + 2] = 800;
    let p = Pattern::new(&samples, 500, 300, 250, columns, rows);
    let idx = Pattern::index(1, 2, rows);
    assert_eq!(p.data()[idx], 600);
}

#[test]
fn intensity_below_cutoff_is_zero() {
    let p = Pattern::new(&flat_samples(4, 400), 500, 300, 250, 2, 2);
    assert!(p.data().iter().all(|&v| v == 0));
}

#[test]
fn intensity_at_cutoff_is_zero() {
    let p = Pattern::new(&flat_samples(4, 500), 500, 300, 250, 2, 2);
    assert!(p.data().iter().all(|&v| v == 0));
}

#[test]
fn intensity_clamps_at_one() {
    let p = Pattern::new(&flat_samples(4, 1800), 500, 300, 250, 2, 2);
    assert!(p.data().iter().all(|&v| v == 1000));
}

#[test]
fn envelope_is_triangular_over_the_lifetime() {
    let mut p = Pattern::new(&flat_samples(4, 600), 500, 300, 250, 2, 2);
    assert_eq!(p.coef(), 0, "envelope starts at 0");
    let mut previous = 0u32;
    for _ in 0..125 {
        p.tick();
        let c = p.coef();
        assert!(c >= previous, "envelope must rise over the first half");
        previous = c;
    }
    assert_eq!(p.coef(), 1000, "envelope peaks at half the lifetime");
    for _ in 0..125 {
        p.tick();
        let c = p.coef();
        assert!(c <= previous, "envelope must fall over the second half");
        previous = c;
    }
    assert_eq!(p.coef(), 0, "envelope returns to 0 at the lifetime");
}

#[test]
fn envelope_has_exact_intermediate_value() {
    let mut p = Pattern::new(&flat_samples(4, 600), 500, 300, 250, 2, 2);
    for _ in 0..62 {
        p.tick();
    }
    // 2000 * 62 / 250 = 496.
    assert_eq!(p.coef(), 496);
}

#[test]
fn impact_weights_intensity_by_envelope() {
    let mut p = Pattern::new(&flat_samples(4, 600), 500, 300, 250, 2, 2);
    // Intensity 0.4 everywhere; after 125 ticks the envelope is 1.
    for _ in 0..125 {
        p.tick();
    }
    assert_eq!(p.impact(0), 400);
    // One tick later: coefficient 2000 - 2000 * 126 / 250 = 992,
    // so the impact is 400 * 992 / 1000 = 396.
    p.tick();
    assert_eq!(p.impact(0), 396);
}

#[test]
fn blend_sums_and_clamps_once() {
    let mut a = Pattern::new(&flat_samples(4, 1800), 500, 300, 250, 2, 2);
    let mut b = Pattern::new(&flat_samples(4, 1800), 500, 300, 250, 2, 2);
    for _ in 0..125 {
        a.tick();
        b.tick();
    }
    // Each contributes 1.0 at full envelope; the sum 2.0 clamps to 1.0.
    let blended = Pattern::sum(&vec![a, b], 4);
    assert_eq!(blended, vec![1000, 1000, 1000, 1000]);
}
