//! End-to-end engine scenarios: bounded pattern count over a long run,
//! burst-suppressed density commands, and exact frames.

use pleiades::color::Rgb;
use pleiades::northen_light::{Direction, NorthenLight, SpawnSeed};

fn seed(n: usize, sample: i32) -> SpawnSeed {
    SpawnSeed { samples: vec![sample; n], cutoff: 500, shift: 300, lifetime: 250 }
}

#[test]
fn thousand_ticks_stay_under_density_and_cycle_patterns() {
    let mut engine = NorthenLight::new(4, 5);
    let n = 4 * 5;
    let mut spawned = 0u32;
    let mut retired = 0u32;
    let mut previous_len = engine.n_patterns();
    for _ in 0..1000 {
        let frame = engine.tick(&seed(n, 700));
        assert_eq!(frame.len(), n);
        let len = engine.n_patterns();
        assert!(len <= 6, "pattern count may never exceed the density target");
        if len > previous_len {
            spawned += 1;
        }
        if len < previous_len {
            retired += 1;
        }
        previous_len = len;
        assert_eq!(engine.density(), 6, "density never moves without commands");
    }
    assert!(spawned >= 1, "at least one spawn must occur in a long run");
    assert!(retired >= 1, "at least one retirement must occur in a long run");
}

#[test]
fn second_up_command_in_same_tick_is_suppressed() {
    let mut engine = NorthenLight::new(4, 5);
    assert_eq!(engine.density(), 6);
    engine.on_direction(Direction::Up);
    engine.on_direction(Direction::Up);
    assert_eq!(engine.density(), 7, "the burst may raise the target by at most one");
}

#[test]
fn down_commands_between_ticks_step_one_at_a_time() {
    let mut engine = NorthenLight::new(4, 5);
    let n = 4 * 5;
    engine.on_direction(Direction::Down);
    engine.on_direction(Direction::Down);
    assert_eq!(engine.density(), 5);
    let _ = engine.tick(&seed(n, 0));
    engine.on_direction(Direction::Down);
    assert_eq!(engine.density(), 4);
}

#[test]
fn first_frame_of_a_young_pattern_is_still_black() {
    let mut engine = NorthenLight::new(2, 2);
    // Sample 0.6: intensity (0.6 - 0.5) + 0.3 = 0.4 in every cell. On its
    // birth tick the envelope is 2000 * 1 / 250 = 8, so the brightness is
    // 0.4 * 0.008 = 0.003, deep inside the gradient's black foot.
    let frame = engine.tick(&seed(4, 600));
    assert_eq!(frame, vec![Rgb::new(0, 0, 0); 4]);
}

#[test]
fn frame_at_envelope_peak_matches_hand_computed_color() {
    let mut engine = NorthenLight::new(2, 2);
    // One pattern with intensity 0.4 everywhere; every later seed stays
    // below the cutoff and spawns only dark patterns that contribute 0.
    let _ = engine.tick(&seed(4, 600));
    for _ in 0..123 {
        let _ = engine.tick(&seed(4, 0));
    }
    // At age 125 of a 250-tick lifetime the envelope is exactly 1, so the
    // cell brightness is 0.4: between the 0.25 and 0.5 stops, which
    // interpolate to (6, 154, 72).
    let frame = engine.tick(&seed(4, 0));
    assert_eq!(frame, vec![Rgb::new(6, 154, 72); 4]);
}
