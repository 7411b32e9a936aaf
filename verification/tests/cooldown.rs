//! The rate-limited density controller: bounds under arbitrary command
//! mixes, and suppression of a second command inside the cooldown window.

use pleiades::cooldown::CooldownValue;

#[test]
fn value_never_leaves_bounds_under_command_storm() {
    let mut c = CooldownValue::new(6, 2, 9, 1);
    for step in 0..200 {
        if step % 3 == 0 {
            c.up();
        } else {
            c.down();
        }
        c.tick();
        assert!(c.value() >= 2);
        assert!(c.value() <= 9);
    }
}

#[test]
fn up_caps_at_max() {
    let mut c = CooldownValue::new(8, 2, 9, 1);
    for _ in 0..5 {
        c.up();
        c.tick();
    }
    assert_eq!(c.value(), 9);
}

#[test]
fn down_floors_at_min() {
    let mut c = CooldownValue::new(3, 2, 9, 1);
    for _ in 0..5 {
        c.down();
        c.tick();
    }
    assert_eq!(c.value(), 2);
}

#[test]
fn second_command_within_cooldown_is_ignored() {
    let mut c = CooldownValue::new(6, 2, 9, 1);
    c.up();
    c.up();
    assert_eq!(c.value(), 7, "only the first of two burst commands may count");
    c.down();
    assert_eq!(c.value(), 7, "a reversal inside the cooldown is ignored too");
    c.tick();
    c.down();
    assert_eq!(c.value(), 6);
}

#[test]
fn longer_cooldown_gates_commands_for_its_whole_window() {
    let mut c = CooldownValue::new(4, 2, 9, 3);
    c.up();
    assert_eq!(c.value(), 5);
    c.tick();
    c.up();
    assert_eq!(c.value(), 5);
    c.tick();
    c.up();
    assert_eq!(c.value(), 5);
    c.tick();
    c.up();
    assert_eq!(c.value(), 6);
}
