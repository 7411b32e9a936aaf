//! Gradient lookup: exact stop hits, clamping outside the table, and the
//! arithmetic-mean midpoint.

use pleiades::color::{Color, ColorGradient, Rgb};
use pleiades::northen_light::NorthenLight;

#[test]
fn lookup_at_stop_position_is_exact() {
    let colormap = NorthenLight::get_colormap();
    assert_eq!(colormap.get(0), Rgb::new(0, 0, 0));
    assert_eq!(colormap.get(250), Rgb::new(10, 30, 60));
    assert_eq!(colormap.get(500), Rgb::new(2, 237, 80));
    assert_eq!(colormap.get(750), Rgb::new(108, 134, 206));
    assert_eq!(colormap.get(1010), Rgb::new(70, 30, 100));
}

#[test]
fn lookup_below_first_stop_clamps_to_first_color() {
    let mut g = ColorGradient::new();
    g.add_color(Color::new(100, Rgb::new(9, 8, 7)));
    g.add_color(Color::new(300, Rgb::new(90, 80, 70)));
    assert_eq!(g.get(0), Rgb::new(9, 8, 7));
    assert_eq!(g.get(99), Rgb::new(9, 8, 7));
}

#[test]
fn lookup_above_last_stop_clamps_to_last_color() {
    let colormap = NorthenLight::get_colormap();
    assert_eq!(colormap.get(1011), Rgb::new(70, 30, 100));
    assert_eq!(colormap.get(60000), Rgb::new(70, 30, 100));
}

#[test]
fn lookup_midpoint_of_even_differences_is_the_mean() {
    let mut g = ColorGradient::new();
    g.add_color(Color::new(200, Rgb::new(10, 30, 60)));
    g.add_color(Color::new(400, Rgb::new(20, 40, 70)));
    assert_eq!(g.get(300), Rgb::new(15, 35, 65));
}

#[test]
fn lookup_midpoint_of_equal_channel_stops_is_that_channel() {
    let mut g = ColorGradient::new();
    g.add_color(Color::new(300, Rgb::new(50, 50, 50)));
    g.add_color(Color::new(500, Rgb::new(50, 50, 50)));
    assert_eq!(g.get(400), Rgb::new(50, 50, 50));
}

#[test]
fn lookup_interpolates_falling_channels_too() {
    let mut g = ColorGradient::new();
    g.add_color(Color::new(250, Rgb::new(10, 30, 60)));
    g.add_color(Color::new(500, Rgb::new(2, 237, 80)));
    assert_eq!(g.get(400), Rgb::new(6, 154, 72));
}
