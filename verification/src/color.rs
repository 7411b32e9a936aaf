//! Scalar-to-color interpolation table: an ordered sequence of
//! (position, color) stops, looked up by linear interpolation of each
//! channel between the two bracketing stops, clamping outside the table.
//! Positions are fixed-point milli-units (1000 = 1.0).

use vstd::prelude::*;
use vstd::arithmetic::div_mod::{lemma_div_by_multiple, lemma_div_is_ordered};
use vstd::arithmetic::mul::lemma_mul_inequality;

verus! {

/// One color of the LED strip, a plain RGB triple.
#[derive(Clone, Copy, PartialEq, Eq, Structural, Debug)]
pub struct Rgb {
    pub r: u8,
    pub g: u8,
    pub b: u8,
}

impl Rgb {
    pub fn new(r: u8, g: u8, b: u8) -> (c: Self)
        ensures
            c == (Rgb { r, g, b }),
    {
        Rgb { r, g, b }
    }
}

/// One gradient stop: a color anchored at a position in milli-units.
#[derive(Clone, Copy, PartialEq, Eq, Structural, Debug)]
pub struct Color {
    /// Anchor position in milli-units; 1000 stands for 1.0.
    pub position: u32,
    pub rgb: Rgb,
}

impl Color {
    pub fn new(position: u32, rgb: Rgb) -> (c: Self)
        ensures
            c == (Color { position, rgb }),
    {
        Color { position, rgb }
    }
}

/// Linear interpolation of one channel: `c1` at the segment start moving
/// toward `c2`, `num/den` of the way in, rounded toward `c1`.
pub open spec fn lerp_channel_spec(c1: int, c2: int, num: int, den: int) -> int {
    if c2 >= c1 {
        c1 + (c2 - c1) * num / den
    } else {
        c1 - (c1 - c2) * num / den
    }
}

/// Channel-wise linear interpolation between two stops at position `x`.
pub open spec fn lerp_rgb_spec(a: Color, b: Color, x: int) -> Rgb {
    let num = x - a.position;
    let den = b.position - a.position;
    Rgb {
        r: lerp_channel_spec(a.rgb.r as int, b.rgb.r as int, num, den) as u8,
        g: lerp_channel_spec(a.rgb.g as int, b.rgb.g as int, num, den) as u8,
        b: lerp_channel_spec(a.rgb.b as int, b.rgb.b as int, num, den) as u8,
    }
}

/// Gradient lookup over a stop table: clamps below the first and above the
/// last stop, returns a stop's own color at its exact position, and
/// interpolates linearly inside a segment.
pub open spec fn lookup_spec(stops: Seq<Color>, x: int) -> Rgb
    decreases stops.len(),
{
    if stops.len() == 0 {
        Rgb { r: 0, g: 0, b: 0 }
    } else if x <= stops[0].position {
        stops[0].rgb
    } else if stops.len() == 1 {
        stops[0].rgb
    } else if x < stops[1].position {
        lerp_rgb_spec(stops[0], stops[1], x)
    } else {
        lookup_spec(stops.drop_first(), x)
    }
}

/// Stop positions are strictly increasing.
pub open spec fn stops_sorted(stops: Seq<Color>) -> bool {
    forall|i: int, j: int|
        0 <= i < j < stops.len() ==> (#[trigger] stops[i]).position < (#[trigger] stops[j]).position
}

/// Ordered stop table mapping a scalar brightness to an interpolated color.
pub struct ColorGradient {
    /// The stops, in strictly increasing position order.
    pub colors: Vec<Color>,
}

impl ColorGradient {
    /// Structural invariant: the stops are in strictly increasing position
    /// order, which construction demands of its caller.
    pub open spec fn wf(self) -> bool {
        stops_sorted(self.colors@)
    }

    pub fn new() -> (r: Self)
        ensures
            r.wf(),
            r.colors@.len() == 0,
    {
        ColorGradient { colors: Vec::new() }
    }

    /// Append a stop. Stops must be added in strictly increasing position
    /// order; that is this function's caller contract, not recomputed later.
    pub fn add_color(&mut self, color: Color)
        requires
            old(self).wf(),
            old(self).colors@.len() > 0 ==> old(self).colors@.last().position < color.position,
        ensures
            final(self).wf(),
            final(self).colors@ == old(self).colors@.push(color),
    {
        self.colors.push(color);
    }

    /// Interpolated color at brightness `x`: the exact stop color at a stop
    /// position, the nearest boundary color outside the table, and the
    /// channel-wise linear blend of the two bracketing stops elsewhere.
    pub fn get(&self, x: u32) -> (r: Rgb)
        requires
            self.wf(),
            self.colors@.len() >= 1,
        ensures
            r == lookup_spec(self.colors@, x as int),
    {
        let len = self.colors.len();
        if x <= self.colors[0].position {
            return self.colors[0].rgb;
        }
        proof {
            assert(self.colors@.skip(0) =~= self.colors@);
        }
        let mut i: usize = 0;
        while i + 1 < len
            invariant
                self.wf(),
                self.colors@.len() == len,
                1 <= len,
                i < len,
                x >= self.colors@[i as int].position,
                lookup_spec(self.colors@.skip(i as int), x as int) == lookup_spec(
                    self.colors@,
                    x as int,
                ),
            decreases len - i,
        {
            proof {
                assert(self.colors@.skip(i as int).drop_first() =~= self.colors@.skip(i as int + 1));
            }
            if x <= self.colors[i].position {
                return self.colors[i].rgb;
            }
            if x < self.colors[i + 1].position {
                let a = self.colors[i];
                let b = self.colors[i + 1];
                return Self::lerp(&a, &b, x);
            }
            i = i + 1;
        }
        self.colors[len - 1].rgb
    }

    /// Channel-wise linear interpolation between two bracketing stops.
    fn lerp(a: &Color, b: &Color, x: u32) -> (r: Rgb)
        requires
            a.position <= x <= b.position,
            a.position < b.position,
        ensures
            r == lerp_rgb_spec(*a, *b, x as int),
    {
        let num = x - a.position;
        let den = b.position - a.position;
        Rgb {
            r: Self::lerp_channel(a.rgb.r, b.rgb.r, num, den),
            g: Self::lerp_channel(a.rgb.g, b.rgb.g, num, den),
            b: Self::lerp_channel(a.rgb.b, b.rgb.b, num, den),
        }
    }

    /// Linear interpolation of one 8-bit channel.
    fn lerp_channel(c1: u8, c2: u8, num: u32, den: u32) -> (r: u8)
        requires
            num <= den,
            1 <= den,
        ensures
            r as int == lerp_channel_spec(c1 as int, c2 as int, num as int, den as int),
    {
        proof {
            lemma_lerp_channel_bounds(c1 as int, c2 as int, num as int, den as int);
            assert((c2 - c1) * num <= 255 * 0xffff_ffff) by (nonlinear_arith)
                requires
                    c2 - c1 <= 255,
                    num <= 0xffff_ffff,
                    0 <= num,
            ;
            assert((c1 - c2) * num <= 255 * 0xffff_ffff) by (nonlinear_arith)
                requires
                    c1 - c2 <= 255,
                    num <= 0xffff_ffff,
                    0 <= num,
            ;
        }
        if c2 >= c1 {
            let diff = (c2 - c1) as u64;
            let d = diff * (num as u64) / (den as u64);
            (c1 as u64 + d) as u8
        } else {
            let diff = (c1 - c2) as u64;
            let d = diff * (num as u64) / (den as u64);
            (c1 as u64 - d) as u8
        }
    }
}

/// The interpolated channel always lies between its two endpoint values, so
/// it stays inside the 8-bit range.
pub proof fn lemma_lerp_channel_bounds(c1: int, c2: int, num: int, den: int)
    requires
        0 <= num <= den,
        1 <= den,
    ensures
        c2 >= c1 ==> c1 <= lerp_channel_spec(c1, c2, num, den) <= c2,
        c2 < c1 ==> c2 <= lerp_channel_spec(c1, c2, num, den) <= c1,
{
    let diff = if c2 >= c1 {
        c2 - c1
    } else {
        c1 - c2
    };
    lemma_mul_inequality(num, den, diff);
    assert(diff * num == num * diff) by (nonlinear_arith);
    assert(diff * den == den * diff) by (nonlinear_arith);
    assert(0 <= diff * num) by (nonlinear_arith)
        requires
            0 <= diff,
            0 <= num,
    ;
    lemma_div_is_ordered(0, diff * num, den);
    lemma_div_by_multiple(0, den);
    lemma_div_is_ordered(diff * num, diff * den, den);
    lemma_div_by_multiple(diff, den);
}

/// Lookup at a stop's exact position returns that stop's color exactly.
pub proof fn lemma_lookup_at_stop(stops: Seq<Color>, x: int, i: int)
    requires
        stops_sorted(stops),
        0 <= i < stops.len(),
        x == stops[i].position,
    ensures
        lookup_spec(stops, x) == stops[i].rgb,
    decreases i,
{
    if i == 0 {
    } else {
        assert(stops.drop_first()[i - 1] == stops[i]);
        lemma_lookup_at_stop(stops.drop_first(), x, i - 1);
    }
}

/// Lookup below the first stop clamps to the first stop's color.
pub proof fn lemma_lookup_below(stops: Seq<Color>, x: int)
    requires
        stops.len() >= 1,
        x <= stops[0].position,
    ensures
        lookup_spec(stops, x) == stops[0].rgb,
{
}

/// Lookup above the last stop clamps to the last stop's color.
pub proof fn lemma_lookup_above(stops: Seq<Color>, x: int)
    requires
        stops_sorted(stops),
        stops.len() >= 1,
        x >= stops.last().position,
    ensures
        lookup_spec(stops, x) == stops.last().rgb,
    decreases stops.len(),
{
    if stops.len() == 1 {
    } else {
        assert(stops.drop_first().last() == stops.last());
        lemma_lookup_above(stops.drop_first(), x);
    }
}

/// Lookup strictly inside a segment interpolates between its two stops.
pub proof fn lemma_lookup_between(stops: Seq<Color>, x: int, i: int)
    requires
        stops_sorted(stops),
        0 <= i < stops.len() - 1,
        stops[i].position < x,
        x < stops[i + 1].position,
    ensures
        lookup_spec(stops, x) == lerp_rgb_spec(stops[i], stops[i + 1], x),
    decreases i,
{
    if i == 0 {
    } else {
        assert(stops.drop_first()[i - 1] == stops[i]);
        assert(stops.drop_first()[i] == stops[i + 1]);
        lemma_lookup_between(stops.drop_first(), x, i - 1);
    }
}

/// Between two stops that share the same color the gradient is constant:
/// in particular the midpoint of two equal-channel stops is that channel
/// value itself, its own arithmetic mean.
pub proof fn lemma_lookup_equal_stops(stops: Seq<Color>, x: int, i: int)
    requires
        stops_sorted(stops),
        0 <= i < stops.len() - 1,
        stops[i].rgb == stops[i + 1].rgb,
        stops[i].position <= x,
        x <= stops[i + 1].position,
    ensures
        lookup_spec(stops, x) == stops[i].rgb,
{
    if x == stops[i].position {
        lemma_lookup_at_stop(stops, x, i);
    } else if x == stops[i + 1].position {
        lemma_lookup_at_stop(stops, x, i + 1);
    } else {
        lemma_lookup_between(stops, x, i);
        let num = x - stops[i].position;
        let den = stops[i + 1].position - stops[i].position;
        assert(0 * den == 0);
        lemma_div_by_multiple(0, den);
        assert(lerp_channel_spec(stops[i].rgb.r as int, stops[i].rgb.r as int, num, den)
            == stops[i].rgb.r as int);
        assert(lerp_channel_spec(stops[i].rgb.g as int, stops[i].rgb.g as int, num, den)
            == stops[i].rgb.g as int);
        assert(lerp_channel_spec(stops[i].rgb.b as int, stops[i].rgb.b as int, num, den)
            == stops[i].rgb.b as int);
    }
}

} // verus!
