//! The aurora effect driver: owns the bounded pattern collection, the color
//! gradient and the density controller, and runs one spawn/age/blend/render/
//! retire cycle per tick. The periodic timer, the random draws, the raw noise
//! samples and the LED transport live outside; each tick is handed the noise
//! samples and random draws a spawn would use, and returns the frame of
//! colors to write out in physical strip order.

use vstd::prelude::*;
use crate::color::{Color, ColorGradient, Rgb, lookup_spec};
use crate::cooldown::CooldownValue;
use crate::pattern::{Pattern, agg_spec, clamp_unit_spec, coef_spec, data_at_spec};

verus! {

/// Most patterns that may ever be active at once.
pub const PATTERNS_MAX: usize = 9;

/// Least value of the density target.
pub const PATTERNS_MIN: usize = 2;

/// Density target at construction.
pub const PATTERNS_INIT: usize = 6;

/// Ticks between two accepted density changes.
pub const PATTERNS_COOLDOWNL: u64 = 1;

/// A directional gesture event.
#[derive(Clone, Copy, PartialEq, Eq, Structural, Debug)]
pub enum Direction {
    Up,
    Down,
}

/// The random draws and fresh noise samples one spawn would consume: the
/// sample grid (indexed by `column * rows + row`, already phase-shifted by
/// the spawn tick), the cutoff and shift draws, and the lifetime draw.
/// All scalars in milli-units.
pub struct SpawnSeed {
    pub samples: Vec<i32>,
    pub cutoff: u32,
    pub shift: u32,
    pub lifetime: usize,
}

impl SpawnSeed {
    /// The ranges the spawn policy draws from: cutoff uniform in
    /// [0.5, 0.55], shift uniform in [0.1, 0.8], lifetime 250 +- 75 ticks,
    /// and one sample per cell.
    pub open spec fn wf(self, n: int) -> bool {
        &&& self.samples@.len() == n
        &&& 500 <= self.cutoff <= 550
        &&& 100 <= self.shift <= 800
        &&& 175 <= self.lifetime <= 325
    }
}

/// Successor of a wrapping tick counter.
pub open spec fn wrap_inc_spec(t: u64) -> u64 {
    if t == u64::MAX {
        0
    } else {
        (t + 1) as u64
    }
}

/// Difference `a - b` of two wrapping tick counts, modulo the counter range.
pub open spec fn wrap_diff_spec(a: u64, b: u64) -> u64 {
    if a >= b {
        (a - b) as u64
    } else {
        (a + (u64::MAX - b) + 1) as u64
    }
}

/// Ticks that must pass between spawns at a given density target: a higher
/// target also shortens the inter-spawn cooldown.
pub open spec fn spawn_cooldown_spec(density: int) -> int {
    100 - density * 9
}

/// A pattern is still active when its age fits inside its lifetime.
pub open spec fn keeps(p: Pattern) -> bool {
    p.t <= p.lifetime
}

/// A pattern will still be active after aging one more tick.
pub open spec fn keeps_next(p: Pattern) -> bool {
    p.t + 1 <= p.lifetime
}

/// The subsequence of patterns still inside their lifetime, in order.
pub open spec fn retire_spec(s: Seq<Pattern>) -> Seq<Pattern>
    decreases s.len(),
{
    if s.len() == 0 {
        s
    } else if keeps(s.last()) {
        retire_spec(s.drop_last()).push(s.last())
    } else {
        retire_spec(s.drop_last())
    }
}

/// The subsequence of patterns that will survive one more tick, in order.
pub open spec fn kept_next_spec(s: Seq<Pattern>) -> Seq<Pattern>
    decreases s.len(),
{
    if s.len() == 0 {
        s
    } else if keeps_next(s.last()) {
        kept_next_spec(s.drop_last()).push(s.last())
    } else {
        kept_next_spec(s.drop_last())
    }
}

/// `q` is `p` one tick later: same intensities, same lifetime, age advanced.
pub open spec fn is_aged_of(q: Pattern, p: Pattern) -> bool {
    &&& q.data@ == p.data@
    &&& q.lifetime == p.lifetime
    &&& q.t == p.t + 1
}

/// Every element of `after` is the matching element of `before`, aged one
/// tick.
pub open spec fn is_advance_of(after: Seq<Pattern>, before: Seq<Pattern>) -> bool {
    &&& after.len() == before.len()
    &&& forall|i: int| 0 <= i < after.len() ==> is_aged_of(#[trigger] after[i], before[i])
}

/// `p` is the pattern a spawn from `seed` creates, already aged by the tick
/// it was born in: intensities thresholded from the seed's samples and laid
/// out in serpentine order, lifetime from the seed, age one.
pub open spec fn is_spawned_aged(p: Pattern, seed: SpawnSeed, rows: int, n: int) -> bool {
    &&& p.t == 1
    &&& p.lifetime == seed.lifetime
    &&& p.data@.len() == n
    &&& forall|k: int|
        0 <= k < n ==> p.data@[k] == data_at_spec(
            seed.samples@,
            k,
            rows,
            seed.cutoff as int,
            seed.shift as int,
        )
}

/// Contribution at strip index `i` of pattern `p` one tick older than it is
/// now.
pub open spec fn aged_impact_spec(p: Pattern, i: int) -> int {
    if 0 <= i < p.data@.len() {
        p.data@[i] * coef_spec(p.t + 1, p.lifetime as int) / 1000
    } else {
        0
    }
}

/// Aggregate contribution at strip index `i` of all of `pats`, each one tick
/// older than it is now.
pub open spec fn agg_aged_spec(pats: Seq<Pattern>, i: int) -> int
    decreases pats.len(),
{
    if pats.len() == 0 {
        0
    } else {
        agg_aged_spec(pats.drop_last(), i) + aged_impact_spec(pats.last(), i)
    }
}

/// Contribution at strip index `i` of a pattern freshly spawned from `seed`,
/// on the tick it was born (age one).
pub open spec fn spawn_impact_spec(seed: SpawnSeed, rows: int, i: int) -> int {
    data_at_spec(seed.samples@, i, rows, seed.cutoff as int, seed.shift as int) * coef_spec(
        1,
        seed.lifetime as int,
    ) / 1000
}

/// The fixed aurora palette as a stop table: black up to a tenth, then deep
/// blue, aurora green and violet-blue, ending in violet just past the top
/// of the unit range.
pub open spec fn aurora_stops() -> Seq<Color> {
    seq![
        Color { position: 0, rgb: Rgb { r: 0, g: 0, b: 0 } },
        Color { position: 100, rgb: Rgb { r: 0, g: 0, b: 0 } },
        Color { position: 250, rgb: Rgb { r: 10, g: 30, b: 60 } },
        Color { position: 500, rgb: Rgb { r: 2, g: 237, b: 80 } },
        Color { position: 750, rgb: Rgb { r: 108, g: 134, b: 206 } },
        Color { position: 1010, rgb: Rgb { r: 70, g: 30, b: 100 } },
    ]
}

/// The aurora effect driver.
pub struct NorthenLight {
    /// Brightness-to-color table.
    pub colormap: ColorGradient,
    /// The bounded collection of active patterns.
    pub patterns: Vec<Pattern>,
    /// Rate-limited target for how many patterns may coexist.
    pub curr_n_patterns: CooldownValue,
    /// Wrapping tick counter; only differences of it are ever used.
    pub t: u64,
    /// Tick of the most recent spawn.
    pub last_spawn: u64,
    /// Grid columns.
    pub columns: usize,
    /// Grid rows.
    pub rows: usize,
    /// Total cells, `columns * rows`.
    pub n: usize,
}

impl NorthenLight {
    /// Structural invariant: consistent geometry, a usable gradient, the
    /// density controller on its fixed bounds, and at most `PATTERNS_MAX`
    /// active patterns, each well formed, cell-complete and within its
    /// lifetime.
    pub open spec fn wf(self) -> bool {
        &&& 1 <= self.columns
        &&& 1 <= self.rows
        &&& self.n == self.columns * self.rows
        &&& self.patterns@.len() <= PATTERNS_MAX
        &&& forall|i: int|
            0 <= i < self.patterns@.len() ==> (#[trigger] self.patterns@[i]).wf()
                && self.patterns@[i].data@.len() == self.n && keeps(self.patterns@[i])
        &&& self.colormap.wf()
        &&& self.colormap.colors@.len() >= 1
        &&& self.curr_n_patterns.wf()
        &&& self.curr_n_patterns.min == PATTERNS_MIN
        &&& self.curr_n_patterns.max == PATTERNS_MAX
        &&& self.curr_n_patterns.cooldown == PATTERNS_COOLDOWNL
    }

    /// The spawn gate: capacity left, below the density target, and past the
    /// density-dependent cooldown since the last spawn.
    pub open spec fn should_spawn(self) -> bool {
        &&& self.patterns@.len() < PATTERNS_MAX
        &&& (self.patterns@.len() as int) < self.curr_n_patterns.current
        &&& wrap_diff_spec(self.t, self.last_spawn) > spawn_cooldown_spec(
            self.curr_n_patterns.current as int,
        )
    }

    pub fn new(columns: usize, rows: usize) -> (r: Self)
        requires
            1 <= columns,
            1 <= rows,
            columns * rows <= usize::MAX,
        ensures
            r.wf(),
            r.columns == columns,
            r.rows == rows,
            r.n == columns * rows,
            r.patterns@.len() == 0,
            r.t == 0,
            r.curr_n_patterns.current == PATTERNS_INIT,
            r.curr_n_patterns.ready(),
            wrap_diff_spec(r.t, r.last_spawn) == 1000,
            r.colormap.colors@ == aurora_stops(),
    {
        let colormap = Self::get_colormap();
        let patterns: Vec<Pattern> = Vec::new();
        let curr_n_patterns = CooldownValue::new(
            PATTERNS_INIT,
            PATTERNS_MIN,
            PATTERNS_MAX,
            PATTERNS_COOLDOWNL,
        );
        NorthenLight {
            colormap,
            patterns,
            curr_n_patterns,
            t: 0,
            last_spawn: u64::MAX - 999,
            columns,
            rows,
            n: columns * rows,
        }
    }

    /// The fixed aurora palette: black below a tenth, deep blue, aurora
    /// green, pale violet-blue, violet past the top of the unit range.
    pub fn get_colormap() -> (r: ColorGradient)
        ensures
            r.wf(),
            r.colors@ == aurora_stops(),
    {
        let mut colormap = ColorGradient::new();
        colormap.add_color(Color::new(0, Rgb::new(0, 0, 0)));
        colormap.add_color(Color::new(100, Rgb::new(0, 0, 0)));
        colormap.add_color(Color::new(250, Rgb::new(10, 30, 60)));
        colormap.add_color(Color::new(500, Rgb::new(2, 237, 80)));
        colormap.add_color(Color::new(750, Rgb::new(108, 134, 206)));
        colormap.add_color(Color::new(1010, Rgb::new(70, 30, 100)));
        proof {
            assert(colormap.colors@ =~= aurora_stops());
        }
        colormap
    }

    /// Forward a gesture to the density controller; nothing else changes.
    pub fn on_direction(&mut self, direction: Direction)
        ensures
            final(self).curr_n_patterns == (match direction {
                Direction::Up => old(self).curr_n_patterns.up_spec(),
                Direction::Down => old(self).curr_n_patterns.down_spec(),
            }),
            final(self).patterns == old(self).patterns,
            final(self).colormap == old(self).colormap,
            final(self).t == old(self).t,
            final(self).last_spawn == old(self).last_spawn,
            final(self).columns == old(self).columns,
            final(self).rows == old(self).rows,
            final(self).n == old(self).n,
            old(self).wf() ==> final(self).wf(),
    {
        match direction {
            Direction::Up => {
                self.curr_n_patterns.up();
            },
            Direction::Down => {
                self.curr_n_patterns.down();
            },
        }
    }

    /// When `should_spawn` holds, threshold the seed's samples into a fresh
    /// pattern, append it and remember the spawn tick; otherwise change
    /// nothing.
    fn spawn_patterns(&mut self, seed: &SpawnSeed)
        requires
            old(self).wf(),
            seed.wf(old(self).n as int),
        ensures
            final(self).wf(),
            final(self).colormap == old(self).colormap,
            final(self).curr_n_patterns == old(self).curr_n_patterns,
            final(self).t == old(self).t,
            final(self).columns == old(self).columns,
            final(self).rows == old(self).rows,
            final(self).n == old(self).n,
            old(self).should_spawn() ==> {
                &&& final(self).patterns@.len() == old(self).patterns@.len() + 1
                &&& final(self).patterns@.drop_last() =~= old(self).patterns@
                &&& final(self).patterns@.last().t == 0
                &&& final(self).patterns@.last().lifetime == seed.lifetime
                &&& final(self).patterns@.last().wf()
                &&& final(self).patterns@.last().data@.len() == old(self).n
                &&& forall|k: int|
                    0 <= k < old(self).n ==> final(self).patterns@.last().data@[k] == data_at_spec(
                        seed.samples@,
                        k,
                        old(self).rows as int,
                        seed.cutoff as int,
                        seed.shift as int,
                    )
                &&& final(self).last_spawn == old(self).t
            },
            !old(self).should_spawn() ==> final(self).patterns@ == old(self).patterns@
                && final(self).last_spawn == old(self).last_spawn,
    {
        let len = self.patterns.len();
        let density = self.curr_n_patterns.value();
        let elapsed = wrap_diff(self.t, self.last_spawn);
        let cooldown: u64 = 100 - (density as u64) * 9;
        if len < PATTERNS_MAX && len < density && elapsed > cooldown {
            let pattern = Pattern::new(
                &seed.samples,
                seed.cutoff,
                seed.shift,
                seed.lifetime,
                self.columns,
                self.rows,
            );
            self.patterns.push(pattern);
            self.last_spawn = self.t;
            proof {
                assert(final(self).patterns@.drop_last() =~= old(self).patterns@);
            }
        }
    }

    /// Age every active pattern by one tick.
    fn process_patterns(&mut self)
        requires
            old(self).wf(),
        ensures
            is_advance_of(final(self).patterns@, old(self).patterns@),
            final(self).colormap == old(self).colormap,
            final(self).curr_n_patterns == old(self).curr_n_patterns,
            final(self).t == old(self).t,
            final(self).last_spawn == old(self).last_spawn,
            final(self).columns == old(self).columns,
            final(self).rows == old(self).rows,
            final(self).n == old(self).n,
    {
        let len = self.patterns.len();
        let mut i: usize = 0;
        while i < len
            invariant
                i <= len,
                self.patterns@.len() == len,
                forall|j: int|
                    i <= j < len ==> #[trigger] self.patterns@[j] == old(self).patterns@[j]
                        && self.patterns@[j].wf() && keeps(self.patterns@[j]),
                forall|j: int|
                    0 <= j < i ==> is_aged_of(#[trigger] self.patterns@[j], old(self).patterns@[j]),
                self.colormap == old(self).colormap,
                self.curr_n_patterns == old(self).curr_n_patterns,
                self.t == old(self).t,
                self.last_spawn == old(self).last_spawn,
                self.columns == old(self).columns,
                self.rows == old(self).rows,
                self.n == old(self).n,
            decreases len - i,
        {
            let pattern = &mut self.patterns[i];
            pattern.tick();
            i = i + 1;
        }
    }

    /// Drop every pattern that has outlived its lifetime, keeping the
    /// survivors in order.
    fn remove_obsolete_patterns(&mut self)
        ensures
            final(self).patterns@ == retire_spec(old(self).patterns@),
            final(self).colormap == old(self).colormap,
            final(self).curr_n_patterns == old(self).curr_n_patterns,
            final(self).t == old(self).t,
            final(self).last_spawn == old(self).last_spawn,
            final(self).columns == old(self).columns,
            final(self).rows == old(self).rows,
            final(self).n == old(self).n,
    {
        let ghost orig = self.patterns@;
        let mut i: usize = 0;
        let ghost mut processed: int = 0;
        proof {
            assert(orig.take(0) =~= Seq::<Pattern>::empty());
            assert(self.patterns@ =~= retire_spec(orig.take(0)) + orig.skip(0));
        }
        while i < self.patterns.len()
            invariant
                0 <= processed <= orig.len(),
                self.patterns@ =~= retire_spec(orig.take(processed)) + orig.skip(processed),
                i == retire_spec(orig.take(processed)).len(),
                self.colormap == old(self).colormap,
                self.curr_n_patterns == old(self).curr_n_patterns,
                self.t == old(self).t,
                self.last_spawn == old(self).last_spawn,
                self.columns == old(self).columns,
                self.rows == old(self).rows,
                self.n == old(self).n,
            decreases orig.len() - processed,
        {
            proof {
                assert(orig.skip(processed)[0] == orig[processed]);
                assert(self.patterns@[i as int] == orig[processed]);
                assert(orig.take(processed + 1).drop_last() =~= orig.take(processed));
                assert(orig.take(processed + 1).last() == orig[processed]);
            }
            let keep_it = self.patterns[i].t <= self.patterns[i].lifetime;
            if keep_it {
                i = i + 1;
            } else {
                self.patterns.remove(i);
            }
            proof {
                processed = processed + 1;
                assert(self.patterns@ =~= retire_spec(orig.take(processed)) + orig.skip(processed));
            }
        }
        proof {
            assert(orig.take(orig.len() as int) =~= orig);
            assert(orig.skip(orig.len() as int) =~= Seq::<Pattern>::empty());
            assert(self.patterns@ =~= retire_spec(orig));
        }
    }

    /// One full tick: decide the spawn, age every pattern, blend all
    /// contributions into a clamped per-cell brightness, map it through the
    /// gradient into the returned frame (indexed by physical strip index),
    /// retire expired patterns, advance the density controller's cooldown
    /// and the tick counter.
    pub fn tick(&mut self, seed: &SpawnSeed) -> (frame: Vec<Rgb>)
        requires
            old(self).wf(),
            seed.wf(old(self).n as int),
        ensures
            final(self).wf(),
            final(self).colormap == old(self).colormap,
            final(self).columns == old(self).columns,
            final(self).rows == old(self).rows,
            final(self).n == old(self).n,
            final(self).curr_n_patterns == old(self).curr_n_patterns.tick_spec(),
            final(self).t == wrap_inc_spec(old(self).t),
            final(self).last_spawn == (if old(self).should_spawn() {
                old(self).t
            } else {
                old(self).last_spawn
            }),
            final(self).patterns@.len() == kept_next_spec(old(self).patterns@).len() + (
            if old(self).should_spawn() {
                1int
            } else {
                0int
            }),
            forall|j: int|
                0 <= j < kept_next_spec(old(self).patterns@).len() ==> is_aged_of(
                    #[trigger] final(self).patterns@[j],
                    kept_next_spec(old(self).patterns@)[j],
                ),
            old(self).should_spawn() ==> is_spawned_aged(
                final(self).patterns@.last(),
                *seed,
                old(self).rows as int,
                old(self).n as int,
            ),
            forall|j: int|
                0 <= j < final(self).patterns@.len() ==> keeps(#[trigger] final(self).patterns@[j]),
            final(self).patterns@.len() <= PATTERNS_MAX,
            old(self).patterns@.len() <= old(self).curr_n_patterns.current
                ==> final(self).patterns@.len() <= old(self).curr_n_patterns.current,
            frame@.len() == old(self).n,
            forall|i: int|
                0 <= i < old(self).n ==> frame@[i] == lookup_spec(
                    old(self).colormap.colors@,
                    clamp_unit_spec(
                        agg_aged_spec(old(self).patterns@, i) + (if old(self).should_spawn() {
                            spawn_impact_spec(*seed, old(self).rows as int, i)
                        } else {
                            0int
                        }),
                    ),
                ),
    {
        let ghost pre = *self;
        self.spawn_patterns(seed);
        let ghost spawned = self.patterns@;
        self.process_patterns();
        let ghost mid = self.patterns@;
        proof {
            lemma_agg_advance(mid, spawned);
            if pre.should_spawn() {
                assert(spawned.drop_last() =~= pre.patterns@);
                assert forall|i: int| 0 <= i < pre.n implies agg_spec(mid, i) == agg_aged_spec(
                    pre.patterns@,
                    i,
                ) + spawn_impact_spec(*seed, pre.rows as int, i) by {
                    assert(agg_aged_spec(spawned, i) == agg_aged_spec(spawned.drop_last(), i)
                        + aged_impact_spec(spawned.last(), i));
                    assert(aged_impact_spec(spawned.last(), i) == spawn_impact_spec(
                        *seed,
                        pre.rows as int,
                        i,
                    ));
                }
            } else {
                assert(spawned == pre.patterns@);
            }
        }
        proof {
            assert forall|j: int| 0 <= j < mid.len() implies (#[trigger] mid[j]).wf()
                && mid[j].data@.len() == pre.n by {
                assert(is_aged_of(mid[j], spawned[j]));
            }
        }
        let temperatures = Pattern::sum(&self.patterns, self.n);
        let mut frame: Vec<Rgb> = Vec::new();
        let mut i: usize = 0;
        while i < self.n
            invariant
                i <= self.n,
                frame@.len() == i,
                temperatures@.len() == self.n,
                self.colormap == pre.colormap,
                pre.colormap.wf(),
                pre.colormap.colors@.len() >= 1,
                forall|k: int|
                    0 <= k < self.n ==> #[trigger] temperatures@[k] == clamp_unit_spec(
                        agg_spec(mid, k),
                    ),
                forall|k: int|
                    0 <= k < i ==> #[trigger] frame@[k] == lookup_spec(
                        pre.colormap.colors@,
                        temperatures@[k] as int,
                    ),
            decreases self.n - i,
        {
            let color = self.colormap.get(temperatures[i]);
            frame.push(color);
            i = i + 1;
        }
        self.remove_obsolete_patterns();
        proof {
            lemma_advance_retire(mid, spawned);
            lemma_retire_len(mid);
            lemma_retire_keeps(mid);
            lemma_retire_all(
                mid,
                |p: Pattern| p.wf() && p.data@.len() == pre.n,
            );
            if pre.should_spawn() {
                assert(spawned.drop_last() =~= pre.patterns@);
                assert(keeps_next(spawned.last()));
                assert(kept_next_spec(spawned) == kept_next_spec(pre.patterns@).push(
                    spawned.last(),
                ));
            }
        }
        self.curr_n_patterns.tick();
        self.t = wrap_inc(self.t);
        frame
    }

    /// How many patterns are active now.
    pub fn n_patterns(&self) -> (r: usize)
        ensures
            r == self.patterns@.len(),
    {
        self.patterns.len()
    }

    /// The density controller's current target.
    pub fn density(&self) -> (r: usize)
        ensures
            r == self.curr_n_patterns.current,
    {
        self.curr_n_patterns.value()
    }
}

/// Successor of the wrapping tick counter.
fn wrap_inc(t: u64) -> (r: u64)
    ensures
        r == wrap_inc_spec(t),
{
    if t == u64::MAX {
        0
    } else {
        t + 1
    }
}

/// Wrapping difference of two tick counts.
fn wrap_diff(a: u64, b: u64) -> (r: u64)
    ensures
        r == wrap_diff_spec(a, b),
{
    if a >= b {
        a - b
    } else {
        a + (u64::MAX - b) + 1
    }
}

/// Aging every pattern turns the aggregate of the aged sequence into the
/// aged aggregate of the original sequence.
proof fn lemma_agg_advance(after: Seq<Pattern>, before: Seq<Pattern>)
    requires
        is_advance_of(after, before),
    ensures
        forall|i: int| agg_spec(after, i) == agg_aged_spec(before, i),
    decreases after.len(),
{
    if after.len() == 0 {
    } else {
        assert(is_advance_of(after.drop_last(), before.drop_last()));
        lemma_agg_advance(after.drop_last(), before.drop_last());
        assert forall|i: int| agg_spec(after, i) == agg_aged_spec(before, i) by {
            assert(is_aged_of(after.last(), before.last()));
            assert(after.last().impact_spec(i) == aged_impact_spec(before.last(), i));
            assert(agg_spec(after.drop_last(), i) == agg_aged_spec(before.drop_last(), i));
            assert(agg_spec(after, i) == agg_spec(after.drop_last(), i)
                + after.last().impact_spec(i));
            assert(agg_aged_spec(before, i) == agg_aged_spec(before.drop_last(), i)
                + aged_impact_spec(before.last(), i));
        }
    }
}

/// Retiring after aging keeps exactly the aged copies of the patterns whose
/// next age still fits their lifetime, in order.
proof fn lemma_advance_retire(after: Seq<Pattern>, before: Seq<Pattern>)
    requires
        is_advance_of(after, before),
    ensures
        retire_spec(after).len() == kept_next_spec(before).len(),
        forall|j: int|
            0 <= j < retire_spec(after).len() ==> is_aged_of(
                #[trigger] retire_spec(after)[j],
                kept_next_spec(before)[j],
            ),
    decreases after.len(),
{
    if after.len() == 0 {
    } else {
        assert(is_advance_of(after.drop_last(), before.drop_last()));
        lemma_advance_retire(after.drop_last(), before.drop_last());
        assert(is_aged_of(after.last(), before.last()));
        assert(keeps(after.last()) <==> keeps_next(before.last()));
    }
}

/// Retiring never grows the collection.
proof fn lemma_retire_len(s: Seq<Pattern>)
    ensures
        retire_spec(s).len() <= s.len(),
    decreases s.len(),
{
    if s.len() == 0 {
    } else {
        lemma_retire_len(s.drop_last());
    }
}

/// Every pattern that survives retirement is inside its lifetime.
proof fn lemma_retire_keeps(s: Seq<Pattern>)
    ensures
        forall|j: int| 0 <= j < retire_spec(s).len() ==> keeps(#[trigger] retire_spec(s)[j]),
    decreases s.len(),
{
    lemma_retire_all_keep(s, |p: Pattern| true);
}

/// Any property shared by every pattern also holds of every survivor of
/// retirement.
proof fn lemma_retire_all(s: Seq<Pattern>, q: spec_fn(Pattern) -> bool)
    requires
        forall|i: int| 0 <= i < s.len() ==> q(#[trigger] s[i]),
    ensures
        forall|j: int| 0 <= j < retire_spec(s).len() ==> q(#[trigger] retire_spec(s)[j]),
    decreases s.len(),
{
    lemma_retire_all_keep(s, q);
}

/// Combined induction: every survivor of retirement is inside its lifetime
/// and inherits any property shared by the whole collection.
proof fn lemma_retire_all_keep(s: Seq<Pattern>, q: spec_fn(Pattern) -> bool)
    requires
        forall|i: int| 0 <= i < s.len() ==> q(#[trigger] s[i]),
    ensures
        forall|j: int|
            0 <= j < retire_spec(s).len() ==> q(#[trigger] retire_spec(s)[j]) && keeps(
                retire_spec(s)[j],
            ),
    decreases s.len(),
{
    if s.len() == 0 {
    } else {
        assert(forall|i: int| 0 <= i < s.drop_last().len() ==> q(#[trigger] s.drop_last()[i]));
        lemma_retire_all_keep(s.drop_last(), q);
        let base = retire_spec(s.drop_last());
        if keeps(s.last()) {
            assert(retire_spec(s) == base.push(s.last()));
            assert forall|j: int| 0 <= j < retire_spec(s).len() implies q(
                #[trigger] retire_spec(s)[j],
            ) && keeps(retire_spec(s)[j]) by {
                if j < base.len() {
                    assert(retire_spec(s)[j] == base[j]);
                } else {
                    assert(retire_spec(s)[j] == s.last());
                }
            }
        }
    }
}

} // verus!
