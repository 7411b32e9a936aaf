//! Rate-limited bounded integer controller: the target number of
//! simultaneously active patterns. A directional command moves the value by
//! at most one step, stays inside `[min, max]`, and is accepted at most once
//! per `cooldown` ticks; commands arriving earlier are silently ignored.

use vstd::prelude::*;

verus! {

/// Bounded integer that moves by at most one step per accepted command and
/// accepts at most one command per `cooldown` ticks.
pub struct CooldownValue {
    /// The bounded target value.
    pub current: usize,
    /// Lower bound for `current`.
    pub min: usize,
    /// Upper bound for `current`.
    pub max: usize,
    /// Minimum number of ticks between two accepted changes.
    pub cooldown: u64,
    /// Ticks elapsed since the last accepted change, saturated at `cooldown`.
    pub ticks_since_change: u64,
}

impl CooldownValue {
    /// Structural invariant: the value sits inside its bounds and the
    /// elapsed-tick counter never runs past the cooldown length.
    pub open spec fn wf(self) -> bool {
        &&& self.min <= self.current <= self.max
        &&& 1 <= self.cooldown
        &&& self.ticks_since_change <= self.cooldown
    }

    /// A change is accepted only once the full cooldown has elapsed.
    pub open spec fn ready(self) -> bool {
        self.ticks_since_change >= self.cooldown
    }

    /// One elapsed tick: the counter advances until it saturates at
    /// `cooldown`; the value itself never moves.
    pub open spec fn tick_spec(self) -> Self {
        if self.ticks_since_change < self.cooldown {
            Self { ticks_since_change: (self.ticks_since_change + 1) as u64, ..self }
        } else {
            self
        }
    }

    /// An upward command: accepted only when the cooldown has elapsed and the
    /// value is below its upper bound; otherwise a no-op.
    pub open spec fn up_spec(self) -> Self {
        if self.ready() && self.current < self.max {
            Self { current: (self.current + 1) as usize, ticks_since_change: 0, ..self }
        } else {
            self
        }
    }

    /// A downward command: accepted only when the cooldown has elapsed and the
    /// value is above its lower bound; otherwise a no-op.
    pub open spec fn down_spec(self) -> Self {
        if self.ready() && self.current > self.min {
            Self { current: (self.current - 1) as usize, ticks_since_change: 0, ..self }
        } else {
            self
        }
    }

    pub fn new(initial: usize, min: usize, max: usize, cooldown: u64) -> (r: Self)
        requires
            min <= initial <= max,
            1 <= cooldown,
        ensures
            r.wf(),
            r.current == initial,
            r.min == min,
            r.max == max,
            r.cooldown == cooldown,
            r.ready(),
    {
        Self { current: initial, min, max, cooldown, ticks_since_change: cooldown }
    }

    /// The current bounded target.
    pub fn value(&self) -> (r: usize)
        ensures
            r == self.current,
    {
        self.current
    }

    /// Advance the change-cooldown by one elapsed tick.
    pub fn tick(&mut self)
        ensures
            *final(self) == old(self).tick_spec(),
    {
        if self.ticks_since_change < self.cooldown {
            self.ticks_since_change = self.ticks_since_change + 1;
        }
    }

    /// Apply an upward command, rate-limited and capped at `max`.
    pub fn up(&mut self)
        ensures
            *final(self) == old(self).up_spec(),
    {
        if self.ticks_since_change >= self.cooldown && self.current < self.max {
            self.current = self.current + 1;
            self.ticks_since_change = 0;
        }
    }

    /// Apply a downward command, rate-limited and floored at `min`.
    pub fn down(&mut self)
        ensures
            *final(self) == old(self).down_spec(),
    {
        if self.ticks_since_change >= self.cooldown && self.current > self.min {
            self.current = self.current - 1;
            self.ticks_since_change = 0;
        }
    }

    /// The value never leaves `[min, max]`, whatever mix of ticks and
    /// directional commands is applied: every step preserves the invariant
    /// and moves the value by at most one.
    pub proof fn lemma_step_preserves_bounds(self)
        requires
            self.wf(),
        ensures
            self.tick_spec().wf(),
            self.up_spec().wf(),
            self.down_spec().wf(),
            self.tick_spec().current == self.current,
            self.current <= self.up_spec().current <= self.current + 1,
            self.current - 1 <= self.down_spec().current <= self.current,
    {
    }

    /// A command that was accepted (it moved the value) starts a fresh
    /// cooldown, so a second command arriving before any further tick is a
    /// complete no-op.
    pub proof fn lemma_rate_limit(self)
        requires
            self.wf(),
        ensures
            self.up_spec() != self ==> self.up_spec().up_spec() == self.up_spec()
                && self.up_spec().down_spec() == self.up_spec(),
            self.down_spec() != self ==> self.down_spec().down_spec() == self.down_spec()
                && self.down_spec().up_spec() == self.down_spec(),
    {
    }
}

} // verus!
