//! The oscillator that drives the cell scale: a bounded triangle wave
//! between two runtime-adjustable limits, stepped once per frame and
//! adjusted by four discrete key events.

use vstd::prelude::*;

verus! {

/// The oscillator's whole state: the current cell scale, the two limits
/// of the band, and the direction of travel.
#[derive(Clone, Copy, PartialEq, Eq, Structural, Debug)]
pub struct Oscillator {
    pub scale: u32,
    pub lower_limit: u32,
    pub upper_limit: u32,
    pub increasing: bool,
}

impl Oscillator {
    /// The limits are well formed: at least one cell, and a band that is
    /// not empty or inverted.
    pub open spec fn wf(self) -> bool {
        1 <= self.lower_limit && self.lower_limit < self.upper_limit
    }

    /// The scale lies between the two limits.
    pub open spec fn in_band(self) -> bool {
        self.lower_limit <= self.scale && self.scale <= self.upper_limit
    }
}

/// One step of the triangle wave: the direction is reconsidered against
/// the pre-step scale, then the scale moves one unit in the (possibly
/// new) direction.
pub open spec fn stepped(o: Oscillator) -> Oscillator
    recommends
        o.wf(),
{
    let increasing = if o.increasing && o.scale >= o.upper_limit {
        false
    } else if !o.increasing && o.scale <= o.lower_limit {
        true
    } else {
        o.increasing
    };
    let scale = if increasing {
        (o.scale + 1) as u32
    } else {
        (o.scale - 1) as u32
    };
    Oscillator { scale, lower_limit: o.lower_limit, upper_limit: o.upper_limit, increasing }
}

/// The state after `n` consecutive ticks.
pub open spec fn stepped_n(o: Oscillator, n: nat) -> Oscillator
    decreases n,
{
    if n == 0 {
        o
    } else {
        stepped(stepped_n(o, (n - 1) as nat))
    }
}

impl Oscillator {
    /// A fresh oscillator: the scale starts at the lower limit, moving up.
    pub fn new(lower_limit: u32, upper_limit: u32) -> (o: Oscillator)
        requires
            1 <= lower_limit,
            lower_limit < upper_limit,
        ensures
            o == (Oscillator { scale: lower_limit, lower_limit, upper_limit, increasing: true }),
            o.wf(),
            o.in_band(),
    {
        Oscillator { scale: lower_limit, lower_limit, upper_limit, increasing: true }
    }

    /// Advances the wave by one step and returns the new scale.
    ///
    /// The direction check uses the pre-step scale, so the scale reaches
    /// each limit exactly and turns around on the following tick.
    pub fn tick(&mut self) -> (scale: u32)
        requires
            old(self).wf(),
        ensures
            *final(self) == stepped(*old(self)),
            scale == final(self).scale,
            final(self).wf(),
    {
        if self.increasing && self.scale >= self.upper_limit {
            self.increasing = false;
        } else if !self.increasing && self.scale <= self.lower_limit {
            self.increasing = true;
        }
        if self.increasing {
            self.scale = self.scale + 1;
        } else {
            self.scale = self.scale - 1;
        }
        self.scale
    }

    /// Raises the upper limit by one. This is the one unconditional
    /// adjustment; the word size alone bounds it.
    pub fn increase_upper_limit(&mut self)
        requires
            old(self).wf(),
            old(self).upper_limit < u32::MAX,
        ensures
            *final(self) == (Oscillator { upper_limit: (old(self).upper_limit + 1) as u32, ..*old(
                self,
            ) }),
            final(self).wf(),
    {
        self.upper_limit = self.upper_limit + 1;
    }

    /// Lowers the upper limit by one, unless the result would touch or
    /// cross the lower limit; then the state is left unchanged.
    pub fn decrease_upper_limit(&mut self)
        requires
            old(self).wf(),
        ensures
            old(self).upper_limit - 1 <= old(self).lower_limit ==> *final(self) == *old(self),
            old(self).upper_limit - 1 > old(self).lower_limit ==> *final(self) == (Oscillator {
                upper_limit: (old(self).upper_limit - 1) as u32,
                ..*old(self)
            }),
            final(self).wf(),
    {
        if !(self.upper_limit - 1 <= self.lower_limit) {
            self.upper_limit = self.upper_limit - 1;
        }
    }

    /// Raises the lower limit by one, unless the result would touch or
    /// cross the upper limit; then the state is left unchanged.
    pub fn increase_lower_limit(&mut self)
        requires
            old(self).wf(),
        ensures
            old(self).lower_limit + 1 >= old(self).upper_limit ==> *final(self) == *old(self),
            old(self).lower_limit + 1 < old(self).upper_limit ==> *final(self) == (Oscillator {
                lower_limit: (old(self).lower_limit + 1) as u32,
                ..*old(self)
            }),
            final(self).wf(),
    {
        if !(self.lower_limit + 1 >= self.upper_limit) {
            self.lower_limit = self.lower_limit + 1;
        }
    }

    /// Lowers the lower limit by one, unless it already sits at the floor
    /// of one cell; then the state is left unchanged.
    pub fn decrease_lower_limit(&mut self)
        requires
            old(self).wf(),
        ensures
            old(self).lower_limit <= 1 ==> *final(self) == *old(self),
            old(self).lower_limit > 1 ==> *final(self) == (Oscillator {
                lower_limit: (old(self).lower_limit - 1) as u32,
                ..*old(self)
            }),
            final(self).wf(),
    {
        if !(self.lower_limit <= 1) {
            self.lower_limit = self.lower_limit - 1;
        }
    }
}

/// The length of one full cycle of the wave: up the band and back down.
pub open spec fn wave_period(o: Oscillator) -> nat
    recommends
        o.wf(),
{
    (2 * (o.upper_limit - o.lower_limit)) as nat
}

/// Ticking once is one step.
pub proof fn lemma_one_tick(o: Oscillator)
    ensures
        stepped_n(o, 1) == stepped(o),
{
    assert(stepped_n(o, 0) == o);
}

/// One tick keeps the scale between the limits.
pub proof fn lemma_tick_stays_in_band(o: Oscillator)
    requires
        o.wf(),
        o.in_band(),
    ensures
        stepped(o).in_band(),
{
}

/// Any number of ticks keeps the scale between the limits: the wave is
/// bounded.
pub proof fn lemma_wave_stays_in_band(o: Oscillator, n: nat)
    requires
        o.wf(),
        o.in_band(),
    ensures
        stepped_n(o, n).in_band(),
        stepped_n(o, n).wf(),
    decreases n,
{
    if n > 0 {
        lemma_wave_stays_in_band(o, (n - 1) as nat);
        lemma_tick_stays_in_band(stepped_n(o, (n - 1) as nat));
    }
}

/// Ticking `m + n` times is ticking `m` times, then `n` times.
pub proof fn lemma_stepped_n_adds(o: Oscillator, m: nat, n: nat)
    ensures
        stepped_n(o, m + n) == stepped_n(stepped_n(o, m), n),
    decreases n,
{
    if n > 0 {
        lemma_stepped_n_adds(o, m, (n - 1) as nat);
    }
}

/// While the wave is rising and has room, each tick adds exactly one:
/// after `k` ticks the scale has grown by `k` and the wave still rises.
pub proof fn lemma_rising_leg(o: Oscillator, k: nat)
    requires
        o.wf(),
        o.increasing,
        o.scale + k <= o.upper_limit,
    ensures
        stepped_n(o, k) == (Oscillator { scale: (o.scale + k) as u32, ..o }),
    decreases k,
{
    if k > 0 {
        lemma_rising_leg(o, (k - 1) as nat);
    }
}

/// While the wave is falling and has room, each tick removes exactly
/// one: after `k` ticks the scale has shrunk by `k` and the wave still
/// falls.
pub proof fn lemma_falling_leg(o: Oscillator, k: nat)
    requires
        o.wf(),
        !o.increasing,
        o.scale - k >= o.lower_limit,
    ensures
        stepped_n(o, k) == (Oscillator { scale: (o.scale - k) as u32, ..o }),
    decreases k,
{
    if k > 0 {
        lemma_falling_leg(o, (k - 1) as nat);
    }
}

/// Whatever the flag says, a scale that sits at the lower limit ticks
/// to the same next state: one step up, rising.
pub proof fn lemma_flag_at_lower_limit_irrelevant(o: Oscillator)
    requires
        o.wf(),
        o.scale == o.lower_limit,
    ensures
        stepped(o) == (Oscillator {
            scale: (o.lower_limit + 1) as u32,
            increasing: true,
            ..o
        }),
{
}

/// From the lower limit, falling, the wave returns to the same state
/// after exactly one period.
pub proof fn lemma_full_period(o: Oscillator)
    requires
        o.wf(),
        o.scale == o.lower_limit,
        !o.increasing,
    ensures
        stepped_n(o, wave_period(o)) == o,
{
    let d = (o.upper_limit - o.lower_limit) as nat;
    lemma_flag_at_lower_limit_irrelevant(o);
    lemma_one_tick(o);
    let bottom = stepped(o);
    lemma_rising_leg(bottom, (d - 1) as nat);
    lemma_stepped_n_adds(o, 1, (d - 1) as nat);
    let at_top = stepped_n(o, d);
    assert(at_top == (Oscillator { scale: o.upper_limit, increasing: true, ..o }));
    lemma_stepped_n_adds(o, d, 1);
    lemma_one_tick(at_top);
    let turning = stepped_n(o, d + 1);
    assert(turning == (Oscillator {
        scale: (o.upper_limit - 1) as u32,
        increasing: false,
        ..o
    }));
    lemma_falling_leg(turning, (d - 1) as nat);
    lemma_stepped_n_adds(o, d + 1, (d - 1) as nat);
    assert(d + 1 + (d - 1) == wave_period(o));
    assert(stepped_n(turning, (d - 1) as nat) == o);
}

/// The wave is periodic: what holds after `n` ticks holds again after
/// every further whole number of periods.
pub proof fn lemma_periodic(o: Oscillator, n: nat, rounds: nat)
    requires
        o.wf(),
        o.scale == o.lower_limit,
        !o.increasing,
    ensures
        stepped_n(o, n + rounds * wave_period(o)) == stepped_n(o, n),
    decreases rounds,
{
    let period = wave_period(o);
    if rounds > 0 {
        let prev = (rounds - 1) as nat;
        lemma_full_period(o);
        lemma_stepped_n_adds(o, period, n + prev * period);
        assert(n + rounds * period == period + (n + prev * period)) by (nonlinear_arith)
            requires
                rounds >= 1,
                prev == rounds - 1,
        ;
        lemma_periodic(o, n, prev);
    } else {
        assert(rounds * period == 0) by (nonlinear_arith)
            requires
                rounds == 0,
        ;
    }
}

/// The triangle wave visits every value of the band infinitely often,
/// and every value short of an end in both directions: however many
/// ticks have gone by, a later tick reaches `v` rising (for `v` above
/// the lower limit) and a later tick reaches `v` falling (for `v`
/// below the upper limit).
pub proof fn lemma_wave_visits_every_value(o: Oscillator, v: u32, bound: nat)
    requires
        o.wf(),
        o.scale == o.lower_limit,
        o.lower_limit <= v <= o.upper_limit,
    ensures
        o.lower_limit < v ==> exists|n: nat|
            n > bound && (#[trigger] stepped_n(o, n)).scale == v && stepped_n(o, n).increasing,
        v < o.upper_limit ==> exists|n: nat|
            n > bound && (#[trigger] stepped_n(o, n)).scale == v && !stepped_n(o, n).increasing,
{
    let c = Oscillator { increasing: false, ..o };
    let d = (o.upper_limit - o.lower_limit) as nat;
    let period = wave_period(c);
    assert(period == 2 * d);
    lemma_flag_at_lower_limit_irrelevant(o);
    lemma_flag_at_lower_limit_irrelevant(c);
    lemma_one_tick(o);
    lemma_one_tick(c);
    let bottom = stepped(c);
    let rounds = bound + 1;
    if o.lower_limit < v {
        let up = (v - o.lower_limit) as nat;
        lemma_rising_leg(bottom, (up - 1) as nat);
        lemma_stepped_n_adds(c, 1, (up - 1) as nat);
        assert(stepped_n(c, up).scale == v && stepped_n(c, up).increasing);
        let n = up + rounds * period;
        lemma_periodic(c, up, rounds);
        assert(n > bound) by (nonlinear_arith)
            requires
                n == up + rounds * period,
                rounds == bound + 1,
                period >= 2,
                up >= 1,
        ;
        lemma_stepped_n_adds(o, 1, (n - 1) as nat);
        lemma_stepped_n_adds(c, 1, (n - 1) as nat);
        assert(stepped_n(o, n) == stepped_n(c, n));
        assert(stepped_n(o, n).scale == v && stepped_n(o, n).increasing);
    }
    if v < o.upper_limit {
        let down = d + (o.upper_limit - v) as nat;
        lemma_rising_leg(bottom, (d - 1) as nat);
        lemma_stepped_n_adds(c, 1, (d - 1) as nat);
        let at_top = stepped_n(c, d);
        assert(at_top == (Oscillator { scale: c.upper_limit, increasing: true, ..c }));
        lemma_stepped_n_adds(c, d, 1);
        lemma_one_tick(at_top);
        let turning = stepped_n(c, d + 1);
        assert(turning == (Oscillator {
            scale: (c.upper_limit - 1) as u32,
            increasing: false,
            ..c
        }));
        lemma_falling_leg(turning, ((c.upper_limit - 1) - v) as nat);
        lemma_stepped_n_adds(c, d + 1, ((c.upper_limit - 1) - v) as nat);
        assert(stepped_n(c, down).scale == v && !stepped_n(c, down).increasing);
        let n = down + rounds * period;
        lemma_periodic(c, down, rounds);
        assert(n > bound) by (nonlinear_arith)
            requires
                n == down + rounds * period,
                rounds == bound + 1,
                period >= 2,
                down >= 1,
        ;
        lemma_stepped_n_adds(o, 1, (n - 1) as nat);
        lemma_stepped_n_adds(c, 1, (n - 1) as nat);
        assert(stepped_n(o, n) == stepped_n(c, n));
        assert(stepped_n(o, n).scale == v && !stepped_n(o, n).increasing);
    }
}

} // verus!
