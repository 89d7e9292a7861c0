use vstd::prelude::*;

verus! {

/// What the producer hands the main loop: an input event or a tick.
pub enum Event<I> {
    Input(I),
    Tick,
}

/// The producer's tick clock, in milliseconds of a monotonic clock.
#[derive(PartialEq, Eq, Structural, Clone, Copy, Debug)]
pub struct TickClock {
    pub tick_rate_ms: u64,
    pub last_tick_ms: u64,
}

/// The time since the last tick; a clock reading before it counts as none.
pub open spec fn elapsed(c: TickClock, now_ms: u64) -> int {
    if now_ms >= c.last_tick_ms {
        now_ms - c.last_tick_ms
    } else {
        0
    }
}

/// A tick is due once a whole interval has passed since the last one.
pub open spec fn tick_due(c: TickClock, now_ms: u64) -> bool {
    elapsed(c, now_ms) >= c.tick_rate_ms
}

/// What one step of the producer hands on: the input, if any, then a tick if
/// one is due.
pub open spec fn step_events<I>(c: TickClock, now_ms: u64, input: Option<I>) -> Seq<Event<I>> {
    let inputs = match input {
        Some(i) => seq![Event::Input(i)],
        None => Seq::empty(),
    };
    if tick_due(c, now_ms) {
        inputs.push(Event::Tick)
    } else {
        inputs
    }
}

/// The clock after one step of the producer.
pub open spec fn step_clock(c: TickClock, now_ms: u64) -> TickClock {
    if tick_due(c, now_ms) {
        TickClock { last_tick_ms: now_ms, ..c }
    } else {
        c
    }
}

/// What the producer hands on over steps at the times `times` with no input.
pub open spec fn quiet_run<I>(c: TickClock, times: Seq<u64>) -> Seq<Event<I>>
    decreases times.len(),
{
    if times.len() == 0 {
        Seq::empty()
    } else {
        step_events::<I>(c, times[0], None) + quiet_run::<I>(
            step_clock(c, times[0]),
            times.skip(1),
        )
    }
}

/// Each of `times` lies at least one interval after the one before it, the
/// first one at least one interval after the last tick of `c`.
pub open spec fn interval_spaced(c: TickClock, times: Seq<u64>) -> bool {
    forall|k: int|
        0 <= k < times.len() ==> #[trigger] times[k] >= (if k == 0 {
            c.last_tick_ms
        } else {
            times[k - 1]
        }) + c.tick_rate_ms
}

impl TickClock {
    /// A clock whose last tick is at `now_ms`.
    pub fn new(tick_rate_ms: u64, now_ms: u64) -> (r: TickClock)
        ensures
            r.tick_rate_ms == tick_rate_ms,
            r.last_tick_ms == now_ms,
    {
        TickClock { tick_rate_ms, last_tick_ms: now_ms }
    }

    /// How long the producer may wait for input before the next tick is due.
    pub fn poll_timeout(&self, now_ms: u64) -> (r: u64)
        ensures
            r == if tick_due(*self, now_ms) {
                0
            } else {
                self.tick_rate_ms - elapsed(*self, now_ms)
            },
    {
        let e = if now_ms >= self.last_tick_ms {
            now_ms - self.last_tick_ms
        } else {
            0
        };
        if e >= self.tick_rate_ms {
            0
        } else {
            self.tick_rate_ms - e
        }
    }

    /// One step of the producer at time `now_ms`, with the input that arrived
    /// while it waited: the input is handed on first, then a tick if one is due,
    /// and the clock restarts at `now_ms` when it ticks.
    pub fn step<I>(&mut self, now_ms: u64, input: Option<I>) -> (r: Vec<Event<I>>)
        ensures
            r@ == step_events(*old(self), now_ms, input),
            *final(self) == step_clock(*old(self), now_ms),
    {
        let mut r: Vec<Event<I>> = Vec::new();
        let ghost inp = input;
        match input {
            Some(i) => r.push(Event::Input(i)),
            None => {},
        }
        let e = if now_ms >= self.last_tick_ms {
            now_ms - self.last_tick_ms
        } else {
            0
        };
        if e >= self.tick_rate_ms {
            r.push(Event::Tick);
            self.last_tick_ms = now_ms;
        }
        assert(r@ =~= step_events(*old(self), now_ms, inp));
        r
    }
}

/// With no input, a producer stepped once per elapsed interval hands on one
/// tick per step and nothing else.
pub proof fn lemma_quiet_intervals_tick<I>(c: TickClock, times: Seq<u64>)
    requires
        interval_spaced(c, times),
    ensures
        quiet_run::<I>(c, times) == Seq::new(times.len(), |k: int| Event::<I>::Tick),
    decreases times.len(),
{
    if times.len() > 0 {
        let c2 = step_clock(c, times[0]);
        assert(times[0] >= c.last_tick_ms + c.tick_rate_ms);
        assert(tick_due(c, times[0]));
        assert(c2.last_tick_ms == times[0]);
        let rest = times.skip(1);
        assert forall|k: int| 0 <= k < rest.len() implies #[trigger] rest[k] >= (if k == 0 {
            c2.last_tick_ms
        } else {
            rest[k - 1]
        }) + c2.tick_rate_ms by {
            assert(rest[k] == times[k + 1]);
            assert(times[k + 1] >= times[k] + c.tick_rate_ms);
        }
        lemma_quiet_intervals_tick::<I>(c2, rest);
        assert(step_events::<I>(c, times[0], None) =~= seq![Event::<I>::Tick]);
        assert(quiet_run::<I>(c, times) =~= Seq::new(times.len(), |k: int| Event::<I>::Tick));
    }
    else {
        assert(quiet_run::<I>(c, times) =~= Seq::new(times.len(), |k: int| Event::<I>::Tick));
    }
}

} // verus!
