use vstd::prelude::*;
use crate::clock::{composed, TickClock, MAX_TICK_BITS};
use crate::debounce::{accepts, Debouncer};

verus! {

/// Hardware counts of the timer in one overflow period.
pub const TIMER_PERIOD: u32 = 10_000;

/// The least number of ticks between two accepted button edges.
pub const DEBOUNCE_THRESHOLD: u32 = 500;

/// Bits of a tick value.
pub const TICK_BITS: u32 = 32;

/// The fixed settings of the core.
#[derive(Clone, Copy, Debug, PartialEq, Eq)]
pub struct Config {
    pub period: u32,
    pub threshold: u32,
    pub width: u32,
}

impl Config {
    pub open spec fn wf(&self) -> bool {
        1 <= self.width <= MAX_TICK_BITS
    }

    /// The settings the firmware runs with.
    pub fn firmware() -> (r: Config)
        ensures
            r.period == TIMER_PERIOD,
            r.threshold == DEBOUNCE_THRESHOLD,
            r.width == TICK_BITS,
            r.wf(),
    {
        Config { period: TIMER_PERIOD, threshold: DEBOUNCE_THRESHOLD, width: TICK_BITS }
    }
}

/// What happens to the shared state: the timer overflowed, or the button gave an edge while
/// the timer's hardware count stood at the value carried.
#[derive(Clone, Copy, Debug, PartialEq, Eq)]
pub enum Event {
    Overflow,
    Edge(u32),
}

/// The state that the interrupt handlers share.
pub struct SharedState {
    pub overflows: u32,
    pub last: Option<u32>,
}

/// One whole handler run on `s`: the state after it, and the tick of the edge it accepted,
/// if it accepted one (the indicator is then toggled and the tick logged).
pub open spec fn step(c: Config, s: SharedState, e: Event) -> (SharedState, Option<u32>) {
    match e {
        Event::Overflow => (
            SharedState { overflows: ((s.overflows + 1) % 0x1_0000_0000) as u32, last: s.last },
            None,
        ),
        Event::Edge(hw) => {
            let t = composed(hw as int, s.overflows as int, c.period as int, c.width as nat) as u32;
            if accepts(s.last, t, c.threshold, c.width) {
                (SharedState { overflows: s.overflows, last: Some(t) }, Some(t))
            } else {
                (s, None)
            }
        },
    }
}

/// The handler runs for `events`, one after another: the state after them, and what each
/// one accepted.
pub open spec fn run(c: Config, s: SharedState, events: Seq<Event>) -> (SharedState, Seq<
    Option<u32>,
>)
    decreases events.len(),
{
    if events.len() == 0 {
        (s, Seq::empty())
    } else {
        let (s1, acts) = run(c, s, events.drop_last());
        let (s2, a) = step(c, s1, events.last());
        (s2, acts.push(a))
    }
}

/// The tick of the latest accepted edge among `acts`, or `init` where there is none.
pub open spec fn latest_accept(init: Option<u32>, acts: Seq<Option<u32>>) -> Option<u32>
    decreases acts.len(),
{
    if acts.len() == 0 {
        init
    } else if acts.last() is Some {
        acts.last()
    } else {
        latest_accept(init, acts.drop_last())
    }
}

/// How many of `events` are overflows.
pub open spec fn overflow_events(events: Seq<Event>) -> nat
    decreases events.len(),
{
    if events.len() == 0 {
        0
    } else {
        overflow_events(events.drop_last()) + if events.last() is Overflow {
            1nat
        } else {
            0nat
        }
    }
}

/// The tick clock and the debouncer: the state that the timer handler and the button
/// handler share. Each handler is one call with the state borrowed exclusively, so no other
/// context sees it between the reading of the tick and the recording of an accepted edge.
pub struct Shared {
    clock: TickClock,
    debouncer: Debouncer,
}

impl Shared {
    pub closed spec fn config_spec(&self) -> Config {
        Config {
            period: self.clock.period_spec(),
            threshold: self.debouncer.threshold_spec(),
            width: self.clock.width_spec(),
        }
    }

    pub closed spec fn view(&self) -> SharedState {
        SharedState { overflows: self.clock.overflows_spec(), last: self.debouncer.last_spec() }
    }

    pub closed spec fn wf(&self) -> bool {
        &&& self.clock.wf()
        &&& self.debouncer.wf()
        &&& self.clock.width_spec() == self.debouncer.width_spec()
    }

    /// The state at start: no overflow seen, no edge accepted.
    pub fn new(c: Config) -> (r: Self)
        requires
            c.wf(),
        ensures
            r.wf(),
            r.config_spec() == c,
            r@ == (SharedState { overflows: 0, last: None }),
    {
        Shared { clock: TickClock::new(c.period, c.width), debouncer: Debouncer::new(c.threshold, c.width) }
    }

    pub fn config(&self) -> (r: Config)
        ensures
            r == self.config_spec(),
    {
        Config { period: self.clock.period(), threshold: self.debouncer.threshold(), width: self.clock.width() }
    }

    /// Timer overflows seen, modulo `2^32`.
    pub fn overflow_count(&self) -> (r: u32)
        ensures
            r == self@.overflows,
    {
        self.clock.overflow_count()
    }

    /// The tick of the last accepted edge.
    pub fn last_accepted(&self) -> (r: Option<u32>)
        ensures
            r == self@.last,
    {
        self.debouncer.last_accepted()
    }

    /// The current tick, given the timer's live hardware count.
    pub fn now(&self, hw: u32) -> (r: u32)
        requires
            self.wf(),
        ensures
            r == composed(hw as int, self@.overflows as int, self.config_spec().period as int, self.config_spec().width as nat),
    {
        self.clock.now(hw)
    }

    /// The timer handler's work: count one overflow.
    pub fn on_timer(&mut self)
        requires
            old(self).wf(),
        ensures
            final(self).wf(),
            final(self).config_spec() == old(self).config_spec(),
            final(self)@ == step(old(self).config_spec(), old(self)@, Event::Overflow).0,
    {
        self.clock.on_overflow();
    }

    /// The button handler's work, with the timer's live hardware count `hw`: compose the
    /// tick, and accept the edge if it is far enough from the last accepted one. Returns the
    /// tick of an accepted edge, `None` for one that is discarded.
    pub fn on_edge(&mut self, hw: u32) -> (r: Option<u32>)
        requires
            old(self).wf(),
        ensures
            final(self).wf(),
            final(self).config_spec() == old(self).config_spec(),
            (final(self)@, r) == step(old(self).config_spec(), old(self)@, Event::Edge(hw)),
    {
        let tick = self.clock.now(hw);
        if self.debouncer.on_edge(tick) {
            Some(tick)
        } else {
            None
        }
    }
}

/// Handler runs in any order leave no state that a sequence of whole runs would not: after
/// any sequence of events there is one action per event, only edges are accepted, the last
/// accepted tick is the one of the latest accepted edge, and the overflow count has grown by
/// the number of overflows, modulo `2^32`.
pub proof fn lemma_runs_consistent(c: Config, s: SharedState, events: Seq<Event>)
    ensures
        run(c, s, events).1.len() == events.len(),
        forall|i: int|
            0 <= i < events.len() && (#[trigger] run(c, s, events).1[i]) is Some
                ==> events[i] is Edge,
        run(c, s, events).0.last == latest_accept(s.last, run(c, s, events).1),
        run(c, s, events).0.overflows as int == (s.overflows + overflow_events(events))
            % 0x1_0000_0000,
    decreases events.len(),
{
    if events.len() > 0 {
        let p = events.drop_last();
        lemma_runs_consistent(c, s, p);
        let (s1, acts) = run(c, s, p);
        let (s2, a) = step(c, s1, events.last());
        let all = acts.push(a);
        assert(run(c, s, events) == (s2, all));
        assert forall|i: int|
            0 <= i < events.len() && (#[trigger] run(c, s, events).1[i]) is Some
                implies events[i] is Edge by {
            if i < p.len() {
                assert(all[i] == acts[i]);
                assert(events[i] == p[i]);
            }
        }
        assert(all.drop_last() =~= acts);
        assert(all.last() == a);
        let k = s.overflows + overflow_events(p);
        assert(s1.overflows as int == k % 0x1_0000_0000);
        if events.last() is Overflow {
            vstd::arithmetic::div_mod::lemma_add_mod_noop(k, 1, 0x1_0000_0000);
            vstd::arithmetic::div_mod::lemma_small_mod(1, 0x1_0000_0000);
        }
    }
}

} // verus!
