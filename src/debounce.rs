use vstd::prelude::*;
use crate::clock::{elapsed, elapsed_spec, MAX_TICK_BITS};

verus! {

/// Whether an edge at `tick` is genuine, given the tick of the last accepted edge (none yet:
/// the first edge is always genuine): it must lie at least `threshold` ticks later.
pub open spec fn accepts(last: Option<u32>, tick: u32, threshold: u32, width: u32) -> bool {
    match last {
        None => true,
        Some(l) => elapsed_spec(tick as int, l as int, width as nat) >= threshold,
    }
}

/// The last accepted tick after an edge at `tick`.
pub open spec fn next_last(last: Option<u32>, tick: u32, threshold: u32, width: u32) -> Option<
    u32,
> {
    if accepts(last, tick, threshold, width) {
        Some(tick)
    } else {
        last
    }
}

/// Feeding the edges `ticks` in order: the last accepted tick afterwards, and how many were
/// accepted.
pub open spec fn run_edges(last: Option<u32>, ticks: Seq<u32>, threshold: u32, width: u32) -> (
    Option<u32>,
    nat,
)
    decreases ticks.len(),
{
    if ticks.len() == 0 {
        (last, 0)
    } else {
        let (l, n) = run_edges(last, ticks.drop_last(), threshold, width);
        let t = ticks.last();
        if accepts(l, t, threshold, width) {
            (Some(t), n + 1)
        } else {
            (l, n)
        }
    }
}

/// Every edge of `ticks` lies at least `threshold` ticks after the one before it, and the
/// first one at least `threshold` after `last`, if there was one.
pub open spec fn spaced(last: Option<u32>, ticks: Seq<u32>, threshold: u32, width: u32) -> bool {
    &&& (ticks.len() > 0 ==> accepts(last, ticks[0], threshold, width))
    &&& forall|i: int|
        0 < i < ticks.len() ==> elapsed_spec(
            #[trigger] ticks[i] as int,
            ticks[i - 1] as int,
            width as nat,
        ) >= threshold
}

/// Filters contact bounce: of edges closer than `threshold` ticks to the last accepted one,
/// none is accepted.
pub struct Debouncer {
    threshold: u32,
    width: u32,
    last_accepted: Option<u32>,
}

impl Debouncer {
    /// The least number of ticks between two accepted edges.
    pub closed spec fn threshold_spec(&self) -> u32 {
        self.threshold
    }

    /// Bits of the tick values compared.
    pub closed spec fn width_spec(&self) -> u32 {
        self.width
    }

    /// The tick of the last accepted edge; `None` before the first.
    pub closed spec fn last_spec(&self) -> Option<u32> {
        self.last_accepted
    }

    pub open spec fn wf(&self) -> bool {
        1 <= self.width_spec() <= MAX_TICK_BITS
    }

    /// A debouncer that has accepted no edge yet.
    pub fn new(threshold: u32, width: u32) -> (r: Self)
        requires
            1 <= width <= MAX_TICK_BITS,
        ensures
            r.wf(),
            r.threshold_spec() == threshold,
            r.width_spec() == width,
            r.last_spec() is None,
    {
        Debouncer { threshold, width, last_accepted: None }
    }

    pub fn threshold(&self) -> (r: u32)
        ensures
            r == self.threshold_spec(),
    {
        self.threshold
    }

    pub fn width(&self) -> (r: u32)
        ensures
            r == self.width_spec(),
    {
        self.width
    }

    pub fn last_accepted(&self) -> (r: Option<u32>)
        ensures
            r == self.last_spec(),
    {
        self.last_accepted
    }

    /// An edge at `tick`. It is accepted, and its tick recorded, exactly when it is the first
    /// edge or lies at least the threshold after the last accepted one, counted wrap-safe;
    /// otherwise nothing changes.
    pub fn on_edge(&mut self, tick: u32) -> (accepted: bool)
        requires
            old(self).wf(),
        ensures
            accepted == accepts(old(self).last_spec(), tick, old(self).threshold_spec(), old(self).width_spec()),
            final(self).last_spec() == next_last(old(self).last_spec(), tick, old(self).threshold_spec(), old(self).width_spec()),
            final(self).threshold_spec() == old(self).threshold_spec(),
            final(self).width_spec() == old(self).width_spec(),
    {
        let accepted = match self.last_accepted {
            None => true,
            Some(l) => elapsed(tick, l, self.width) >= self.threshold,
        };
        if accepted {
            self.last_accepted = Some(tick);
        }
        accepted
    }
}

/// After an edge has been accepted at `t1`, a second edge at `t2` less than `threshold` ticks
/// later is rejected and changes nothing: of the two, only the first is accepted.
pub proof fn lemma_bounce_suppressed(
    last: Option<u32>,
    t1: u32,
    t2: u32,
    threshold: u32,
    width: u32,
)
    requires
        accepts(last, t1, threshold, width),
        elapsed_spec(t2 as int, t1 as int, width as nat) < threshold,
    ensures
        run_edges(last, seq![t1, t2], threshold, width) == (Some(t1), 1nat),
        !accepts(next_last(last, t1, threshold, width), t2, threshold, width),
        next_last(next_last(last, t1, threshold, width), t2, threshold, width) == Some(t1),
{
    let s = seq![t1, t2];
    assert(s.drop_last() == seq![t1]);
    assert(seq![t1].drop_last() =~= Seq::<u32>::empty());
    reveal_with_fuel(run_edges, 3);
}

/// When every edge lies at least `threshold` ticks after the one before it, every edge is
/// accepted, and the last one is recorded.
pub proof fn lemma_spaced_all_accepted(
    last: Option<u32>,
    ticks: Seq<u32>,
    threshold: u32,
    width: u32,
)
    requires
        spaced(last, ticks, threshold, width),
    ensures
        run_edges(last, ticks, threshold, width).1 == ticks.len(),
        ticks.len() > 0 ==> run_edges(last, ticks, threshold, width).0 == Some(ticks.last()),
    decreases ticks.len(),
{
    if ticks.len() > 0 {
        let p = ticks.drop_last();
        assert(spaced(last, p, threshold, width)) by {
            assert forall|i: int| 0 < i < p.len() implies elapsed_spec(
                #[trigger] p[i] as int,
                p[i - 1] as int,
                width as nat,
            ) >= threshold by {
                assert(p[i] == ticks[i]);
                assert(p[i - 1] == ticks[i - 1]);
            }
            if p.len() > 0 {
                assert(p[0] == ticks[0]);
            }
        }
        lemma_spaced_all_accepted(last, p, threshold, width);
        if p.len() > 0 {
            assert(ticks[ticks.len() - 1] == ticks.last());
            assert(p.last() == ticks[ticks.len() - 2]);
        }
    }
}

} // verus!
