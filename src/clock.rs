use vstd::prelude::*;
use vstd::arithmetic::div_mod::{lemma_add_mod_noop, lemma_small_mod, lemma_sub_mod_noop};

verus! {

/// The widest tick value this clock composes.
pub const MAX_TICK_BITS: u32 = 32;

/// Two to the power `n`.
pub open spec fn pow2(n: nat) -> nat
    decreases n,
{
    if n == 0 {
        1
    } else {
        2 * pow2((n - 1) as nat)
    }
}

/// Tick values of `width` bits wrap modulo this number.
pub open spec fn tick_modulus(width: nat) -> nat {
    pow2(width)
}

/// The composed tick: the hardware count plus the overflows, each worth a whole period,
/// reduced to the clock's width.
pub open spec fn composed(hw: int, overflows: int, period: int, width: nat) -> int {
    (hw + overflows * period) % (tick_modulus(width) as int)
}

/// The distance from `last` forward to `now` on a clock of `width` bits.
pub open spec fn elapsed_spec(now: int, last: int, width: nat) -> int {
    (now - last) % (tick_modulus(width) as int)
}

pub proof fn lemma_pow2_positive(n: nat)
    ensures
        pow2(n) >= 1,
    decreases n,
{
    if n > 0 {
        lemma_pow2_positive((n - 1) as nat);
    }
}

pub proof fn lemma_pow2_add(a: nat, b: nat)
    ensures
        pow2(a + b) == pow2(a) * pow2(b),
    decreases a,
{
    if a > 0 {
        lemma_pow2_add((a - 1) as nat, b);
        assert(pow2(a + b) == 2 * pow2((a - 1 + b) as nat));
        assert(2 * (pow2((a - 1) as nat) * pow2(b)) == (2 * pow2((a - 1) as nat)) * pow2(b))
            by (nonlinear_arith);
    } else {
        assert(a + b == b);
        assert(pow2(a) == 1);
    }
}

pub proof fn lemma_pow2_monotone(a: nat, b: nat)
    requires
        a <= b,
    ensures
        pow2(a) <= pow2(b),
{
    lemma_pow2_add(a, (b - a) as nat);
    lemma_pow2_positive((b - a) as nat);
    lemma_pow2_positive(a);
    assert(pow2(a) * pow2((b - a) as nat) >= pow2(a)) by (nonlinear_arith)
        requires
            pow2((b - a) as nat) >= 1,
    ;
}

pub proof fn lemma_pow2_32()
    ensures
        pow2(32) == 0x1_0000_0000,
{
    reveal_with_fuel(pow2, 33);
}

/// The number of distinct tick values on a clock of `width` bits.
pub fn modulus_of(width: u32) -> (m: u64)
    requires
        1 <= width <= MAX_TICK_BITS,
    ensures
        m == tick_modulus(width as nat),
        2 <= m <= 0x1_0000_0000,
{
    let mut m: u64 = 1;
    let mut i: u32 = 0;
    while i < width
        invariant
            i <= width <= MAX_TICK_BITS,
            m == pow2(i as nat),
        decreases width - i,
    {
        proof {
            lemma_pow2_monotone((i + 1) as nat, 32);
            lemma_pow2_32();
        }
        m = m * 2;
        i = i + 1;
    }
    proof {
        lemma_pow2_monotone(1, width as nat);
        lemma_pow2_monotone(width as nat, 32);
        lemma_pow2_32();
        reveal_with_fuel(pow2, 2);
    }
    m
}

/// Wrap-safe subtraction: how far `now` lies ahead of `last` on a clock of `width` bits,
/// correct also when `now` has wrapped past zero since `last`.
pub fn elapsed(now: u32, last: u32, width: u32) -> (r: u32)
    requires
        1 <= width <= MAX_TICK_BITS,
    ensures
        r == elapsed_spec(now as int, last as int, width as nat),
        (r as int) < tick_modulus(width as nat),
{
    let m = modulus_of(width);
    let n: u64 = (now as u64) % m;
    let l: u64 = (last as u64) % m;
    let d: u64 = if n >= l {
        n - l
    } else {
        m - l + n
    };
    proof {
        let mi = m as int;
        lemma_sub_mod_noop(now as int, last as int, mi);
        if n >= l {
            lemma_small_mod(d as nat, m as nat);
        } else {
            lemma_small_mod(d as nat, m as nat);
            assert((mi + (n - l)) % mi == (n - l) % mi) by {
                vstd::arithmetic::div_mod::lemma_mod_add_multiples_vanish(n - l, mi);
            }
        }
    }
    d as u32
}

/// The composed tick of a hardware count `hw` after `overflows` periods of `period` counts,
/// reduced to `width` bits.
pub fn compose(hw: u32, overflows: u32, period: u32, width: u32) -> (r: u32)
    requires
        1 <= width <= MAX_TICK_BITS,
    ensures
        r == composed(hw as int, overflows as int, period as int, width as nat),
        (r as int) < tick_modulus(width as nat),
{
    let m = modulus_of(width);
    proof {
        assert((overflows as int) * (period as int) <= 0xffff_ffff * 0xffff_ffff)
            by (nonlinear_arith)
            requires
                overflows <= 0xffff_ffff,
                period <= 0xffff_ffff,
        ;
    }
    let prod: u64 = (overflows as u64) * (period as u64);
    let s: u64 = (hw as u64) % m + prod % m;
    let r: u64 = s % m;
    proof {
        lemma_add_mod_noop(hw as int, prod as int, m as int);
    }
    r as u32
}

/// A clock of ticks: a software count of timer overflows, composed with the timer's live
/// hardware count into a tick value of `width` bits.
pub struct TickClock {
    period: u32,
    width: u32,
    overflow_count: u32,
}

impl TickClock {
    /// Counts of the hardware timer in one period.
    pub closed spec fn period_spec(&self) -> u32 {
        self.period
    }

    /// Bits of a tick value.
    pub closed spec fn width_spec(&self) -> u32 {
        self.width
    }

    /// Timer overflows seen so far, modulo `2^32`.
    pub closed spec fn overflows_spec(&self) -> u32 {
        self.overflow_count
    }

    pub open spec fn wf(&self) -> bool {
        1 <= self.width_spec() <= MAX_TICK_BITS
    }

    /// The tick value for the hardware count `hw`.
    pub open spec fn tick_at(&self, hw: int) -> int {
        composed(hw, self.overflows_spec() as int, self.period_spec() as int, self.width_spec() as nat)
    }

    /// A clock that has seen no overflow yet.
    pub fn new(period: u32, width: u32) -> (r: Self)
        requires
            1 <= width <= MAX_TICK_BITS,
        ensures
            r.wf(),
            r.period_spec() == period,
            r.width_spec() == width,
            r.overflows_spec() == 0,
    {
        TickClock { period, width, overflow_count: 0 }
    }

    pub fn period(&self) -> (r: u32)
        ensures
            r == self.period_spec(),
    {
        self.period
    }

    pub fn width(&self) -> (r: u32)
        ensures
            r == self.width_spec(),
    {
        self.width
    }

    pub fn overflow_count(&self) -> (r: u32)
        ensures
            r == self.overflows_spec(),
    {
        self.overflow_count
    }

    /// One timer overflow: the count goes up by one, wrapping rather than faulting.
    pub fn on_overflow(&mut self)
        ensures
            final(self).period_spec() == old(self).period_spec(),
            final(self).width_spec() == old(self).width_spec(),
            final(self).overflows_spec() as int == (old(self).overflows_spec() as int + 1)
                % 0x1_0000_0000,
    {
        self.overflow_count = self.overflow_count.wrapping_add(1);
    }

    /// The current tick, given the timer's live hardware count.
    pub fn now(&self, hw: u32) -> (r: u32)
        requires
            self.wf(),
        ensures
            r == self.tick_at(hw as int),
            (r as int) < tick_modulus(self.width_spec() as nat),
    {
        compose(hw, self.overflow_count, self.period, self.width)
    }
}

/// Time that has really passed, in hardware counts, at `overflows` periods plus `hw`.
pub open spec fn true_time(hw: int, overflows: int, period: int) -> int {
    overflows * period + hw
}

/// The overflow count wraps at `2^32`, and that wrap leaves the composed tick as it would
/// have been with an unbounded count.
pub proof fn lemma_overflow_wrap_invisible(hw: int, overflows: nat, period: int, width: nat)
    requires
        1 <= width <= MAX_TICK_BITS,
    ensures
        composed(hw, (overflows % 0x1_0000_0000) as int, period, width) == (hw + overflows
            * period) % (tick_modulus(width) as int),
{
    let m = tick_modulus(width) as int;
    let k = pow2((32 - width) as nat) as int;
    lemma_pow2_add(width, (32 - width) as nat);
    lemma_pow2_32();
    lemma_pow2_positive(width);
    lemma_pow2_positive((32 - width) as nat);
    assert(m * k == 0x1_0000_0000);
    let o = overflows as int;
    let q = o / 0x1_0000_0000;
    let r = o % 0x1_0000_0000;
    assert(o == 0x1_0000_0000 * q + r) by {
        vstd::arithmetic::div_mod::lemma_fundamental_div_mod(o, 0x1_0000_0000);
    }
    assert(hw + o * period == (hw + r * period) + m * (k * q * period)) by (nonlinear_arith)
        requires
            o == 0x1_0000_0000 * q + r,
            m * k == 0x1_0000_0000,
    ;
    vstd::arithmetic::div_mod::lemma_mod_multiples_vanish(k * q * period, hw + r * period, m);
    assert(m * (k * q * period) + (hw + r * period) == hw + o * period);
}

/// The composed tick follows time: for two readings, the earlier at (`o1` overflows, count
/// `h1`) and the later at (`o2`, `h2`), with each hardware count below the period, the true
/// time does not go back, and the wrap-safe distance between the two composed ticks is the
/// true time that passed, modulo the clock's width; exactly that time while it is less than
/// one turn of the clock.
pub proof fn lemma_monotonic(h1: nat, o1: nat, h2: nat, o2: nat, period: nat, width: nat)
    requires
        1 <= width <= MAX_TICK_BITS,
        h1 < period,
        h2 < period,
        o1 < o2 || (o1 == o2 && h1 <= h2),
    ensures
        true_time(h1 as int, o1 as int, period as int) <= true_time(
            h2 as int,
            o2 as int,
            period as int,
        ),
        elapsed_spec(
            composed(h2 as int, o2 as int, period as int, width),
            composed(h1 as int, o1 as int, period as int, width),
            width,
        ) == (true_time(h2 as int, o2 as int, period as int) - true_time(
            h1 as int,
            o1 as int,
            period as int,
        )) % (tick_modulus(width) as int),
        true_time(h2 as int, o2 as int, period as int) - true_time(
            h1 as int,
            o1 as int,
            period as int,
        ) < tick_modulus(width) ==> elapsed_spec(
            composed(h2 as int, o2 as int, period as int, width),
            composed(h1 as int, o1 as int, period as int, width),
            width,
        ) == true_time(h2 as int, o2 as int, period as int) - true_time(
            h1 as int,
            o1 as int,
            period as int,
        ),
{
    let m = tick_modulus(width) as int;
    lemma_pow2_positive(width);
    let t1 = true_time(h1 as int, o1 as int, period as int);
    let t2 = true_time(h2 as int, o2 as int, period as int);
    if o1 < o2 {
        assert(o1 * period + period <= o2 * period) by (nonlinear_arith)
            requires
                o1 < o2,
        ;
    } else {
        assert(o1 * period == o2 * period);
    }
    assert(t1 <= t2);
    lemma_sub_mod_noop(t2, t1, m);
    assert(composed(h2 as int, o2 as int, period as int, width) == t2 % m);
    assert(composed(h1 as int, o1 as int, period as int, width) == t1 % m);
    if t2 - t1 < m {
        lemma_small_mod((t2 - t1) as nat, m as nat);
    }
}

} // verus!
