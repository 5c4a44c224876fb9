use blinky::cell::ResourceCell;
use blinky::clock::{compose, elapsed, modulus_of, TickClock};
use blinky::debounce::Debouncer;
use blinky::shared::{Config, Shared, DEBOUNCE_THRESHOLD, TICK_BITS, TIMER_PERIOD};

#[test]
fn cell_starts_empty_and_access_is_a_no_op() {
    let mut cell: ResourceCell<u32> = ResourceCell::new();
    assert!(!cell.is_present());
    assert!(cell.get_mut().is_none());
    assert!(!cell.is_present());
}

#[test]
fn cell_installs_once() {
    let mut cell: ResourceCell<u32> = ResourceCell::new();
    assert_eq!(cell.install(7), Ok(()));
    assert!(cell.is_present());
    assert_eq!(cell.install(9), Err(9));
    assert_eq!(cell.get_mut().copied(), Some(7));
}

#[test]
fn cell_mutable_access_changes_the_handle() {
    let mut cell: ResourceCell<u32> = ResourceCell::new();
    cell.install(1).unwrap();
    if let Some(v) = cell.get_mut() {
        *v += 41;
    }
    assert_eq!(cell.get_mut().copied(), Some(42));
}

#[test]
fn modulus_by_width() {
    assert_eq!(modulus_of(1), 2);
    assert_eq!(modulus_of(16), 65_536);
    assert_eq!(modulus_of(32), 4_294_967_296);
}

#[test]
fn compose_adds_whole_periods() {
    assert_eq!(compose(123, 0, 10_000, 32), 123);
    assert_eq!(compose(123, 4, 10_000, 32), 40_123);
    assert_eq!(compose(0, 65_546, 1, 16), 10);
    assert_eq!(compose(5, u32::MAX, 1, 32), 4);
}

#[test]
fn elapsed_plain_and_across_wrap() {
    assert_eq!(elapsed(600, 10, 32), 590);
    assert_eq!(elapsed(10, 65_530, 16), 16);
    assert_eq!(elapsed(3, u32::MAX, 32), 4);
    assert_eq!(elapsed(7, 7, 32), 0);
}

#[test]
fn clock_counts_overflows() {
    let mut clock = TickClock::new(10_000, 32);
    assert_eq!(clock.now(250), 250);
    clock.on_overflow();
    clock.on_overflow();
    assert_eq!(clock.overflow_count(), 2);
    assert_eq!(clock.now(250), 20_250);
    assert_eq!(clock.period(), 10_000);
    assert_eq!(clock.width(), 32);
}

#[test]
fn clock_elapsed_across_the_wrap_is_true_time() {
    let before = compose(7_000, 429_496, 10_000, 32);
    let after = compose(100, 429_497, 10_000, 32);
    assert_eq!(before, 4_294_967_000);
    assert_eq!(after, 2_804);
    assert!(after < before);
    assert_eq!(elapsed(after, before, 32), 3_100);
}

#[test]
fn debounce_rejects_bounce_within_threshold() {
    let mut d = Debouncer::new(500, 32);
    assert!(d.on_edge(1_000));
    assert!(!d.on_edge(1_499));
    assert_eq!(d.last_accepted(), Some(1_000));
    assert!(d.on_edge(1_500));
    assert_eq!(d.last_accepted(), Some(1_500));
}

#[test]
fn debounce_accepts_every_spaced_edge() {
    let mut d = Debouncer::new(500, 32);
    let ticks: [u32; 5] = [0, 500, 1_200, 1_700, 5_000];
    let mut accepted = 0;
    for t in ticks {
        if d.on_edge(t) {
            accepted += 1;
        }
    }
    assert_eq!(accepted, ticks.len());
    assert_eq!(d.last_accepted(), Some(5_000));
    assert_eq!(d.threshold(), 500);
    assert_eq!(d.width(), 32);
}

fn advance(s: &mut Shared, n: u32) {
    for _ in 0..n {
        s.on_timer();
    }
}

#[test]
fn millisecond_clock_edges_at_0_10_600() {
    let mut s = Shared::new(Config { period: 1, threshold: 500, width: 32 });
    let mut toggles = 0;
    let mut lines = Vec::new();
    let mut results = Vec::new();
    for (t, gap) in [(0u32, 0u32), (10, 10), (600, 590)] {
        advance(&mut s, gap);
        let r = s.on_edge(0);
        results.push(r.is_some());
        if let Some(tick) = r {
            assert_eq!(tick, t);
            toggles += 1;
            lines.push(format!("Button pressed! {tick}"));
        }
    }
    assert_eq!(results, vec![true, false, true]);
    assert_eq!(toggles, 2);
    assert_eq!(lines, vec!["Button pressed! 0".to_string(), "Button pressed! 600".to_string()]);
}

#[test]
fn sixteen_bit_clock_rejects_edge_just_after_wrap() {
    let mut s = Shared::new(Config { period: 1, threshold: 500, width: 16 });
    advance(&mut s, 65_530);
    assert_eq!(s.on_edge(0), Some(65_530));
    advance(&mut s, 16);
    assert_eq!(s.now(0), 10);
    assert_eq!(elapsed(s.now(0), 65_530, 16), 16);
    assert_eq!(s.on_edge(0), None);
    assert_eq!(s.last_accepted(), Some(65_530));
}

#[test]
fn interleaved_handlers_keep_state_whole() {
    let mut s = Shared::new(Config::firmware());
    assert_eq!(s.config(), Config { period: TIMER_PERIOD, threshold: DEBOUNCE_THRESHOLD, width: TICK_BITS });
    assert_eq!(s.on_edge(9_000), Some(9_000));
    s.on_timer();
    assert_eq!(s.on_edge(1_000), Some(11_000));
    assert_eq!(s.on_edge(1_200), None);
    s.on_timer();
    assert_eq!(s.overflow_count(), 2);
    assert_eq!(s.last_accepted(), Some(11_000));
    assert_eq!(s.now(0), 20_000);
}
