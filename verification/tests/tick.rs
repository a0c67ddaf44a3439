use micro_sp::tick::TickClock;

/// The property that matters: no systematic loss, however short the ticks.
#[test]
fn the_carry_makes_the_sum_exact() {
    let mut clock = TickClock::new();

    // Feed it a fixed sub-millisecond remainder per tick by driving the
    // arithmetic directly: 1130 us per tick, 100 ticks = 113 ms exactly.
    let mut total = 0i64;
    for _ in 0..100 {
        total += clock.advance_us(1130);
    }
    assert_eq!(total, 113, "1130 us x 100 must count as 113 ms, not 100");
}

#[test]
fn a_tick_counts_whole_milliseconds_and_carries_the_rest() {
    let mut clock = TickClock::new();
    assert_eq!(clock.advance_us(2500), 2);
    assert_eq!(clock.carry_us(), 500);
    assert_eq!(clock.advance_us(600), 1);
    assert_eq!(clock.carry_us(), 100);
    assert_eq!(clock.advance_us(0), 0);
    assert_eq!(clock.carry_us(), 100);
}

#[test]
fn a_real_clock_reports_a_small_non_negative_time() {
    let mut clock = TickClock::new();
    let ms = clock.elapsed_ms();
    assert!(ms >= 0 && ms < 1000, "got {ms}");
}

fn spin(ms: u64) {
    let start = std::time::Instant::now();
    while start.elapsed() < std::time::Duration::from_millis(ms) {}
}

#[test]
fn a_real_elapsed_ms_is_non_negative_and_small() {
    let mut clock = TickClock::new();
    spin(5);
    let ms = clock.elapsed_ms();
    assert!((4..=20).contains(&ms), "expected about 5 ms, got {ms}");
}

#[test]
fn default_builds_a_fresh_clock_like_new() {
    let mut clock = TickClock::default();
    assert_eq!(clock.carry_us(), 0);
    spin(5);
    let ms = clock.elapsed_ms();
    assert!((4..=20).contains(&ms), "a freshly defaulted clock should measure about 5 ms, got {ms}");
}
