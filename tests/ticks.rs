use snippet_manager::{Event, TickClock};

fn is_tick(e: &Event<char>) -> bool {
    matches!(e, Event::Tick)
}

#[test]
fn three_quiet_intervals_give_three_ticks() {
    let mut clock = TickClock::new(200, 0);
    let mut seen: Vec<Event<char>> = Vec::new();
    for now in [200u64, 400, 600] {
        assert_eq!(clock.poll_timeout(now), 0);
        seen.extend(clock.step(now, None));
    }
    assert_eq!(seen.len(), 3);
    assert!(seen.iter().all(is_tick));
}

#[test]
fn poll_timeout_counts_down() {
    let clock = TickClock::new(200, 1000);
    assert_eq!(clock.poll_timeout(1000), 200);
    assert_eq!(clock.poll_timeout(1150), 50);
    assert_eq!(clock.poll_timeout(1200), 0);
    assert_eq!(clock.poll_timeout(5000), 0);
    assert_eq!(clock.poll_timeout(900), 200);
}

#[test]
fn input_before_tick_and_clock_restarts() {
    let mut clock = TickClock::new(200, 0);
    let out = clock.step(50, Some('a'));
    assert_eq!(out.len(), 1);
    assert!(matches!(out[0], Event::Input('a')));
    assert_eq!(clock.last_tick_ms, 0);
    let out = clock.step(210, Some('b'));
    assert_eq!(out.len(), 2);
    assert!(matches!(out[0], Event::Input('b')));
    assert!(matches!(out[1], Event::Tick));
    assert_eq!(clock, TickClock { tick_rate_ms: 200, last_tick_ms: 210 });
    assert!(clock.step::<char>(300, None).is_empty());
}
