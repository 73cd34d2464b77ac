use gpur::events::{event_timeout, SPLASH_FRAME_MS};
use std::time::Duration;

fn timeout(splash: bool, tick_ms: u64, since_draw: Duration, since_poll: Duration) -> Duration {
    let ns = event_timeout(splash, tick_ms, since_draw.as_nanos(), since_poll.as_nanos());
    Duration::from_nanos(ns as u64)
}

#[test]
fn splash_frames_wait_a_frame_not_zero() {
    let t = timeout(
        true,
        1000,
        Duration::from_millis(40),
        Duration::from_millis(100),
    );
    assert_eq!(t, Duration::from_millis(SPLASH_FRAME_MS - 40));
}

#[test]
fn a_due_poll_wins_over_a_later_frame() {
    let t = timeout(true, 1000, Duration::ZERO, Duration::from_millis(990));
    assert_eq!(t, Duration::from_millis(10));
}

#[test]
fn steady_state_paces_on_the_tick() {
    assert_eq!(
        timeout(false, 500, Duration::ZERO, Duration::ZERO),
        Duration::from_millis(500)
    );
    assert_eq!(
        timeout(false, 500, Duration::ZERO, Duration::from_millis(700)),
        Duration::ZERO
    );
}
