use cp_eras_ui::motion::{
    blink, blink_since, caret_blink, frozen, now, origin, parse_at_ms, rest, Clock,
};
use std::time::{Duration, Instant};

#[test]
fn lit_for_the_first_half_of_each_period() {
    let p = Duration::from_millis(1200);
    assert!(blink_since(p, Duration::from_millis(0)));
    assert!(blink_since(p, Duration::from_millis(599)));
    assert!(!blink_since(p, Duration::from_millis(600)));
    assert!(!blink_since(p, Duration::from_millis(1199)));
    assert!(blink_since(p, Duration::from_millis(1200)));
    assert!(!blink_since(p, Duration::from_millis(1800)));
    // The seconds frame.sh was checked at.
    assert!(blink_since(caret_blink(), Duration::from_millis(300)));
    assert!(!blink_since(caret_blink(), Duration::from_millis(900)));
}

#[test]
fn rest_is_a_whole_number_of_blinks() {
    assert_eq!(rest().as_millis() % caret_blink().as_millis(), 0);
    assert!(blink_since(caret_blink(), rest()));
}

#[test]
fn origin_is_frame_zero() {
    let clock = Clock::start(Instant::now(), None, None).unwrap();
    assert!(blink(&clock, caret_blink(), origin(&clock)));
    assert!(now(&clock) >= origin(&clock));
}

#[test]
fn a_pinned_clock_reads_its_moment() {
    let start = Instant::now();
    let at = start + Duration::from_millis(2400);
    let clock = Clock::start(start, Some(" 2400 "), Some("7")).unwrap();
    assert!(frozen(&clock));
    assert_eq!(origin(&clock), start);
    assert_eq!(now(&clock), at);
    assert_eq!(now(&clock), now(&clock));
    assert!(blink(&clock, caret_blink(), now(&clock)));
    let from_env = Clock::start(start, None, Some("600")).unwrap();
    assert_eq!(now(&from_env), start + Duration::from_millis(600));
    assert!(!blink(&from_env, caret_blink(), now(&from_env)));
    // A flag that is not a number is no value, and the variable is not
    // read in its place.
    let free = Clock::start(start, Some("soon"), Some("600")).unwrap();
    assert!(!frozen(&free));
    assert!(now(&free) >= origin(&free));
    let free = Clock::start(start, None, None).unwrap();
    assert!(!frozen(&free));
}

#[test]
fn a_zero_period_is_always_lit() {
    assert!(blink_since(Duration::ZERO, Duration::from_millis(7)));
    assert!(blink_since(Duration::from_micros(3), Duration::from_micros(4)));
    assert!(!blink_since(Duration::from_micros(3), Duration::from_micros(5)));
}

#[test]
fn an_instant_before_the_origin_reads_as_the_origin() {
    let early = Instant::now();
    let clock = Clock::start(early + Duration::from_millis(900), None, None).unwrap();
    assert!(blink(&clock, caret_blink(), early));
}

#[test]
fn the_cycle_repeats_every_period() {
    let p = Duration::from_millis(1000);
    for ms in [0u64, 1, 499, 500, 999] {
        assert_eq!(
            blink_since(p, Duration::from_millis(ms)),
            blink_since(p, Duration::from_millis(ms + 1000))
        );
    }
}

#[test]
fn a_pinned_moment_is_a_number_or_nothing() {
    assert_eq!(parse_at_ms("2400"), Some(2400));
    assert_eq!(parse_at_ms(" 2400\n"), Some(2400));
    assert_eq!(parse_at_ms("\u{3000}7\u{a0}"), Some(7));
    assert_eq!(parse_at_ms("+5"), Some(5));
    assert_eq!(parse_at_ms("0"), Some(0));
    assert_eq!(parse_at_ms("18446744073709551615"), Some(u64::MAX));
    assert_eq!(parse_at_ms("18446744073709551616"), None);
    assert_eq!(parse_at_ms("184467440737095516150x"), None);
    assert_eq!(parse_at_ms(""), None);
    assert_eq!(parse_at_ms("   "), None);
    assert_eq!(parse_at_ms("+"), None);
    assert_eq!(parse_at_ms("++1"), None);
    assert_eq!(parse_at_ms("-1"), None);
    assert_eq!(parse_at_ms("1 2"), None);
    assert_eq!(parse_at_ms("12ms"), None);
}

