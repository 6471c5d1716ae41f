use atp_router::window::PRESSURE_MILLIS;
use atp_router::{Window, WindowState, WindowTable};

fn small() -> Window {
    Window { max_parallel: 1, max_tokens: 100, max_usd_micros: 100 }
}

#[test]
fn admission_then_rejection() {
    let mut t = WindowTable::new();
    let w = small();
    assert!(t.try_admit("s", "a", &w, 50, 50));
    assert!(!t.try_admit("s", "a", &w, 1, 1));
    t.ack("s", "a", 50, 50);
    assert!(t.try_admit("s", "a", &w, 50, 50));
}

#[test]
fn admit_then_ack_restores_the_counts() {
    let mut t = WindowTable::new();
    let w = Window { max_parallel: 4, max_tokens: 1000, max_usd_micros: 1000 };
    assert!(t.try_admit("s", "a", &w, 10, 20));
    let before = t.state("s", "a");
    assert_eq!(
        before,
        Some(WindowState { inflight: 1, tokens: 10, usd: 20, last_backpressure: None })
    );
    assert!(t.try_admit("s", "a", &w, 300, 400));
    assert_eq!(
        t.state("s", "a"),
        Some(WindowState { inflight: 2, tokens: 310, usd: 420, last_backpressure: None })
    );
    t.ack("s", "a", 300, 400);
    assert_eq!(t.state("s", "a"), before);
}

#[test]
fn failed_admission_changes_nothing_but_creates_the_entry() {
    let mut t = WindowTable::new();
    assert_eq!(t.state("s", "a"), None);
    assert!(!t.try_admit("s", "a", &small(), 101, 0));
    assert_eq!(
        t.state("s", "a"),
        Some(WindowState { inflight: 0, tokens: 0, usd: 0, last_backpressure: None })
    );
    assert!(!t.try_admit("s", "a", &small(), 0, 101));
    assert!(t.try_admit("s", "a", &small(), 100, 100));
}

#[test]
fn admission_is_per_stream() {
    let mut t = WindowTable::new();
    assert!(t.try_admit("s", "a", &small(), 100, 100));
    assert!(t.try_admit("s", "b", &small(), 100, 100));
    assert!(t.try_admit("sa", "", &small(), 100, 100));
    assert!(!t.try_admit("s", "a", &small(), 0, 0));
}

#[test]
fn admission_near_the_largest_numbers() {
    let mut t = WindowTable::new();
    let w = Window { max_parallel: 2, max_tokens: u64::MAX, max_usd_micros: u64::MAX };
    assert!(t.try_admit("s", "a", &w, u64::MAX, 1));
    assert!(!t.try_admit("s", "a", &w, 1, 1));
    assert!(t.try_admit("s", "a", &w, 0, u64::MAX - 1));
}

#[test]
fn ack_never_goes_below_zero() {
    let mut t = WindowTable::new();
    assert!(t.try_admit("s", "a", &small(), 5, 5));
    t.ack("s", "a", 50, 2);
    assert_eq!(
        t.state("s", "a"),
        Some(WindowState { inflight: 0, tokens: 0, usd: 3, last_backpressure: None })
    );
    t.ack("s", "a", 1, 1);
    assert_eq!(
        t.state("s", "a"),
        Some(WindowState { inflight: 0, tokens: 0, usd: 2, last_backpressure: None })
    );
}

#[test]
fn ack_of_an_unknown_stream_does_nothing() {
    let mut t = WindowTable::new();
    t.ack("s", "a", 1, 1);
    assert_eq!(t.state("s", "a"), None);
}

#[test]
fn pressure_lasts_less_than_two_seconds() {
    assert_eq!(PRESSURE_MILLIS, 2000);
    let mut t = WindowTable::new();
    assert!(!t.under_pressure("s", "a", 10));
    t.mark_backpressure("s", "a", 10);
    assert!(!t.under_pressure("s", "a", 10));
    assert!(t.try_admit("s", "a", &small(), 1, 1));
    assert!(!t.under_pressure("s", "a", 10));
    t.mark_backpressure("s", "a", 1000);
    assert!(t.under_pressure("s", "a", 1000));
    assert!(t.under_pressure("s", "a", 2999));
    assert!(!t.under_pressure("s", "a", 3000));
    assert!(!t.under_pressure("s", "b", 1000));
    assert_eq!(t.state("s", "a").unwrap().last_backpressure, Some(1000));
}

#[test]
fn streams_with_colons_in_their_names_are_kept_apart() {
    let mut t = WindowTable::new();
    assert!(t.try_admit("a:b", "c", &small(), 100, 100));
    assert!(t.try_admit("a", "b:c", &small(), 100, 100));
    assert!(t.try_admit("a:", "b:c", &small(), 100, 100));
    assert!(t.try_admit("", "a:b:c", &small(), 100, 100));
    assert!(t.try_admit("1", "1:x", &small(), 100, 100));
    assert!(t.try_admit("11:x", "", &small(), 100, 100));
    assert!(t.try_admit("\u{e9}\u{e9}", "z", &small(), 100, 100));
    assert!(t.try_admit("\u{e9}", "\u{e9}z", &small(), 100, 100));
    assert!(!t.try_admit("a:b", "c", &small(), 0, 0));
    t.ack("a", "b:c", 100, 100);
    assert_eq!(t.state("a", "b:c").unwrap().inflight, 0);
    assert_eq!(t.state("a:b", "c").unwrap().inflight, 1);
    assert_eq!(t.state("a:b:c", ""), None);
}

#[test]
fn many_streams() {
    let mut t = WindowTable::new();
    for i in 0..2000u64 {
        assert!(t.try_admit(&format!("s{}", i), &format!("t{}", i % 7), &small(), i % 100, 1));
    }
    for i in 0..2000u64 {
        assert_eq!(
            t.state(&format!("s{}", i), &format!("t{}", i % 7)),
            Some(WindowState { inflight: 1, tokens: i % 100, usd: 1, last_backpressure: None })
        );
    }
}
