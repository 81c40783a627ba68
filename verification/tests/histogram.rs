use sim_scheduler::histogram::DurationHistogram;
use sim_scheduler::plugins::logs::{log_line, DisplayLogs};
use sim_scheduler::time::Duration;

#[test]
fn empty_histogram_says_so() {
    let h = DurationHistogram::new();
    assert_eq!(h.describe(), "no data yet");
}

#[test]
fn histogram_counts_and_averages() {
    let mut h = DurationHistogram::new();
    h.add(Duration::from_ticks(0));
    assert_eq!(h.describe(), "1 count, min 0, mean 0, max 0");
    h.add(Duration::from_ticks(1205));
    h.add(Duration::from_ticks(10));
    assert_eq!(h.describe(), "3 count, min 0, mean 405, max 1205");
}

#[test]
fn histogram_total_does_not_overflow() {
    let mut h = DurationHistogram::new();
    h.add(Duration::from_ticks(u64::MAX));
    h.add(Duration::from_ticks(u64::MAX));
    h.add(Duration::from_ticks(u64::MAX - 1));
    assert_eq!(
        h.describe(),
        "3 count, min 18446744073709551614, mean 18446744073709551614, max 18446744073709551615"
    );
}

#[test]
fn log_panel_switches() {
    let mut d = DisplayLogs::new();
    assert!(!d.draw());
    assert!(!d.event(false));
    assert!(!d.draw());
    assert!(d.event(true));
    assert!(d.draw());
    // Shown: the answer now says whether the scroller is done.
    assert!(d.event(false));
    assert!(d.draw());
    assert!(!d.event(true));
    assert!(!d.draw());
}

#[test]
fn log_lines() {
    assert_eq!(
        log_line("WARN", "sim::scheduler", "late by 3"),
        "[WARN] [sim::scheduler] late by 3"
    );
    assert_eq!(log_line("", "", ""), "[] [] ");
}
