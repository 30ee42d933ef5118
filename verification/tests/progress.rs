use termscp::progress::{ProgressStates, TransferStates};

#[test]
fn test_progress_init_and_update() {
    let mut p = ProgressStates::new();
    p.init(100, 5_000);
    assert_eq!(p.total, 100);
    assert_eq!(p.transferred, 0);
    assert_eq!(p.started(), 5_000);
    p.update_progress(40);
    assert_eq!(p.transferred, 40);
    p.update_progress(60);
    assert_eq!(p.transferred, 100);
    assert_eq!(p.calc_progress(), 100);
}

#[test]
fn test_progress_percent_values() {
    let mut p = ProgressStates::new();
    p.init(200, 0);
    assert_eq!(p.calc_progress(), 0);
    p.update_progress(50);
    assert_eq!(p.calc_progress(), 25);
    p.update_progress(49);
    assert_eq!(p.calc_progress(), 49);
    p.update_progress(1);
    assert_eq!(p.calc_progress(), 50);
}

#[test]
fn test_progress_empty_transfer_is_complete() {
    let mut p = ProgressStates::new();
    p.init(0, 0);
    assert_eq!(p.calc_progress(), 100);
}

#[test]
fn test_bytes_per_second_zero_elapsed() {
    // Throughput is finite and non-negative for any elapsed duration,
    // including a duration of zero: the elapsed time is floored to 1 ms.
    let mut p = ProgressStates::new();
    p.init(1000, 7_000);
    p.update_progress(500);
    let bps = p.calc_bytes_per_second(7_000);
    assert_eq!(bps, 500_000);
    let bps_later = p.calc_bytes_per_second(8_000);
    assert_eq!(bps_later, 500);
}

#[test]
fn test_bytes_per_second_nothing_transferred() {
    let mut p = ProgressStates::new();
    p.init(1000, 0);
    assert_eq!(p.calc_bytes_per_second(0), 0);
    assert_eq!(p.calc_bytes_per_second(10_000), 0);
}

#[test]
fn test_transfer_states_reset_clears_abort() {
    let mut t = TransferStates::new();
    assert!(!t.aborted());
    t.abort();
    assert!(t.aborted());
    t.abort();
    assert!(t.aborted());
    t.reset();
    assert!(!t.aborted());
    assert_eq!(t.full.total, 0);
    assert_eq!(t.partial.transferred, 0);
}
