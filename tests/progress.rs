use redfoxtool::progress::{attempts_per_second, SimpleProgress};

#[test]
fn test_simple_progress() {
    let mut progress = SimpleProgress::new(500, 0);

    let mut due = Vec::new();
    for i in 0..5u64 {
        due.push(progress.update(100, (i + 1) * 300));
    }
    assert_eq!(due, vec![false, false, false, true, false]);
    assert_eq!(progress.current(), 500);

    progress.finish();
    assert_eq!(progress.current(), progress.total());
}

#[test]
fn eta_follows_the_rate_so_far() {
    let mut p = SimpleProgress::new(1000, 10_000);
    assert_eq!(p.estimate_eta(10_500), None);
    p.update(100, 12_000);
    assert_eq!(p.estimate_eta(12_000), Some(18_000));
    p.update(900, 13_000);
    assert_eq!(p.estimate_eta(13_000), Some(0));
    assert_eq!(p.elapsed_ms(9_000), 0);
}

#[test]
fn throughput_per_second() {
    assert_eq!(attempts_per_second(500, 2_000), 250);
    assert_eq!(attempts_per_second(7, 0), 0);
    assert_eq!(attempts_per_second(1, 3), 333);
}
