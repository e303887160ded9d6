use std::time::Duration;

use cyclonedds_rs::match_watch::{Look, MatchWatch, Waiting, Watchdog};

fn ms(millis: u64) -> u128 {
    Duration::from_millis(millis).as_nanos()
}

#[test]
fn match_watch_absence_transitions() {
    #[derive(Debug, PartialEq)]
    struct Snapshot {
        is_absent: bool,
        has_deadline: bool,
    }

    let timeout = ms(100);
    let t0 = Duration::from_secs(5).as_nanos();
    let mut watch = MatchWatch::new_at(timeout, t0);

    let steps: Vec<(Option<u32>, u128, Snapshot)> = vec![
        (None, t0, Snapshot { is_absent: false, has_deadline: true }),
        (None, t0 + timeout, Snapshot { is_absent: true, has_deadline: true }),
        (Some(1), t0 + ms(50), Snapshot { is_absent: false, has_deadline: false }),
        (None, t0 + timeout, Snapshot { is_absent: false, has_deadline: false }),
        (Some(0), t0 + ms(60), Snapshot { is_absent: false, has_deadline: true }),
        (
            None,
            t0 + ms(60) + timeout - ms(1),
            Snapshot { is_absent: false, has_deadline: true },
        ),
        (
            None,
            t0 + ms(60) + timeout,
            Snapshot { is_absent: true, has_deadline: true },
        ),
    ];

    for (event, at, expected) in steps {
        if let Some(count) = event {
            watch.update_at(count, at);
        }
        let actual = Snapshot {
            is_absent: watch.is_absent_at(at),
            has_deadline: watch.absence_deadline().is_some(),
        };
        assert_eq!(actual, expected);
    }

    let still_absent_at = t0 + ms(60) + timeout;
    watch.mark_notified();
    assert_eq!(watch.absence_deadline(), None);
    assert!(watch.is_absent_at(still_absent_at));
}

#[test]
fn match_watch_absence_deadline_does_not_overflow() {
    let t0 = Duration::from_secs(5).as_nanos();
    let watch = MatchWatch::new_at(Duration::MAX.as_nanos(), t0);
    assert_eq!(watch.absence_deadline(), None);
    assert!(!watch.is_absent_at(t0 + Duration::from_secs(3600).as_nanos()));
}

#[test]
fn watchdog_notifies_and_forgets_dropped_entries() {
    let mut watchdog: Watchdog<u32> = Watchdog::new();
    watchdog.register(&vec![], 7);
    let alive = vec![Look { alive: true, deadline: Some(ms(50)) }];
    let early = watchdog.scan(&alive, ms(49));
    assert!(early.expired.is_empty());
    assert_eq!(early.nearest, Some(ms(50)));
    let due = watchdog.scan(&alive, ms(50));
    assert_eq!(due.expired, vec![0]);
    assert_eq!(due.nearest, None);

    watchdog.reschedule();
    watchdog.scan(&vec![Look { alive: false, deadline: None }], ms(60));
    assert!(watchdog.entries.is_empty());
}

#[test]
fn watchdog_register_sweeps_dropped_entries() {
    let dropped = 1u32;
    let alive = 2u32;
    let mut watchdog: Watchdog<u32> = Watchdog::new();
    watchdog.register(&vec![], dropped);
    watchdog.register(&vec![false], alive);
    assert!(!watchdog.entries.contains(&dropped));
    assert!(watchdog.entries.contains(&alive));
}

#[test]
fn watchdog_skips_wait_when_registered_between_scan_and_wait() {
    let mut watchdog: Watchdog<u32> = Watchdog::new();
    let scan = watchdog.scan(&vec![], ms(1));
    assert_eq!(scan.nearest, None);
    assert_eq!(
        watchdog.wait_for_next(scan.seen_generation, scan.nearest, ms(1)),
        Waiting::UntilChange
    );

    watchdog.register(&vec![], 3);
    assert_eq!(
        watchdog.wait_for_next(scan.seen_generation, scan.nearest, ms(1)),
        Waiting::Rescan
    );
}

#[test]
fn watchdog_survives_panicking_notify_absence() {
    let mut watchdog: Watchdog<u32> = Watchdog::new();
    watchdog.register(&vec![], 1);
    let scan = watchdog.scan(&vec![Look { alive: true, deadline: Some(ms(9)) }], ms(10));
    assert_eq!(scan.expired, vec![0]);
    let again = watchdog.scan(&vec![Look { alive: true, deadline: Some(ms(9)) }], ms(11));
    assert_eq!(again.nearest, None);
    assert_eq!(watchdog.entries, vec![1]);
}

#[test]
fn scan_finds_the_nearest_deadline_to_come() {
    let mut watchdog: Watchdog<u32> = Watchdog::new();
    watchdog.register(&vec![], 1);
    watchdog.register(&vec![true], 2);
    watchdog.register(&vec![true, true], 3);
    let looks = vec![
        Look { alive: true, deadline: Some(ms(30)) },
        Look { alive: false, deadline: Some(ms(15)) },
        Look { alive: true, deadline: Some(ms(20)) },
    ];
    let scan = watchdog.scan(&looks, ms(10));
    assert_eq!(scan.nearest, Some(ms(20)));
    assert_eq!(watchdog.entries, vec![1, 3]);
    assert_eq!(
        watchdog.wait_for_next(scan.seen_generation, scan.nearest, ms(12)),
        Waiting::AtMost(ms(8))
    );
    assert_eq!(
        watchdog.wait_for_next(scan.seen_generation, scan.nearest, ms(20)),
        Waiting::Rescan
    );
}

#[test]
fn absence_keeps_its_start() {
    let mut watch = MatchWatch::new_at(ms(100), ms(0));
    watch.update_at(0, ms(70));
    assert!(watch.is_absent_at(ms(100)));
    assert_eq!(watch.timeout(), ms(100));
}

#[test]
fn absence_counts_from_the_last_fall() {
    let mut watch = MatchWatch::new_at(ms(100), ms(0));
    watch.update_at(2, ms(10));
    watch.update_at(1, ms(20));
    assert!(!watch.is_absent_at(ms(900)));
    watch.update_at(0, ms(30));
    watch.update_at(0, ms(90));
    assert!(!watch.is_absent_at(ms(129)));
    assert!(watch.is_absent_at(ms(130)));
}
