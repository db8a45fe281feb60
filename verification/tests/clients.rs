use netlabs::clients::{absent_after, is_before, lost_attempts, Clients, Endpoint, Report, Reported, Timestamp};

fn report(attempt: usize, secs: i64) -> Report {
    Report { attempt, time: Timestamp { secs, nanos: 0 } }
}

#[test]
fn endpoint_keys() {
    let e = Endpoint { ip: 0x7F000001, port: 3038 };
    assert_eq!(e.key(), 0x7F000001 * 65536 + 3038);
    assert_eq!(Endpoint::from_key(e.key()), e);
}

#[test]
fn order_of_reports() {
    assert!(is_before(&report(1, 100), &report(2, 50)));
    assert!(is_before(&report(2, 50), &report(2, 51)));
    assert!(!is_before(&report(2, 51), &report(2, 51)));
    assert!(is_before(&Report { attempt: 2, time: Timestamp { secs: 5, nanos: 1 } }, &Report { attempt: 2, time: Timestamp { secs: 5, nanos: 2 } }));
    assert!(!is_before(&report(3, 0), &report(2, 100)));
}

#[test]
fn lost_between_reports() {
    assert_eq!(lost_attempts(&report(1, 0), &report(4, 0)), vec![2, 3]);
    assert!(lost_attempts(&report(1, 0), &report(2, 0)).is_empty());
    assert!(lost_attempts(&report(5, 0), &report(2, 0)).is_empty());
    assert!(lost_attempts(&report(usize::MAX, 0), &report(usize::MAX, 1)).is_empty());
}

#[test]
fn reports_per_client() {
    let a = Endpoint { ip: 1, port: 2 };
    let mut c = Clients::new();
    assert_eq!(c.reported(a, report(1, 0)), Reported::NewClient);
    assert_eq!(c.reported(a, report(4, 3)), Reported::Newer(vec![2, 3]));
    assert_eq!(c.reported(a, report(2, 5)), Reported::Stale);
    assert_eq!(c.replace_previous(a, report(5, 6)), Some(vec![]));
}

#[test]
fn silent_clients_are_dropped() {
    let a = Endpoint { ip: 1, port: 1 };
    let b = Endpoint { ip: 2, port: 2 };
    let mut c = Clients::new();
    c.reported(a, report(3, 1_000));
    c.reported(b, report(7, 1_008));
    let now = Timestamp { secs: 1_010, nanos: 500 };
    assert_eq!(c.absent(now, 10), vec![a]);
    let mut both = c.absent(now, 2);
    both.sort_by_key(|e| e.ip);
    assert_eq!(both, vec![a, b]);
    assert_eq!(c.check_abnormals(now, 10), vec![(a, 3)]);
    assert!(c.absent(now, 10).is_empty());
    assert_eq!(c.check_abnormals(now, 2), vec![(b, 7)]);
}

#[test]
fn seconds_round_toward_zero() {
    let a = Endpoint { ip: 9, port: 9 };
    let mut c = Clients::new();
    c.reported(a, Report { attempt: 1, time: Timestamp { secs: 100, nanos: 900_000_000 } });
    // 9.2 seconds later is 9 whole seconds
    assert!(c.absent(Timestamp { secs: 110, nanos: 100_000_000 }, 10).is_empty());
    assert_eq!(c.absent(Timestamp { secs: 110, nanos: 900_000_000 }, 10), vec![a]);
    // a report from the future is 0 whole seconds old while less than a second ahead
    assert!(c.absent(Timestamp { secs: 100, nanos: 0 }, 0).len() == 1);
    assert!(c.absent(Timestamp { secs: 99, nanos: 0 }, 0).is_empty());
}

#[test]
fn absence_threshold() {
    assert!(absent_after(Some(10), 10));
    assert!(absent_after(Some(11), 10));
    assert!(!absent_after(Some(9), 10));
    assert!(!absent_after(None, 0));
    assert!(absent_after(Some(-3), -5));
}
