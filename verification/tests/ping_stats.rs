use netlabs::ping_stats::{Reply, Session, Stats};

fn stats() -> Stats {
    let mut s = Stats::new(Session::new("127.0.0.1:3037".to_string(), 32));
    s.received(32, "127.0.0.1:3037".to_string(), 10);
    s.lost();
    s.received(32, "127.0.0.1:3037".to_string(), 31);
    s
}

#[test]
fn counts_and_times() {
    let s = stats();
    assert_eq!(s.sent_packets(), 3);
    assert_eq!(s.received_packets(), 2);
    assert_eq!(s.lost_packets(), 1);
    assert_eq!(s.loss(), 33);
    assert_eq!(s.minimum_rtt(), 10);
    assert_eq!(s.maximum_rtt(), 31);
    assert_eq!(s.average_rtt(), 20);
    assert_eq!(s.rtts().len(), 2);
    assert_eq!(s.session().bytes, 32);
}

#[test]
fn nothing_answered() {
    let mut s = Stats::new(Session::new("h".to_string(), 1));
    s.lost();
    assert_eq!(s.loss(), 100);
    assert_eq!(s.minimum_rtt(), 0);
    assert_eq!(s.maximum_rtt(), 0);
    assert_eq!(s.average_rtt(), 0);
    assert_eq!(
        s.to_string(),
        "\nPing statistics for h:\n\tPackets: Sent = 1, Received = 0, Lost = 1 (100% loss),\n\n"
    );
}

#[test]
fn lines_shown() {
    assert_eq!(
        Session::new("127.0.0.1:3037".to_string(), 32).to_string(),
        "Pinging 127.0.0.1:3037 with 32 bytes of data:"
    );
    assert_eq!(Reply::new("1.2.3.4:5".to_string(), 32, 7).to_string(), "Reply from 1.2.3.4:5: bytes=32 time=7ms");
    assert_eq!(
        stats().to_string(),
        "\nPing statistics for 127.0.0.1:3037:\n\tPackets: Sent = 3, Received = 2, Lost = 1 (33% loss),\nApproximate round trip times in milli-seconds:\n\tMinimum = 10ms, Maximum = 31ms, Average = 20ms\n\n"
    );
}

#[test]
fn request_text() {
    assert_eq!(netlabs::ping_stats::message(), "Lorem ipsum dolor sit amet orci.");
}
