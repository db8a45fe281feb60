use netlabs::message_types::{DstUnreachableCode, MessageCode, MessageType};
use netlabs::trace::Message;
use netlabs::traceroute::{classify, reached, report_host, rtt_column, sequence_number, target_text, HopHost, Response};

fn message(typ: MessageType, code: MessageCode, source: u32) -> Message {
    let mut m = Message::new(typ, code, 122, 1, vec![]);
    m.ip.source = source;
    m
}

#[test]
fn probe_answers() {
    match classify(None, 5) {
        Response::Lost(t) => assert_eq!(t, "Request timed out."),
        _ => panic!(),
    }
    let refused = message(MessageType::DestinationUnreachable, MessageCode::DestinationUnreachable(DstUnreachableCode::PortUnreachable), 7);
    match classify(Some(refused), 5) {
        Response::Lost(t) => assert_eq!(t, "Port Unreachable"),
        _ => panic!(),
    }
    let r = classify(Some(message(MessageType::TimeExceeded, MessageCode::NoCode, 7)), 12);
    assert_eq!(r.rtt(), Some(12));
    assert_eq!(r.addr(), Some(7));
    assert!(!r.is_target());
    let t = classify(Some(message(MessageType::EchoReply, MessageCode::NoCode, 8)), 3);
    assert!(t.is_target());
}

#[test]
fn hop_line() {
    assert_eq!(rtt_column(Some(12)), "    12 ms");
    assert_eq!(rtt_column(None), "     *   ");
    assert_eq!(rtt_column(Some(123456789)), "123456789 ms");
    let responses = vec![
        Response::Lost("a".to_string()),
        Response::Received(4, message(MessageType::TimeExceeded, MessageCode::NoCode, 7)),
        Response::Received(5, message(MessageType::EchoReply, MessageCode::NoCode, 8)),
    ];
    assert!(reached(&responses));
    assert!(matches!(report_host(&responses), HopHost::Addr(7)));
    let lost = vec![Response::Lost("a".to_string()), Response::Lost("b".to_string())];
    assert!(!reached(&lost));
    match report_host(&lost) {
        HopHost::Error(e) => assert_eq!(e, "b"),
        HopHost::Addr(_) => panic!(),
    }
    assert_eq!(lost[0].unwrap_err(), "a");
}

#[test]
fn numbering_and_target() {
    assert_eq!(sequence_number(2, 3, 1), 7);
    assert_eq!(target_text("8.8.8.8", "8.8.8.8"), "8.8.8.8");
    assert_eq!(target_text("dns.google", "8.8.8.8"), "dns.google [8.8.8.8]");
}

#[test]
fn probe_data() {
    let m = netlabs::traceroute::message();
    assert_eq!(m, "*".repeat(64));
}
