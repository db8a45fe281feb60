use netlabs::control::{checksum, header_can_parse, parse_ip_length, show_error_text, IcmpHeader};
use netlabs::echo;
use netlabs::message_types::{DstUnreachableCode, MessageCode, MessageError, MessageType};
use netlabs::trace;

fn ip_header(source: [u8; 4]) -> Vec<u8> {
    let mut ip = vec![0u8; 20];
    ip[0] = 0x45;
    ip[12..16].copy_from_slice(&source);
    ip
}

#[test]
fn message_type_bytes() {
    assert_eq!(MessageType::parse(0), Ok(MessageType::EchoReply));
    assert_eq!(MessageType::parse(3), Ok(MessageType::DestinationUnreachable));
    assert_eq!(MessageType::parse(8), Ok(MessageType::Echo));
    assert_eq!(MessageType::parse(11), Ok(MessageType::TimeExceeded));
    assert_eq!(MessageType::parse(5), Err(MessageError::UnknownMessageType(5)));
    assert_eq!(MessageType::Echo.to_byte(), 8);
    assert!(MessageType::DestinationUnreachable.unreachable());
    assert!(MessageType::TimeExceeded.time_exceeded());
    assert!(!MessageType::Echo.unreachable());
}

#[test]
fn message_codes() {
    assert_eq!(
        MessageCode::parse(MessageType::DestinationUnreachable, 3),
        Ok(MessageCode::DestinationUnreachable(DstUnreachableCode::PortUnreachable))
    );
    assert_eq!(MessageCode::parse(MessageType::EchoReply, 0), Ok(MessageCode::NoCode));
    assert_eq!(
        MessageCode::parse(MessageType::DestinationUnreachable, 16),
        Err(MessageError::UnknownMessageCode(MessageType::DestinationUnreachable, 16))
    );
    assert_eq!(DstUnreachableCode::PortUnreachable.description(), "Port Unreachable");
    assert_eq!(DstUnreachableCode::from_repr(13), Some(DstUnreachableCode::CommunicationProhibited));
}

#[test]
fn error_texts() {
    assert_eq!(
        show_error_text(MessageType::DestinationUnreachable, MessageCode::DestinationUnreachable(DstUnreachableCode::HostUnreachable)),
        "Host Unreachable"
    );
    assert_eq!(show_error_text(MessageType::TimeExceeded, MessageCode::NoCode), "Time to Live exceeded in Transit.");
    assert_eq!(show_error_text(MessageType::EchoReply, MessageCode::NoCode), "Request timed out.");
}

#[test]
fn ip_length_and_headers() {
    assert_eq!(parse_ip_length(0x45), 20);
    assert_eq!(parse_ip_length(0x4F), 60);
    let h = IcmpHeader::parse(&[0, 0, 0xAB, 0xCD, 0, 122, 0, 7]).unwrap();
    assert_eq!((h.typ, h.id, h.seq), (MessageType::EchoReply, 122, 7));
    assert_eq!(IcmpHeader::parse(&[0, 0, 0, 0, 0, 122]), Err(MessageError::UnexpectedEnd));
    assert!(header_can_parse(&[0, 0, 0, 0]));
    assert!(!header_can_parse(&[0, 0, 0]));
    assert!(header_can_parse(&[5]));
    assert!(!header_can_parse(&[]));
}

#[test]
fn written_request_is_sealed() {
    let m = trace::Message::new(MessageType::Echo, MessageCode::NoCode, 122, 1, vec![1, 2, 3]);
    let mut buffer = vec![];
    m.write(&mut buffer).unwrap();
    assert_eq!(buffer, vec![8, 0, 246, 127, 0, 122, 0, 1, 1, 2, 3]);
    assert_eq!(checksum(&buffer), 0);
    let e = echo::Message::new(MessageType::Echo, MessageCode::NoCode, 122, 1, vec![1, 2]);
    let mut buffer = vec![9, 9];
    e.write(&mut buffer).unwrap();
    assert_eq!(buffer, vec![8, 0, 246, 130, 0, 122, 0, 1, 1, 2]);
    assert_eq!(checksum(&buffer), 0);
}

#[test]
fn echo_reply_read_back() {
    let mut data = ip_header([10, 0, 0, 1]);
    data.extend_from_slice(&[0, 0, 0, 0, 0, 122, 0, 4, 42, 43]);
    assert!(trace::Message::can_parse(&data));
    let m = trace::Message::parse(&data).unwrap();
    assert!(m.ours(122, 4));
    assert!(!m.ours(122, 5));
    assert!(!m.failure());
    assert_eq!(m.source(), 0x0A000001);
    assert_eq!(m.data, vec![42, 43]);
    assert!(echo::Message::can_parse(&data));
    let e = echo::Message::parse(&data).unwrap();
    assert!(e.ours(122, 4));
    assert_eq!(e.len(), 2);
}

#[test]
fn error_report_names_the_request() {
    let mut inner = ip_header([10, 0, 0, 9]);
    inner.extend_from_slice(&[8, 0, 0, 0, 0, 122, 0, 9]);
    let mut data = ip_header([192, 168, 0, 1]);
    data.extend_from_slice(&[11, 0, 0, 0, 0, 0, 0, 0]);
    data.extend_from_slice(&inner);
    assert!(trace::Message::can_parse(&data));
    let m = trace::Message::parse(&data).unwrap();
    assert!(m.failure());
    assert!(!m.rejected());
    assert!(m.ours(122, 9));
    assert_eq!(m.source(), 0xC0A80001);
    assert_eq!(m.show_error(), "Time to Live exceeded in Transit.");
}

#[test]
fn unreachable_report() {
    let mut inner = ip_header([10, 0, 0, 9]);
    inner.extend_from_slice(&[8, 0, 0, 0, 0, 122, 0, 3]);
    let mut data = ip_header([10, 0, 0, 1]);
    data.extend_from_slice(&[3, 1, 0, 0, 0, 0, 0, 0]);
    data.extend_from_slice(&inner);
    let m = trace::Message::parse(&data).unwrap();
    assert!(m.rejected());
    assert_eq!(m.show_error(), "Host Unreachable");
    let e = echo::Message::parse(&data).unwrap();
    assert!(e.failure());
    assert!(e.ours(122, 3));
    assert_eq!(e.show_error(), "Host Unreachable");
}

#[test]
fn short_datagrams() {
    assert!(!trace::Message::can_parse(&[0x45; 5]));
    assert!(trace::Message::can_parse(&[0x45; 14]));
    assert_eq!(trace::Message::parse(&[0x45; 14]).err(), Some(MessageError::IpHeaderTooShort));
    let mut data = ip_header([1, 2, 3, 4]);
    data.extend_from_slice(&[42, 0, 0, 0, 0, 0, 0, 0]);
    assert_eq!(trace::Message::parse(&data).err(), Some(MessageError::UnknownMessageType(42)));
    assert!(!echo::Message::can_parse(&[]));
}

#[test]
fn echo_padding() {
    let m = echo::ping_message("Ping 1 12:00:00.000");
    assert_eq!(m.len(), 64);
    assert!(m.starts_with("Ping 1 12:00:00.000*"));
    assert!(m.ends_with("**"));
    assert_eq!(echo::ping_message(&"x".repeat(64)), "x".repeat(64));
}

#[test]
fn message_error_texts() {
    assert_eq!(MessageType::parse(5).unwrap_err().text(), "Unknown message type: 5");
    assert_eq!(
        MessageCode::parse(MessageType::DestinationUnreachable, 16).err().unwrap().text(),
        "Unknown message code for Destination Unreachable: 16"
    );
    assert_eq!(MessageError::UnexpectedEnd.text(), "failed to fill whole buffer");
    assert_eq!(MessageError::IpHeaderTooShort.text(), "IP header too short");
}
