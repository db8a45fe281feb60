use netlabs::clients::Endpoint;
use netlabs::licensed::{KnownCopies, Message, MAGIC};

#[test]
fn messages_read_and_write() {
    assert_eq!(Message::parse(&[MAGIC, 0]), Some(Message::Started));
    assert_eq!(Message::parse(&[0xD6, 1]), Some(Message::Running));
    assert_eq!(Message::parse(&[0xD6, 2, 9]), Some(Message::Stopped));
    assert_eq!(Message::parse(&[0xD6, 3]), None);
    assert_eq!(Message::parse(&[0xD5, 1]), None);
    assert_eq!(Message::parse(&[0xD6]), None);
    for m in [Message::Started, Message::Running, Message::Stopped] {
        let mut buffer = vec![0, 0, 7];
        m.serialize(&mut buffer);
        assert_eq!(buffer[2], 7);
        assert_eq!(Message::parse(&buffer), Some(m));
    }
    let mut buffer = vec![0, 0];
    Message::Stopped.serialize(&mut buffer);
    assert_eq!(buffer, vec![0xD6, 2]);
}

#[test]
fn copies_come_and_go() {
    let a = Endpoint { ip: 0x0A000001, port: 4000 };
    let b = Endpoint { ip: 0x0A000002, port: 4000 };
    let mut copies = KnownCopies::new();
    assert_eq!(copies.handle_message(Message::Started, a, 100), Some(Message::Running));
    assert!(copies.contains(a));
    assert_eq!(copies.handle_message(Message::Running, b, 200), None);
    assert!(copies.contains(b));
    assert_eq!(copies.handle_message(Message::Stopped, a, 300), None);
    assert!(!copies.contains(a));
    assert!(copies.contains(b));
}

#[test]
fn silent_copies_are_pruned() {
    let a = Endpoint { ip: 1, port: 1 };
    let b = Endpoint { ip: 2, port: 2 };
    let mut copies = KnownCopies::new();
    copies.record_running(a, 0);
    copies.record_running(b, 1_500_000_000);
    copies.prune(2_000_000_001, 1000);
    assert!(!copies.contains(a));
    assert!(copies.contains(b));
    copies.prune(2_500_000_000, 1000);
    assert!(copies.contains(b));
    copies.prune(1_000, 1000);
    assert!(copies.contains(b));
}
