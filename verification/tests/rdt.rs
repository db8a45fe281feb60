use netlabs::rdt::{keep_receiving, parse_query, request, Query, RdtConfig, RdtState, RecvStep, SendStep, BUFFER_SIZE};
use netlabs::segment::{checksum_correct, ParsedRdtSegment};

#[test]
fn alternating_bit_sender() {
    assert_eq!(RdtConfig::new(250).timeout_millis, 250);
    assert_eq!(BUFFER_SIZE, 32 * 1024);
    let mut sender = RdtState::new();
    let mut receiver = RdtState::new();
    assert_eq!(sender.seq(), 0);
    let mut out = vec![0u8; 16];
    let n = sender.outgoing(vec![5, 6], &mut out);
    assert_eq!(n, 6);
    assert!(checksum_correct(&out[..n]));
    let accepted = receiver.accept_packet(&out[..n]).unwrap();
    assert_eq!(accepted.data(&out[..n]), &[5, 6]);
    let ack = receiver.ack();
    assert_eq!(ack.len(), 4);
    assert!(sender.is_expected_ack(&ack));
    receiver.received();
    assert_eq!(receiver.seq(), 1);
    assert_eq!(receiver.retransmission(), ack.as_slice());
    sender.sent(&out[..n]);
    assert_eq!(sender.seq(), 1);
    assert_eq!(sender.retransmission(), &out[..n]);
    // the same segment again is not taken twice, and the old ack is not taken as the new one
    assert!(receiver.accept_packet(&out[..n]).is_none());
    assert!(!sender.is_expected_ack(&ack));
}

#[test]
fn damaged_segment_is_refused() {
    let sender = RdtState::new();
    let receiver = RdtState::new();
    let mut out = vec![0u8; 8];
    let n = sender.outgoing(vec![1, 2, 3], &mut out);
    out[5] ^= 0xFF;
    assert!(ParsedRdtSegment::try_from(&out[..n]).is_ok());
    assert!(receiver.accept_packet(&out[..n]).is_none());
    assert!(!sender.is_expected_ack(&out[..n]));
}

#[test]
fn end_of_transfer() {
    assert!(keep_receiving(10, 0));
    assert!(keep_receiving(0, 0));
    assert!(!keep_receiving(0, 5));
    assert!(keep_receiving(3, 5));
}

#[test]
fn file_queries() {
    assert_eq!(request("download", "a.txt"), "download:a.txt");
    assert!(matches!(parse_query("download:a:b"), Query::Download(p) if p == "a:b"));
    assert!(matches!(parse_query("upload:x.bin"), Query::Upload(p) if p == "x.bin"));
    assert!(matches!(parse_query("upload:"), Query::Upload(p) if p.is_empty()));
    assert!(matches!(parse_query("nothing"), Query::Bad));
    assert!(matches!(parse_query("get:x"), Query::Bad));
}

#[test]
fn sender_and_receiver_steps() {
    let mut sender = RdtState::new();
    let mut receiver = RdtState::new();
    let mut out = vec![0u8; 8];
    let n = sender.outgoing(vec![1, 2], &mut out);
    assert_eq!(sender.after_wait(None, &out[..n]), SendStep::Resend);
    assert_eq!(sender.seq(), 0);
    assert_eq!(sender.after_wait(Some(&[0, 0, 0, 0]), &out[..n]), SendStep::RetryPrevious);
    let ack = match receiver.on_datagram(&out[..n]) {
        RecvStep::Accept { ack, data } => {
            assert_eq!(data, vec![1, 2]);
            ack
        }
        RecvStep::Retry => panic!("the expected segment is taken"),
    };
    assert_eq!(receiver.seq(), 1);
    assert!(matches!(receiver.on_datagram(&out[..n]), RecvStep::Retry));
    assert_eq!(sender.after_wait(Some(&ack), &out[..n]), SendStep::Done);
    assert_eq!(sender.seq(), 1);
}
