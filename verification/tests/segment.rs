use netlabs::segment::{
    checksum, checksum_correct, checksum_matches, ParsedRdtSegment, PreparedRdtSegment,
    RdtHeader, SegmentError, SegmentType,
};

const EVEN: [u8; 4] = [10, 20, 30, 40];
const EVEN_DAMAGED: [u8; 4] = [10, 21, 30, 40];
const ODD: [u8; 3] = [10, 20, 30];
const ODD_DAMAGED: [u8; 3] = [10, 20, 31];

#[test]
fn untouched_checksum_correct_even() {
    assert!(checksum_matches(checksum(&EVEN), &EVEN));
}

#[test]
fn touched_checksum_incorrect_even() {
    assert!(!checksum_matches(checksum(&EVEN), &EVEN_DAMAGED));
}

#[test]
fn untouched_checksum_correct_odd() {
    assert!(checksum_matches(checksum(&ODD), &ODD));
}

#[test]
fn touched_checksum_incorrect_odd() {
    assert!(!checksum_matches(checksum(&ODD), &ODD_DAMAGED));
}

#[test]
fn checksum_exact_values() {
    // 0x0A14 + 0x1E28 = 0x283C
    assert_eq!(checksum(&EVEN), 0xFFFF - 0x283C);
    // 0x0A14 + 0x1E = 0x0A32
    assert_eq!(checksum(&ODD), 0xFFFF - 0x0A32);
    assert_eq!(checksum(&[]), 0xFFFF);
    // wrapping: 0xFFFF + 0x0002 = 0x0001 modulo 2^16
    assert_eq!(checksum(&[0xFF, 0xFF, 0x00, 0x02]), 0xFFFF - 0x0001);
}

#[test]
fn written_segment_round_trips() {
    let segment = PreparedRdtSegment::new(RdtHeader::new(SegmentType::Pkt, 1), vec![7, 8, 9]);
    let mut buffer = vec![0xAA; 16];
    let written = segment.write(&mut buffer).unwrap();
    assert_eq!(written, 7);
    assert_eq!(&buffer[2..7], &[1, 1, 7, 8, 9]);
    assert_eq!(buffer[7], 0xAA);
    assert!(checksum_correct(&buffer[..written]));
    let parsed = ParsedRdtSegment::try_from(&buffer[..written]).unwrap();
    assert!(parsed.is_pkt(1));
    assert!(!parsed.is_pkt(0));
    assert!(!parsed.is_ack(1));
    assert_eq!(parsed.data(&buffer), &[7, 8, 9]);
}

#[test]
fn damaged_segment_fails_check() {
    let segment = PreparedRdtSegment::new(RdtHeader::new(SegmentType::Ack, 0), vec![]);
    let mut buffer = vec![0; 4];
    segment.write(&mut buffer).unwrap();
    assert!(checksum_correct(&buffer));
    buffer[3] = 1;
    assert!(!checksum_correct(&buffer));
}

#[test]
fn malformed_segments_are_rejected() {
    assert_eq!(ParsedRdtSegment::try_from(&[0, 0]), Err(SegmentError::IncorrectHeader));
    assert_eq!(ParsedRdtSegment::try_from(&[0, 0, 2]), Err(SegmentError::UnknownSegmentType(2)));
    assert_eq!(ParsedRdtSegment::try_from(&[0, 0, 1]), Err(SegmentError::IncorrectHeader));
    assert_eq!(SegmentType::try_from(5), Err(SegmentError::UnknownSegmentType(5)));
    assert_eq!(SegmentType::try_from(0), Ok(SegmentType::Ack));
}
