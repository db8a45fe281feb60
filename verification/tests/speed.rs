use netlabs::endian::{from_be_bytes, to_be_bytes};
use netlabs::speed::{MeasureConfig, MeasureError, MeasuringState, RandomTraffic, HEADER_SIZE};

#[test]
fn big_endian_numbers() {
    assert_eq!(from_be_bytes(&[1, 2]), 0x0102);
    assert_eq!(from_be_bytes(&[]), 0);
    assert_eq!(to_be_bytes(0x0102, 4), vec![0, 0, 1, 2]);
    assert_eq!(from_be_bytes(&to_be_bytes(u128::MAX, 16)), u128::MAX);
}

#[test]
fn datagrams_carry_the_header() {
    let mut t = RandomTraffic::new(100);
    assert!(t.datagram().is_empty());
    t.fill(1_700_000_000_123, 10);
    let d = t.datagram();
    assert_eq!(d.len(), 100);
    assert_eq!(&d[..16], &1_700_000_000_123u128.to_be_bytes());
    assert_eq!(&d[16..24], &100u64.to_be_bytes());
    assert_eq!(&d[24..32], &10u64.to_be_bytes());
    let config = MeasureConfig::parse(d).unwrap();
    assert_eq!(config, MeasureConfig { start_millis: 1_700_000_000_123, size: 100, repeats: 10 });
    let mut small = RandomTraffic::new(8);
    small.fill(1, 1);
    assert_eq!(small.datagram().len(), HEADER_SIZE);
}

#[test]
fn header_errors() {
    assert_eq!(MeasureConfig::parse(&[0; 31]), Err(MeasureError::UnexpectedEnd));
    assert_eq!(MeasureConfig::size(), 32);
    let c = MeasureConfig { start_millis: 1000, size: 10, repeats: 3 };
    assert_eq!(c.millis_elapsed(1500), Ok(500));
    assert_eq!(c.millis_elapsed(999), Err(MeasureError::ClockBehind));
}

#[test]
fn rate_is_bytes_per_second() {
    let c = MeasureConfig { start_millis: 1000, size: 10, repeats: 3 };
    let mut s = MeasuringState::new(0, 0, 0, 0);
    s.set_total(30);
    s.received(&c, 10, 1000).unwrap();
    assert_eq!(s, MeasuringState { bps: 0, received: 10, packets: 1, total: 30 });
    s.received(&c, 490, 1500).unwrap();
    assert_eq!(s.bps, 1000);
    assert_eq!(s.received(&c, 5, 10), Err(MeasureError::ClockBehind));
    assert_eq!(s.received, 505);
    assert_eq!(s.packets, 3);
    s.reset();
    assert_eq!(s, MeasuringState { bps: 0, received: 0, packets: 0, total: 30 });
}

#[test]
fn measure_error_texts() {
    assert_eq!(MeasureError::UnexpectedEnd.text(), "failed to fill whole buffer");
    assert_eq!(MeasureError::ClockBehind.text(), "second time provided was later than self");
}
