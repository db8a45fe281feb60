use netlabs::scanning::open_ports;

#[test]
fn open_ports_ascending() {
    assert_eq!(open_ports(&[(80, true), (22, true), (443, false), (21, true)]), vec![21, 22, 80]);
    assert_eq!(open_ports(&[(5, false)]), Vec::<u16>::new());
    assert_eq!(open_ports(&[]), Vec::<u16>::new());
    assert_eq!(open_ports(&[(7, true), (7, true), (1, true)]), vec![1, 7, 7]);
}
