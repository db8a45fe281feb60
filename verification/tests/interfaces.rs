use netlabs::interfaces::{
    has_mask, ipv4_to_string, is_ipv4, is_wireless, my_address, show_interface, show_wireless_interfaces,
    to_string_or_unknown, wireless_interfaces, AddressKind, InterfaceInfo,
};

fn v4(name: &str, address: u32, netmask: Option<u32>) -> InterfaceInfo {
    InterfaceInfo::new(name.to_string(), AddressKind::V4 { address, netmask })
}

fn all() -> Vec<InterfaceInfo> {
    vec![
        v4("lo", 0x7F000001, Some(0xFF000000)),
        v4("wireless0", 0xC0A80105, Some(0xFFFFFF00)),
        InterfaceInfo::new("wireless1".to_string(), AddressKind::V6 { address: 1, netmask: Some(2) }),
        v4("wireless2", 0x0A000002, None),
        v4("wireless3", 0x0A000003, Some(0xFFFF0000)),
        v4("wireless4", 0x0A000004, Some(0xFFFFFF00)),
        InterfaceInfo::new("wireless5".to_string(), AddressKind::Mac),
    ]
}

#[test]
fn filters() {
    let list = all();
    assert!(is_ipv4(&list[0]) && has_mask(&list[0]) && !is_wireless(&list[0]));
    assert!(!is_ipv4(&list[2]) && has_mask(&list[2]));
    assert!(!has_mask(&list[3]));
    assert!(!has_mask(&list[6]));
    let kept: Vec<String> = wireless_interfaces(&list).into_iter().map(|i| i.name).collect();
    assert_eq!(kept, vec!["wireless0", "wireless3", "wireless4"]);
}

#[test]
fn widest_netmask_last() {
    assert_eq!(my_address(&all(), 3000), Some((0x0A000004, 3000)));
    assert_eq!(my_address(&all()[..2], 1), Some((0xC0A80105, 1)));
    assert_eq!(my_address(&all()[2..4], 1), None);
    assert_eq!(my_address(&[], 1), None);
}

#[test]
fn shown_text() {
    assert_eq!(ipv4_to_string(0xC0A80105), "192.168.1.5");
    assert_eq!(to_string_or_unknown(None), "unknown");
    assert_eq!(
        show_interface(&v4("wireless0", 0xC0A80105, Some(0xFFFFFF00))),
        "Interface: wireless0\n  IP Address: 192.168.1.5\n  Netmask: 255.255.255.0\n\n"
    );
    assert_eq!(show_interface(&v4("x", 1, None)), "Interface: x\n  IP Address: 0.0.0.1\n  Netmask: unknown\n\n");
    let shown = show_wireless_interfaces(&all());
    assert!(shown.starts_with("Interface: wireless0\n"));
    assert_eq!(shown.matches("Interface: ").count(), 3);
}
