use mdns_responder::address::{format_ipv4, select_address, str_contains, AdapterInfo, IpEntry};

fn adapter(desc: &str, ips: &[IpEntry]) -> AdapterInfo {
    AdapterInfo { description: desc.to_string(), addresses: ips.to_vec() }
}

#[test]
fn explicit_override_wins() {
    let adapters = vec![adapter("Ethernet", &[IpEntry::V4(192, 168, 1, 50)])];
    let r = select_address(&Some("10.0.0.5".to_string()), &adapters);
    assert_eq!(r.unwrap(), "10.0.0.5");
    // even with no adapters at all
    let r2 = select_address(&Some("10.0.0.5".to_string()), &Vec::new());
    assert_eq!(r2.unwrap(), "10.0.0.5");
}

#[test]
fn empty_override_is_ignored() {
    let adapters = vec![adapter("Ethernet", &[IpEntry::V4(192, 168, 1, 50)])];
    let r = select_address(&Some(String::new()), &adapters);
    assert_eq!(r.unwrap(), "192.168.1.50");
}

#[test]
fn skips_virtual_adapters_and_public_addresses() {
    let adapters = vec![
        adapter("Hyper-V Switch", &[IpEntry::V4(10, 0, 0, 1)]),
        adapter("Ethernet", &[IpEntry::V4(8, 8, 8, 8), IpEntry::V4(192, 168, 1, 50)]),
    ];
    let r = select_address(&None, &adapters);
    assert_eq!(r.unwrap(), "192.168.1.50");
}

#[test]
fn skips_marked_descriptions() {
    for marker in ["Virtual", "VPN", "Hyper-V", "Bluetooth"] {
        let desc = format!("Some {} Device", marker);
        let adapters = vec![
            adapter(&desc, &[IpEntry::V4(10, 1, 2, 3)]),
            adapter("Realtek PCIe", &[IpEntry::V4(10, 9, 9, 9)]),
        ];
        let r = select_address(&None, &adapters);
        assert_eq!(r.unwrap(), "10.9.9.9");
    }
}

#[test]
fn skips_adapters_without_addresses() {
    let adapters = vec![
        adapter("Ethernet A", &[]),
        adapter("Ethernet B", &[IpEntry::V4(172, 16, 0, 2)]),
    ];
    let r = select_address(&None, &adapters);
    assert_eq!(r.unwrap(), "172.16.0.2");
}

#[test]
fn private_range_boundaries() {
    let pick = |a, b, c, d| {
        select_address(&None, &vec![adapter("Eth", &[IpEntry::V4(a, b, c, d)])])
    };
    assert_eq!(pick(10, 0, 0, 1).unwrap(), "10.0.0.1");
    assert_eq!(pick(172, 16, 0, 1).unwrap(), "172.16.0.1");
    assert_eq!(pick(172, 31, 255, 255).unwrap(), "172.31.255.255");
    assert!(pick(172, 15, 0, 1).is_none());
    assert!(pick(172, 32, 0, 1).is_none());
    assert_eq!(pick(192, 168, 0, 255).unwrap(), "192.168.0.255");
    assert!(pick(192, 167, 0, 1).is_none());
    assert!(pick(8, 8, 8, 8).is_none());
}

#[test]
fn no_adapter_yields_probe_fallback() {
    assert!(select_address(&None, &Vec::new()).is_none());
    let adapters = vec![adapter("Ethernet", &[IpEntry::Other])];
    assert!(select_address(&None, &adapters).is_none());
}

#[test]
fn formats_dotted_quads() {
    assert_eq!(format_ipv4(8, 8, 8, 8), "8.8.8.8");
    assert_eq!(format_ipv4(192, 168, 1, 50), "192.168.1.50");
    assert_eq!(format_ipv4(0, 0, 0, 0), "0.0.0.0");
    assert_eq!(format_ipv4(255, 255, 255, 255), "255.255.255.255");
    assert_eq!(format_ipv4(10, 20, 30, 40), "10.20.30.40");
}

#[test]
fn substring_search_is_case_sensitive() {
    assert!(str_contains("Hyper-V Virtual Switch", "Hyper-V"));
    assert!(!str_contains("hyper-v switch", "Hyper-V"));
    assert!(str_contains("abc", ""));
    assert!(!str_contains("ab", "abc"));
}
