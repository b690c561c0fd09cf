use plcmon::args::{parse_mac_arg, MacArgError};
use plcmon::net::{
    check_bpf_permissions, check_capture_permissions, find_ethernet_iface, get_mac,
    get_mac_ifconfig, get_mac_sysfs, parse_mac, Interface, NetError,
};
use plcmon::protocol::MacAddr;

fn iface(name: &str, has_address: bool) -> Interface {
    Interface { name: name.to_string(), has_address }
}

// -- Addresses ---------------------------------------------------------------------------

#[test]
fn written_addresses_parse() {
    for m in [
        MacAddr([0; 6]),
        MacAddr([0xFF; 6]),
        MacAddr([0x01, 0x23, 0x45, 0x67, 0x89, 0xAB]),
        MacAddr([0xCD, 0xEF, 0x10, 0x0F, 0xF0, 0x99]),
    ] {
        assert_eq!(parse_mac(&m.to_string()), Some(m));
    }
}

#[test]
fn separators_and_case_do_not_matter() {
    let m = Some(MacAddr([0xAA, 0xBB, 0xCC, 0xDD, 0xEE, 0xFF]));
    assert_eq!(parse_mac("AA:BB:CC:DD:EE:FF"), m);
    assert_eq!(parse_mac("aa-bb:CC-dd:ee-Ff"), m);
}

#[test]
fn octets_are_numbers() {
    assert_eq!(parse_mac("1:2:3:4:5:6"), Some(MacAddr([1, 2, 3, 4, 5, 6])));
    assert_eq!(parse_mac("0001:2:3:4:5:+6"), Some(MacAddr([1, 2, 3, 4, 5, 6])));
    assert_eq!(parse_mac("100:2:3:4:5:6"), None);
    assert_eq!(parse_mac("1::3:4:5:6"), None);
    assert_eq!(parse_mac("1:2:3:4:5:+"), None);
    assert_eq!(parse_mac("1:2:3:4:5:++6"), None);
    assert_eq!(parse_mac("1:2:3:4:5:6:7"), None);
    assert_eq!(parse_mac(" 1:2:3:4:5:6"), None);
    assert_eq!(parse_mac("1:2:3:4:5:g"), None);
}

#[test]
fn address_files_are_trimmed() {
    let m = Some(MacAddr([0xD4, 0x6E, 0x0E, 0xF6, 0x96, 0xBF]));
    assert_eq!(get_mac_sysfs("d4:6e:0e:f6:96:bf\n"), m);
    assert_eq!(get_mac_sysfs("\u{3000}\t d4:6e:0e:f6:96:bf \r\n"), m);
    assert_eq!(get_mac_sysfs(""), None);
    assert_eq!(get_mac_sysfs("d4:6e:0e:f6:96:bf x"), None);
}

#[test]
fn ifconfig_reports() {
    let report = "en1: flags=8863<UP>\n\toptions=400<IO>\n\tether d4:6e:0e:f6:96:bf \n\tinet 10.0.0.2\n";
    let m = Some(MacAddr([0xD4, 0x6E, 0x0E, 0xF6, 0x96, 0xBF]));
    assert_eq!(get_mac_ifconfig(report), m);
    assert_eq!(get_mac_ifconfig("  ether d4:6e:0e:f6:96:bf\r\n"), m);
    assert_eq!(get_mac_ifconfig("lo0: flags=8049\n\tinet 127.0.0.1\n"), None);
    // Linux goes on behind the address.
    assert_eq!(
        get_mac_ifconfig("eth0: flags=4163<UP>\n        ether aa:bb:cc:dd:ee:ff  txqueuelen 1000  (Ethernet)\n"),
        Some(MacAddr([0xAA, 0xBB, 0xCC, 0xDD, 0xEE, 0xFF]))
    );
    assert_eq!(get_mac_ifconfig("ether \td4:6e:0e:f6:96:bf\tx"), m);
    assert_eq!(get_mac_ifconfig("ether x d4:6e:0e:f6:96:bf"), None);
    // The first such line decides.
    assert_eq!(get_mac_ifconfig("ether nothing\nether d4:6e:0e:f6:96:bf\n"), None);
    assert_eq!(get_mac_ifconfig("ethernet d4:6e:0e:f6:96:bf\n"), None);
}

#[test]
fn the_address_file_comes_first() {
    let a = MacAddr([1, 2, 3, 4, 5, 6]);
    let b = MacAddr([6, 5, 4, 3, 2, 1]);
    assert_eq!(get_mac(Some("1:2:3:4:5:6\n"), Some("ether 6:5:4:3:2:1")), Some(a));
    assert_eq!(get_mac(Some("none\n"), Some("ether 6:5:4:3:2:1")), Some(b));
    assert_eq!(get_mac(None, Some("ether 6:5:4:3:2:1")), Some(b));
    assert_eq!(get_mac(Some("none"), None), None);
    assert_eq!(get_mac(None, None), None);
}

#[test]
fn address_arguments() {
    assert_eq!(parse_mac_arg("AA:BB:CC:DD:EE:FF").unwrap(), MacAddr([0xAA, 0xBB, 0xCC, 0xDD, 0xEE, 0xFF]));
    assert_eq!(parse_mac_arg("aa-bb-cc-dd-ee-ff").unwrap(), MacAddr([0xAA, 0xBB, 0xCC, 0xDD, 0xEE, 0xFF]));
    let e = parse_mac_arg("AA:BB").unwrap_err();
    assert!(matches!(e, MacArgError::Format(_)));
    assert_eq!(e.to_string(), "Invalid MAC address: AA:BB\nExpected format: AA:BB:CC:DD:EE:FF");
    let e = parse_mac_arg("AA:BB:xyz:DD:EE:GG").unwrap_err();
    assert!(matches!(e, MacArgError::Hex(_)));
    assert_eq!(e.to_string(), "Invalid hex in MAC address: xyz");
    assert_eq!(parse_mac_arg("1-2-3-4-5-é!").unwrap_err().to_string(), "Invalid hex in MAC address: é!");
    assert_eq!(parse_mac_arg("::::1:").unwrap_err().to_string(), "Invalid hex in MAC address: ");
}

// -- Interfaces ------------------------------------------------------------------------------

#[test]
fn ethernet_is_preferred() {
    let devs = vec![
        iface("wlan0", true),
        iface("eth1", false),
        iface("enp3s0", true),
        iface("eth0", true),
    ];
    assert_eq!(find_ethernet_iface(&devs).unwrap(), "enp3s0");
}

#[test]
fn any_other_interface_will_do() {
    let devs = vec![iface("lo", true), iface("eth0", false), iface("wlan0", true)];
    assert_eq!(find_ethernet_iface(&devs).unwrap(), "wlan0");
}

#[test]
fn no_interface() {
    let devs = vec![iface("lo0", true), iface("en0", false)];
    let e = find_ethernet_iface(&devs).unwrap_err();
    assert!(matches!(e, NetError::NoInterface));
    assert_eq!(e.to_string(), "no suitable network interface found (need wired Ethernet)");
    assert!(find_ethernet_iface(&Vec::new()).is_err());
}

// -- Permissions --------------------------------------------------------------------------------

#[test]
fn capturing_needs_root_or_a_capability() {
    assert!(check_capture_permissions(0, Some("")).is_ok());
    assert!(check_capture_permissions(1000, None).is_ok());
    assert!(check_capture_permissions(1000, Some("1: cap_net_raw=ep")).is_ok());
    let e = check_capture_permissions(1000, Some("1: =")).unwrap_err();
    assert!(matches!(e, NetError::PermissionDenied(_)));
    assert_eq!(
        e.to_string(),
        "Raw capture not permitted — run:  sudo plcmon setup\n(grants cap_net_raw so you can capture without root)"
    );
}

#[test]
fn capturing_needs_bpf_devices() {
    assert!(check_bpf_permissions(false).is_ok());
    assert_eq!(
        check_bpf_permissions(true).unwrap_err().to_string(),
        "BPF devices not accessible — run:  sudo plcmon setup\n(creates access_bpf group so you can capture without root)"
    );
}

#[test]
fn error_texts() {
    assert_eq!(NetError::Pcap("no such device".to_string()).to_string(), "pcap: no such device");
    assert_eq!(NetError::NoMacAddr("eth0".to_string()).to_string(), "interface eth0 has no MAC address");
}
