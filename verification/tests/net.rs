use lanmap::arp::parse_arp_table;
use lanmap::iface::{detect_subnet, is_vpn_iface, Interface};
use lanmap::ipv4::{
    format_ipv4, ipv4_from_octets, ipv4_octets, parse_ipv4, parse_subnet_arg, Subnet, SubnetArgError,
};
use lanmap::mac::{format_mac, lookup_vendor, parse_mac_chars};
use lanmap::oui::Vendor;

fn ip(a: u8, b: u8, c: u8, d: u8) -> u32 {
    ipv4_from_octets(a, b, c, d)
}

fn chars(s: &str) -> Vec<char> {
    s.chars().collect()
}

#[test]
fn ipv4_octets_and_text() {
    let x = ip(192, 168, 1, 20);
    assert_eq!(x, 0xc0a80114);
    assert_eq!(ipv4_octets(x), [192, 168, 1, 20]);
    assert_eq!(format_ipv4(x), "192.168.1.20");
    assert_eq!(format_ipv4(0), "0.0.0.0");
    assert_eq!(format_ipv4(u32::MAX), "255.255.255.255");
}

#[test]
fn ipv4_parse_accepts_dotted_quads() {
    assert_eq!(parse_ipv4("192.168.1.20"), Some(ip(192, 168, 1, 20)));
    assert_eq!(parse_ipv4("0.0.0.0"), Some(0));
    assert_eq!(parse_ipv4("255.255.255.255"), Some(u32::MAX));
    assert_eq!(parse_ipv4("10.0.0.1"), Some(ip(10, 0, 0, 1)));
}

#[test]
fn ipv4_parse_rejects_malformed_text() {
    assert_eq!(parse_ipv4(""), None);
    assert_eq!(parse_ipv4("1.2.3"), None);
    assert_eq!(parse_ipv4("1.2.3.4.5"), None);
    assert_eq!(parse_ipv4("256.1.1.1"), None);
    assert_eq!(parse_ipv4("01.2.3.4"), None);
    assert_eq!(parse_ipv4("1.2.3.4."), None);
    assert_eq!(parse_ipv4("1..3.4"), None);
    assert_eq!(parse_ipv4("1.2.3.a"), None);
    assert_eq!(parse_ipv4("1234.1.1.1"), None);
    assert_eq!(parse_ipv4(" 1.2.3.4"), None);
}

#[test]
fn ipv4_roundtrip_on_samples() {
    for x in [0u32, 1, 255, 256, 0x0a000001, 0xc0a80001, 0xac10fe01, u32::MAX, 0x7f000001] {
        assert_eq!(parse_ipv4(&format_ipv4(x)), Some(x));
    }
}

#[test]
fn subnet_bounds_and_text() {
    let s = Subnet::new(ip(192, 168, 1, 77), 24).unwrap();
    assert_eq!(s.ip(), ip(192, 168, 1, 77));
    assert_eq!(s.prefix(), 24);
    assert_eq!(s.network(), ip(192, 168, 1, 0));
    assert_eq!(s.broadcast(), ip(192, 168, 1, 255));
    assert!(s.contains(ip(192, 168, 1, 1)));
    assert!(!s.contains(ip(192, 168, 2, 1)));
    assert_eq!(s.to_string(), "192.168.1.77/24");
    assert!(Subnet::new(0, 33).is_none());
    let whole = Subnet::new(ip(10, 1, 2, 3), 0).unwrap();
    assert_eq!(whole.network(), 0);
    assert_eq!(whole.broadcast(), u32::MAX);
    let host = Subnet::new(ip(10, 1, 2, 3), 32).unwrap();
    assert_eq!(host.network(), ip(10, 1, 2, 3));
    assert_eq!(host.broadcast(), ip(10, 1, 2, 3));
    let wide = Subnet::new(ip(10, 9, 0, 32), 16).unwrap();
    assert_eq!(wide.network(), ip(10, 9, 0, 0));
    assert_eq!(wide.broadcast(), ip(10, 9, 255, 255));
}

#[test]
fn sweep_targets_of_a_24() {
    let s = Subnet::new(ip(192, 168, 1, 0), 24).unwrap();
    let t = s.sweep_targets(ip(192, 168, 1, 10));
    assert_eq!(t.len(), 253);
    assert_eq!(t[0], ip(192, 168, 1, 1));
    assert_eq!(t[t.len() - 1], ip(192, 168, 1, 254));
    assert!(!t.contains(&ip(192, 168, 1, 10)));
    assert!(!t.contains(&ip(192, 168, 1, 0)));
    assert!(!t.contains(&ip(192, 168, 1, 255)));
    assert!(t.windows(2).all(|w| w[0] < w[1]));
    let outside = s.sweep_targets(ip(10, 0, 0, 1));
    assert_eq!(outside.len(), 254);
}

#[test]
fn sweep_targets_of_small_networks() {
    let s30 = Subnet::new(ip(10, 0, 0, 4), 30).unwrap();
    assert_eq!(s30.sweep_targets(ip(10, 0, 0, 5)), vec![ip(10, 0, 0, 6)]);
    let s32 = Subnet::new(ip(10, 0, 0, 4), 32).unwrap();
    assert!(s32.sweep_targets(0).is_empty());
    let s16 = Subnet::new(ip(10, 1, 0, 0), 16).unwrap();
    assert_eq!(s16.sweep_targets(ip(10, 1, 0, 1)).len(), 65533);
}

#[test]
fn subnet_argument_accepted() {
    let s = parse_subnet_arg("192.168.1.0/24").unwrap();
    assert_eq!(s.ip(), ip(192, 168, 1, 0));
    assert_eq!(s.prefix(), 24);
    let s16 = parse_subnet_arg("10.1.0.0/16").unwrap();
    assert_eq!(s16.prefix(), 16);
    let bare = parse_subnet_arg("192.168.1.7").unwrap();
    assert_eq!(bare.prefix(), 32);
}

#[test]
fn subnet_argument_too_large() {
    match parse_subnet_arg("10.0.0.0/8") {
        Err(SubnetArgError::TooLarge(s)) => {
            assert_eq!(s.prefix(), 8);
            assert_eq!(s.ip(), ip(10, 0, 0, 0));
        }
        other => panic!("unexpected {:?}", other),
    }
    assert!(matches!(parse_subnet_arg("172.16.0.0/15"), Err(SubnetArgError::TooLarge(_))));
}

#[test]
fn subnet_argument_invalid() {
    assert!(matches!(parse_subnet_arg("bogus"), Err(SubnetArgError::Invalid(_))));
    assert!(matches!(parse_subnet_arg("192.168.1.0/33"), Err(SubnetArgError::Invalid(_))));
    assert!(matches!(parse_subnet_arg("192.168.1.0/24/8"), Err(SubnetArgError::Invalid(_))));
    assert!(matches!(parse_subnet_arg("300.1.1.0/24"), Err(SubnetArgError::Invalid(_))));
}

#[test]
fn mac_parse_both_separators_and_cases() {
    assert_eq!(parse_mac_chars(&chars("AA-bb-CC-dd-EE-ff")), Some([0xaa, 0xbb, 0xcc, 0xdd, 0xee, 0xff]));
    assert_eq!(parse_mac_chars(&chars("00:1b:63:84:45:e6")), Some([0x00, 0x1b, 0x63, 0x84, 0x45, 0xe6]));
    assert_eq!(parse_mac_chars(&chars("0:1b:63:84:45:e6")), None);
    assert_eq!(parse_mac_chars(&chars("00:1b:63:84:45:e6:00")), None);
    assert_eq!(parse_mac_chars(&chars("00.1b.63.84.45.e6")), None);
    assert_eq!(parse_mac_chars(&chars("<incomplete>")), None);
    assert_eq!(parse_mac_chars(&chars("gg:1b:63:84:45:e6")), None);
}

#[test]
fn mac_format_roundtrip() {
    let m = [0xa4, 0x5e, 0x60, 0x01, 0x0b, 0xff];
    let t = format_mac(&m);
    assert_eq!(t, "a4:5e:60:01:0b:ff");
    assert_eq!(parse_mac_chars(&chars(&t)), Some(m));
}

#[test]
fn vendor_lookup_known_ouis() {
    assert_eq!(lookup_vendor("a4:5e:60:01:02:03"), Some("Apple"));
    assert_eq!(lookup_vendor("A4-5E-60-01-02-03"), Some("Apple"));
    assert_eq!(lookup_vendor("b8:27:eb:12:34:56"), Some("Raspberry Pi"));
    assert_eq!(lookup_vendor("00:15:b9:00:00:01"), Some("Samsung"));
    assert_eq!(lookup_vendor("04:d4:c4:00:00:01"), Some("ASUS"));
    assert_eq!(lookup_vendor("f0:f0:a4:00:00:01"), Some("Amazon"));
    assert_eq!(lookup_vendor("b0:e0:3b:00:00:01"), Some("Google"));
    assert_eq!(lookup_vendor("f8:1a:67:00:00:01"), Some("TP-Link"));
    assert_eq!(lookup_vendor("d4:7b:35:00:00:01"), Some("Netgear"));
    assert_eq!(lookup_vendor("9c:b6:d0:00:00:01"), Some("Intel"));
    assert_eq!(lookup_vendor("e4:46:da:00:00:01"), Some("Xiaomi"));
    assert_eq!(lookup_vendor("f4:c7:14:00:00:01"), Some("Huawei"));
    assert_eq!(lookup_vendor("f0:bf:97:00:00:01"), Some("Sony"));
    assert_eq!(lookup_vendor("e8:88:d3:00:00:01"), Some("LG"));
    assert_eq!(lookup_vendor("00:e0:4c:00:00:01"), Some("Realtek"));
}

#[test]
fn vendor_lookup_randomized_and_unknown() {
    assert_eq!(lookup_vendor("02:00:00:00:00:00"), Some("Randomized"));
    assert_eq!(lookup_vendor("da:a1:19:00:00:01"), Some("Randomized"));
    // The QEMU/Realtek OUI has the locally administered bit set.
    assert_eq!(lookup_vendor("52:54:00:12:34:56"), Some("Randomized"));
    assert_eq!(lookup_vendor("+2:00:00"), Some("Randomized"));
    assert_eq!(lookup_vendor("00:00:01:00:00:00"), None);
    assert_eq!(lookup_vendor("a4:5e"), None);
    assert_eq!(lookup_vendor(""), None);
    assert_eq!(lookup_vendor("zz:5e:60:00:00:00"), None);
    assert_eq!(lookup_vendor("a4:5e:6:00:00:00"), None);
    assert_eq!(lookup_vendor("a4:5e:60"), Some("Apple"));
}

#[test]
fn vendor_of_formatted_mac() {
    assert_eq!(lookup_vendor(&format_mac(&[0xa4, 0x5e, 0x60, 1, 2, 3])), Some("Apple"));
    assert_eq!(lookup_vendor(&format_mac(&[0x06, 0x5e, 0x60, 1, 2, 3])), Some("Randomized"));
    assert_eq!(Vendor::RaspberryPi.name(), "Raspberry Pi");
}

#[test]
fn arp_windows_listing() {
    let text = "\r\nInterface: 192.168.1.10 --- 0xb\r\n  Internet Address      Physical Address      Type\r\n  192.168.1.1           a4-5e-60-01-02-03     dynamic\r\n  192.168.1.23          B8-27-EB-12-34-56     dynamic\r\n  192.168.1.255         ff-ff-ff-ff-ff-ff     static\r\n  224.0.0.22            01-00-5e-00-00-16     static\r\n";
    let t = parse_arp_table(text);
    assert_eq!(t.len(), 2);
    assert_eq!(t.get(&ip(192, 168, 1, 1)), Some(&[0xa4, 0x5e, 0x60, 0x01, 0x02, 0x03]));
    assert_eq!(t.get(&ip(192, 168, 1, 23)), Some(&[0xb8, 0x27, 0xeb, 0x12, 0x34, 0x56]));
}

#[test]
fn arp_linux_arp_a_listing() {
    let text = "? (192.168.1.1) at a4:5e:60:01:02:03 [ether] on wlan0\nrouter.lan (192.168.1.2) at 00:e0:4c:aa:bb:cc [ether] on wlan0\n? (192.168.1.50) at <incomplete> on wlan0\n";
    let t = parse_arp_table(text);
    assert_eq!(t.len(), 2);
    assert_eq!(t.get(&ip(192, 168, 1, 1)), Some(&[0xa4, 0x5e, 0x60, 0x01, 0x02, 0x03]));
    assert_eq!(t.get(&ip(192, 168, 1, 2)), Some(&[0x00, 0xe0, 0x4c, 0xaa, 0xbb, 0xcc]));
    assert_eq!(t.get(&ip(192, 168, 1, 50)), None);
}

#[test]
fn arp_proc_net_arp_listing() {
    let text = "IP address       HW type     Flags       HW address            Mask     Device\n192.168.1.1      0x1         0x2         a4:5e:60:01:02:03     *        eth0\n192.168.1.9      0x1         0x0         00:00:00:00:00:00     *        eth0\n";
    let t = parse_arp_table(text);
    assert_eq!(t.len(), 1);
    assert_eq!(t.get(&ip(192, 168, 1, 1)), Some(&[0xa4, 0x5e, 0x60, 0x01, 0x02, 0x03]));
}

#[test]
fn arp_later_line_wins_and_garbage_ignored() {
    let text = "10.0.0.5 aa-00-00-00-00-01\nnot an entry\n10.0.0.5 aa-00-00-00-00-02\n";
    let t = parse_arp_table(text);
    assert_eq!(t.len(), 1);
    assert_eq!(t.get(&ip(10, 0, 0, 5)), Some(&[0xaa, 0, 0, 0, 0, 2]));
    assert!(parse_arp_table("").is_empty());
}

#[test]
fn vpn_interface_names() {
    assert!(is_vpn_iface("NordLynx"));
    assert!(is_vpn_iface("OpenVPN TAP-Windows6"));
    assert!(is_vpn_iface("Loopback Pseudo-Interface 1"));
    assert!(is_vpn_iface("wg-Mullvad"));
    assert!(!is_vpn_iface("eth0"));
    assert!(!is_vpn_iface("Wi-Fi"));
    assert!(!is_vpn_iface("wlan0"));
}

fn iface(name: &str, ips: Vec<u32>) -> Interface {
    Interface { name: name.to_string(), ipv4: ips }
}

#[test]
fn detect_prefers_192_168_lan() {
    let ifs = vec![
        iface("lo", vec![ip(127, 0, 0, 1)]),
        iface("eth1", vec![ip(10, 0, 0, 5)]),
        iface("NordLynx", vec![ip(192, 168, 9, 2)]),
        iface("eth0", vec![ip(8, 8, 8, 8), ip(192, 168, 1, 42)]),
    ];
    let (local, net) = detect_subnet(&ifs).unwrap();
    assert_eq!(local, ip(192, 168, 1, 42));
    assert_eq!(net.ip(), ip(192, 168, 1, 0));
    assert_eq!(net.prefix(), 24);
}

#[test]
fn detect_falls_back_in_order() {
    let ifs = vec![iface("eth1", vec![ip(10, 0, 0, 5)]), iface("eth0", vec![ip(172, 16, 3, 9)])];
    assert_eq!(detect_subnet(&ifs).unwrap().0, ip(172, 16, 3, 9));
    let ifs = vec![iface("eth1", vec![ip(10, 2, 0, 5)])];
    let (local, net) = detect_subnet(&ifs).unwrap();
    assert_eq!(local, ip(10, 2, 0, 5));
    assert_eq!(net.to_string(), "10.2.0.0/24");
    let ifs = vec![iface("tun0 openvpn", vec![ip(10, 8, 0, 2)]), iface("eth0", vec![ip(8, 8, 8, 8)])];
    assert_eq!(detect_subnet(&ifs).unwrap().0, ip(10, 8, 0, 2));
    let ifs = vec![iface("eth0", vec![ip(8, 8, 8, 8), ip(127, 0, 0, 1), ip(172, 32, 0, 1)])];
    assert!(detect_subnet(&ifs).is_none());
    assert!(detect_subnet(&Vec::new()).is_none());
}

#[test]
fn arp_line_reads_back_what_was_written() {
    for (addr, m) in [
        (ip(192, 168, 1, 1), [0xa4u8, 0x5e, 0x60, 0x01, 0x02, 0x03]),
        (ip(10, 0, 0, 254), [0x00, 0x00, 0x00, 0x00, 0x00, 0x01]),
        (ip(172, 16, 5, 9), [0xfe, 0xff, 0xff, 0xff, 0xff, 0xff]),
    ] {
        let line = format!("{} {}", format_ipv4(addr), format_mac(&m));
        let t = parse_arp_table(&line);
        assert_eq!(t.len(), 1);
        assert_eq!(t.get(&addr), Some(&m));
    }
}

#[test]
fn vpn_hints_in_lowercase_names() {
    assert!(lanmap::iface::has_vpn_hint("nordlynx"));
    assert!(lanmap::iface::has_vpn_hint("my tunnel 2"));
    assert!(lanmap::iface::has_vpn_hint("tap-windows"));
    assert!(!lanmap::iface::has_vpn_hint("NordLynx"));
    assert!(!lanmap::iface::has_vpn_hint("tap0"));
    assert!(!lanmap::iface::has_vpn_hint(""));
}

#[test]
fn vendor_depends_only_on_oui_text() {
    assert_eq!(lookup_vendor("A4:5E:60:ff:ff:ff"), lookup_vendor("a4-5e-60-00-00-00"));
    assert_eq!(lookup_vendor("b8-27-EB"), Some("Raspberry Pi"));
    assert_eq!(lookup_vendor("DA:00:00:11"), lookup_vendor("da-00-00"));
}
