use std::collections::HashMap;

use lanmap::export::{export_file_name, export_json, export_message};
use lanmap::ipv4::{ipv4_from_octets, Subnet};
use lanmap::oui::Vendor;
use lanmap::scanner::{
    ping_identifier, should_rescan, HostInfo, ScanState, PING_PAYLOAD_LEN, RESCAN_INTERVAL_MS,
    RESCAN_POLL_MS,
};
use lanmap::view::{
    error_text, fmt_age, fmt_latency, footer_status, header_mode, header_status, host_row,
    local_label, status_cell, subnet_label, table_title, visible_count, visible_hosts, Action, App,
    Key, SortMode, StatusKind,
};

fn ip(a: u8, b: u8, c: u8, d: u8) -> u32 {
    ipv4_from_octets(a, b, c, d)
}

fn host(ipv4: u32) -> HostInfo {
    HostInfo {
        ip: ipv4,
        hostname: None,
        mac: None,
        vendor: None,
        latency_us: None,
        online: true,
        is_new: false,
        first_seen: 0,
        last_seen: 0,
    }
}

fn ips(s: &ScanState) -> Vec<u32> {
    s.hosts.iter().map(|h| h.ip).collect()
}

#[test]
fn default_state_is_empty() {
    let s = ScanState::default();
    assert!(s.hosts.is_empty());
    assert!(s.subnet.is_none() && s.local_ip.is_none() && s.last_scan.is_none());
    assert!(!s.scanning && !s.rescan_requested && s.error.is_none());
    assert_eq!((s.scan_progress, s.scan_total), (0, 0));
}

#[test]
fn configure_uses_detected_or_forced_subnet() {
    let detected = Subnet::new(ip(192, 168, 1, 0), 24).unwrap();
    let mut s = ScanState::default();
    assert!(s.configure(Some((ip(192, 168, 1, 10), detected))));
    assert_eq!(s.local_ip, Some(ip(192, 168, 1, 10)));
    assert_eq!(s.subnet, Some(detected));

    let forced = Subnet::new(ip(10, 1, 0, 0), 16).unwrap();
    let mut s = ScanState::default();
    s.subnet = Some(forced);
    assert!(s.configure(Some((ip(192, 168, 1, 10), detected))));
    assert_eq!(s.subnet, Some(forced));
    assert_eq!(s.local_ip, Some(ip(192, 168, 1, 10)));

    let mut s = ScanState::default();
    assert!(!s.configure(None));
    assert_eq!(
        s.error.as_deref(),
        Some("Could not detect local IP. Try: lanmap --subnet 192.168.1.0/24")
    );
}

#[test]
fn probes_add_answering_hosts_in_address_order() {
    let mut s = ScanState::default();
    s.begin_sweep(3);
    assert!(s.scanning && s.scan_total == 3);
    s.record_probe(ip(10, 0, 0, 9), Some(1500), Some("nine".to_string()), 100);
    s.record_probe(ip(10, 0, 0, 3), Some(400), None, 110);
    s.record_probe(ip(10, 0, 0, 5), None, None, 120);
    assert_eq!(s.scan_progress, 3);
    assert_eq!(ips(&s), vec![ip(10, 0, 0, 3), ip(10, 0, 0, 9)]);
    let h = &s.hosts[1];
    assert_eq!(h.hostname.as_deref(), Some("nine"));
    assert_eq!(h.latency_us, Some(1500));
    assert!(h.online && !h.is_new);
    assert_eq!((h.first_seen, h.last_seen), (100, 100));
}

#[test]
fn probe_updates_known_host() {
    let mut s = ScanState::default();
    s.record_probe(ip(10, 0, 0, 3), Some(400), Some("a".to_string()), 100);
    s.finish_sweep(200);
    s.record_probe(ip(10, 0, 0, 3), None, None, 300);
    let h = &s.hosts[0];
    assert!(!h.online);
    assert_eq!(h.latency_us, None);
    assert_eq!(h.last_seen, 100);
    assert_eq!(h.hostname.as_deref(), Some("a"));
    s.record_probe(ip(10, 0, 0, 3), Some(700), Some("b".to_string()), 400);
    let h = &s.hosts[0];
    assert!(h.online);
    assert_eq!(h.last_seen, 400);
    assert_eq!(h.first_seen, 100);
    assert_eq!(h.hostname.as_deref(), Some("b"));
    assert_eq!(s.hosts.len(), 1);
}

#[test]
fn new_badge_only_after_first_sweep() {
    let mut s = ScanState::default();
    s.record_probe(ip(10, 0, 0, 3), Some(400), None, 100);
    assert!(!s.hosts[0].is_new);
    s.finish_sweep(150);
    assert_eq!(s.last_scan, Some(150));
    assert!(!s.scanning);
    s.record_probe(ip(10, 0, 0, 4), Some(400), None, 200);
    assert!(s.hosts[1].is_new);
}

#[test]
fn arp_merge_updates_known_and_adds_silent_hosts() {
    let mut s = ScanState::default();
    let net = Subnet::new(ip(192, 168, 1, 0), 24).unwrap();
    s.configure(Some((ip(192, 168, 1, 10), net)));
    s.record_probe(ip(192, 168, 1, 1), Some(300), None, 50);
    s.record_probe(ip(192, 168, 1, 7), None, None, 50);
    let mut arp = HashMap::new();
    arp.insert(ip(192, 168, 1, 1), [0xa4, 0x5e, 0x60, 1, 2, 3]);
    arp.insert(ip(192, 168, 1, 30), [0xb8, 0x27, 0xeb, 1, 2, 3]);
    arp.insert(ip(192, 168, 1, 20), [0x02, 0, 0, 0, 0, 1]);
    arp.insert(ip(192, 168, 1, 10), [0x00, 0x0c, 0x6e, 0, 0, 1]);
    arp.insert(ip(10, 0, 0, 1), [0x00, 0x0c, 0x6e, 0, 0, 2]);
    let added = s.merge_arp(&arp, 90);
    assert_eq!(added, vec![ip(192, 168, 1, 20), ip(192, 168, 1, 30)]);
    assert_eq!(ips(&s), vec![ip(192, 168, 1, 1), ip(192, 168, 1, 20), ip(192, 168, 1, 30)]);
    let router = &s.hosts[0];
    assert_eq!(router.mac, Some([0xa4, 0x5e, 0x60, 1, 2, 3]));
    assert_eq!(router.vendor, Some(Vendor::Apple));
    assert_eq!(router.latency_us, Some(300));
    assert_eq!(router.last_seen, 90);
    let phone = &s.hosts[1];
    assert_eq!(phone.vendor, Some(Vendor::Randomized));
    assert!(phone.online && phone.latency_us.is_none() && !phone.is_new);
    assert_eq!(s.hosts[2].vendor, Some(Vendor::RaspberryPi));
    s.set_hostname(ip(192, 168, 1, 30), Some("pi.lan".to_string()));
    s.set_hostname(ip(192, 168, 1, 20), None);
    s.set_hostname(ip(192, 168, 1, 99), Some("ghost".to_string()));
    assert_eq!(s.hosts[2].hostname.as_deref(), Some("pi.lan"));
    assert_eq!(s.hosts[1].hostname, None);
    assert_eq!(s.hosts.len(), 3);
}

#[test]
fn arp_merge_marks_silent_known_host_online() {
    let mut s = ScanState::default();
    let net = Subnet::new(ip(192, 168, 1, 0), 24).unwrap();
    s.configure(Some((ip(192, 168, 1, 10), net)));
    s.record_probe(ip(192, 168, 1, 7), Some(100), None, 50);
    s.record_probe(ip(192, 168, 1, 7), None, None, 60);
    assert!(!s.hosts[0].online);
    let mut arp = HashMap::new();
    arp.insert(ip(192, 168, 1, 7), [0x00, 0x0c, 0x6e, 0, 0, 1]);
    assert!(s.merge_arp(&arp, 70).is_empty());
    assert!(s.hosts[0].online);
    assert_eq!(s.hosts[0].vendor, Some(Vendor::Asus));
    assert_eq!(s.hosts[0].last_seen, 70);
}

#[test]
fn rescan_and_ping_parameters() {
    assert!(should_rescan(true, 0));
    assert!(!should_rescan(false, 29_500));
    assert!(should_rescan(false, 30_000));
    assert_eq!(RESCAN_INTERVAL_MS, 30_000);
    assert_eq!(PING_PAYLOAD_LEN, 16);
    assert_eq!(ping_identifier(ip(192, 168, 1, 20)), 0x0114);
    assert_ne!(ping_identifier(ip(10, 1, 0, 5)), ping_identifier(ip(10, 1, 1, 5)));
}

fn sample_state() -> ScanState {
    let mut s = ScanState::default();
    let mut a = host(ip(10, 0, 0, 1));
    a.latency_us = Some(900);
    a.hostname = Some("router".to_string());
    a.last_seen = 1000;
    let mut b = host(ip(10, 0, 0, 2));
    b.online = false;
    b.last_seen = 5000;
    b.hostname = Some("alpha".to_string());
    let mut c = host(ip(10, 0, 0, 3));
    c.latency_us = Some(300);
    c.last_seen = 3000;
    let mut d = host(ip(10, 0, 0, 4));
    d.latency_us = Some(300);
    d.hostname = Some("alpha".to_string());
    d.last_seen = 3000;
    s.hosts = vec![a, b, c, d];
    s
}

#[test]
fn visible_hosts_each_order() {
    let s = sample_state();
    assert_eq!(visible_hosts(&s, SortMode::Ip, false), vec![0, 1, 2, 3]);
    assert_eq!(visible_hosts(&s, SortMode::Latency, false), vec![2, 3, 0, 1]);
    assert_eq!(visible_hosts(&s, SortMode::Hostname, false), vec![1, 3, 0, 2]);
    assert_eq!(visible_hosts(&s, SortMode::LastSeen, false), vec![1, 2, 3, 0]);
    assert_eq!(visible_hosts(&s, SortMode::LastSeen, true), vec![2, 3, 0]);
    assert_eq!(visible_count(&s.hosts, true), 3);
    assert_eq!(visible_count(&s.hosts, false), 4);
    assert_eq!(s.hosts.len(), 4);
}

#[test]
fn sort_mode_cycle_and_labels() {
    let mut m = SortMode::Ip;
    let mut labels = Vec::new();
    for _ in 0..4 {
        labels.push(m.label());
        m = m.next();
    }
    assert_eq!(m, SortMode::Ip);
    assert_eq!(labels, vec!["IP", "latency", "hostname", "last seen"]);
}

#[test]
fn navigation_stays_in_range() {
    let mut app = App::new();
    assert_eq!(app.selected, None);
    app.next_row(0);
    assert_eq!(app.selected, None);
    app.next_row(3);
    assert_eq!(app.selected, Some(0));
    app.next_row(3);
    app.next_row(3);
    app.next_row(3);
    assert_eq!(app.selected, Some(2));
    app.prev_row(3);
    assert_eq!(app.selected, Some(1));
    app.prev_row(3);
    app.prev_row(3);
    assert_eq!(app.selected, Some(0));
    app.selected = Some(9);
    app.clamp_selection(4);
    assert_eq!(app.selected, Some(3));
    app.clamp_selection(0);
    assert_eq!(app.selected, None);
    app.selected = Some(usize::MAX);
    app.next_row(5);
    assert_eq!(app.selected, Some(4));
}

#[test]
fn spinner_ticks_wrap() {
    let mut app = App::new();
    for _ in 0..9 {
        app.tick();
    }
    assert_eq!(app.spinner_frame, 9);
    app.tick();
    assert_eq!(app.spinner_frame, 0);
}

#[test]
fn keys_drive_the_view() {
    let s = sample_state();
    let mut app = App::new();
    assert_eq!(app.handle_key(Key::Char('q'), &s), Action::Quit);
    assert_eq!(app.handle_key(Key::Esc, &s), Action::Quit);
    assert_eq!(app.handle_key(Key::Char('r'), &s), Action::Rescan);
    assert_eq!(app.handle_key(Key::Char('e'), &s), Action::Export);
    assert_eq!(app.handle_key(Key::Char('x'), &s), Action::Continue);
    for _ in 0..5 {
        app.handle_key(Key::Down, &s);
    }
    assert_eq!(app.selected, Some(3));
    assert_eq!(app.handle_key(Key::Char('f'), &s), Action::Continue);
    assert!(app.online_only);
    assert_eq!(app.selected, Some(2));
    app.handle_key(Key::Char('k'), &s);
    assert_eq!(app.selected, Some(1));
    app.handle_key(Key::Char('s'), &s);
    assert_eq!(app.sort, SortMode::Latency);
    app.handle_key(Key::Up, &s);
    app.handle_key(Key::Char('j'), &s);
    assert_eq!(app.selected, Some(1));
}

#[test]
fn age_and_latency_texts() {
    assert_eq!(fmt_age(0), "0s");
    assert_eq!(fmt_age(59), "59s");
    assert_eq!(fmt_age(60), "1m");
    assert_eq!(fmt_age(3599), "59m");
    assert_eq!(fmt_age(3600), "1h");
    assert_eq!(fmt_age(90000), "25h");
    assert_eq!(fmt_latency(400), "0.4 ms");
    assert_eq!(fmt_latency(449), "0.4 ms");
    assert_eq!(fmt_latency(450), "0.5 ms");
    assert_eq!(fmt_latency(12000), "12.0 ms");
    assert_eq!(fmt_latency(0), "0.0 ms");
    assert_eq!(fmt_latency(999_960), "1000.0 ms");
}

#[test]
fn status_cells() {
    let mut h = host(ip(10, 0, 0, 1));
    h.is_new = true;
    h.first_seen = 1000;
    assert_eq!(status_cell(&h, 2000), (StatusKind::New, "★ new".to_string()));
    assert_eq!(status_cell(&h, 301_000), (StatusKind::Online, "● online".to_string()));
    h.online = false;
    h.last_seen = 1000;
    assert_eq!(status_cell(&h, 721_000), (StatusKind::Offline, "○ 12m ago".to_string()));
    assert_eq!(status_cell(&h, 500), (StatusKind::Offline, "○ 0s ago".to_string()));
}

#[test]
fn host_row_texts() {
    let mut h = host(ip(192, 168, 1, 5));
    let row = host_row(&h, 0);
    assert_eq!(row.ip, "192.168.1.5");
    assert_eq!(row.mac, "—");
    assert_eq!(row.vendor, "—");
    assert_eq!(row.hostname, "—");
    assert_eq!(row.latency, "—");
    assert_eq!(row.status_text, "● online");
    h.mac = Some([0xa4, 0x5e, 0x60, 1, 2, 3]);
    h.vendor = Some(Vendor::Apple);
    h.hostname = Some("mac.lan".to_string());
    h.latency_us = Some(1234);
    let row = host_row(&h, 0);
    assert_eq!(row.mac, "a4:5e:60:01:02:03");
    assert_eq!(row.vendor, "Apple");
    assert_eq!(row.hostname, "mac.lan");
    assert_eq!(row.latency, "1.2 ms");
    assert_eq!(row.status, StatusKind::Online);
}

#[test]
fn header_and_footer_texts() {
    let mut s = sample_state();
    assert_eq!(header_status(&s, 0), "● 3 online");
    s.scanning = true;
    s.scan_progress = 12;
    s.scan_total = 254;
    assert_eq!(header_status(&s, 0), "⠋ scanning  12/254");
    assert_eq!(header_status(&s, 9), "⠏ scanning  12/254");
    assert_eq!(footer_status(&s, 0), "scanning…");
    s.rescan_requested = true;
    assert_eq!(footer_status(&s, 0), "rescan queued");
    s.rescan_requested = false;
    s.scanning = false;
    assert_eq!(footer_status(&s, 0), "starting…");
    s.last_scan = Some(10_000);
    assert_eq!(footer_status(&s, 22_500), "next scan in 18s");
    assert_eq!(footer_status(&s, 99_000), "next scan in 0s");
    s.rescan_requested = true;
    assert_eq!(footer_status(&s, 22_500), "rescan queued");
    assert_eq!(header_mode(SortMode::Latency, false), "sort: latency");
    assert_eq!(header_mode(SortMode::Ip, true), "sort: IP  filter: online");
    assert_eq!(subnet_label(&s), "detecting…");
    assert_eq!(local_label(&s), "");
    s.subnet = Subnet::new(ip(192, 168, 1, 0), 24);
    s.local_ip = Some(ip(192, 168, 1, 10));
    assert_eq!(subnet_label(&s), "192.168.1.0/24");
    assert_eq!(local_label(&s), "192.168.1.10");
    assert_eq!(table_title(3, 4, true), " 3 / 4 hosts ");
    assert_eq!(table_title(3, 4, false), " 4 hosts ");
    assert_eq!(error_text("boom"), " error: boom");
}

#[test]
fn json_export_snapshot() {
    let mut s = ScanState::default();
    assert_eq!(export_json(&s, 0), "{\"subnet\":null,\"local_ip\":null,\"hosts\":[]}");
    s.subnet = Subnet::new(ip(192, 168, 1, 0), 24);
    s.local_ip = Some(ip(192, 168, 1, 10));
    let mut a = host(ip(192, 168, 1, 1));
    a.mac = Some([0xa4, 0x5e, 0x60, 1, 2, 3]);
    a.vendor = Some(Vendor::Apple);
    a.hostname = Some("r\"t\\1\n".to_string());
    a.latency_us = Some(412);
    a.first_seen = 1000;
    a.last_seen = 61_000;
    let mut b = host(ip(192, 168, 1, 2));
    b.online = false;
    b.is_new = true;
    s.hosts = vec![a, b];
    let expected = [
        "{\"subnet\":\"192.168.1.0/24\",\"local_ip\":\"192.168.1.10\",\"hosts\":[",
        "{\"ip\":\"192.168.1.1\",\"mac\":\"a4:5e:60:01:02:03\",\"vendor\":\"Apple\",",
        "\"hostname\":\"r\\\"t\\\\1\\n\",\"latency_us\":412,\"online\":true,\"new\":false,",
        "\"first_seen_secs_ago\":120,\"last_seen_secs_ago\":60},",
        "{\"ip\":\"192.168.1.2\",\"mac\":null,\"vendor\":null,\"hostname\":null,",
        "\"latency_us\":null,\"online\":false,\"new\":true,",
        "\"first_seen_secs_ago\":121,\"last_seen_secs_ago\":121}]}",
    ]
    .join("");
    assert_eq!(export_json(&s, 121_000), expected);
    let mut c = host(ip(1, 2, 3, 4));
    c.hostname = Some("\u{1}x".to_string());
    s.hosts = vec![c];
    assert!(export_json(&s, 0).contains("\"hostname\":\"\\u0001x\""));
}

#[test]
fn export_names() {
    assert_eq!(export_file_name(1700000000), "lanmap-1700000000.json");
    assert_eq!(export_message("lanmap-1.json"), "exported to lanmap-1.json");
}

#[test]
fn prev_row_lands_within_a_shrunken_list() {
    let mut app = App::new();
    app.selected = Some(10);
    app.prev_row(3);
    assert_eq!(app.selected, Some(2));
    app.selected = Some(3);
    app.prev_row(3);
    assert_eq!(app.selected, Some(2));
    app.selected = Some(0);
    app.prev_row(3);
    assert_eq!(app.selected, Some(0));
    app.selected = Some(10);
    app.prev_row(0);
    assert_eq!(app.selected, Some(10));
}

#[test]
fn header_when_idle_ignores_spinner_frame() {
    let s = sample_state();
    assert_eq!(header_status(&s, 99), "● 3 online");
}

#[test]
fn rescan_due_at_the_sixtieth_poll() {
    assert!(!should_rescan(false, 59 * RESCAN_POLL_MS));
    assert!(should_rescan(false, 60 * RESCAN_POLL_MS));
    assert!(should_rescan(true, RESCAN_POLL_MS));
}
