use tuya_meter::discovery::{
    build_discovery_probe, discover_device_ip, dotted_text, extract_broadcast_json, hears, is_from,
    lookup_ip_by_mac, parse_55aa_broadcast, parse_6699_broadcast, parse_mac, probe_targets,
    scan_failure_text, sweep_targets, tuya_udp_key, Port, Scan, ScanAction, ScanEvent,
    SearchAction, SearchEvent, AUTO_IP_DISCOVERY_TIMEOUT_SECS,
};
use tuya_meter::json::parse_json;

const TICKS: u64 = 17126784000;
const MAC: [u8; 6] = [0xaa, 0xbb, 0xcc, 0xdd, 0xee, 0x0f];
const BROADCAST_55AA: &str = "000055aa000000000000000000000048d09766676f3369eb10b5e9f132fd802a4656bf21195b4c6b29d41e1b4034f0971c8343bc25f3403c0c4c3db59350d34ae0bd1f2cbad705886d4ed8eed5ab9eb994e72f740000aa55";
const BROADCAST_6699: &str = "000066990000000000000000002600000054313731323637383430303000506d1a17df80a7fc793291a4922b2425ce797ac3abb1e09f6e69b8cd1d2b2e88b3e03a642b732a6f31215c40d6db4ceff61c7daf05cc24f3e1df18e93707e43c27c2c9a3479529c300009966";
const TABLE: &str = "? (192.168.1.1) at 11:22:33:44:55:66 [ether] on eth0\n? (192.168.1.9) at <incomplete> on eth0\n? (192.168.1.7) at aa:bb:cc:dd:ee:f [ether] on eth0\n? (192.168.1.8) at AA-BB-CC-DD-EE-0F on eth0\n";

fn hex(s: &str) -> Vec<u8> {
    (0..s.len() / 2)
        .map(|i| u8::from_str_radix(&s[2 * i..2 * i + 2], 16).unwrap())
        .collect()
}

#[test]
fn the_key_of_broadcasts() {
    assert_eq!(tuya_udp_key().to_vec(), hex("6c1ec8e2bb9bb59ab50b0daf649b410a"));
}

#[test]
fn broadcasts_of_older_versions() {
    let key = tuya_udp_key();
    let pkt = hex(BROADCAST_55AA);
    assert_eq!(
        parse_55aa_broadcast(&pkt, &key).unwrap(),
        b"{\"ip\":\"192.168.1.7\",\"gwId\":\"dev1\",\"version\":\"3.3\"}"
    );
    assert_eq!(parse_55aa_broadcast(&pkt[..23], &key), None);
    assert_eq!(parse_55aa_broadcast(&pkt[..80], &key), None);
    let mut short = pkt.clone();
    short[15] = 7;
    assert_eq!(parse_55aa_broadcast(&short, &key), None);
    let mut other = pkt;
    other[2] = 0;
    assert_eq!(parse_55aa_broadcast(&other, &key), None);
}

#[test]
fn broadcasts_of_version_35() {
    let key = tuya_udp_key();
    let pkt = hex(BROADCAST_6699);
    let payload = parse_6699_broadcast(&pkt, &key).unwrap();
    assert_eq!(
        payload,
        b"\0\0\0\0{\"ip\":\"192.168.1.7\",\"gwId\":\"dev1\",\"version\":\"3.3\"}xx"
    );
    assert_eq!(
        extract_broadcast_json(&payload).unwrap().to_text(),
        "{\"ip\":\"192.168.1.7\",\"gwId\":\"dev1\",\"version\":\"3.3\"}"
    );
    assert_eq!(parse_6699_broadcast(&pkt[..pkt.len() - 1], &key), None);
    assert_eq!(parse_6699_broadcast(&pkt, b"0123456789ABCDEF"), None);
    let mut short = pkt;
    short[17] = 27;
    assert_eq!(parse_6699_broadcast(&short, &key), None);
    assert!(extract_broadcast_json(b"no brace").is_none());
}

#[test]
fn packets_are_told_apart_by_device() {
    let key = tuya_udp_key();
    assert!(hears(Port::Udp6666, &hex(BROADCAST_55AA), &key, "dev1"));
    assert!(hears(Port::Udp7000, &hex(BROADCAST_6699), &key, "dev1"));
    assert!(!hears(Port::Udp7000, &hex(BROADCAST_6699), &key, "dev2"));
    assert!(!hears(Port::Udp7000, &hex(BROADCAST_55AA), &key, "dev1"));
    assert!(is_from(&parse_json("{\"gwId\":5}").unwrap(), ""));
    assert!(!is_from(&parse_json("{\"gwId\":5}").unwrap(), "5"));
}

#[test]
fn probes_are_sealed() {
    let key = tuya_udp_key();
    let probe = build_discovery_probe("192.168.1.5", &key, TICKS).unwrap();
    assert_eq!(
        probe,
        hex("00006699000000000000000000250000003d3137313236373834303030002b4f7c65cbcfecb67969c3e58935287d88636ed0b4bff09d7d38f7aa48272188aa4dba373c2cab4e634341ed7641cc221200009966")
    );
    assert_eq!(
        parse_6699_broadcast(&probe, &key).unwrap(),
        b"{\"from\":\"app\",\"ip\":\"192.168.1.5\"}"
    );
}

#[test]
fn where_probes_go() {
    assert_eq!(dotted_text(&[10, 0, 200, 7]), "10.0.200.7");
    assert_eq!(
        probe_targets(&[192, 168, 1, 5], None),
        vec!["255.255.255.255:7000", "192.168.1.255:7000"]
    );
    assert_eq!(
        probe_targets(&[192, 168, 1, 5], Some("10.0.255.255")),
        vec!["255.255.255.255:7000", "10.0.255.255:7000"]
    );
    assert_eq!(probe_targets(&[0, 0, 0, 0], None), vec!["255.255.255.255:7000"]);
}

#[test]
fn a_sweep_reaches_the_other_hosts() {
    let targets = sweep_targets(&[192, 168, 1, 5]);
    assert_eq!(targets.len(), 253);
    assert_eq!(targets[0], "192.168.1.1:9");
    assert_eq!(targets[3], "192.168.1.4:9");
    assert_eq!(targets[4], "192.168.1.6:9");
    assert_eq!(targets[252], "192.168.1.254:9");
    assert!(!targets.contains(&"192.168.1.5:9".to_string()));
    assert_eq!(sweep_targets(&[10, 0, 0, 255]).len(), 254);
}

#[test]
fn mac_addresses() {
    assert_eq!(parse_mac(" AA-bb:Cc-dd:ee-0F\n"), Some(MAC));
    assert_eq!(parse_mac("aa:bb:cc:dd:ee:f"), Some(MAC));
    assert_eq!(parse_mac("aa:bb:cc:dd:ee:+f"), Some(MAC));
    assert_eq!(parse_mac("aa:bb:cc:dd:ee"), None);
    assert_eq!(parse_mac("aa:bb:cc:dd:ee:0f:00"), None);
    assert_eq!(parse_mac("aa:bb:cc:dd:ee:100"), None);
    assert_eq!(parse_mac("aa:bb:cc:dd:ee:"), None);
    assert_eq!(parse_mac("aa:bb:cc:dd:ee:0g"), None);
    assert_eq!(parse_mac(""), None);
}

#[test]
fn the_first_fitting_line_of_the_arp_table() {
    assert_eq!(lookup_ip_by_mac(TABLE, &MAC), Some("192.168.1.7".to_string()));
    assert_eq!(
        lookup_ip_by_mac(TABLE, &[0x11, 0x22, 0x33, 0x44, 0x55, 0x66]),
        Some("192.168.1.1".to_string())
    );
    assert_eq!(lookup_ip_by_mac(TABLE, &[0; 6]), None);
    assert_eq!(lookup_ip_by_mac("", &MAC), None);
}

#[test]
fn lines_of_the_arp_table_that_count_for_nothing() {
    let find = |line: &str| lookup_ip_by_mac(line, &MAC);
    assert_eq!(find("? () at aa:bb:cc:dd:ee:0f"), None);
    assert_eq!(find(")( at aa:bb:cc:dd:ee:0f"), None);
    assert_eq!(find("? (10.0.0.1) aa:bb:cc:dd:ee:0f"), None);
    assert_eq!(find("? (10.0.0.256) at aa:bb:cc:dd:ee:0f"), None);
    assert_eq!(find("? (10.0.0.01) at aa:bb:cc:dd:ee:0f"), None);
    assert_eq!(find("? (10.0.0) at aa:bb:cc:dd:ee:0f"), None);
    assert_eq!(find("? (10.0.0.0) at  aa:bb:cc:dd:ee:0f\r"), Some("10.0.0.0".to_string()));
}

#[test]
fn scans_probe_every_five_seconds() {
    let mut scan = Scan::new("dev1", 60, 1_000, 1_000);
    let mut at = |now: u128| scan.discover_via_udp(ScanEvent::Round { now });
    assert_eq!(at(2_000), ScanAction::Listen);
    assert_eq!(at(5_000_000_999), ScanAction::Listen);
    assert_eq!(at(5_000_001_000), ScanAction::ProbeAndListen);
    assert_eq!(at(5_000_001_000), ScanAction::Listen);
    assert_eq!(at(0), ScanAction::Listen);
    assert_eq!(at(60_000_001_000), ScanAction::ProbeAndListen);
    assert_eq!(at(60_000_001_001), ScanAction::GiveUp);
    assert_eq!(AUTO_IP_DISCOVERY_TIMEOUT_SECS, 60);
}

#[test]
fn scans_find_the_device() {
    let mut scan = Scan::new("dev1", 60, 0, 0);
    let data = hex(BROADCAST_6699);
    assert_eq!(
        scan.discover_via_udp(ScanEvent::Packet { port: Port::Udp7000, data }),
        ScanAction::Found
    );
    assert_eq!(
        scan.discover_via_udp(ScanEvent::Packet { port: Port::Udp7000, data: vec![1, 2] }),
        ScanAction::Ignore
    );
    assert_eq!(
        scan_failure_text("dev1", 60),
        "no broadcast received from device dev1 within 60s"
    );
}

#[test]
fn a_device_with_a_mac_is_looked_up_first() {
    let mac = Some("aa:bb:cc:dd:ee:0f");
    assert!(matches!(
        discover_device_ip(mac, SearchEvent::Start),
        SearchAction::ReadArpTable
    ));
    match discover_device_ip(mac, SearchEvent::ArpTable(TABLE.to_string())) {
        SearchAction::Found(ip) => assert_eq!(ip, "192.168.1.7"),
        other => panic!("{other:?}"),
    }
    assert!(matches!(
        discover_device_ip(mac, SearchEvent::ArpTable(String::new())),
        SearchAction::Sweep
    ));
    match discover_device_ip(mac, SearchEvent::ArpTableAfterSweep(TABLE.to_string())) {
        SearchAction::Found(ip) => assert_eq!(ip, "192.168.1.7"),
        other => panic!("{other:?}"),
    }
    assert!(matches!(
        discover_device_ip(mac, SearchEvent::ArpTableAfterSweep(String::new())),
        SearchAction::Scan
    ));
}

#[test]
fn a_device_without_a_mac_is_scanned_for() {
    assert!(matches!(discover_device_ip(None, SearchEvent::Start), SearchAction::Scan));
    assert!(matches!(
        discover_device_ip(Some("nonsense"), SearchEvent::Start),
        SearchAction::Scan
    ));
}

#[test]
fn probes_are_as_long_as_their_payload_and_fifty_bytes() {
    let key = tuya_udp_key();
    for ip in ["1.1.1.1", "192.168.100.200"] {
        let payload = format!("{{\"from\":\"app\",\"ip\":\"{ip}\"}}");
        let probe = build_discovery_probe(ip, &key, TICKS).unwrap();
        assert_eq!(probe.len(), payload.len() + 50);
    }
}
