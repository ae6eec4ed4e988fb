use firewall::bridge::{parse_addr, parse_octet, parse_port, parse_range, rule_set_of, RuleError};
use firewall::config::{compose_policy, parse_config, LaunchPolicy};
use firewall::cursor::RawPacket;
use firewall::pipeline::decide;
use firewall::policy::AddrRange;
use firewall::verdict::Verdict;

fn texts(items: &[&str]) -> Vec<String> {
    items.iter().map(|s| s.to_string()).collect()
}

fn policy(ports: &[&str], blocked_ips: &[&str], blocked_countries: &[&str]) -> LaunchPolicy {
    LaunchPolicy {
        iface: "eth0".to_string(),
        ports: texts(ports),
        blocked_ips: texts(blocked_ips),
        blocked_countries: texts(blocked_countries),
    }
}

fn tcp_packet(src: [u8; 4], src_port: u16) -> Vec<u8> {
    let mut bytes = vec![0u8; 54];
    bytes[12] = 0x08;
    bytes[13] = 0x00;
    bytes[23] = 6;
    bytes[26..30].copy_from_slice(&src);
    bytes[34] = (src_port >> 8) as u8;
    bytes[35] = (src_port & 0xFF) as u8;
    bytes
}

#[test]
fn ports_are_decimal_numbers_up_to_65535() {
    for s in ["0", "1", "80", "443", "65535", "65536", "99999", "", "+80", "-1", "80 ", " 80", "8o", "0080", "18446744073709551616"] {
        assert_eq!(parse_port(s), s.parse::<u16>().ok(), "{:?}", s);
    }
    assert_eq!(parse_port("65535"), Some(65535));
    assert_eq!(parse_port("65536"), None);
    assert_eq!(parse_port("http"), None);
}

#[test]
fn octets_are_one_to_three_digits_up_to_255() {
    assert_eq!(parse_octet("0"), Some(0));
    assert_eq!(parse_octet("7"), Some(7));
    assert_eq!(parse_octet("10"), Some(10));
    assert_eq!(parse_octet("255"), Some(255));
    assert_eq!(parse_octet("256"), None);
    assert_eq!(parse_octet("999"), None);
    assert_eq!(parse_octet("00"), None);
    assert_eq!(parse_octet("01"), None);
    assert_eq!(parse_octet("001"), None);
    assert_eq!(parse_octet("1000"), None);
    assert_eq!(parse_octet(""), None);
    assert_eq!(parse_octet("+1"), None);
    assert_eq!(parse_octet("1a"), None);
    assert_eq!(parse_octet(" 1"), None);
    for n in 0..=255u32 {
        assert_eq!(parse_octet(&n.to_string()), Some(n as u8));
    }
    for n in 256..1000u32 {
        assert_eq!(parse_octet(&n.to_string()), None);
    }
}

#[test]
fn addresses_are_dotted_quads() {
    assert_eq!(parse_addr("1.2.3.4"), Some(0x0102_0304));
    assert_eq!(parse_addr("0.0.0.0"), Some(0));
    assert_eq!(parse_addr("255.255.255.255"), Some(u32::MAX));
    assert_eq!(parse_addr("192.168.1.20"), Some(0xC0A8_0114));
    assert_eq!(parse_addr("10.0.0.256"), None);
    assert_eq!(parse_addr("10.0.0"), None);
    assert_eq!(parse_addr("10.0.0.1.5"), None);
    assert_eq!(parse_addr("10.0.0."), None);
    assert_eq!(parse_addr(".10.0.0"), None);
    assert_eq!(parse_addr("10..0.1"), None);
    assert_eq!(parse_addr("10.0.0.01"), None);
    assert_eq!(parse_addr("10.0.0.1 "), None);
    assert_eq!(parse_addr(""), None);
    assert_eq!(parse_addr("localhost"), None);
}

#[test]
fn ranges_are_one_address_or_two() {
    assert_eq!(parse_range("1.2.3.4"), Some(AddrRange { first: 0x0102_0304, last: 0x0102_0304 }));
    assert_eq!(
        parse_range("10.0.0.0-10.255.255.255"),
        Some(AddrRange { first: 0x0A00_0000, last: 0x0AFF_FFFF })
    );
    assert_eq!(parse_range("10.0.0.5-10.0.0.5"), Some(AddrRange { first: 0x0A00_0005, last: 0x0A00_0005 }));
    assert_eq!(parse_range("10.0.0.6-10.0.0.5"), None);
    assert_eq!(parse_range("10.0.0.1-"), None);
    assert_eq!(parse_range("-10.0.0.1"), None);
    assert_eq!(parse_range("10.0.0.1-10.0.0.2-10.0.0.3"), None);
    assert_eq!(parse_range("10.0.0.1 - 10.0.0.2"), None);
    assert_eq!(parse_range(""), None);
}

#[test]
fn rule_set_of_a_policy() {
    let rules = rule_set_of(&policy(&["80", "443"], &["1.2.3.4", "10.0.0.0-10.0.0.255"], &["RU"]))
        .ok()
        .unwrap();
    assert!(rules.port_allowed(80));
    assert!(rules.port_allowed(443));
    assert!(!rules.port_allowed(53));
    assert!(rules.addr_blocked(0x0102_0304));
    assert!(!rules.addr_blocked(0x0102_0305));
    assert!(rules.addr_blocked(0x0A00_0000));
    assert!(rules.addr_blocked(0x0A00_00FF));
    assert!(!rules.addr_blocked(0x0A00_0100));
    assert!(rules.country_blocked("RU"));
    assert!(!rules.country_blocked("ru"));
    assert!(!rules.country_blocked("US"));
}

#[test]
fn rule_set_errors_name_the_first_bad_item() {
    assert_eq!(
        rule_set_of(&policy(&["80", "http", "x"], &["nope"], &[])).err(),
        Some(RuleError::BadPort(1))
    );
    assert_eq!(
        rule_set_of(&policy(&["70000"], &[], &[])).err(),
        Some(RuleError::BadPort(0))
    );
    assert_eq!(
        rule_set_of(&policy(&["80"], &["1.2.3.4", "1.2.3", "bad"], &[])).err(),
        Some(RuleError::BadAddress(1))
    );
    assert_eq!(
        rule_set_of(&policy(&[], &["2.0.0.0-1.0.0.0"], &[])).err(),
        Some(RuleError::BadAddress(0))
    );
    assert!(rule_set_of(&policy(&[], &[], &[])).is_ok());
}

#[test]
fn from_the_file_to_the_verdict() {
    let text = "\"iface\"\neth0\n\"allowed-ports\"\n80, 443\n\"blocked-ips\"\n9.9.9.9\n\"blocked-countries\"\nCN\n";
    let rules = rule_set_of(&compose_policy(&parse_config(text))).ok().unwrap();
    let verdict = |src: [u8; 4], port: u16| decide(&RawPacket::new(&tcp_packet(src, port)), &rules).verdict;
    assert_eq!(verdict([1, 2, 3, 4], 80), Verdict::Pass);
    assert_eq!(verdict([1, 2, 3, 4], 443), Verdict::Pass);
    assert_eq!(verdict([1, 2, 3, 4], 22), Verdict::Drop);
    assert_eq!(verdict([9, 9, 9, 9], 80), Verdict::Drop);
    assert_eq!(verdict([6, 1, 1, 1], 80), Verdict::Drop);
    assert_eq!(verdict([7, 1, 1, 1], 80), Verdict::Pass);
}
