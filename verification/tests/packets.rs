use firewall::country::lookup_country;
use firewall::cursor::{ptr_at, OutOfBounds, RawPacket};
use firewall::decoder::{
    EthernetHeader, Ipv4Header, TransportHeader, TransportProtocol, ETH_HDR_LEN, IPV4_HDR_LEN,
    TCP_HDR_LEN, TRANSPORT_OFFSET, UDP_HDR_LEN,
};
use firewall::pipeline::{decide, try_xdp_firewall, xdp_firewall};
use firewall::policy::{AddrRange, PacketFields, PolicyRuleSet};
use firewall::verdict::{action_code, Verdict};

const PASS: u32 = 2;
const DROP: u32 = 1;
const ABORTED: u32 = 0;

const TCP: u8 = 6;
const UDP: u8 = 17;
const ICMP: u8 = 1;

fn frame(ether_type: u16, protocol: u8, src: [u8; 4], dst: [u8; 4], src_port: u16, len: usize) -> Vec<u8> {
    let mut bytes = vec![0xAAu8; 64];
    bytes[12] = (ether_type >> 8) as u8;
    bytes[13] = (ether_type & 0xFF) as u8;
    bytes[14] = 0x45;
    bytes[23] = protocol;
    bytes[26..30].copy_from_slice(&src);
    bytes[30..34].copy_from_slice(&dst);
    bytes[34] = (src_port >> 8) as u8;
    bytes[35] = (src_port & 0xFF) as u8;
    bytes[36] = 0x12;
    bytes[37] = 0x34;
    bytes.truncate(len);
    bytes
}

fn tcp_from(src: [u8; 4], src_port: u16) -> Vec<u8> {
    frame(0x0800, TCP, src, [10, 0, 0, 1], src_port, 54)
}

fn web_rules() -> PolicyRuleSet {
    PolicyRuleSet::new(vec![80, 443], vec![], vec![])
}

#[test]
fn tcp_from_port_80_passes() {
    let bytes = tcp_from([1, 2, 3, 4], 80);
    let packet = RawPacket::new(&bytes);
    assert_eq!(xdp_firewall(&packet, &web_rules()), PASS);
    assert_eq!(decide(&packet, &web_rules()).verdict, Verdict::Pass);
}

#[test]
fn tcp_from_port_22_drops() {
    let bytes = tcp_from([1, 2, 3, 4], 22);
    let packet = RawPacket::new(&bytes);
    assert_eq!(xdp_firewall(&packet, &web_rules()), DROP);
    assert_eq!(decide(&packet, &web_rules()).verdict, Verdict::Drop);
}

#[test]
fn truncated_tcp_header_aborts() {
    let mut bytes = tcp_from([1, 2, 3, 4], 80);
    bytes.truncate(40);
    let packet = RawPacket::new(&bytes);
    assert_eq!(xdp_firewall(&packet, &web_rules()), ABORTED);
    assert_eq!(decide(&packet, &web_rules()).verdict, Verdict::Abort);
    assert_eq!(try_xdp_firewall(&packet, &web_rules()), Err(OutOfBounds));
}

#[test]
fn icmp_drops() {
    let bytes = frame(0x0800, ICMP, [1, 2, 3, 4], [10, 0, 0, 1], 80, 54);
    let packet = RawPacket::new(&bytes);
    assert_eq!(xdp_firewall(&packet, &web_rules()), DROP);
    assert_eq!(decide(&packet, &web_rules()).verdict, Verdict::Drop);
}

#[test]
fn every_buffer_shorter_than_ethernet_aborts() {
    let full = tcp_from([1, 2, 3, 4], 80);
    for len in 0..ETH_HDR_LEN {
        let packet = RawPacket::new(&full[..len]);
        assert_eq!(decide(&packet, &web_rules()).verdict, Verdict::Abort);
        assert_eq!(xdp_firewall(&packet, &web_rules()), ABORTED);
    }
}

#[test]
fn non_ipv4_passes_whatever_follows() {
    for ether_type in [0x0806u16, 0x86DD, 0x0000, 0xFFFF, 0x0008, 0x0801] {
        for len in [14usize, 15, 20, 34, 54, 64] {
            let bytes = frame(ether_type, TCP, [5, 5, 5, 5], [10, 0, 0, 1], 22, len);
            let packet = RawPacket::new(&bytes);
            let event = decide(&packet, &web_rules());
            assert_eq!(event.verdict, Verdict::Pass);
            assert_eq!(event.src_ip, None);
            assert_eq!(event.protocol, None);
            assert_eq!(try_xdp_firewall(&packet, &web_rules()), Ok(PASS));
        }
    }
}

#[test]
fn ipv4_needs_the_whole_fixed_header() {
    for len in 14..34usize {
        let bytes = frame(0x0800, TCP, [1, 2, 3, 4], [10, 0, 0, 1], 80, len);
        let packet = RawPacket::new(&bytes);
        let event = decide(&packet, &web_rules());
        assert_eq!(event.verdict, Verdict::Abort);
        assert_eq!(event.src_ip, None);
    }
}

#[test]
fn other_protocols_drop_without_a_transport_header() {
    for protocol in [0u8, 1, 2, 5, 7, 16, 18, 47, 50, 132, 255] {
        let bytes = frame(0x0800, protocol, [1, 2, 3, 4], [10, 0, 0, 1], 80, 34);
        let packet = RawPacket::new(&bytes);
        let event = decide(&packet, &web_rules());
        assert_eq!(event.verdict, Verdict::Drop);
        assert_eq!(event.protocol, Some(protocol));
        assert_eq!(event.src_port, None);
        assert_eq!(xdp_firewall(&packet, &web_rules()), DROP);
    }
}

#[test]
fn tcp_needs_twenty_bytes_of_header() {
    for len in 34..54usize {
        let bytes = frame(0x0800, TCP, [1, 2, 3, 4], [10, 0, 0, 1], 80, len);
        let packet = RawPacket::new(&bytes);
        let event = decide(&packet, &web_rules());
        assert_eq!(event.verdict, Verdict::Abort);
        assert_eq!(event.src_ip, Some(0x0102_0304));
        assert_eq!(event.src_port, None);
    }
    let bytes = frame(0x0800, TCP, [1, 2, 3, 4], [10, 0, 0, 1], 80, 54);
    assert_eq!(decide(&RawPacket::new(&bytes), &web_rules()).verdict, Verdict::Pass);
}

#[test]
fn udp_needs_eight_bytes_of_header() {
    for len in 34..42usize {
        let bytes = frame(0x0800, UDP, [1, 2, 3, 4], [10, 0, 0, 1], 443, len);
        let packet = RawPacket::new(&bytes);
        assert_eq!(decide(&packet, &web_rules()).verdict, Verdict::Abort);
    }
    let bytes = frame(0x0800, UDP, [1, 2, 3, 4], [10, 0, 0, 1], 443, 42);
    assert_eq!(decide(&RawPacket::new(&bytes), &web_rules()).verdict, Verdict::Pass);
    let bytes = frame(0x0800, UDP, [1, 2, 3, 4], [10, 0, 0, 1], 444, 42);
    assert_eq!(decide(&RawPacket::new(&bytes), &web_rules()).verdict, Verdict::Drop);
}

#[test]
fn well_formed_packets_follow_the_allow_list() {
    let rules = PolicyRuleSet::new(vec![80, 443, 8080], vec![], vec![]);
    for protocol in [TCP, UDP] {
        for port in [0u16, 1, 22, 53, 79, 80, 81, 443, 8080, 65535] {
            let bytes = frame(0x0800, protocol, [9, 9, 9, 9], [10, 0, 0, 1], port, 64);
            let verdict = decide(&RawPacket::new(&bytes), &rules).verdict;
            if port == 80 || port == 443 || port == 8080 {
                assert_eq!(verdict, Verdict::Pass);
            } else {
                assert_eq!(verdict, Verdict::Drop);
            }
        }
    }
}

#[test]
fn block_lists_come_before_the_allow_list() {
    let by_addr = PolicyRuleSet::new(vec![80], vec![AddrRange::single(0x0102_0304)], vec![]);
    let bytes = tcp_from([1, 2, 3, 4], 80);
    assert_eq!(decide(&RawPacket::new(&bytes), &by_addr).verdict, Verdict::Drop);
    let bytes = tcp_from([1, 2, 3, 5], 80);
    assert_eq!(decide(&RawPacket::new(&bytes), &by_addr).verdict, Verdict::Pass);

    let by_range = PolicyRuleSet::new(
        vec![80],
        vec![AddrRange { first: 0x0A00_0000, last: 0x0AFF_FFFF }],
        vec![],
    );
    let bytes = tcp_from([10, 20, 30, 40], 80);
    assert_eq!(decide(&RawPacket::new(&bytes), &by_range).verdict, Verdict::Drop);
    let bytes = tcp_from([11, 0, 0, 0], 80);
    assert_eq!(decide(&RawPacket::new(&bytes), &by_range).verdict, Verdict::Pass);
    let bytes = tcp_from([9, 255, 255, 255], 80);
    assert_eq!(decide(&RawPacket::new(&bytes), &by_range).verdict, Verdict::Pass);

    let by_country = PolicyRuleSet::new(vec![80], vec![], vec!["RU".to_string(), "OTHER".to_string()]);
    let bytes = tcp_from([5, 1, 1, 1], 80);
    assert_eq!(decide(&RawPacket::new(&bytes), &by_country).verdict, Verdict::Drop);
    let bytes = tcp_from([200, 1, 1, 1], 80);
    assert_eq!(decide(&RawPacket::new(&bytes), &by_country).verdict, Verdict::Drop);
    let bytes = tcp_from([1, 1, 1, 1], 80);
    assert_eq!(decide(&RawPacket::new(&bytes), &by_country).verdict, Verdict::Pass);
}

#[test]
fn the_event_carries_the_decoded_fields() {
    let bytes = frame(0x0800, UDP, [1, 2, 3, 4], [192, 168, 1, 20], 53, 42);
    let event = decide(&RawPacket::new(&bytes), &PolicyRuleSet::web_and_dns());
    assert_eq!(event.src_ip, Some(0x0102_0304));
    assert_eq!(event.dst_ip, Some(0xC0A8_0114));
    assert_eq!(event.src_port, Some(53));
    assert_eq!(event.country, Some("US"));
    assert_eq!(event.protocol, Some(17));
    assert_eq!(event.verdict, Verdict::Pass);
}

#[test]
fn web_and_dns_allows_exactly_three_ports() {
    let rules = PolicyRuleSet::web_and_dns();
    for port in 0..=u16::MAX {
        assert_eq!(rules.port_allowed(port), port == 80 || port == 443 || port == 53);
    }
    assert!(!rules.addr_blocked(0));
    assert!(!rules.addr_blocked(u32::MAX));
    assert!(!rules.country_blocked("US"));
    assert!(!rules.country_blocked("OTHER"));
}

#[test]
fn policy_precedence_on_fields() {
    let rules = PolicyRuleSet::new(
        vec![80],
        vec![AddrRange::single(7)],
        vec!["CN".to_string()],
    );
    let fields = |src_addr: u32, src_port: u16, country: &'static str| PacketFields {
        src_addr,
        dst_addr: 1,
        src_port,
        protocol: 6,
        country,
    };
    assert_eq!(rules.evaluate(&fields(7, 80, "US")), Verdict::Drop);
    assert_eq!(rules.evaluate(&fields(8, 80, "CN")), Verdict::Drop);
    assert_eq!(rules.evaluate(&fields(8, 80, "US")), Verdict::Pass);
    assert_eq!(rules.evaluate(&fields(8, 81, "US")), Verdict::Drop);
    assert!(rules.country_blocked("CN"));
    assert!(!rules.country_blocked("C"));
    assert!(!rules.country_blocked("CNN"));
    assert!(!rules.country_blocked(""));
}

#[test]
fn action_codes_are_those_of_the_receive_path() {
    assert_eq!(action_code(Verdict::Abort), 0);
    assert_eq!(action_code(Verdict::Drop), 1);
    assert_eq!(action_code(Verdict::Pass), 2);
}

#[test]
fn cursor_reads_only_inside_the_packet() {
    let bytes: Vec<u8> = (0u8..20).collect();
    let packet = RawPacket::new(&bytes);
    assert_eq!(packet.len(), 20);
    assert_eq!(ptr_at(&packet, 0, 20), Ok(&bytes[..]));
    assert_eq!(ptr_at(&packet, 5, 3), Ok(&bytes[5..8]));
    assert_eq!(ptr_at(&packet, 20, 0), Ok(&bytes[20..]));
    assert_eq!(ptr_at(&packet, 0, 21), Err(OutOfBounds));
    assert_eq!(ptr_at(&packet, 19, 2), Err(OutOfBounds));
    assert_eq!(ptr_at(&packet, 21, 0), Err(OutOfBounds));
}

#[test]
fn cursor_does_not_wrap() {
    let bytes = [0u8; 8];
    let packet = RawPacket::new(&bytes);
    assert_eq!(ptr_at(&packet, usize::MAX, 1), Err(OutOfBounds));
    assert_eq!(ptr_at(&packet, usize::MAX, usize::MAX), Err(OutOfBounds));
    assert_eq!(ptr_at(&packet, 2, usize::MAX), Err(OutOfBounds));
    assert_eq!(ptr_at(&packet, usize::MAX - 3, 8), Err(OutOfBounds));
}

#[test]
fn header_views_give_fields_in_host_order() {
    let bytes = frame(0x0800, TCP, [1, 2, 3, 4], [250, 251, 252, 253], 0x1F90, 54);
    let packet = RawPacket::new(&bytes);
    let ethernet = EthernetHeader::read(&packet).ok().unwrap();
    assert_eq!(ethernet.ether_type(), 0x0800);
    assert!(ethernet.is_ipv4());
    let ipv4 = Ipv4Header::read(&packet).ok().unwrap();
    assert_eq!(ipv4.protocol(), 6);
    assert_eq!(ipv4.src_addr(), 0x0102_0304);
    assert_eq!(ipv4.dst_addr(), 0xFAFB_FCFD);
    let tcp = TransportHeader::read(&packet, TransportProtocol::Tcp).ok().unwrap();
    assert_eq!(tcp.source_port(), 8080);
}

#[test]
fn header_lengths() {
    assert_eq!(ETH_HDR_LEN, 14);
    assert_eq!(IPV4_HDR_LEN, 20);
    assert_eq!(TCP_HDR_LEN, 20);
    assert_eq!(UDP_HDR_LEN, 8);
    assert_eq!(TRANSPORT_OFFSET, 34);
    assert_eq!(TransportProtocol::Tcp.header_len(), 20);
    assert_eq!(TransportProtocol::Udp.header_len(), 8);
    let short = [0u8; 13];
    assert!(EthernetHeader::read(&RawPacket::new(&short)).is_err());
    let exact = [0u8; 14];
    assert!(EthernetHeader::read(&RawPacket::new(&exact)).is_ok());
    let short = [0u8; 33];
    assert!(Ipv4Header::read(&RawPacket::new(&short)).is_err());
    let exact = [0u8; 34];
    assert!(Ipv4Header::read(&RawPacket::new(&exact)).is_ok());
    let short = [0u8; 41];
    assert!(TransportHeader::read(&RawPacket::new(&short), TransportProtocol::Udp).is_err());
    let exact = [0u8; 42];
    assert!(TransportHeader::read(&RawPacket::new(&exact), TransportProtocol::Udp).is_ok());
    assert!(TransportHeader::read(&RawPacket::new(&exact), TransportProtocol::Tcp).is_err());
}

#[test]
fn transport_protocols_by_number() {
    for number in 0..=u8::MAX {
        let expected = match number {
            6 => Some(TransportProtocol::Tcp),
            17 => Some(TransportProtocol::Udp),
            _ => None,
        };
        assert_eq!(TransportProtocol::from_number(number), expected);
    }
}

#[test]
fn country_lookup_is_total() {
    let codes = [
        "US", "CA", "MX", "BR", "RU", "CN", "IN", "GB", "DE", "FR", "ES", "IT", "AU", "JP", "KR",
        "SE", "NO", "FI", "DK", "NL", "BE", "CH", "AT", "PL", "CZ", "SK", "HU", "RO", "BG", "TR",
    ];
    for octet in 0..=255u32 {
        for low in [0u32, 1, 0x00FF_FFFF, 0x0012_3456] {
            let code = lookup_country((octet << 24) | low);
            if (1..=30).contains(&octet) {
                assert_eq!(code, codes[(octet - 1) as usize]);
            } else {
                assert_eq!(code, "OTHER");
            }
        }
    }
}

#[test]
fn country_lookup_exact_values() {
    assert_eq!(lookup_country(0x0102_0304), "US");
    assert_eq!(lookup_country(0x05FF_FFFF), "RU");
    assert_eq!(lookup_country(0x1E00_0000), "TR");
    assert_eq!(lookup_country(0x1F00_0000), "OTHER");
    assert_eq!(lookup_country(0), "OTHER");
    assert_eq!(lookup_country(u32::MAX), "OTHER");
}

#[test]
fn address_ranges_include_both_ends() {
    let range = AddrRange { first: 10, last: 20 };
    assert!(!range.contains(9));
    assert!(range.contains(10));
    assert!(range.contains(15));
    assert!(range.contains(20));
    assert!(!range.contains(21));
    let empty = AddrRange { first: 20, last: 10 };
    assert!(!empty.contains(15));
    assert_eq!(AddrRange::single(5), AddrRange { first: 5, last: 5 });
}
