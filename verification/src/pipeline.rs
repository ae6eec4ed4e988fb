//! The decision pipeline: decode the headers, evaluate the policy, and
//! report the verdict with a diagnostic record.
//!
//! The pipeline keeps no state between packets. Every byte sequence maps to
//! exactly one of pass, drop and abort.

use crate::country::{country_of, first_octet, lookup_country};
use crate::cursor::{OutOfBounds, RawPacket};
use crate::decoder::{
    ether_type_of, dst_addr_of, protocol_of, src_addr_of, src_port_of, transport_len,
    transport_of, EthernetHeader, Ipv4Header, TransportHeader, TransportProtocol,
    ETHERTYPE_IPV4, ETH_HDR_LEN, IPV4_HDR_LEN, TRANSPORT_OFFSET,
};
use crate::policy::{policy_verdict, PacketFields, PolicyRuleSet, RuleSetView};
use crate::verdict::{action_code, action_code_of, Verdict};
use vstd::prelude::*;

verus! {

/// The record emitted for one decision. A field is `None` when the packet
/// was decided before the header that holds it was read.
#[derive(Clone, Copy, Debug)]
pub struct DiagnosticEvent {
    pub src_ip: Option<u32>,
    pub dst_ip: Option<u32>,
    pub src_port: Option<u16>,
    pub country: Option<&'static str>,
    pub protocol: Option<u8>,
    pub verdict: Verdict,
}

/// A diagnostic record with the country code as a sequence of characters.
pub ghost struct EventView {
    pub src_ip: Option<u32>,
    pub dst_ip: Option<u32>,
    pub src_port: Option<u16>,
    pub country: Option<Seq<char>>,
    pub protocol: Option<u8>,
    pub verdict: Verdict,
}

impl View for DiagnosticEvent {
    type V = EventView;

    open spec fn view(&self) -> EventView {
        EventView {
            src_ip: self.src_ip,
            dst_ip: self.dst_ip,
            src_port: self.src_port,
            country: match self.country {
                Some(code) => Some(code@),
                None => None,
            },
            protocol: self.protocol,
            verdict: self.verdict,
        }
    }
}

/// True when the packet holds a whole Ethernet header.
pub open spec fn has_ethernet(packet: Seq<u8>) -> bool {
    packet.len() >= ETH_HDR_LEN
}

/// True when the packet is an Ethernet frame that carries IPv4.
pub open spec fn is_ipv4(packet: Seq<u8>) -> bool {
    has_ethernet(packet) && ether_type_of(packet) == ETHERTYPE_IPV4
}

/// True when the packet is long enough for the fixed IPv4 header.
pub open spec fn has_ipv4_header(packet: Seq<u8>) -> bool {
    packet.len() >= ETH_HDR_LEN + IPV4_HDR_LEN
}

/// True when the packet is Ethernet, IPv4 and TCP or UDP, with each of the
/// three headers whole.
pub open spec fn well_formed(packet: Seq<u8>) -> bool {
    &&& is_ipv4(packet)
    &&& has_ipv4_header(packet)
    &&& transport_of(protocol_of(packet)) matches Some(transport)
    &&& packet.len() >= TRANSPORT_OFFSET + transport_len(transport)
}

/// The country code derived from the packet's source address.
pub open spec fn country_of_packet(packet: Seq<u8>) -> Seq<char> {
    country_of(first_octet(src_addr_of(packet)))
}

/// The record, verdict included, that the pipeline owes for a packet under
/// a rule set.
pub open spec fn event_of(packet: Seq<u8>, rules: RuleSetView) -> EventView {
    let undecoded = EventView {
        src_ip: None,
        dst_ip: None,
        src_port: None,
        country: None,
        protocol: None,
        verdict: Verdict::Abort,
    };
    if !has_ethernet(packet) {
        undecoded
    } else if ether_type_of(packet) != ETHERTYPE_IPV4 {
        EventView { verdict: Verdict::Pass, ..undecoded }
    } else if !has_ipv4_header(packet) {
        undecoded
    } else {
        let network = EventView {
            src_ip: Some(src_addr_of(packet)),
            dst_ip: Some(dst_addr_of(packet)),
            country: Some(country_of_packet(packet)),
            protocol: Some(protocol_of(packet)),
            ..undecoded
        };
        match transport_of(protocol_of(packet)) {
            None => EventView { verdict: Verdict::Drop, ..network },
            Some(transport) => if packet.len() < TRANSPORT_OFFSET + transport_len(transport) {
                network
            } else {
                EventView {
                    src_port: Some(src_port_of(packet)),
                    verdict: policy_verdict(
                        rules,
                        src_addr_of(packet),
                        country_of_packet(packet),
                        src_port_of(packet),
                    ),
                    ..network
                }
            },
        }
    }
}

/// The verdict that the pipeline owes for a packet under a rule set.
pub open spec fn verdict_of(packet: Seq<u8>, rules: RuleSetView) -> Verdict {
    event_of(packet, rules).verdict
}

/// True when the packet ends before a header that the pipeline goes on to
/// read: the Ethernet header, the IPv4 header of an IPv4 frame, or the
/// transport header of a TCP or UDP packet.
pub open spec fn is_truncated(packet: Seq<u8>) -> bool {
    ||| !has_ethernet(packet)
    ||| is_ipv4(packet) && !has_ipv4_header(packet)
    ||| {
        &&& is_ipv4(packet)
        &&& has_ipv4_header(packet)
        &&& transport_of(protocol_of(packet)) matches Some(transport)
        &&& packet.len() < TRANSPORT_OFFSET + transport_len(transport)
    }
}

/// A packet aborts exactly when it is truncated. The policy itself never
/// aborts, so an abort always tells a malformed packet from a denied one.
pub proof fn lemma_abort_means_truncated(packet: Seq<u8>, rules: RuleSetView)
    ensures
        verdict_of(packet, rules) == Verdict::Abort <==> is_truncated(packet),
{
}

/// Decides one packet and reports the decision.
///
/// The headers are read in order, each only if the one before was whole. A
/// frame that is not IPv4 passes unexamined; an IPv4 packet that is neither
/// TCP nor UDP is dropped; a packet too short for a header it needs aborts;
/// every other packet gets the policy's verdict.
pub fn decide(packet: &RawPacket, rules: &PolicyRuleSet) -> (event: DiagnosticEvent)
    ensures
        event@ == event_of(packet@, rules@),
        event.verdict == verdict_of(packet@, rules@),
        !has_ethernet(packet@) ==> event.verdict == Verdict::Abort,
        has_ethernet(packet@) && ether_type_of(packet@) != ETHERTYPE_IPV4 ==> event.verdict
            == Verdict::Pass,
        is_ipv4(packet@) && has_ipv4_header(packet@) && transport_of(protocol_of(packet@))
            is None ==> event.verdict == Verdict::Drop,
        well_formed(packet@) && rules@.allowed_ports.contains(src_port_of(packet@))
            && !rules@.blocked_addrs.contains(src_addr_of(packet@))
            && !rules@.blocked_countries.contains(country_of_packet(packet@)) ==> event.verdict
            == Verdict::Pass,
        well_formed(packet@) && !rules@.allowed_ports.contains(src_port_of(packet@))
            ==> event.verdict == Verdict::Drop,
{
    let mut event = DiagnosticEvent {
        src_ip: None,
        dst_ip: None,
        src_port: None,
        country: None,
        protocol: None,
        verdict: Verdict::Abort,
    };
    let ethernet = match EthernetHeader::read(packet) {
        Ok(header) => header,
        Err(_) => {
            return event;
        },
    };
    if !ethernet.is_ipv4() {
        event.verdict = Verdict::Pass;
        return event;
    }
    let ipv4 = match Ipv4Header::read(packet) {
        Ok(header) => header,
        Err(_) => {
            return event;
        },
    };
    let src_addr = ipv4.src_addr();
    let dst_addr = ipv4.dst_addr();
    let protocol = ipv4.protocol();
    let country = lookup_country(src_addr);
    event.src_ip = Some(src_addr);
    event.dst_ip = Some(dst_addr);
    event.country = Some(country);
    event.protocol = Some(protocol);
    let transport = match TransportProtocol::from_number(protocol) {
        Some(transport) => transport,
        None => {
            event.verdict = Verdict::Drop;
            return event;
        },
    };
    let header = match TransportHeader::read(packet, transport) {
        Ok(header) => header,
        Err(_) => {
            return event;
        },
    };
    let src_port = header.source_port();
    let fields = PacketFields { src_addr, dst_addr, src_port, protocol, country };
    event.src_port = Some(src_port);
    event.verdict = rules.evaluate(&fields);
    event
}

/// Decides one packet and gives the action code of a policy verdict, or
/// `OutOfBounds` where the packet is too short for a header it needs.
pub fn try_xdp_firewall(packet: &RawPacket, rules: &PolicyRuleSet) -> (action: Result<
    u32,
    OutOfBounds,
>)
    ensures
        action is Err <==> verdict_of(packet@, rules@) == Verdict::Abort,
        action matches Ok(code) ==> code == action_code_of(verdict_of(packet@, rules@)),
{
    let event = decide(packet, rules);
    match event.verdict {
        Verdict::Abort => Err(OutOfBounds),
        verdict => Ok(action_code(verdict)),
    }
}

/// Decides one packet and gives its action code: 2 to pass, 1 to drop, 0
/// where the packet could not be parsed.
pub fn xdp_firewall(packet: &RawPacket, rules: &PolicyRuleSet) -> (code: u32)
    ensures
        code == action_code_of(verdict_of(packet@, rules@)),
{
    match try_xdp_firewall(packet, rules) {
        Ok(code) => code,
        Err(_) => action_code(Verdict::Abort),
    }
}

} // verus!
