//! From the composed policy to a rule snapshot for the packet path.
//!
//! Ports are decimal numbers up to 65535. A blocked address is a dotted
//! quad such as `10.0.0.1`, or two of them with a hyphen between, for every
//! address from the first to the second. Country codes are taken as they
//! are written.

use crate::config::{LaunchPolicy, LaunchView};
use crate::policy::{addr_set, country_set, port_set, AddrRange, PolicyRuleSet, RuleSetView};
use crate::text::{
    all_digits, chars_of, digits_value, is_digit, parse_usize, split, split_on, usize_of, views,
};
use vstd::prelude::*;

verus! {

/// The port that a string writes: a decimal number up to 65535.
pub open spec fn port_of(s: Seq<char>) -> Option<u16> {
    match usize_of(s) {
        Some(n) => if n <= 0xFFFF {
            Some(n as u16)
        } else {
            None
        },
        None => None,
    }
}

/// The octet that a string writes: one to three digits, up to 255, without
/// a zero before other digits.
pub open spec fn octet_of(s: Seq<char>) -> Option<u8> {
    if 1 <= s.len() <= 3 && all_digits(s) && (s.len() == 1 || s[0] != '0') && digits_value(s)
        <= 0xFF {
        Some(digits_value(s) as u8)
    } else {
        None
    }
}

/// The address with the four octets, the first one being the most
/// significant.
pub open spec fn addr_from(o0: u8, o1: u8, o2: u8, o3: u8) -> u32 {
    (o0 * 0x100_0000 + o1 * 0x1_0000 + o2 * 0x100 + o3) as u32
}

/// The address that a dotted quad writes.
pub open spec fn addr_of(s: Seq<char>) -> Option<u32> {
    let parts = split_on(s, '.');
    if parts.len() == 4 && octet_of(parts[0]) is Some && octet_of(parts[1]) is Some && octet_of(
        parts[2],
    ) is Some && octet_of(parts[3]) is Some {
        Some(
            addr_from(
                octet_of(parts[0])->0,
                octet_of(parts[1])->0,
                octet_of(parts[2])->0,
                octet_of(parts[3])->0,
            ),
        )
    } else {
        None
    }
}

/// The range that a string writes: one address, or a first and a last
/// address with a hyphen between, the first not above the last.
pub open spec fn range_of(s: Seq<char>) -> Option<AddrRange> {
    let ends = split_on(s, '-');
    if ends.len() == 1 {
        match addr_of(ends[0]) {
            Some(addr) => Some(AddrRange { first: addr, last: addr }),
            None => None,
        }
    } else if ends.len() == 2 && addr_of(ends[0]) is Some && addr_of(ends[1]) is Some && addr_of(
        ends[0],
    )->0 <= addr_of(ends[1])->0 {
        Some(AddrRange { first: addr_of(ends[0])->0, last: addr_of(ends[1])->0 })
    } else {
        None
    }
}

/// Reads a port.
pub fn parse_port(s: &str) -> (port: Option<u16>)
    ensures
        port == port_of(s@),
{
    match parse_usize(s) {
        Some(n) => {
            if n <= 0xFFFF {
                Some(n as u16)
            } else {
                None
            }
        },
        None => None,
    }
}

/// Reads one octet of a dotted quad.
pub fn parse_octet(s: &str) -> (octet: Option<u8>)
    ensures
        octet == octet_of(s@),
{
    let chars = chars_of(s);
    if chars.len() < 1 || chars.len() > 3 {
        return None;
    }
    if chars.len() > 1 && chars[0] == '0' {
        return None;
    }
    let mut value: u32 = 0;
    let mut i: usize = 0;
    while i < chars.len()
        invariant
            i <= chars@.len() <= 3,
            chars@ == s@,
            all_digits(chars@.take(i as int)),
            value == digits_value(chars@.take(i as int)),
            i == 0 ==> value == 0,
            i == 1 ==> value <= 9,
            i == 2 ==> value <= 99,
            value <= 999,
        decreases chars@.len() - i,
    {
        let u: u32 = chars[i] as u32;
        if !(0x30 <= u && u <= 0x39) {
            return None;
        }
        proof {
            let longer = chars@.take(i + 1);
            assert(longer.drop_last() == chars@.take(i as int));
        }
        value = value * 10 + (u - 0x30);
        i += 1;
    }
    assert(chars@.take(i as int) == chars@);
    if value <= 0xFF {
        Some(value as u8)
    } else {
        None
    }
}

/// Reads a dotted quad.
pub fn parse_addr(s: &str) -> (addr: Option<u32>)
    ensures
        addr == addr_of(s@),
{
    let parts = split(s, '.');
    if parts.len() != 4 {
        return None;
    }
    let o0 = match parse_octet(parts[0].as_str()) {
        Some(octet) => octet,
        None => {
            return None;
        },
    };
    let o1 = match parse_octet(parts[1].as_str()) {
        Some(octet) => octet,
        None => {
            return None;
        },
    };
    let o2 = match parse_octet(parts[2].as_str()) {
        Some(octet) => octet,
        None => {
            return None;
        },
    };
    let o3 = match parse_octet(parts[3].as_str()) {
        Some(octet) => octet,
        None => {
            return None;
        },
    };
    let b0: u32 = o0 as u32;
    let b1: u32 = o1 as u32;
    let b2: u32 = o2 as u32;
    let b3: u32 = o3 as u32;
    Some(b0 * 0x100_0000 + b1 * 0x1_0000 + b2 * 0x100 + b3)
}

/// Reads an address or a range of addresses.
pub fn parse_range(s: &str) -> (range: Option<AddrRange>)
    ensures
        range == range_of(s@),
{
    let ends = split(s, '-');
    if ends.len() == 1 {
        match parse_addr(ends[0].as_str()) {
            Some(addr) => Some(AddrRange { first: addr, last: addr }),
            None => None,
        }
    } else if ends.len() == 2 {
        let first = match parse_addr(ends[0].as_str()) {
            Some(addr) => addr,
            None => {
                return None;
            },
        };
        let last = match parse_addr(ends[1].as_str()) {
            Some(addr) => addr,
            None => {
                return None;
            },
        };
        if first <= last {
            Some(AddrRange { first, last })
        } else {
            None
        }
    } else {
        None
    }
}

/// Why a composed policy gives no rule snapshot.
#[derive(Clone, Copy, Debug, PartialEq, Eq, Structural)]
pub enum RuleError {
    /// The port at this index of the list is no port.
    BadPort(usize),
    /// The blocked address at this index of the list is no address and no
    /// range.
    BadAddress(usize),
}

/// True when each of the first `n` items writes a port.
pub open spec fn ports_valid(items: Seq<Seq<char>>, n: int) -> bool {
    forall|i: int| 0 <= i < n ==> port_of(#[trigger] items[i]) is Some
}

/// True when each of the first `n` items writes an address or a range.
pub open spec fn ranges_valid(items: Seq<Seq<char>>, n: int) -> bool {
    forall|i: int| 0 <= i < n ==> range_of(#[trigger] items[i]) is Some
}

/// The ports that the items write.
pub open spec fn ports_in(items: Seq<Seq<char>>) -> Set<u16> {
    Set::new(|p: u16| exists|i: int| 0 <= i < items.len() && port_of(#[trigger] items[i]) == Some(p))
}

/// The addresses that the items cover.
pub open spec fn addrs_in(items: Seq<Seq<char>>) -> Set<u32> {
    Set::new(
        |a: u32|
            exists|i: int|
                0 <= i < items.len() && range_of(#[trigger] items[i]) is Some && range_of(
                    items[i],
                )->0.covers(a),
    )
}

/// The codes that the items are.
pub open spec fn codes_in(items: Seq<Seq<char>>) -> Set<Seq<char>> {
    Set::new(|c: Seq<char>| exists|i: int| 0 <= i < items.len() && #[trigger] items[i] == c)
}

/// The rules that a composed policy stands for.
pub open spec fn rules_in(policy: LaunchView) -> RuleSetView {
    RuleSetView {
        allowed_ports: ports_in(policy.ports),
        blocked_addrs: addrs_in(policy.blocked_ips),
        blocked_countries: codes_in(policy.blocked_countries),
    }
}

/// Reads the ports of a list, or gives the index of the first item that is
/// no port.
fn read_ports(items: &Vec<String>) -> (ports: Result<Vec<u16>, usize>)
    ensures
        match ports {
            Ok(list) => ports_valid(views(items@), items@.len() as int) && port_set(list@)
                == ports_in(views(items@)),
            Err(at) => at < items@.len() && ports_valid(views(items@), at as int) && port_of(
                items@[at as int]@,
            ) is None,
        },
{
    let mut list: Vec<u16> = Vec::new();
    let mut i: usize = 0;
    while i < items.len()
        invariant
            i <= items@.len(),
            list@.len() == i,
            forall|k: int| 0 <= k < i ==> port_of(#[trigger] views(items@)[k]) == Some(list@[k]),
        decreases items@.len() - i,
    {
        match parse_port(items[i].as_str()) {
            Some(port) => {
                list.push(port);
            },
            None => {
                return Err(i);
            },
        }
        i += 1;
    }
    proof {
        let all = views(items@);
        assert forall|p: u16| port_set(list@).contains(p) <==> ports_in(all).contains(p) by {
            if port_set(list@).contains(p) {
                let k = choose|k: int| 0 <= k < list@.len() && list@[k] == p;
                assert(port_of(all[k]) == Some(p));
            }
            if ports_in(all).contains(p) {
                let k = choose|k: int| 0 <= k < all.len() && port_of(#[trigger] all[k]) == Some(p);
                assert(list@[k] == p);
            }
        }
    }
    Ok(list)
}

/// Reads the ranges of a list, or gives the index of the first item that is
/// no address and no range.
fn read_ranges(items: &Vec<String>) -> (ranges: Result<Vec<AddrRange>, usize>)
    ensures
        match ranges {
            Ok(list) => ranges_valid(views(items@), items@.len() as int) && addr_set(list@)
                == addrs_in(views(items@)),
            Err(at) => at < items@.len() && ranges_valid(views(items@), at as int) && range_of(
                items@[at as int]@,
            ) is None,
        },
{
    let mut list: Vec<AddrRange> = Vec::new();
    let mut i: usize = 0;
    while i < items.len()
        invariant
            i <= items@.len(),
            list@.len() == i,
            forall|k: int| 0 <= k < i ==> range_of(#[trigger] views(items@)[k]) == Some(list@[k]),
        decreases items@.len() - i,
    {
        match parse_range(items[i].as_str()) {
            Some(range) => {
                list.push(range);
            },
            None => {
                return Err(i);
            },
        }
        i += 1;
    }
    proof {
        let all = views(items@);
        assert forall|a: u32| addr_set(list@).contains(a) <==> addrs_in(all).contains(a) by {
            if addr_set(list@).contains(a) {
                let k = choose|k: int| 0 <= k < list@.len() && #[trigger] list@[k].covers(a);
                assert(range_of(all[k]) == Some(list@[k]));
            }
            if addrs_in(all).contains(a) {
                let k = choose|k: int|
                    0 <= k < all.len() && range_of(#[trigger] all[k]) is Some && range_of(
                        all[k],
                    )->0.covers(a);
                assert(list@[k].covers(a));
            }
        }
    }
    Ok(list)
}

/// Copies a list of country codes.
fn read_codes(items: &Vec<String>) -> (codes: Vec<String>)
    ensures
        country_set(codes@) == codes_in(views(items@)),
{
    let mut codes: Vec<String> = Vec::new();
    let mut i: usize = 0;
    while i < items.len()
        invariant
            i <= items@.len(),
            codes@.len() == i,
            forall|k: int| 0 <= k < i ==> #[trigger] codes@[k]@ == items@[k]@,
        decreases items@.len() - i,
    {
        codes.push(items[i].clone());
        i += 1;
    }
    proof {
        let all = views(items@);
        assert forall|c: Seq<char>| country_set(codes@).contains(c) <==> codes_in(all).contains(
            c,
        ) by {
            if country_set(codes@).contains(c) {
                let k = choose|k: int| 0 <= k < codes@.len() && #[trigger] codes@[k]@ == c;
                assert(all[k] == c);
            }
            if codes_in(all).contains(c) {
                let k = choose|k: int| 0 <= k < all.len() && #[trigger] all[k] == c;
                assert(codes@[k]@ == c);
            }
        }
    }
    codes
}

/// Builds the rule snapshot that a composed policy stands for.
///
/// The ports are read first, then the blocked addresses; the first item
/// that cannot be read is reported by its index, and no snapshot is built.
pub fn rule_set_of(policy: &LaunchPolicy) -> (rules: Result<PolicyRuleSet, RuleError>)
    ensures
        match rules {
            Ok(set) => {
                &&& ports_valid(policy@.ports, policy@.ports.len() as int)
                &&& ranges_valid(policy@.blocked_ips, policy@.blocked_ips.len() as int)
                &&& set@ == rules_in(policy@)
            },
            Err(RuleError::BadPort(at)) => {
                &&& at < policy@.ports.len()
                &&& ports_valid(policy@.ports, at as int)
                &&& port_of(policy@.ports[at as int]) is None
            },
            Err(RuleError::BadAddress(at)) => {
                &&& ports_valid(policy@.ports, policy@.ports.len() as int)
                &&& at < policy@.blocked_ips.len()
                &&& ranges_valid(policy@.blocked_ips, at as int)
                &&& range_of(policy@.blocked_ips[at as int]) is None
            },
        },
{
    let ports = match read_ports(&policy.ports) {
        Ok(list) => list,
        Err(at) => {
            return Err(RuleError::BadPort(at));
        },
    };
    let ranges = match read_ranges(&policy.blocked_ips) {
        Ok(list) => list,
        Err(at) => {
            return Err(RuleError::BadAddress(at));
        },
    };
    let codes = read_codes(&policy.blocked_countries);
    Ok(PolicyRuleSet::new(ports, ranges, codes))
}

} // verus!
