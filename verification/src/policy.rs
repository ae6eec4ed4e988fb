//! The rule snapshot and the policy decision taken against it.
//!
//! A rule set is built whole and never changed afterwards: replacing the
//! rules means building a new snapshot and handing that one to the next
//! decision.

use crate::text::str_equal;
use crate::verdict::Verdict;
use vstd::prelude::*;

verus! {

/// A run of consecutive addresses, both ends included. A single address is
/// the range from itself to itself.
#[derive(Clone, Copy, Debug, PartialEq, Eq, Structural)]
pub struct AddrRange {
    pub first: u32,
    pub last: u32,
}

impl AddrRange {
    /// True when the address lies in the range.
    pub open spec fn covers(self, addr: u32) -> bool {
        self.first <= addr <= self.last
    }

    /// The range that holds one address.
    pub fn single(addr: u32) -> (range: AddrRange)
        ensures
            range == (AddrRange { first: addr, last: addr }),
    {
        AddrRange { first: addr, last: addr }
    }

    /// Tells whether the address lies in the range.
    pub fn contains(&self, addr: u32) -> (inside: bool)
        ensures
            inside == self.covers(addr),
    {
        self.first <= addr && addr <= self.last
    }
}

/// What a rule set says, as three sets.
pub ghost struct RuleSetView {
    /// Source ports that are let through.
    pub allowed_ports: Set<u16>,
    /// Source addresses that are refused.
    pub blocked_addrs: Set<u32>,
    /// Country codes that are refused.
    pub blocked_countries: Set<Seq<char>>,
}

/// The ports that occur in the list.
pub open spec fn port_set(ports: Seq<u16>) -> Set<u16> {
    Set::new(|p: u16| exists|i: int| 0 <= i < ports.len() && ports[i] == p)
}

/// The addresses that some range of the list covers.
pub open spec fn addr_set(ranges: Seq<AddrRange>) -> Set<u32> {
    Set::new(|a: u32| exists|i: int| 0 <= i < ranges.len() && #[trigger] ranges[i].covers(a))
}

/// The codes that occur in the list.
pub open spec fn country_set(codes: Seq<String>) -> Set<Seq<char>> {
    Set::new(|c: Seq<char>| exists|i: int| 0 <= i < codes.len() && #[trigger] codes[i]@ == c)
}

/// The policy outcome for a packet's fields. Block lists come before the
/// allow list: a blocked source is dropped whatever its port.
pub open spec fn policy_verdict(
    rules: RuleSetView,
    src_addr: u32,
    country: Seq<char>,
    src_port: u16,
) -> Verdict {
    if rules.blocked_addrs.contains(src_addr) {
        Verdict::Drop
    } else if rules.blocked_countries.contains(country) {
        Verdict::Drop
    } else if rules.allowed_ports.contains(src_port) {
        Verdict::Pass
    } else {
        Verdict::Drop
    }
}

/// The fields of a packet that the policy is evaluated on.
#[derive(Clone, Copy, Debug)]
pub struct PacketFields {
    pub src_addr: u32,
    pub dst_addr: u32,
    pub src_port: u16,
    pub protocol: u8,
    pub country: &'static str,
}

/// An immutable snapshot of the filtering rules.
#[derive(Debug)]
pub struct PolicyRuleSet {
    allowed_ports: Vec<u16>,
    blocked_addrs: Vec<AddrRange>,
    blocked_countries: Vec<String>,
}

impl View for PolicyRuleSet {
    type V = RuleSetView;

    closed spec fn view(&self) -> RuleSetView {
        RuleSetView {
            allowed_ports: port_set(self.allowed_ports@),
            blocked_addrs: addr_set(self.blocked_addrs@),
            blocked_countries: country_set(self.blocked_countries@),
        }
    }
}

impl PolicyRuleSet {
    /// Builds a snapshot from the three lists.
    pub fn new(
        allowed_ports: Vec<u16>,
        blocked_addrs: Vec<AddrRange>,
        blocked_countries: Vec<String>,
    ) -> (rules: PolicyRuleSet)
        ensures
            rules@.allowed_ports == port_set(allowed_ports@),
            rules@.blocked_addrs == addr_set(blocked_addrs@),
            rules@.blocked_countries == country_set(blocked_countries@),
    {
        PolicyRuleSet { allowed_ports, blocked_addrs, blocked_countries }
    }

    /// The snapshot that lets HTTP, HTTPS and DNS sources through (ports 80,
    /// 443 and 53) and blocks nothing.
    pub fn web_and_dns() -> (rules: PolicyRuleSet)
        ensures
            forall|p: u16| rules@.allowed_ports.contains(p) <==> (p == 80 || p == 443 || p == 53),
            rules@.blocked_addrs == Set::<u32>::empty(),
            rules@.blocked_countries == Set::<Seq<char>>::empty(),
    {
        let mut ports: Vec<u16> = Vec::new();
        ports.push(80);
        ports.push(443);
        ports.push(53);
        let rules = PolicyRuleSet {
            allowed_ports: ports,
            blocked_addrs: Vec::new(),
            blocked_countries: Vec::new(),
        };
        proof {
            assert(rules.allowed_ports@[0] == 80);
            assert(rules.allowed_ports@[1] == 443);
            assert(rules.allowed_ports@[2] == 53);
        }
        rules
    }

    /// Tells whether the port is on the allow list.
    pub fn port_allowed(&self, port: u16) -> (allowed: bool)
        ensures
            allowed == self@.allowed_ports.contains(port),
    {
        let mut i: usize = 0;
        while i < self.allowed_ports.len()
            invariant
                i <= self.allowed_ports@.len(),
                forall|k: int| 0 <= k < i ==> self.allowed_ports@[k] != port,
            decreases self.allowed_ports@.len() - i,
        {
            if self.allowed_ports[i] == port {
                return true;
            }
            i += 1;
        }
        false
    }

    /// Tells whether the address is on the block list.
    pub fn addr_blocked(&self, addr: u32) -> (blocked: bool)
        ensures
            blocked == self@.blocked_addrs.contains(addr),
    {
        let mut i: usize = 0;
        while i < self.blocked_addrs.len()
            invariant
                i <= self.blocked_addrs@.len(),
                forall|k: int| 0 <= k < i ==> !(#[trigger] self.blocked_addrs@[k].covers(addr)),
            decreases self.blocked_addrs@.len() - i,
        {
            if self.blocked_addrs[i].contains(addr) {
                return true;
            }
            i += 1;
        }
        false
    }

    /// Tells whether the country code is on the block list.
    pub fn country_blocked(&self, code: &str) -> (blocked: bool)
        ensures
            blocked == self@.blocked_countries.contains(code@),
    {
        let mut i: usize = 0;
        while i < self.blocked_countries.len()
            invariant
                i <= self.blocked_countries@.len(),
                forall|k: int| 0 <= k < i ==> #[trigger] self.blocked_countries@[k]@ != code@,
            decreases self.blocked_countries@.len() - i,
        {
            if str_equal(self.blocked_countries[i].as_str(), code) {
                return true;
            }
            i += 1;
        }
        false
    }

    /// Decides on a packet's fields: drop a blocked address, else drop a
    /// blocked country, else pass an allowed port, else drop. The outcome is
    /// never `Abort`.
    pub fn evaluate(&self, fields: &PacketFields) -> (verdict: Verdict)
        ensures
            verdict == policy_verdict(self@, fields.src_addr, fields.country@, fields.src_port),
            verdict != Verdict::Abort,
    {
        if self.addr_blocked(fields.src_addr) {
            Verdict::Drop
        } else if self.country_blocked(fields.country) {
            Verdict::Drop
        } else if self.port_allowed(fields.src_port) {
            Verdict::Pass
        } else {
            Verdict::Drop
        }
    }
}

/// A blocked source address is dropped even when its port is allowed.
pub proof fn lemma_blocked_addr_drops(
    rules: RuleSetView,
    src_addr: u32,
    country: Seq<char>,
    src_port: u16,
)
    requires
        rules.blocked_addrs.contains(src_addr),
    ensures
        policy_verdict(rules, src_addr, country, src_port) == Verdict::Drop,
{
}

/// A blocked country is dropped even when the port is allowed.
pub proof fn lemma_blocked_country_drops(
    rules: RuleSetView,
    src_addr: u32,
    country: Seq<char>,
    src_port: u16,
)
    requires
        rules.blocked_countries.contains(country),
    ensures
        policy_verdict(rules, src_addr, country, src_port) == Verdict::Drop,
{
}

} // verus!
