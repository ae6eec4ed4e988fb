//! The policy configuration file: a plain text of alternating lines, a
//! quoted key and then its value.
//!
//! The functions here work on the file's text. Reading and writing the file
//! is left to the caller.

use crate::text::{
    join, join_with, lines, lines_of, split, split_on, str_equal, trim, trim_matches, trimmed,
    unquoted, views,
};
use vstd::prelude::*;

verus! {

/// The key of the interface to filter on.
pub open spec fn iface_key() -> Seq<char> {
    "iface"@
}

/// The key of the list of allowed source ports.
pub open spec fn ports_key() -> Seq<char> {
    "allowed-ports"@
}

/// The key of the list of blocked source addresses.
pub open spec fn addrs_key() -> Seq<char> {
    "blocked-ips"@
}

/// The key of the list of blocked country codes.
pub open spec fn countries_key() -> Seq<char> {
    "blocked-countries"@
}

/// The line that introduces the interface.
pub open spec fn iface_line() -> Seq<char> {
    "\"iface\""@
}

/// The line that introduces the allowed ports.
pub open spec fn ports_line() -> Seq<char> {
    "\"allowed-ports\""@
}

/// The line that introduces the blocked addresses.
pub open spec fn addrs_line() -> Seq<char> {
    "\"blocked-ips\""@
}

/// The line that introduces the blocked countries.
pub open spec fn countries_line() -> Seq<char> {
    "\"blocked-countries\""@
}

/// The lines of the file that is written where none exists yet.
pub open spec fn default_lines() -> Seq<Seq<char>> {
    seq![
        iface_line(),
        "eth0"@,
        ports_line(),
        "80, 443"@,
        addrs_line(),
        ""@,
        countries_line(),
    ]
}

/// The text of the file that is written where none exists yet: the default
/// lines, each ended by a line feed.
pub open spec fn default_text() -> Seq<char> {
    join_with(default_lines(), "\n"@) + "\n"@
}

/// The text of the file that is written where none exists yet: interface
/// `eth0`, ports 80 and 443, and empty block lists.
pub fn default_config() -> (text: String)
    ensures
        text@ == default_text(),
{
    let mut all: Vec<String> = Vec::new();
    all.push("\"iface\"".to_owned());
    all.push("eth0".to_owned());
    all.push("\"allowed-ports\"".to_owned());
    all.push("80, 443".to_owned());
    all.push("\"blocked-ips\"".to_owned());
    all.push("".to_owned());
    all.push("\"blocked-countries\"".to_owned());
    assert(views(all@) == default_lines());
    let mut text = join(&all, "\n");
    text.append("\n");
    text
}

/// The key that a key line names: the line without the white space and then
/// the double quotes around it.
pub open spec fn key_of(line: Seq<char>) -> Seq<char> {
    unquoted(trimmed(line))
}

/// What the first `pairs` pairs of lines say. Of two pairs with one key the
/// later one counts.
pub open spec fn parsed(all: Seq<Seq<char>>, pairs: nat) -> Map<Seq<char>, Seq<char>>
    decreases pairs,
{
    if pairs == 0 {
        Map::empty()
    } else {
        parsed(all, (pairs - 1) as nat).insert(
            key_of(all[2 * pairs - 2]),
            trimmed(all[2 * pairs - 1]),
        )
    }
}

/// What a configuration text says: its lines are taken two by two, a key
/// and its value. A last line without a partner is ignored.
pub open spec fn config_of(text: Seq<char>) -> Map<Seq<char>, Seq<char>> {
    parsed(lines_of(text), lines_of(text).len() / 2)
}

/// What a list of entries says. Of two entries with one key the later one
/// counts.
pub open spec fn entries_map(entries: Seq<(String, String)>) -> Map<Seq<char>, Seq<char>>
    decreases entries.len(),
{
    if entries.len() == 0 {
        Map::empty()
    } else {
        entries_map(entries.drop_last()).insert(entries.last().0@, entries.last().1@)
    }
}

/// The keys and values read from a configuration text.
pub struct ConfigMap {
    entries: Vec<(String, String)>,
}

impl View for ConfigMap {
    type V = Map<Seq<char>, Seq<char>>;

    closed spec fn view(&self) -> Map<Seq<char>, Seq<char>> {
        entries_map(self.entries@)
    }
}

impl ConfigMap {
    /// A configuration without keys.
    pub fn new() -> (config: ConfigMap)
        ensures
            config@ == Map::<Seq<char>, Seq<char>>::empty(),
    {
        ConfigMap { entries: Vec::new() }
    }

    /// Sets the value of a key, in place of any value it had.
    pub fn insert(&mut self, key: String, value: String)
        ensures
            final(self)@ == old(self)@.insert(key@, value@),
    {
        let ghost before = self.entries@;
        self.entries.push((key, value));
        assert(self.entries@.drop_last() == before);
    }

    /// The value of a key, if it has one.
    pub fn get(&self, key: &str) -> (value: Option<&String>)
        ensures
            value is Some <==> self@.contains_key(key@),
            value matches Some(v) ==> v@ == self@[key@],
    {
        let mut i: usize = self.entries.len();
        assert(self.entries@.take(i as int) == self.entries@);
        while i > 0
            invariant
                i <= self.entries@.len(),
                self@.contains_key(key@) == entries_map(self.entries@.take(i as int)).contains_key(
                    key@,
                ),
                self@.contains_key(key@) ==> self@[key@] == entries_map(
                    self.entries@.take(i as int),
                )[key@],
            decreases i,
        {
            let ghost head = self.entries@.take(i as int);
            assert(head.drop_last() == self.entries@.take(i - 1));
            i -= 1;
            if str_equal(self.entries[i].0.as_str(), key) {
                return Some(&self.entries[i].1);
            }
        }
        None
    }
}

/// Reads a configuration text.
pub fn parse_config(content: &str) -> (config: ConfigMap)
    ensures
        config@ == config_of(content@),
{
    let all = lines(content);
    let mut config = ConfigMap::new();
    let mut i: usize = 0;
    while i < all.len() && i + 1 < all.len()
        invariant
            i <= all@.len(),
            i % 2 == 0,
            config@ == parsed(views(all@), (i / 2) as nat),
        decreases all@.len() - i,
    {
        let key = trim_matches(trim(all[i].as_str()), '"').to_owned();
        let value = trim(all[i + 1].as_str()).to_owned();
        config.insert(key, value);
        i += 2;
    }
    config
}

/// The parts without the white space around them, empty ones left out.
pub open spec fn kept_items(parts: Seq<Seq<char>>) -> Seq<Seq<char>> {
    parts.map_values(|part: Seq<char>| trimmed(part)).filter(|item: Seq<char>| item.len() > 0)
}

/// One more part adds its trimmed form to the kept items, unless that is
/// empty.
pub proof fn lemma_kept_items_push(parts: Seq<Seq<char>>, part: Seq<char>)
    ensures
        kept_items(parts.push(part)) == if trimmed(part).len() > 0 {
            kept_items(parts).push(trimmed(part))
        } else {
            kept_items(parts)
        },
{
    reveal(Seq::filter);
    let trimmed_parts = parts.map_values(|part: Seq<char>| trimmed(part));
    let longer = parts.push(part).map_values(|part: Seq<char>| trimmed(part));
    assert(longer.drop_last() == trimmed_parts);
}

/// The items of a comma-separated list: white space around an item does not
/// belong to it, and empty items do not count.
pub open spec fn list_items(value: Seq<char>) -> Seq<Seq<char>> {
    kept_items(split_on(value, ','))
}

/// Reads a comma-separated list.
pub fn list_of(value: &str) -> (items: Vec<String>)
    ensures
        views(items@) == list_items(value@),
{
    let parts = split(value, ',');
    let mut items: Vec<String> = Vec::new();
    let mut i: usize = 0;
    proof {
        reveal(Seq::filter);
    }
    while i < parts.len()
        invariant
            i <= parts@.len(),
            views(items@) == kept_items(views(parts@).take(i as int)),
        decreases parts@.len() - i,
    {
        let item = trim(parts[i].as_str());
        proof {
            let done = views(parts@).take(i as int);
            assert(views(parts@).take(i + 1) == done.push(parts@[i as int]@));
            lemma_kept_items_push(done, parts@[i as int]@);
        }
        if !item.is_empty() {
            items.push(item.to_owned());
        }
        i += 1;
    }
    assert(views(parts@).take(parts@.len() as int) == views(parts@));
    items
}

/// The value of a key, or `default` where the key has none.
pub open spec fn value_or(
    config: Map<Seq<char>, Seq<char>>,
    key: Seq<char>,
    default: Seq<char>,
) -> Seq<char> {
    if config.contains_key(key) {
        config[key]
    } else {
        default
    }
}

/// The effective policy of a configuration, as sequences of characters.
pub ghost struct LaunchView {
    pub iface: Seq<char>,
    pub ports: Seq<Seq<char>>,
    pub blocked_ips: Seq<Seq<char>>,
    pub blocked_countries: Seq<Seq<char>>,
}

/// The effective policy of a configuration: the interface, `eth0` where
/// none is set, and the items of the three lists, empty where one is not
/// set.
pub open spec fn launch_of(config: Map<Seq<char>, Seq<char>>) -> LaunchView {
    LaunchView {
        iface: trimmed(value_or(config, iface_key(), "eth0"@)),
        ports: list_items(value_or(config, ports_key(), ""@)),
        blocked_ips: list_items(value_or(config, addrs_key(), ""@)),
        blocked_countries: list_items(value_or(config, countries_key(), ""@)),
    }
}

/// A flag followed by its items, or nothing where there are no items.
pub open spec fn flag_arguments(flag: Seq<char>, items: Seq<Seq<char>>) -> Seq<Seq<char>> {
    if items.len() == 0 {
        Seq::empty()
    } else {
        seq![flag] + items
    }
}

/// The arguments that carry a policy to the filtering process.
pub open spec fn arguments_of(policy: LaunchView) -> Seq<Seq<char>> {
    seq!["--iface"@, policy.iface] + flag_arguments("--ports"@, policy.ports) + flag_arguments(
        "--blocked-ips"@,
        policy.blocked_ips,
    ) + flag_arguments("--blocked-countries"@, policy.blocked_countries)
}

/// The effective policy that the filtering process is started with.
pub struct LaunchPolicy {
    pub iface: String,
    pub ports: Vec<String>,
    pub blocked_ips: Vec<String>,
    pub blocked_countries: Vec<String>,
}

impl View for LaunchPolicy {
    type V = LaunchView;

    open spec fn view(&self) -> LaunchView {
        LaunchView {
            iface: self.iface@,
            ports: views(self.ports@),
            blocked_ips: views(self.blocked_ips@),
            blocked_countries: views(self.blocked_countries@),
        }
    }
}

/// Adds a flag and its items to the arguments, or nothing where there are
/// no items.
fn push_flag(arguments: &mut Vec<String>, flag: &str, items: &Vec<String>)
    ensures
        views(final(arguments)@) == views(old(arguments)@) + flag_arguments(flag@, views(items@)),
{
    let ghost before = views(arguments@);
    if items.len() == 0 {
        return;
    }
    arguments.push(flag.to_owned());
    let mut i: usize = 0;
    while i < items.len()
        invariant
            i <= items@.len(),
            views(arguments@) == before + seq![flag@] + views(items@).take(i as int),
        decreases items@.len() - i,
    {
        let ghost so_far = views(arguments@);
        arguments.push(items[i].clone());
        assert(views(arguments@) == so_far.push(items@[i as int]@));
        i += 1;
    }
}

impl LaunchPolicy {
    /// The arguments that carry this policy to the filtering process: the
    /// interface always, each list only where it has items.
    pub fn arguments(&self) -> (arguments: Vec<String>)
        ensures
            views(arguments@) == arguments_of(self@),
    {
        let mut arguments: Vec<String> = Vec::new();
        arguments.push("--iface".to_owned());
        arguments.push(self.iface.clone());
        push_flag(&mut arguments, "--ports", &self.ports);
        push_flag(&mut arguments, "--blocked-ips", &self.blocked_ips);
        push_flag(&mut arguments, "--blocked-countries", &self.blocked_countries);
        arguments
    }
}

/// Composes the effective policy of a configuration.
pub fn compose_policy(config: &ConfigMap) -> (policy: LaunchPolicy)
    ensures
        policy@ == launch_of(config@),
{
    let iface = match config.get("iface") {
        Some(value) => trim(value.as_str()).to_owned(),
        None => trim("eth0").to_owned(),
    };
    let ports = match config.get("allowed-ports") {
        Some(value) => list_of(value.as_str()),
        None => list_of(""),
    };
    let blocked_ips = match config.get("blocked-ips") {
        Some(value) => list_of(value.as_str()),
        None => list_of(""),
    };
    let blocked_countries = match config.get("blocked-countries") {
        Some(value) => list_of(value.as_str()),
        None => list_of(""),
    };
    LaunchPolicy { iface, ports, blocked_ips, blocked_countries }
}

} // verus!
