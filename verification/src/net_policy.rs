//! Which destinations a guest can reach, and which ports it can bind to.
//!
//! Host names are looked up anew at each check, so that the policy tracks DNS
//! changes. The lookups themselves are the caller's: a check is told what they
//! gave, and says which one it needs next.

use crate::text;
use crate::text::{
    chars_of, debug_text, decimal_of, first_word_bounds, is_at, line_bounds, owned, text_of,
    trim_bounds,
};
use std::collections::HashSet;
use vstd::prelude::*;
use vstd::std_specs::hash::spec_hash_keys_iter;
use vstd::std_specs::iter::IteratorSpec;
use vstd::string::*;

verus! {

/// The port of the domain name system.
pub const DNS_PORT: u16 = 53;

// ---------------------------------------------------------------------------
// Addresses
// ---------------------------------------------------------------------------

/// An IP address, its bits as one number.
#[derive(Debug, Clone, Copy, PartialEq, Eq, Structural)]
pub enum Ip {
    V4(u32),
    V6(u128),
}

/// An IP address and its text.
#[derive(Debug, Clone, PartialEq, Eq)]
pub struct Address {
    pub ip: Ip,
    pub text: String,
}

/// An IP address and a port.
#[derive(Debug, Clone, PartialEq, Eq)]
pub struct Endpoint {
    pub address: Address,
    pub port: u16,
}

impl Endpoint {
    /// The text of an endpoint: the address and the port, with a colon between
    /// them; an IPv6 address in brackets.
    pub open spec fn wording(&self) -> Seq<char> {
        match self.address.ip {
            Ip::V4(_) => self.address.text@ + ":"@ + text::decimal(self.port as nat),
            Ip::V6(_) => "["@ + self.address.text@ + "]:"@ + text::decimal(self.port as nat),
        }
    }

    /// The text of an endpoint.
    pub fn shown(&self) -> (r: String)
        ensures
            r@ == self.wording(),
    {
        let port = decimal_of(self.port as u64);
        match self.address.ip {
            Ip::V4(_) => {
                let mut out = owned(self.address.text.as_str());
                out.append(":");
                out.append(port.as_str());
                out
            },
            Ip::V6(_) => {
                let mut out = owned("[");
                out.append(self.address.text.as_str());
                out.append("]:");
                out.append(port.as_str());
                out
            },
        }
    }
}

/// Whether `ip` is one of `list`.
pub fn has_ip(list: &[Ip], ip: Ip) -> (r: bool)
    ensures
        r == list@.contains(ip),
{
    for i in 0..list.len()
        invariant
            forall|j: int| 0 <= j < i ==> list@[j] != ip,
    {
        if list[i] == ip {
            return true;
        }
    }
    false
}

// ---------------------------------------------------------------------------
// Sets of destinations
// ---------------------------------------------------------------------------

/// What an entry of a list of destinations stands for.
#[derive(Debug, PartialEq, Eq)]
pub enum Lookup {
    /// The entry is the text of an IP address.
    Literal(Ip),
    /// The entry is a host name with these addresses.
    Addresses(Vec<Ip>),
    /// The entry is a host name that could not be looked up, for this reason.
    Failed(String),
}

/// An entry of a list of destinations, and what it stands for.
#[derive(Debug, PartialEq, Eq)]
pub struct HostEntry {
    pub name: String,
    pub found: Lookup,
}

/// Why a list of destinations was rejected.
#[derive(Debug, PartialEq, Eq)]
pub enum HostError {
    /// This host name could not be looked up, for this reason.
    Unresolved(String, String),
    /// This host name has no addresses.
    NoAddresses(String),
}

impl HostError {
    /// The wording for this error.
    pub open spec fn wording(&self) -> Seq<char> {
        match self {
            HostError::Unresolved(name, cause) => "resolve "@ + text::debug_form(name@) + ": "@
                + cause@,
            HostError::NoAddresses(name) => "hostname "@ + text::debug_form(name@)
                + " resolved to zero addresses"@,
        }
    }

    /// The wording for this error.
    pub fn message(&self) -> (r: String)
        ensures
            r@ == self.wording(),
    {
        match self {
            HostError::Unresolved(name, cause) => {
                let mut out = owned("resolve ");
                out.append(debug_text(name.as_str()).as_str());
                out.append(": ");
                out.append(cause.as_str());
                out
            },
            HostError::NoAddresses(name) => {
                let mut out = owned("hostname ");
                out.append(debug_text(name.as_str()).as_str());
                out.append(" resolved to zero addresses");
                out
            },
        }
    }
}

impl HostEntry {
    /// The addresses that the entry stands for.
    pub open spec fn ips(&self) -> Seq<Ip> {
        match self.found {
            Lookup::Literal(ip) => seq![ip],
            Lookup::Addresses(list) => list@,
            Lookup::Failed(_) => Seq::empty(),
        }
    }

    /// The entry is rejected with this error.
    pub open spec fn fails_with(&self, e: HostError) -> bool {
        match (self.found, e) {
            (Lookup::Failed(cause), HostError::Unresolved(name, c)) => name@ == self.name@ && c@
                == cause@,
            (Lookup::Addresses(list), HostError::NoAddresses(name)) => list@.len() == 0 && name@
                == self.name@,
            _ => false,
        }
    }
}

/// The addresses that some entry stands for.
pub open spec fn ips_of(entries: Seq<HostEntry>) -> Set<Ip> {
    Set::new(
        |ip: Ip| exists|i: int| 0 <= i < entries.len() && (#[trigger] entries[i]).ips().contains(ip),
    )
}

/// The entries that are host names, in their order.
pub open spec fn names_of(entries: Seq<HostEntry>) -> Seq<Seq<char>>
    decreases entries.len(),
{
    if entries.len() == 0 {
        Seq::empty()
    } else {
        let before = names_of(entries.drop_last());
        match entries.last().found {
            Lookup::Literal(_) => before,
            _ => before.push(entries.last().name@),
        }
    }
}

/// A set of network destinations: addresses, and host names whose addresses
/// are looked up anew at each check.
#[derive(Debug, Clone, PartialEq, Eq)]
pub struct HostSet {
    pub ips: Vec<Ip>,
    pub hostnames: Vec<String>,
}

/// What looking up the host names of a set gave, one after the other: their
/// addresses, or nothing where a lookup failed.
pub type Answers = Seq<Option<Vec<Ip>>>;

/// `ip` is in one of the answers.
pub open spec fn answered(answers: Answers, ip: Ip) -> bool {
    exists|i: int|
        0 <= i < answers.len() && (#[trigger] answers[i]) is Some && answers[i]->0@.contains(ip)
}

/// What a set that was made of `entries` holds, or why there is none: the first
/// entry that is rejected says why.
pub open spec fn made_of(entries: Seq<HostEntry>, r: Result<HostSet, HostError>) -> bool {
    match r {
        Ok(s) => {
            &&& s.ips@.to_set() == ips_of(entries)
            &&& text::texts(s.hostnames@) == names_of(entries)
            &&& forall|i: int, e: HostError|
                0 <= i < entries.len() ==> !(#[trigger] entries[i].fails_with(e))
        },
        Err(e) => exists|i: int|
            0 <= i < entries.len() && #[trigger] entries[i].fails_with(e) && forall|
                j: int,
                f: HostError,
            |
                0 <= j < i ==> !(#[trigger] entries[j].fails_with(f)),
    }
}

impl HostSet {
    /// `ip` belongs to the set, going by the addresses that were found when it was
    /// made, and by the answers of the lookups so far.
    pub open spec fn includes(&self, ip: Ip, answers: Answers) -> bool {
        self.ips@.contains(ip) || answered(answers, ip)
    }

    /// No further lookup is needed to say whether `ip` belongs to the set.
    pub open spec fn decided(&self, ip: Ip, answers: Answers) -> bool {
        self.includes(ip, answers) || answers.len() >= self.hostnames@.len()
    }

    /// Build a set from a mixed list of host names and IP literals. Every host
    /// name must have addresses.
    pub fn from_hosts(entries: &[HostEntry]) -> (r: Result<HostSet, HostError>)
        ensures
            made_of(entries@, r),
    {
        let mut ips: Vec<Ip> = Vec::new();
        let mut hostnames: Vec<String> = Vec::new();
        proof {
            assert(entries@.take(0) =~= Seq::empty());
            assert(ips@.to_set() =~= ips_of(entries@.take(0)));
            assert(text::texts(hostnames@) =~= names_of(entries@.take(0)));
        }
        for i in 0..entries.len()
            invariant
                ips@.to_set() == ips_of(entries@.take(i as int)),
                text::texts(hostnames@) == names_of(entries@.take(i as int)),
                forall|j: int, e: HostError|
                    0 <= j < i ==> !(#[trigger] entries@[j].fails_with(e)),
        {
            let entry = &entries[i];
            let ghost before = ips@;
            let ghost names_before = hostnames@;
            proof {
                assert(entries@.take(i + 1).drop_last() =~= entries@.take(i as int));
                assert(entries@.take(i + 1).last() == *entry);
            }
            match &entry.found {
                Lookup::Literal(ip) => {
                    ips.push(*ip);
                    assert(ips@ =~= before + entry.ips());
                },
                Lookup::Addresses(list) => {
                    if list.len() == 0 {
                        let e = HostError::NoAddresses(owned(entry.name.as_str()));
                        assert(entries@[i as int].fails_with(e));
                        return Err(e);
                    }
                    for k in 0..list.len()
                        invariant
                            ips@ == before + list@.take(k as int),
                    {
                        ips.push(list[k]);
                        assert(ips@ =~= before + list@.take(k + 1));
                    }
                    assert(list@.take(list@.len() as int) =~= list@);
                    hostnames.push(owned(entry.name.as_str()));
                    assert(text::texts(hostnames@) =~= text::texts(names_before).push(entry.name@));
                },
                Lookup::Failed(cause) => {
                    let e = HostError::Unresolved(
                        owned(entry.name.as_str()),
                        owned(cause.as_str()),
                    );
                    assert(entries@[i as int].fails_with(e));
                    return Err(e);
                },
            }
            proof {
                lemma_ips_grow(entries@.take(i + 1), before, ips@);
            }
        }
        assert(entries@.take(entries@.len() as int) =~= entries@);
        Ok(HostSet { ips, hostnames })
    }

    /// The host name to look up next, to say whether `ip` belongs to the set.
    pub fn next_lookup(&self, ip: Ip, answers: &[Option<Vec<Ip>>]) -> (r: Option<&str>)
        ensures
            match r {
                Some(name) => !self.decided(ip, answers@) && name@
                    == self.hostnames@[answers@.len() as int]@,
                None => self.decided(ip, answers@),
            },
    {
        if self.matches_ip(ip, answers) || answers.len() >= self.hostnames.len() {
            None
        } else {
            Some(self.hostnames[answers.len()].as_str())
        }
    }

    /// Whether `ip` belongs to the set.
    pub fn matches_ip(&self, ip: Ip, answers: &[Option<Vec<Ip>>]) -> (r: bool)
        ensures
            r == self.includes(ip, answers@),
    {
        if has_ip(&self.ips, ip) {
            return true;
        }
        for i in 0..answers.len()
            invariant
                forall|j: int|
                    0 <= j < i && (#[trigger] answers@[j]) is Some
                        ==> !answers@[j]->0@.contains(ip),
        {
            match &answers[i] {
                Some(list) => {
                    if has_ip(list, ip) {
                        assert(answers@[i as int]->0@.contains(ip));
                        return true;
                    }
                },
                None => {},
            }
        }
        false
    }
}

proof fn lemma_ips_grow(entries: Seq<HostEntry>, before: Seq<Ip>, after: Seq<Ip>)
    requires
        entries.len() > 0,
        before.to_set() == ips_of(entries.drop_last()),
        after == before + entries.last().ips(),
    ensures
        after.to_set() == ips_of(entries),
{
    let old_entries = entries.drop_last();
    let n = old_entries.len() as int;
    assert forall|ip: Ip| after.to_set().contains(ip) == ips_of(entries).contains(ip) by {
        if after.contains(ip) {
            let k = choose|k: int| 0 <= k < after.len() && after[k] == ip;
            if k < before.len() {
                assert(before.contains(ip));
                assert(before.to_set().contains(ip));
                let i = choose|i: int|
                    0 <= i < old_entries.len() && (#[trigger] old_entries[i]).ips().contains(ip);
                assert(entries[i].ips().contains(ip));
            } else {
                assert(entries[n].ips()[k - before.len()] == ip);
                assert(entries[n].ips().contains(ip));
            }
        }
        if ips_of(entries).contains(ip) {
            let i = choose|i: int|
                0 <= i < entries.len() && (#[trigger] entries[i]).ips().contains(ip);
            if i < n {
                assert(old_entries[i].ips().contains(ip));
                assert(before.to_set().contains(ip));
                let k = choose|k: int| 0 <= k < before.len() && before[k] == ip;
                assert(after[k] == ip);
            } else {
                let k = choose|k: int| 0 <= k < entries[n].ips().len() && entries[n].ips()[k] == ip;
                assert(after[before.len() + k] == ip);
            }
        }
    }
    assert(after.to_set() =~= ips_of(entries));
}

// ---------------------------------------------------------------------------
// Policies
// ---------------------------------------------------------------------------

/// A set of allowed network destinations.
#[derive(Debug, Clone, PartialEq, Eq)]
pub struct AllowList {
    pub hosts: HostSet,
}

/// A set of blocked network destinations.
#[derive(Debug, Clone, PartialEq, Eq)]
pub struct BlockList {
    pub hosts: HostSet,
}

impl AllowList {
    /// Build an allowlist from a mixed list of host names and IP literals.
    ///
    /// Host names must be resolvable (fail-closed).
    pub fn from_hosts(entries: &[HostEntry]) -> (r: Result<AllowList, HostError>)
        ensures
            match r {
                Ok(l) => made_of(entries@, Ok(l.hosts)),
                Err(e) => made_of(entries@, Err(e)),
            },
    {
        match HostSet::from_hosts(entries) {
            Ok(hosts) => Ok(AllowList { hosts }),
            Err(e) => Err(e),
        }
    }

    /// Whether connections to `ip` are allowed.
    pub fn is_allowed(&self, ip: Ip, answers: &[Option<Vec<Ip>>]) -> (r: bool)
        ensures
            r == self.hosts.includes(ip, answers@),
    {
        self.hosts.matches_ip(ip, answers)
    }
}

impl BlockList {
    /// Build a blocklist from a mixed list of host names and IP literals.
    ///
    /// Host names must be resolvable (fail-closed).
    pub fn from_hosts(entries: &[HostEntry]) -> (r: Result<BlockList, HostError>)
        ensures
            match r {
                Ok(l) => made_of(entries@, Ok(l.hosts)),
                Err(e) => made_of(entries@, Err(e)),
            },
    {
        match HostSet::from_hosts(entries) {
            Ok(hosts) => Ok(BlockList { hosts }),
            Err(e) => Err(e),
        }
    }

    /// Whether connections to `ip` are blocked.
    pub fn is_blocked(&self, ip: Ip, answers: &[Option<Vec<Ip>>]) -> (r: bool)
        ensures
            r == self.hosts.includes(ip, answers@),
    {
        self.hosts.matches_ip(ip, answers)
    }
}

/// Controls which network destinations a guest sandbox can reach.
#[derive(Debug, Clone, PartialEq, Eq)]
pub enum NetworkPolicy {
    /// All outbound connections are allowed (no filtering).
    AllowAll,
    /// Only connections to the listed destinations are permitted.
    AllowList(AllowList),
    /// All connections are allowed *except* to the listed destinations.
    BlockList(BlockList),
}

impl NetworkPolicy {
    /// The policy permits connections to this endpoint. An allowlist also permits
    /// the domain name service of the host's own resolvers.
    pub open spec fn permits(&self, to: Endpoint, answers: Answers, resolvers: Seq<Ip>) -> bool {
        match self {
            NetworkPolicy::AllowAll => true,
            NetworkPolicy::AllowList(list) => list.hosts.includes(to.address.ip, answers) || (
            to.port == DNS_PORT && resolvers.contains(to.address.ip)),
            NetworkPolicy::BlockList(list) => !list.hosts.includes(to.address.ip, answers),
        }
    }

    /// No further lookup is needed to say whether a connection is permitted.
    pub open spec fn decided(&self, ip: Ip, answers: Answers) -> bool {
        match self {
            NetworkPolicy::AllowAll => true,
            NetworkPolicy::AllowList(list) => list.hosts.decided(ip, answers),
            NetworkPolicy::BlockList(list) => list.hosts.decided(ip, answers),
        }
    }

    /// The host names of the policy.
    pub open spec fn hostnames(&self) -> Seq<String> {
        match self {
            NetworkPolicy::AllowAll => Seq::empty(),
            NetworkPolicy::AllowList(list) => list.hosts.hostnames@,
            NetworkPolicy::BlockList(list) => list.hosts.hostnames@,
        }
    }

    /// The host name to look up next, to say whether connections to `ip` are
    /// permitted.
    pub fn next_lookup(&self, ip: Ip, answers: &[Option<Vec<Ip>>]) -> (r: Option<&str>)
        ensures
            match r {
                Some(name) => !self.decided(ip, answers@) && answers@.len() < self.hostnames().len()
                    && name@ == self.hostnames()[answers@.len() as int]@,
                None => self.decided(ip, answers@),
            },
    {
        match self {
            NetworkPolicy::AllowAll => None,
            NetworkPolicy::AllowList(list) => list.hosts.next_lookup(ip, answers),
            NetworkPolicy::BlockList(list) => list.hosts.next_lookup(ip, answers),
        }
    }

    /// Check a connection, once the lookups that it needs are answered.
    pub fn check(&self, to: &Endpoint, answers: &[Option<Vec<Ip>>], resolvers: &[Ip]) -> (r: Result<
        (),
        String,
    >)
        requires
            self.decided(to.address.ip, answers@),
        ensures
            match r {
                Ok(_) => self.permits(*to, answers@, resolvers@),
                Err(m) => !self.permits(*to, answers@, resolvers@) && m@
                    == "network policy denies connection to "@ + to.wording(),
            },
    {
        let permitted = match self {
            NetworkPolicy::AllowAll => true,
            NetworkPolicy::AllowList(list) => list.is_allowed(to.address.ip, answers) || (to.port
                == DNS_PORT && has_ip(resolvers, to.address.ip)),
            NetworkPolicy::BlockList(list) => !list.is_blocked(to.address.ip, answers),
        };
        if permitted {
            Ok(())
        } else {
            let mut out = owned("network policy denies connection to ");
            out.append(to.shown().as_str());
            Err(out)
        }
    }
}

// ---------------------------------------------------------------------------
// Resolvers
// ---------------------------------------------------------------------------

/// The address text of a line that configures a resolver.
pub open spec fn resolver_in(line: Seq<char>) -> Option<Seq<char>> {
    let t = text::trim(line);
    if text::occurs_at(t, "nameserver"@, 0) {
        text::first_word(t.skip("nameserver"@.len() as int))
    } else {
        None
    }
}

/// The address texts of the lines that configure a resolver, in their order.
pub open spec fn resolvers_in(lines: Seq<Seq<char>>) -> Seq<Seq<char>>
    decreases lines.len(),
{
    if lines.len() == 0 {
        Seq::empty()
    } else {
        let before = resolvers_in(lines.drop_last());
        match resolver_in(lines.last()) {
            Some(t) => before.push(t),
            None => before,
        }
    }
}

/// The address texts of the resolvers in the contents of a `resolv.conf` file.
pub fn resolver_texts(contents: &str) -> (r: Vec<String>)
    ensures
        text::texts(r@) == resolvers_in(text::lines(contents@)),
{
    let cs = chars_of(contents);
    let bounds = line_bounds(&cs);
    let key = chars_of("nameserver");
    let ghost lines = text::lines(contents@);
    let mut out: Vec<String> = Vec::new();
    proof {
        assert(lines.take(0) =~= Seq::empty());
        assert(text::texts(out@) =~= resolvers_in(lines.take(0)));
    }
    for i in 0..bounds.len()
        invariant
            lines == text::lines(cs@),
            key@ == "nameserver"@,
            forall|k: int|
                0 <= k < bounds@.len() ==> (#[trigger] bounds@[k]).0 <= bounds@[k].1 <= cs@.len(),
            bounds@.map_values(|b: (usize, usize)| cs@.subrange(b.0 as int, b.1 as int)) == lines,
            text::texts(out@) == resolvers_in(lines.take(i as int)),
    {
        let ghost before = out@;
        let (from, to) = trim_bounds(&cs, bounds[i].0, bounds[i].1);
        let ghost line = cs@.subrange(bounds@[i as int].0 as int, bounds@[i as int].1 as int);
        let ghost t = cs@.subrange(from as int, to as int);
        proof {
            assert(lines[i as int] == line);
            assert(lines.take(i + 1).drop_last() =~= lines.take(i as int));
            assert(lines.take(i + 1).last() == line);
        }
        let trimmed = chars_of(text_of(&cs, from, to).as_str());
        assert(trimmed@ == t);
        if is_at(&trimmed, &key, 0) {
            let ghost rest = t.skip(key@.len() as int);
            assert(trimmed@.subrange(key@.len() as int, trimmed@.len() as int) =~= rest);
            match first_word_bounds(&trimmed, key.len(), trimmed.len()) {
                Some((a, b)) => {
                    let word = text_of(&trimmed, a, b);
                    out.push(word);
                    assert(text::texts(out@) =~= text::texts(before).push(word@));
                },
                None => {},
            }
        }
    }
    assert(lines.take(bounds@.len() as int) =~= lines);
    out
}

// ---------------------------------------------------------------------------
// Listen-port allowlist (inbound)
// ---------------------------------------------------------------------------

/// Controls which ports a guest may bind to for inbound connections.
///
/// Orthogonal to [`NetworkPolicy`] (which governs *outbound* destinations).
#[derive(Debug, PartialEq, Eq)]
pub struct ListenPorts {
    pub ports: HashSet<u16>,
}

impl Clone for ListenPorts {
    fn clone(&self) -> (r: Self)
        ensures
            r.ports@ == self.ports@,
    {
        let ghost order = spec_hash_keys_iter(&self.ports).remaining().unref();
        let mut out: HashSet<u16> = HashSet::new();
        assert(order.take(0).to_set() =~= out@);
        for p in it: self.ports.iter()
            invariant
                it.seq().unref() == order,
                out@ == order.take(it.index() as int).to_set(),
        {
            out.insert(*p);
            proof {
                let i = it.index() as int;
                lemma_next_of_set(order, i);
                assert(*p == order[i]);
            }
        }
        assert(order.take(order.len() as int) =~= order);
        ListenPorts { ports: out }
    }
}

/// One port more is taken into the set.
proof fn lemma_next_of_set(ports: Seq<u16>, i: int)
    requires
        0 <= i < ports.len(),
    ensures
        ports.take(i + 1).to_set() == ports.take(i).to_set().insert(ports[i]),
{
    assert(ports.take(i + 1) =~= ports.take(i).push(ports[i]));
    ports.take(i).lemma_push_to_set_commute(ports[i]);
}

/// The texts of some ports.
pub open spec fn port_texts(ports: Seq<u16>) -> Seq<Seq<char>> {
    ports.map_values(|p: u16| text::decimal(p as nat))
}

/// `order` holds each of `ports` once, and nothing else.
pub open spec fn enumerates(order: Seq<u16>, ports: Set<u16>) -> bool {
    order.no_duplicates() && order.to_set() == ports
}

/// What a bind to a port is answered that is not listed, with the list in this order.
pub open spec fn unlisted_text(port: u16, order: Seq<u16>) -> Seq<char> {
    "Permission denied: port "@ + text::decimal(port as nat) + " not in listen allowlist ({"@
        + text::joined(port_texts(order), ", "@) + "})"@
}

impl ListenPorts {
    /// Create from a list of port numbers.
    pub fn from_ports(ports: &[u16]) -> (r: ListenPorts)
        ensures
            r.ports@ == ports@.to_set(),
    {
        let mut out: HashSet<u16> = HashSet::new();
        assert(ports@.take(0).to_set() =~= out@);
        for i in 0..ports.len()
            invariant
                out@ == ports@.take(i as int).to_set(),
        {
            out.insert(ports[i]);
            proof {
                lemma_next_of_set(ports@, i as int);
            }
        }
        assert(ports@.take(ports@.len() as int) =~= ports@);
        ListenPorts { ports: out }
    }

    /// `message` is what a bind to `port` is answered, which is not listed. The order
    /// of the ports in it is left open.
    pub open spec fn denies(&self, port: u16, message: Seq<char>) -> bool {
        &&& !self.ports@.contains(port)
        &&& exists|order: Seq<u16>|
            #[trigger] enumerates(order, self.ports@) && message == unlisted_text(port, order)
    }

    /// Returns `Ok(())` if `port` is in the allowlist.
    pub fn check(&self, port: u16) -> (r: Result<(), String>)
        ensures
            match r {
                Ok(_) => self.ports@.contains(port),
                Err(m) => self.denies(port, m@),
            },
    {
        if self.ports.contains(&port) {
            return Ok(());
        }
        let ghost order = spec_hash_keys_iter(&self.ports).remaining().unref();
        let mut list: Vec<String> = Vec::new();
        assert(text::texts(list@) =~= port_texts(order.take(0)));
        for p in it: self.ports.iter()
            invariant
                it.seq().unref() == order,
                text::texts(list@) == port_texts(order.take(it.index() as int)),
        {
            let ghost before = list@;
            let ghost i = it.index() as int;
            let port_text = decimal_of(*p as u64);
            list.push(port_text);
            proof {
                assert(*p == order[i]);
                assert(text::texts(list@) =~= text::texts(before).push(port_text@));
                assert(port_texts(order.take(i + 1)) =~= port_texts(order.take(i)).push(
                    text::decimal(*p as nat),
                ));
            }
        }
        assert(order.take(order.len() as int) =~= order);
        let inner = text::join(&list, ", ");
        let mut out = owned("Permission denied: port ");
        out.append(decimal_of(port as u64).as_str());
        out.append(" not in listen allowlist ({");
        out.append(inner.as_str());
        out.append("})");
        assert(enumerates(order, self.ports@) && out@ == unlisted_text(port, order));
        Err(out)
    }
}

// ---------------------------------------------------------------------------
// Laws
// ---------------------------------------------------------------------------

/// An address that belongs to a set stays in it, whatever further lookups give.
pub proof fn further_lookups_only_add_to_a_set(
    hosts: HostSet,
    ip: Ip,
    answers: Answers,
    more: Answers,
)
    requires
        hosts.includes(ip, answers),
    ensures
        hosts.includes(ip, answers + more),
        hosts.decided(ip, answers + more),
{
    if answered(answers, ip) {
        let i = choose|i: int|
            0 <= i < answers.len() && (#[trigger] answers[i]) is Some && answers[i]->0@.contains(
                ip,
            );
        assert((answers + more)[i] == answers[i]);
        assert(answered(answers + more, ip));
    }
}

/// A decided verdict is final: whatever further lookups of the policy's own host
/// names would give, a policy whose lookups stopped early says the same.
pub proof fn a_decided_verdict_is_final(
    policy: NetworkPolicy,
    to: Endpoint,
    answers: Answers,
    more: Answers,
    resolvers: Seq<Ip>,
)
    requires
        policy.decided(to.address.ip, answers),
        answers.len() + more.len() <= policy.hostnames().len(),
    ensures
        policy.permits(to, answers + more, resolvers) == policy.permits(to, answers, resolvers),
{
    match policy {
        NetworkPolicy::AllowAll => {},
        NetworkPolicy::AllowList(list) => {
            lemma_verdict_is_final(list.hosts, to.address.ip, answers, more);
        },
        NetworkPolicy::BlockList(list) => {
            lemma_verdict_is_final(list.hosts, to.address.ip, answers, more);
        },
    }
}

proof fn lemma_verdict_is_final(hosts: HostSet, ip: Ip, answers: Answers, more: Answers)
    requires
        hosts.decided(ip, answers),
        answers.len() + more.len() <= hosts.hostnames@.len(),
    ensures
        hosts.includes(ip, answers + more) == hosts.includes(ip, answers),
{
    if hosts.includes(ip, answers) {
        further_lookups_only_add_to_a_set(hosts, ip, answers, more);
    } else {
        assert(more.len() == 0);
        assert(answers + more =~= answers);
    }
}

/// An allowlist lets nothing through but what is listed, and the host's own
/// resolvers on the port of the domain name system.
pub proof fn an_allowlist_denies_what_is_not_listed(
    list: AllowList,
    to: Endpoint,
    answers: Answers,
    resolvers: Seq<Ip>,
)
    requires
        !list.hosts.includes(to.address.ip, answers),
        to.port != DNS_PORT || !resolvers.contains(to.address.ip),
    ensures
        !NetworkPolicy::AllowList(list).permits(to, answers, resolvers),
{
}

/// A blocklist always wins: a listed address is denied on every port, the port of
/// the domain name system and the host's own resolvers included.
pub proof fn a_blocklist_denies_what_is_listed(
    list: BlockList,
    to: Endpoint,
    answers: Answers,
    resolvers: Seq<Ip>,
)
    requires
        list.hosts.includes(to.address.ip, answers),
    ensures
        !NetworkPolicy::BlockList(list).permits(to, answers, resolvers),
{
}

/// Every address of every entry belongs to the set that was made of the entries,
/// whatever the lookups give later.
pub proof fn every_entry_is_listed(
    entries: Seq<HostEntry>,
    hosts: HostSet,
    i: int,
    ip: Ip,
    answers: Answers,
)
    requires
        made_of(entries, Ok(hosts)),
        0 <= i < entries.len(),
        entries[i].ips().contains(ip),
    ensures
        hosts.includes(ip, answers),
        hosts.decided(ip, answers),
{
    assert(ips_of(entries).contains(ip));
    assert(hosts.ips@.to_set().contains(ip));
}

/// Of literal addresses nothing else is listed: a set that was made of them alone
/// needs no lookups, and an address that is none of them does not belong to it.
pub proof fn literals_list_nothing_else(entries: Seq<HostEntry>, hosts: HostSet, ip: Ip)
    requires
        made_of(entries, Ok(hosts)),
        forall|i: int| 0 <= i < entries.len() ==> (#[trigger] entries[i]).found is Literal,
        forall|i: int| 0 <= i < entries.len() ==> (#[trigger] entries[i]).found != Lookup::Literal(ip),
    ensures
        hosts.decided(ip, Seq::empty()),
        !hosts.includes(ip, Seq::empty()),
{
    lemma_literals_have_no_names(entries);
    assert(text::texts(hosts.hostnames@).len() == 0);
    if hosts.ips@.contains(ip) {
        assert(hosts.ips@.to_set().contains(ip));
        assert(ips_of(entries).contains(ip));
        let i = choose|i: int| 0 <= i < entries.len() && (#[trigger] entries[i]).ips().contains(ip);
        assert(entries[i].found is Literal);
        assert(entries[i].found != Lookup::Literal(ip));
    }
}

proof fn lemma_literals_have_no_names(entries: Seq<HostEntry>)
    requires
        forall|i: int| 0 <= i < entries.len() ==> (#[trigger] entries[i]).found is Literal,
    ensures
        names_of(entries).len() == 0,
    decreases entries.len(),
{
    if entries.len() > 0 {
        let front = entries.drop_last();
        assert forall|i: int| 0 <= i < front.len() implies (
        #[trigger] front[i]).found is Literal by {
            assert(front[i] == entries[i]);
        }
        lemma_literals_have_no_names(front);
        assert(entries[entries.len() - 1].found is Literal);
    }
}

/// An allowlist permits everything that is listed, of either address family and on
/// every port, and the domain name service of the host's own resolvers.
pub proof fn an_allowlist_permits_what_is_listed(
    list: AllowList,
    to: Endpoint,
    answers: Answers,
    resolvers: Seq<Ip>,
)
    requires
        list.hosts.includes(to.address.ip, answers) || (to.port == 53 && resolvers.contains(
            to.address.ip,
        )),
    ensures
        NetworkPolicy::AllowList(list).permits(to, answers, resolvers),
{
}

/// A blocklist permits everything that is not listed, and without a list everything is
/// permitted.
pub proof fn what_is_not_blocked_is_permitted(
    list: BlockList,
    to: Endpoint,
    answers: Answers,
    resolvers: Seq<Ip>,
)
    ensures
        !list.hosts.includes(to.address.ip, answers) ==> NetworkPolicy::BlockList(list).permits(
            to,
            answers,
            resolvers,
        ),
        NetworkPolicy::AllowAll.permits(to, answers, resolvers),
{
}

/// An address belongs to a set where it was found when the set was made, or where a
/// lookup since has given it, and nowhere else.
pub proof fn an_address_belongs_where_it_was_found(hosts: HostSet, ip: Ip, answers: Answers)
    ensures
        hosts.ips@.contains(ip) ==> hosts.includes(ip, answers),
        forall|i: int|
            0 <= i < answers.len() && (#[trigger] answers[i] matches Some(found) && found@.contains(
                ip,
            )) ==> hosts.includes(ip, answers),
        hosts.includes(ip, answers) ==> hosts.ips@.contains(ip) || exists|i: int|
            0 <= i < answers.len() && (#[trigger] answers[i] matches Some(found)
                && found@.contains(ip)),
{
    assert forall|i: int|
        0 <= i < answers.len() && (#[trigger] answers[i] matches Some(found) && found@.contains(
            ip,
        )) implies hosts.includes(ip, answers) by {
        assert(answers[i] is Some && answers[i]->0@.contains(ip));
        assert(answered(answers, ip));
    }
}

/// Lookups go on until the address is found or every host name was asked for, and no
/// longer.
pub proof fn lookups_go_on_until_it_is_decided(
    hosts: HostSet,
    ip: Ip,
    answers: Answers,
)
    ensures
        hosts.decided(ip, answers) <==> hosts.includes(ip, answers) || answers.len()
            >= hosts.hostnames@.len(),
        NetworkPolicy::AllowAll.decided(ip, answers),
        NetworkPolicy::AllowList(AllowList { hosts }).decided(ip, answers) == hosts.decided(
            ip,
            answers,
        ),
        NetworkPolicy::BlockList(BlockList { hosts }).decided(ip, answers) == hosts.decided(
            ip,
            answers,
        ),
        NetworkPolicy::AllowList(AllowList { hosts }).hostnames() == hosts.hostnames@,
        NetworkPolicy::BlockList(BlockList { hosts }).hostnames() == hosts.hostnames@,
{
}

/// `ip` is what the entry says, or what its host name was looked up to.
pub open spec fn stands_for(entry: HostEntry, ip: Ip) -> bool {
    entry.found == Lookup::Literal(ip) || (entry.found matches Lookup::Addresses(list)
        && list@.contains(ip))
}

/// A set holds what its entries stand for, whether that is written as an address or as
/// a host name, and at the time that it is made nothing else.
pub proof fn a_set_holds_what_its_entries_stand_for(
    entries: Seq<HostEntry>,
    hosts: HostSet,
    ip: Ip,
)
    requires
        made_of(entries, Ok(hosts)),
    ensures
        hosts.ips@.contains(ip) <==> exists|i: int|
            0 <= i < entries.len() && stands_for(#[trigger] entries[i], ip),
{
    assert(hosts.ips@.to_set().contains(ip) == hosts.ips@.contains(ip));
    assert(ips_of(entries).contains(ip) == hosts.ips@.contains(ip));
    if hosts.ips@.contains(ip) {
        let i = choose|i: int| 0 <= i < entries.len() && (#[trigger] entries[i]).ips().contains(ip);
        assert(stands_for(entries[i], ip));
    }
    if exists|i: int| 0 <= i < entries.len() && stands_for(#[trigger] entries[i], ip) {
        let i = choose|i: int| 0 <= i < entries.len() && stands_for(#[trigger] entries[i], ip);
        if entries[i].found is Literal {
            assert(entries[i].ips()[0] == ip);
        }
        assert(entries[i].ips().contains(ip));
    }
}

/// The host names of a set are those of its entries, in their order: an entry that is
/// a host name adds it, and one that is an address adds none.
pub proof fn host_names_keep_their_order(a: Seq<HostEntry>, b: Seq<HostEntry>, entry: HostEntry)
    ensures
        names_of(a + b) == names_of(a) + names_of(b),
        names_of(seq![entry]) == if entry.found is Literal {
            Seq::<Seq<char>>::empty()
        } else {
            seq![entry.name@]
        },
    decreases b.len(),
{
    let one = seq![entry];
    assert(one.drop_last() =~= Seq::empty());
    assert(names_of(one.drop_last()) =~= Seq::empty());
    assert(Seq::<Seq<char>>::empty().push(entry.name@) =~= seq![entry.name@]);
    if b.len() == 0 {
        assert(a + b =~= a);
        assert(names_of(b) =~= Seq::empty());
        assert(names_of(a) + names_of(b) =~= names_of(a));
    } else {
        assert((a + b).drop_last() =~= a + b.drop_last());
        host_names_keep_their_order(a, b.drop_last(), entry);
        assert(names_of(a + b) =~= names_of(a) + names_of(b));
    }
}

/// The host name of the entry has no address.
pub open spec fn is_unresolved(entry: HostEntry) -> bool {
    entry.found is Failed || (entry.found matches Lookup::Addresses(list) && list@.len() == 0)
}

/// A list is rejected where, and only where, a host name in it has no address; the
/// first such entry is named, with the reason where there is one.
pub proof fn a_list_is_rejected_for_an_unresolved_name(
    entries: Seq<HostEntry>,
    r: Result<HostSet, HostError>,
)
    requires
        made_of(entries, r),
    ensures
        r is Err <==> exists|i: int| 0 <= i < entries.len() && is_unresolved(#[trigger] entries[i]),
        r matches Err(e) ==> exists|i: int|
            0 <= i < entries.len() && is_unresolved(#[trigger] entries[i]) && (forall|j: int|
                0 <= j < i ==> !is_unresolved(#[trigger] entries[j])) && match entries[i].found {
                Lookup::Failed(cause) => e matches HostError::Unresolved(name, c) && name@
                    == entries[i].name@ && c@ == cause@,
                _ => e matches HostError::NoAddresses(name) && name@ == entries[i].name@,
            },
{
    match r {
        Ok(_) => {
            if exists|i: int| 0 <= i < entries.len() && is_unresolved(#[trigger] entries[i]) {
                let i = choose|i: int| 0 <= i < entries.len() && is_unresolved(#[trigger] entries[i]);
                lemma_fails(entries[i]);
            }
        },
        Err(e) => {
            let i = choose|i: int|
                0 <= i < entries.len() && #[trigger] entries[i].fails_with(e) && forall|
                    j: int,
                    f: HostError,
                |
                    0 <= j < i ==> !(#[trigger] entries[j].fails_with(f));
            assert(is_unresolved(entries[i]));
            assert forall|j: int| 0 <= j < i implies !is_unresolved(#[trigger] entries[j]) by {
                if is_unresolved(entries[j]) {
                    lemma_fails(entries[j]);
                }
            }
        },
    }
}

/// An entry without an address fails with some error.
proof fn lemma_fails(entry: HostEntry)
    requires
        is_unresolved(entry),
    ensures
        exists|e: HostError| entry.fails_with(e),
{
    match entry.found {
        Lookup::Failed(cause) => {
            assert(entry.fails_with(HostError::Unresolved(entry.name, cause)));
        },
        _ => {
            assert(entry.fails_with(HostError::NoAddresses(entry.name)));
        },
    }
}

/// The text of an endpoint is its address, in brackets where it is of IPv6, and its
/// port behind a colon.
pub proof fn an_endpoint_is_written_with_its_port(to: Endpoint)
    ensures
        to.address.ip is V4 ==> to.wording() == to.address.text@ + seq![':'] + text::decimal(
            to.port as nat,
        ),
        to.address.ip is V6 ==> to.wording() == seq!['['] + to.address.text@ + seq![']', ':']
            + text::decimal(to.port as nat),
{
    reveal_strlit(":");
    reveal_strlit("[");
    reveal_strlit("]:");
    assert(":"@ =~= seq![':']);
    assert("["@ =~= seq!['[']);
    assert("]:"@ =~= seq![']', ':']);
}

/// A bind that is refused names its port and every port that is listed, each once.
pub proof fn a_refused_bind_names_the_ports(list: ListenPorts, port: u16, message: Seq<char>) -> (
    order: Seq<u16>)
    requires
        list.denies(port, message),
    ensures
        !list.ports@.contains(port),
        order.no_duplicates(),
        forall|p: u16| #[trigger] order.contains(p) <==> list.ports@.contains(p),
        message == "Permission denied: port "@ + text::decimal(port as nat)
            + " not in listen allowlist ({"@ + text::joined(
            order.map_values(|p: u16| text::decimal(p as nat)),
            ", "@,
        ) + "})"@,
{
    let order = choose|order: Seq<u16>|
        #[trigger] enumerates(order, list.ports@) && message == unlisted_text(port, order);
    assert forall|p: u16| #[trigger] order.contains(p) <==> list.ports@.contains(p) by {
        assert(order.to_set().contains(p) == order.contains(p));
    }
    order
}

// ---------------------------------------------------------------------------
// Laws: resolvers
// ---------------------------------------------------------------------------

/// A line that names a resolver gives the first word behind `nameserver`, whatever
/// follows it.
pub proof fn a_resolver_line_gives_its_address(
    indent: Seq<char>,
    space: Seq<char>,
    address: Seq<char>,
    after: Seq<char>,
)
    requires
        text::all_white(indent),
        text::all_white(space),
        address.len() > 0,
        forall|i: int| 0 <= i < address.len() ==> !text::is_white(#[trigger] address[i]),
        after.len() == 0 || text::is_white(after[0]),
    ensures
        resolver_in(indent + "nameserver"@ + space + address + after) == Some(address),
{
    reveal_strlit("nameserver");
    let key = "nameserver"@;
    let line = indent + key + space + address + after;
    let (a, b) = text::trimming_takes_white_space_and_no_more(line);
    let n = indent.len() as int;
    let last = n + key.len() + space.len() + address.len();
    assert(line[n] == 'n');
    assert(line[last - 1] == address[address.len() - 1]);
    assert(a == n) by {
        if a < n {
            assert(line[a] == indent[a]);
        }
        if n < a {
            assert(text::is_white(line[n]));
        }
    }
    assert(b >= last) by {
        if b < last {
            assert(text::is_white(line[last - 1]));
        }
    }
    let t = text::trim(line);
    let tail = line.subrange(last, b);
    assert(t =~= key + (space + address + tail));
    assert(t.subrange(0, key.len() as int) =~= key);
    assert(t.skip(key.len() as int) =~= space + address + tail);
    if tail.len() > 0 {
        assert(tail[0] == after[0]);
    }
    text::the_first_word_ends_at_white_space(space, address, tail);
}

/// A line that does not begin with `nameserver`, white space aside, names no resolver.
pub proof fn another_line_names_no_resolver(line: Seq<char>)
    requires
        !text::reads_at(text::trim(line), "nameserver"@, 0),
    ensures
        resolver_in(line) is None,
{
    let t = text::trim(line);
    let key = "nameserver"@;
    if text::occurs_at(t, key, 0) {
        assert forall|k: int| 0 <= k < key.len() implies t[0 + k] == #[trigger] key[k] by {
            assert(t.subrange(0, key.len() as int)[k] == key[k]);
        }
    }
}

/// The resolvers of two parts of a file are those of the first and then those of the
/// second.
pub proof fn resolvers_keep_their_order(a: Seq<Seq<char>>, b: Seq<Seq<char>>, line: Seq<char>)
    ensures
        resolvers_in(a + b) == resolvers_in(a) + resolvers_in(b),
        resolvers_in(seq![line]) == match resolver_in(line) {
            Some(address) => seq![address],
            None => Seq::<Seq<char>>::empty(),
        },
    decreases b.len(),
{
    let one = seq![line];
    assert(one.drop_last() =~= Seq::empty());
    assert(resolvers_in(one.drop_last()) =~= Seq::empty());
    if resolver_in(line) is Some {
        assert(Seq::<Seq<char>>::empty().push(resolver_in(line)->0) =~= seq![resolver_in(line)->0]);
    }
    if b.len() == 0 {
        assert(a + b =~= a);
        assert(resolvers_in(b) =~= Seq::empty());
        assert(resolvers_in(a) + resolvers_in(b) =~= resolvers_in(a));
    } else {
        assert((a + b).drop_last() =~= a + b.drop_last());
        resolvers_keep_their_order(a, b.drop_last(), line);
        assert(resolvers_in(a + b) =~= resolvers_in(a) + resolvers_in(b));
    }
}

/// A list that is rejected is told why, with the host name.
pub proof fn a_rejected_list_is_told_why(name: String, cause: String)
    ensures
        HostError::Unresolved(name, cause).wording() == "resolve "@ + text::debug_form(name@) + ": "@
            + cause@,
        HostError::NoAddresses(name).wording() == "hostname "@ + text::debug_form(name@)
            + " resolved to zero addresses"@,
{
}

} // verus!
