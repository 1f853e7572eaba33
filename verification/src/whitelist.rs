//! The whitelist: which source addresses may submit mail.

use vstd::prelude::*;

verus! {

use crate::text::strings;
use vstd::arithmetic::power2::{lemma2_to64, pow2};

/// The address of a host.
#[derive(Debug, Clone, Copy, PartialEq, Eq, Structural)]
pub enum IpAddress {
    /// An IPv4 address, as a number of 32 bits.
    V4(u32),
    /// An IPv6 address, as a number of 128 bits.
    V6(u128),
}

/// The address that a text stands for.
pub uninterp spec fn address_parsed(raw: Seq<char>) -> Option<IpAddress>;

/// The address and the prefix length of the network that a text in CIDR form stands for.
pub uninterp spec fn network_parsed(raw: Seq<char>) -> Option<(IpAddress, u8)>;

impl IpAddress {
    /// The length in bits of addresses of this family.
    pub open spec fn bits(self) -> nat {
        match self {
            IpAddress::V4(_) => 32,
            IpAddress::V6(_) => 128,
        }
    }

    /// The address as a number.
    pub open spec fn number(self) -> nat {
        match self {
            IpAddress::V4(n) => n as nat,
            IpAddress::V6(n) => n as nat,
        }
    }

    /// Reads an address.
    pub fn parse(raw: &str) -> (ip: Option<IpAddress>)
        ensures
            ip == address_parsed(raw@),
    {
        parse_address(raw)
    }

    /// The length in bits of addresses of this family.
    pub fn width(&self) -> (n: u8)
        ensures
            n as nat == self.bits(),
    {
        match self {
            IpAddress::V4(_) => 32,
            IpAddress::V6(_) => 128,
        }
    }
}

/// Trusted: `std::str::parse` to an IP address, which `ipnet::IpNet::new` takes, reads an IPv4
/// or IPv6 address.
#[verifier::external_body]
fn parse_address(raw: &str) -> (ip: Option<IpAddress>)
    ensures
        ip == address_parsed(raw@),
{
    match ipnet::IpNet::new(raw.parse().ok()?, 0).ok()? {
        ipnet::IpNet::V4(net) => Some(IpAddress::V4(net.addr().into())),
        ipnet::IpNet::V6(net) => Some(IpAddress::V6(net.addr().into())),
    }
}

/// Trusted: `std::str::parse` to an `ipnet::IpNet` reads an address, a slash and a prefix length,
/// which is at most the length of the address.
#[verifier::external_body]
fn parse_network(raw: &str) -> (net: Option<(IpAddress, u8)>)
    ensures
        net == network_parsed(raw@),
        net matches Some(parts) ==> parts.1 <= parts.0.bits(),
{
    match raw.parse::<ipnet::IpNet>() {
        Ok(ipnet::IpNet::V4(net)) => Some((IpAddress::V4(net.addr().into()), net.prefix_len())),
        Ok(ipnet::IpNet::V6(net)) => Some((IpAddress::V6(net.addr().into()), net.prefix_len())),
        Err(_) => None,
    }
}

/// A network: an address and the number of its leading bits that all addresses of the network
/// share.
#[derive(Debug, Clone, Copy)]
pub struct IpNetwork {
    base: IpAddress,
    prefix: u8,
}

/// What an [`IpNetwork`] stands for.
pub struct NetworkView {
    pub base: IpAddress,
    pub prefix: nat,
}

impl View for IpNetwork {
    type V = NetworkView;

    closed spec fn view(&self) -> NetworkView {
        NetworkView { base: self.base, prefix: self.prefix as nat }
    }
}

impl NetworkView {
    /// The prefix is not longer than the address.
    pub open spec fn proper(self) -> bool {
        self.prefix <= self.base.bits()
    }

    /// The address `ip` lies in the network: it is of the same family and has the same leading
    /// bits.
    pub open spec fn covers(self, ip: IpAddress) -> bool {
        &&& self.base.bits() == ip.bits()
        &&& self.base.number() / pow2((self.base.bits() - self.prefix) as nat) == ip.number()
            / pow2((self.base.bits() - self.prefix) as nat)
    }
}

impl IpNetwork {
    #[verifier::type_invariant]
    spec fn consistent(&self) -> bool {
        self@.proper()
    }

    /// The network of the addresses that share the first `prefix` bits with `base`; `None` where
    /// the prefix is longer than the address.
    pub fn new(base: IpAddress, prefix: u8) -> (net: Option<Self>)
        ensures
            match net {
                Some(net) => net@ == (NetworkView { base, prefix: prefix as nat }) && net@.proper(),
                None => prefix > base.bits(),
            },
    {
        if prefix > base.width() {
            None
        } else {
            Some(IpNetwork { base, prefix })
        }
    }

    /// Whether `ip` lies in the network.
    pub fn contains(&self, ip: IpAddress) -> (yes: bool)
        ensures
            yes == self@.covers(ip),
    {
        proof {
            use_type_invariant(self);
        }
        contains_address(self.base, self.prefix, ip)
    }
}

/// Trusted: `ipnet::IpNet::contains` compares an address with the first and the last address of
/// a network, which are those with the network's leading bits followed by zeros and by ones.
#[verifier::external_body]
fn contains_address(base: IpAddress, prefix: u8, ip: IpAddress) -> (yes: bool)
    requires
        prefix <= base.bits(),
    ensures
        yes == (NetworkView { base, prefix: prefix as nat }).covers(ip),
{
    let net = match base {
        IpAddress::V4(n) => ipnet::IpNet::V4(ipnet::Ipv4Net::new(n.into(), prefix).unwrap()),
        IpAddress::V6(n) => ipnet::IpNet::V6(ipnet::Ipv6Net::new(n.into(), prefix).unwrap()),
    };
    let host = match ip {
        IpAddress::V4(n) => ipnet::IpNet::V4(ipnet::Ipv4Net::new(n.into(), 32).unwrap()),
        IpAddress::V6(n) => ipnet::IpNet::V6(ipnet::Ipv6Net::new(n.into(), 128).unwrap()),
    };
    net.contains(&host.addr())
}

/// What a list of networks stands for.
pub open spec fn network_views(list: Seq<IpNetwork>) -> Seq<NetworkView> {
    list.map_values(|net: IpNetwork| net@)
}

/// The network that an entry of the whitelist names: a network in CIDR form, or a single
/// address.
pub open spec fn entry_network(entry: Seq<char>) -> Option<NetworkView> {
    match network_parsed(entry) {
        Some((base, prefix)) => Some(NetworkView { base, prefix: prefix as nat }),
        None => match address_parsed(entry) {
            Some(base) => Some(NetworkView { base, prefix: base.bits() }),
            None => None,
        },
    }
}

/// The networks that the entries name, in their order. An entry that names none is left out.
pub open spec fn named_networks(entries: Seq<Seq<char>>) -> Seq<NetworkView>
    decreases entries.len(),
{
    if entries.len() == 0 {
        Seq::empty()
    } else {
        let before = named_networks(entries.drop_last());
        match entry_network(entries.last()) {
            Some(net) => before.push(net),
            None => before,
        }
    }
}

/// The address `ip` lies in one of the networks.
pub open spec fn allows(nets: Seq<NetworkView>, ip: IpAddress) -> bool {
    exists|i: int| 0 <= i < nets.len() && (#[trigger] nets[i]).covers(ip)
}

/// Reads one entry of the whitelist.
fn parse_entry(entry: &str) -> (net: Option<IpNetwork>)
    ensures
        match net {
            Some(net) => entry_network(entry@) == Some(net@),
            None => entry_network(entry@) is None,
        },
{
    match parse_network(entry) {
        Some((base, prefix)) => IpNetwork::new(base, prefix),
        None => match parse_address(entry) {
            Some(base) => IpNetwork::new(base, base.width()),
            None => None,
        },
    }
}

/// Reads the entries of a whitelist, single addresses and networks in CIDR form. Entries that
/// are neither are ignored.
pub fn parse_whitelist(entries: &Vec<String>) -> (nets: Vec<IpNetwork>)
    ensures
        network_views(nets@) == named_networks(strings(entries@)),
{
    let mut nets: Vec<IpNetwork> = Vec::new();
    let ghost names = strings(entries@);
    let mut i: usize = 0;
    assert(names.take(0) == Seq::<Seq<char>>::empty());
    assert(network_views(nets@) == Seq::<NetworkView>::empty());
    while i < entries.len()
        invariant
            i <= entries@.len(),
            names == strings(entries@),
            network_views(nets@) == named_networks(names.take(i as int)),
        decreases entries@.len() - i,
    {
        let ghost before = network_views(nets@);
        assert(names.take(i + 1).drop_last() == names.take(i as int));
        assert(names.take(i + 1).last() == entries@[i as int]@);
        if let Some(net) = parse_entry(entries[i].as_str()) {
            nets.push(net);
            assert(network_views(nets@) == before.push(net@));
        }
        i += 1;
    }
    assert(names.take(entries@.len() as int) == names);
    nets
}

/// Whether `ip` lies in one of the networks.
pub fn is_allowed(nets: &Vec<IpNetwork>, ip: IpAddress) -> (yes: bool)
    ensures
        yes == allows(network_views(nets@), ip),
{
    let mut i: usize = 0;
    while i < nets.len()
        invariant
            i <= nets@.len(),
            forall|j: int| 0 <= j < i ==> !(#[trigger] network_views(nets@)[j]).covers(ip),
        decreases nets@.len() - i,
    {
        assert(network_views(nets@)[i as int] == nets@[i as int]@);
        if nets[i].contains(ip) {
            return true;
        }
        i += 1;
    }
    false
}

/// An empty whitelist allows nothing.
pub proof fn law_empty_whitelist_allows_nothing(ip: IpAddress)
    ensures
        !allows(named_networks(Seq::empty()), ip),
{
}

/// A further entry takes no address off the whitelist; it adds those of its network, and none
/// where it names no network.
pub proof fn law_entry_adds_its_network(entries: Seq<Seq<char>>, entry: Seq<char>, ip: IpAddress)
    ensures
        allows(named_networks(entries.push(entry)), ip) <==> {
            ||| allows(named_networks(entries), ip)
            ||| entry_network(entry) matches Some(net) && net.covers(ip)
        },
{
    let before = named_networks(entries);
    let after = named_networks(entries.push(entry));
    assert(entries.push(entry).drop_last() == entries);
    if let Some(net) = entry_network(entry) {
        assert(after == before.push(net));
        if allows(before, ip) {
            let i = choose|i: int| 0 <= i < before.len() && (#[trigger] before[i]).covers(ip);
            assert(after[i].covers(ip));
        }
        assert(after[before.len() as int] == net);
        if allows(after, ip) {
            let i = choose|i: int| 0 <= i < after.len() && (#[trigger] after[i]).covers(ip);
            if i < before.len() {
                assert(before[i].covers(ip));
            }
        }
    }
}

/// The network of a single address holds that address alone.
pub proof fn law_single_address(base: IpAddress, ip: IpAddress)
    ensures
        (NetworkView { base, prefix: base.bits() }).covers(ip) <==> ip == base,
{
    lemma2_to64();
    let step = pow2((base.bits() - base.bits()) as nat);
    let (a, b) = (base.number(), ip.number());
    assert(a / step == a && b / step == b) by (nonlinear_arith)
        requires
            step == 1,
    ;
}

/// An entry that is a single address admits that address and no other.
pub proof fn law_address_entry_admits_one_address(entry: Seq<char>, a: IpAddress, ip: IpAddress)
    requires
        network_parsed(entry) is None,
        address_parsed(entry) == Some(a),
    ensures
        allows(named_networks(seq![entry]), ip) <==> ip == a,
{
    lemma_single_entry(entry, ip);
    law_single_address(a, ip);
}

/// An entry in CIDR form admits exactly the addresses of its family that share its leading bits.
pub proof fn law_network_entry_admits_its_prefix(
    entry: Seq<char>,
    a: IpAddress,
    prefix: u8,
    ip: IpAddress,
)
    requires
        network_parsed(entry) == Some((a, prefix)),
        match a {
            IpAddress::V4(_) => prefix <= 32,
            IpAddress::V6(_) => prefix <= 128,
        },
    ensures
        allows(named_networks(seq![entry]), ip) <==> match (a, ip) {
            (IpAddress::V4(x), IpAddress::V4(y)) => x as nat / pow2((32 - prefix) as nat)
                == y as nat / pow2((32 - prefix) as nat),
            (IpAddress::V6(x), IpAddress::V6(y)) => x as nat / pow2((128 - prefix) as nat)
                == y as nat / pow2((128 - prefix) as nat),
            _ => false,
        },
{
    lemma_single_entry(entry, ip);
}

/// An entry that is neither an address nor a network admits nobody.
pub proof fn law_unreadable_entry_admits_nobody(entry: Seq<char>, ip: IpAddress)
    requires
        network_parsed(entry) is None,
        address_parsed(entry) is None,
    ensures
        !allows(named_networks(seq![entry]), ip),
{
    lemma_single_entry(entry, ip);
}

/// A whitelist admits an address where one of its entries does, whichever place it stands at, and
/// nobody else.
pub proof fn law_every_entry_counts(entries: Seq<Seq<char>>, ip: IpAddress)
    ensures
        allows(named_networks(entries), ip) <==> exists|i: int|
            0 <= i < entries.len() && allows(named_networks(seq![#[trigger] entries[i]]), ip),
    decreases entries.len(),
{
    if entries.len() > 0 {
        let before = entries.drop_last();
        law_every_entry_counts(before, ip);
        law_entry_adds_its_network(before, entries.last(), ip);
        lemma_single_entry(entries.last(), ip);
        assert(entries == before.push(entries.last()));
        if allows(named_networks(before), ip) {
            let i = choose|i: int|
                0 <= i < before.len() && allows(named_networks(seq![#[trigger] before[i]]), ip);
            assert(entries[i] == before[i]);
        }
        assert(entries[entries.len() - 1] == entries.last());
        if exists|i: int|
            0 <= i < entries.len() && allows(named_networks(seq![#[trigger] entries[i]]), ip) {
            let i = choose|i: int|
                0 <= i < entries.len() && allows(named_networks(seq![#[trigger] entries[i]]), ip);
            if i < before.len() {
                assert(before[i] == entries[i]);
            }
        }
    }
}

/// What a whitelist of one entry admits.
proof fn lemma_single_entry(entry: Seq<char>, ip: IpAddress)
    ensures
        allows(named_networks(seq![entry]), ip) <==> (entry_network(entry) matches Some(net)
            && net.covers(ip)),
{
    law_entry_adds_its_network(Seq::empty(), entry, ip);
    assert(Seq::<Seq<char>>::empty().push(entry) == seq![entry]);
}

/// A whitelist that was read admits an address exactly when one of its entries is that address, or
/// a network of its family whose leading bits it shares.
pub proof fn law_whitelist_admits_by_its_entries(
    entries: &Vec<String>,
    nets: Vec<IpNetwork>,
    ip: IpAddress,
    yes: bool,
)
    requires
        call_ensures(parse_whitelist, (entries,), nets),
        call_ensures(is_allowed, (&nets, ip), yes),
        forall|i: int|
            0 <= i < entries@.len() ==> (network_parsed((#[trigger] entries@[i])@) matches Some(net)
                ==> match net.0 {
                IpAddress::V4(_) => net.1 <= 32,
                IpAddress::V6(_) => net.1 <= 128,
            }),
    ensures
        yes <==> exists|i: int|
            0 <= i < entries@.len() && match network_parsed((#[trigger] entries@[i])@) {
                Some((IpAddress::V4(x), n)) => ip matches IpAddress::V4(y) && x as nat / pow2(
                    (32 - n) as nat,
                ) == y as nat / pow2((32 - n) as nat),
                Some((IpAddress::V6(x), n)) => ip matches IpAddress::V6(y) && x as nat / pow2(
                    (128 - n) as nat,
                ) == y as nat / pow2((128 - n) as nat),
                None => address_parsed(entries@[i]@) == Some(ip),
            },
{
    let names = strings(entries@);
    law_every_entry_counts(names, ip);
    assert forall|i: int| 0 <= i < names.len() implies (allows(
        named_networks(seq![#[trigger] names[i]]),
        ip,
    ) <==> match network_parsed(entries@[i]@) {
        Some((IpAddress::V4(x), n)) => ip matches IpAddress::V4(y) && x as nat / pow2(
            (32 - n) as nat,
        ) == y as nat / pow2((32 - n) as nat),
        Some((IpAddress::V6(x), n)) => ip matches IpAddress::V6(y) && x as nat / pow2(
            (128 - n) as nat,
        ) == y as nat / pow2((128 - n) as nat),
        None => address_parsed(entries@[i]@) == Some(ip),
    }) by {
        let entry = entries@[i]@;
        assert(names[i] == entry);
        match network_parsed(entry) {
            Some((a, n)) => {
                law_network_entry_admits_its_prefix(entry, a, n, ip);
            },
            None => {
                match address_parsed(entry) {
                    Some(a) => {
                        law_address_entry_admits_one_address(entry, a, ip);
                    },
                    None => {
                        law_unreadable_entry_admits_nobody(entry, ip);
                    },
                }
            },
        }
    }
    if exists|i: int|
        0 <= i < names.len() && allows(named_networks(seq![#[trigger] names[i]]), ip) {
        let i = choose|i: int|
            0 <= i < names.len() && allows(named_networks(seq![#[trigger] names[i]]), ip);
        assert(entries@[i]@ == names[i]);
    }
    assert forall|i: int| 0 <= i < entries@.len() implies (#[trigger] entries@[i])@ == names[i] by {
    }
}

} // verus!
