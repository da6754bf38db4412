//! Addresses, and the ranges of addresses that are scanned.
use vstd::arithmetic::power2::pow2;
use vstd::prelude::*;

verus! {

/// An address of the Internet protocol, as a number.
#[derive(Debug, Clone, Copy, PartialEq, Eq, Structural)]
pub enum IpAddress {
    V4(u32),
    V6(u128),
}

/// A network: the addresses that share the first `prefix` bits of `address`.
#[derive(Debug, Clone, Copy, PartialEq, Eq, Structural)]
pub enum Network {
    V4 { address: u32, prefix: u8 },
    V6 { address: u128, prefix: u8 },
}

impl Network {
    /// The prefix is no longer than an address.
    pub open spec fn wf(self) -> bool {
        match self {
            Network::V4 { prefix, .. } => prefix <= 32,
            Network::V6 { prefix, .. } => prefix <= 128,
        }
    }

    /// The number of addresses.
    pub open spec fn size(self) -> int {
        match self {
            Network::V4 { prefix, .. } => pow2((32 - prefix) as nat) as int,
            Network::V6 { prefix, .. } => pow2((128 - prefix) as nat) as int,
        }
    }

    /// The first address.
    pub open spec fn first(self) -> int {
        match self {
            Network::V4 { address, .. } => address - address as int % self.size(),
            Network::V6 { address, .. } => address - address as int % self.size(),
        }
    }

    /// Whether an address lies in the network.
    pub open spec fn holds(self, ip: IpAddress) -> bool {
        match (self, ip) {
            (Network::V4 { .. }, IpAddress::V4(a)) => self.first() <= a < self.first() + self.size(),
            (Network::V6 { .. }, IpAddress::V6(a)) => self.first() <= a < self.first() + self.size(),
            _ => false,
        }
    }

    /// Whether the first and the last address are not those of hosts.
    pub open spec fn reserves_ends(self) -> bool {
        self matches Network::V4 { prefix, .. } && prefix < 31
    }

    /// The number of hosts.
    pub open spec fn host_count(self) -> int {
        if self.reserves_ends() {
            self.size() - 2
        } else {
            self.size()
        }
    }

    /// The address of the host with number `i`, counted from zero.
    pub open spec fn host(self, i: int) -> int {
        if self.reserves_ends() {
            self.first() + 1 + i
        } else {
            self.first() + i
        }
    }

    /// The host with number `i`.
    pub open spec fn host_ip(self, i: int) -> IpAddress {
        match self {
            Network::V4 { .. } => IpAddress::V4(self.host(i) as u32),
            Network::V6 { .. } => IpAddress::V6(self.host(i) as u128),
        }
    }

    /// Whether `ip` is the host with number `i`.
    pub open spec fn is_host(self, i: int, ip: IpAddress) -> bool {
        match (self, ip) {
            (Network::V4 { .. }, IpAddress::V4(a)) => a == self.host(i),
            (Network::V6 { .. }, IpAddress::V6(a)) => a == self.host(i),
            _ => false,
        }
    }

    /// The most hosts that are scanned.
    pub open spec fn scan_limit(self) -> int {
        match self {
            Network::V4 { .. } => 256,
            Network::V6 { .. } => 1024,
        }
    }

    /// The number of hosts that are scanned.
    pub open spec fn scanned_count(self) -> int {
        if self.host_count() < self.scan_limit() {
            self.host_count()
        } else {
            self.scan_limit()
        }
    }
}

/// The network that a text names for ipnet, if any.
pub uninterp spec fn named_network(text: Seq<char>) -> Option<Network>;

/// Reads a network: `str::parse` for `ipnet::IpNet`. Which texts it takes, and for
/// which network, depends on the text alone; no prefix is longer than an address.
#[verifier::external_body]
pub(crate) fn parse_network(text: &str) -> (network: Option<Network>)
    ensures
        network == named_network(text@),
        network matches Some(n) ==> n.wf(),
{
    text.parse().ok().map(|network| match network {
        ipnet::IpNet::V4(n) => Network::V4 { address: n.addr().into(), prefix: n.prefix_len() },
        ipnet::IpNet::V6(n) => Network::V6 { address: n.addr().into(), prefix: n.prefix_len() },
    })
}

/// The address that a text names for std, if any.
pub uninterp spec fn named_ip(text: Seq<char>) -> Option<IpAddress>;

/// Reads an address: `str::parse` for std's `IpAddr`, which `ipnet::IpNet::new` then
/// takes apart. Which texts it takes, and for which address, depends on the text
/// alone.
#[verifier::external_body]
pub(crate) fn parse_ip(text: &str) -> (ip: Option<IpAddress>)
    ensures
        ip == named_ip(text@),
{
    let address = text.parse().ok()?;
    ipnet::IpNet::new(address, 0).ok().map(|network| match network {
        ipnet::IpNet::V4(n) => IpAddress::V4(n.addr().into()),
        ipnet::IpNet::V6(n) => IpAddress::V6(n.addr().into()),
    })
}

/// What std writes for an address.
pub uninterp spec fn ip_text(ip: IpAddress) -> Seq<char>;

/// Writes an address: `Display` of std's `IpAddr`. The text depends on the address
/// alone.
#[verifier::external_body]
pub(crate) fn write_ip(ip: IpAddress) -> (text: String)
    ensures
        text@ == ip_text(ip),
{
    match ip {
        IpAddress::V4(a) => ipnet::Ipv4Net::new(a.into(), 32).unwrap().addr().to_string(),
        IpAddress::V6(a) => ipnet::Ipv6Net::new(a.into(), 128).unwrap().addr().to_string(),
    }
}

/// Whether an address lies in a network: `ipnet::IpNet::contains`. It does if it is
/// of the same version and between the network's first and last address.
#[verifier::external_body]
pub(crate) fn network_contains(network: Network, ip: IpAddress) -> (r: bool)
    requires
        network.wf(),
    ensures
        r == network.holds(ip),
{
    let network: ipnet::IpNet = match network {
        Network::V4 { address, prefix } => ipnet::Ipv4Net::new(address.into(), prefix).unwrap().into(),
        Network::V6 { address, prefix } => ipnet::Ipv6Net::new(address.into(), prefix).unwrap().into(),
    };
    let ip: ipnet::IpNet = match ip {
        IpAddress::V4(a) => ipnet::Ipv4Net::new(a.into(), 32).unwrap().into(),
        IpAddress::V6(a) => ipnet::Ipv6Net::new(a.into(), 128).unwrap().into(),
    };
    network.contains(&ip.addr())
}

/// The host with number `i`: the item with that number of `ipnet::Ipv4Net::hosts`
/// or `ipnet::Ipv6Net::hosts`. They go through the addresses of the network in
/// their order, without the first and the last where the network is one of version
/// four with a prefix under 31.
#[verifier::external_body]
fn network_host(network: Network, i: usize) -> (host: Option<IpAddress>)
    requires
        network.wf(),
    ensures
        match host {
            Some(ip) => i < network.host_count() && network.is_host(i as int, ip),
            None => i >= network.host_count(),
        },
{
    match network {
        Network::V4 { address, prefix } => ipnet::Ipv4Net::new(address.into(), prefix).unwrap()
            .hosts().nth(i).map(|a| IpAddress::V4(a.into())),
        Network::V6 { address, prefix } => ipnet::Ipv6Net::new(address.into(), prefix).unwrap()
            .hosts().nth(i).map(|a| IpAddress::V6(a.into())),
    }
}

/// Whether these are the hosts of a network that are scanned, in their order.
pub open spec fn are_scanned_hosts(network: Network, ips: Seq<IpAddress>) -> bool {
    &&& ips.len() == network.scanned_count()
    &&& forall|i: int|
        0 <= i < ips.len() ==> network.is_host(i, #[trigger] ips[i]) && ips[i] == network.host_ip(i)
}

/// The hosts of a network that are scanned: the first ones, up to the limit.
pub fn scanned_hosts(network: Network) -> (ips: Vec<IpAddress>)
    requires
        network.wf(),
    ensures
        are_scanned_hosts(network, ips@),
{
    let limit: usize = match network {
        Network::V4 { .. } => 256,
        Network::V6 { .. } => 1024,
    };
    let mut ips: Vec<IpAddress> = Vec::new();
    let mut i: usize = 0;
    while i < limit
        invariant
            network.wf(),
            limit == network.scan_limit(),
            i <= limit,
            i <= network.host_count() || i == 0,
            ips.len() == i,
            forall|j: int| 0 <= j < i ==> network.is_host(j, #[trigger] ips@[j]),
        decreases limit - i,
    {
        match network_host(network, i) {
            Some(ip) => {
                ips.push(ip);
            },
            None => {
                proof {
                    network.lemma_has_hosts();
                }
                return ips;
            },
        }
        i += 1;
    }
    ips
}

impl Network {
    /// Every network has a host.
    proof fn lemma_has_hosts(self)
        requires
            self.wf(),
        ensures
            self.host_count() > 0,
    {
        match self {
            Network::V4 { prefix, .. } => {
                vstd::arithmetic::power2::lemma_pow2_pos((32 - prefix) as nat);
                if prefix < 31 {
                    vstd::arithmetic::power2::lemma_pow2_unfold((32 - prefix) as nat);
                    vstd::arithmetic::power2::lemma_pow2_unfold((31 - prefix) as nat);
                    vstd::arithmetic::power2::lemma_pow2_pos((30 - prefix) as nat);
                }
            },
            Network::V6 { prefix, .. } => {
                vstd::arithmetic::power2::lemma_pow2_pos((128 - prefix) as nat);
            },
        }
    }
}

/// Every host of a network lies in the network.
pub proof fn hosts_lie_in_their_network(network: Network, i: int, ip: IpAddress)
    requires
        network.wf(),
        0 <= i < network.host_count(),
        network.is_host(i, ip),
    ensures
        network.holds(ip),
{
}

/// No address is scanned twice within a network.
pub proof fn scanned_hosts_are_distinct(network: Network, ips: Seq<IpAddress>)
    requires
        are_scanned_hosts(network, ips),
    ensures
        ips.no_duplicates(),
{
    assert forall|i: int, j: int| 0 <= i < ips.len() && 0 <= j < ips.len() && i != j implies ips[i]
        != ips[j] by {
        assert(network.is_host(i, ips[i]));
        assert(network.is_host(j, ips[j]));
    }
}

/// The hosts of a network follow one another, from its first address on or, in a network of
/// version four that keeps its ends, from the second.
pub proof fn hosts_follow_one_another(network: Network, i: int)
    requires
        network.wf(),
        0 <= i < network.host_count(),
    ensures
        network.is_host(i, network.host_ip(i)),
        network.host(i + 1) == network.host(i) + 1,
        network matches Network::V4 { prefix, .. } ==> (prefix < 31 ==> network.host(0)
            == network.first() + 1 && network.host(network.host_count() - 1) == network.first()
            + network.size() - 2),
        network matches Network::V4 { prefix, .. } ==> (prefix >= 31 ==> network.host(0)
            == network.first() && network.host(network.host_count() - 1) == network.first()
            + network.size() - 1),
        network is V6 ==> network.host(0) == network.first() && network.host(
            network.host_count() - 1,
        ) == network.first() + network.size() - 1,
{
    network.lemma_in_range();
}

impl Network {
    /// The addresses of a network are addresses.
    proof fn lemma_in_range(self)
        requires
            self.wf(),
        ensures
            self.size() > 0,
            self.first() >= 0,
            match self {
                Network::V4 { .. } => self.first() + self.size() <= 0x1_0000_0000,
                Network::V6 { .. } => self.first() + self.size()
                    <= 0x1_0000_0000_0000_0000_0000_0000_0000_0000,
            },
    {
        match self {
            Network::V4 { address, prefix } => {
                let n = (32 - prefix) as nat;
                vstd::arithmetic::power2::lemma_pow2_pos(n);
                vstd::arithmetic::power2::lemma_pow2_adds(n, prefix as nat);
                vstd::arithmetic::power2::lemma2_to64();
                vstd::arithmetic::power2::lemma_pow2_pos(prefix as nat);
                lemma_block(address as int, pow2(n) as int, pow2(prefix as nat) as int);
            },
            Network::V6 { address, prefix } => {
                let n = (128 - prefix) as nat;
                vstd::arithmetic::power2::lemma_pow2_pos(n);
                vstd::arithmetic::power2::lemma_pow2_adds(n, prefix as nat);
                vstd::arithmetic::power2::lemma2_to64();
                vstd::arithmetic::power2::lemma_pow2_adds(64, 64);
                vstd::arithmetic::power2::lemma_pow2_pos(prefix as nat);
                lemma_block(address as int, pow2(n) as int, pow2(prefix as nat) as int);
            },
        }
    }
}

/// Where some blocks of one size make up a whole, the block around a number in the whole lies
/// in it.
proof fn lemma_block(a: int, size: int, blocks: int)
    requires
        size > 0,
        blocks > 0,
        0 <= a < size * blocks,
    ensures
        0 <= a - a % size,
        a - a % size + size <= size * blocks,
        a - a % size == size * (a / size),
{
    vstd::arithmetic::div_mod::lemma_fundamental_div_mod(a, size);
    let q = a / size;
    assert(q < blocks) by (nonlinear_arith)
        requires
            0 <= a < size * blocks,
            a == size * q + a % size,
            0 <= a % size < size,
            size > 0,
    ;
    assert(q >= 0) by (nonlinear_arith)
        requires
            0 <= a,
            a == size * q + a % size,
            0 <= a % size < size,
            size > 0,
    ;
    assert(size * q + size <= size * blocks) by (nonlinear_arith)
        requires
            q + 1 <= blocks,
            size > 0,
    ;
    assert(size * q >= 0) by (nonlinear_arith)
        requires
            q >= 0,
            size > 0,
    ;
}

/// A network holds the addresses that agree with its own in the bits of the prefix, and no
/// others: those that give the same quotient by the number of its addresses.
pub proof fn networks_hold_what_shares_their_prefix(network: Network, ip: IpAddress)
    requires
        network.wf(),
    ensures
        network.holds(ip) <==> match (network, ip) {
            (Network::V4 { address, .. }, IpAddress::V4(a)) => a as int / network.size()
                == address as int / network.size(),
            (Network::V6 { address, .. }, IpAddress::V6(a)) => a as int / network.size()
                == address as int / network.size(),
            _ => false,
        },
        network matches Network::V4 { prefix, .. } ==> network.size() == pow2(
            (32 - prefix) as nat,
        ),
        network matches Network::V6 { prefix, .. } ==> network.size() == pow2(
            (128 - prefix) as nat,
        ),
{
    network.lemma_in_range();
    match (network, ip) {
        (Network::V4 { address, .. }, IpAddress::V4(a)) => {
            lemma_same_block(address as int, a as int, network.size());
        },
        (Network::V6 { address, .. }, IpAddress::V6(a)) => {
            lemma_same_block(address as int, a as int, network.size());
        },
        _ => {},
    }
}

/// Two numbers lie in one block exactly where their quotients by its size are the same.
proof fn lemma_same_block(a: int, b: int, size: int)
    requires
        size > 0,
    ensures
        a - a % size <= b < a - a % size + size <==> b / size == a / size,
{
    vstd::arithmetic::div_mod::lemma_fundamental_div_mod(a, size);
    vstd::arithmetic::div_mod::lemma_fundamental_div_mod(b, size);
    let q = a / size;
    let p = b / size;
    if p == q {
        assert(size * p == size * q);
    } else if p < q {
        assert(size * p + size <= size * q) by (nonlinear_arith)
            requires
                p + 1 <= q,
                size > 0,
        ;
    } else {
        assert(size * q + size <= size * p) by (nonlinear_arith)
            requires
                q + 1 <= p,
                size > 0,
        ;
    }
}

/// Every address of a network is one of its hosts, but for the first and the last one of a
/// network of version four that has more than two.
pub proof fn every_address_but_the_ends_is_a_host(network: Network, ip: IpAddress)
    requires
        network.wf(),
        network.holds(ip),
    ensures
        ({
            let place = match ip {
                IpAddress::V4(a) => a - network.first(),
                IpAddress::V6(a) => a - network.first(),
            };
            let keeps_ends = network matches Network::V4 { prefix, .. } && prefix < 31;
            if keeps_ends && (place == 0 || place == network.size() - 1) {
                forall|i: int| 0 <= i < network.host_count() ==> !#[trigger] network.is_host(i, ip)
            } else {
                let i = if keeps_ends {
                    place - 1
                } else {
                    place
                };
                0 <= i < network.host_count() && network.is_host(i, ip)
            }
        }),
{
}

/// All hosts of a network are scanned where there are not more than 256 of version four, or
/// 1024 of version six; otherwise, that many are.
pub proof fn small_networks_are_scanned_whole(network: Network)
    requires
        network.wf(),
    ensures
        network is V4 ==> network.scanned_count() == if network.host_count() <= 256 {
            network.host_count()
        } else {
            256
        },
        network is V6 ==> network.scanned_count() == if network.host_count() <= 1024 {
            network.host_count()
        } else {
            1024
        },
        network matches Network::V4 { prefix, .. } ==> (24 <= prefix < 31 ==> network.scanned_count()
            == network.size() - 2),
        network.scanned_count() > 0,
{
    network.lemma_has_hosts();
    if let Network::V4 { prefix, .. } = network {
        vstd::arithmetic::power2::lemma2_to64();
        if 24 <= prefix < 31 {
            assert(prefix == 24 || prefix == 25 || prefix == 26 || prefix == 27 || prefix == 28
                || prefix == 29 || prefix == 30);
        }
    }
}

} // verus!
