//! Addresses and destinations.

use vstd::prelude::*;

verus! {

/// The transport a session uses.
#[derive(Clone, Copy, Debug, PartialEq, Eq, Structural)]
pub enum Network {
    Tcp,
    Udp,
}

/// The label of a network.
pub open spec fn network_label(network: Network) -> Seq<char> {
    match network {
        Network::Tcp => "tcp"@,
        Network::Udp => "udp"@,
    }
}

impl Network {
    /// The label of the network.
    pub fn as_str(self) -> (r: &'static str)
        ensures
            r@ == network_label(self),
    {
        match self {
            Network::Tcp => "tcp",
            Network::Udp => "udp",
        }
    }
}

/// An IP address as its octets in network order.
#[derive(Clone, Copy, Debug, PartialEq, Eq)]
pub enum IpAddr {
    V4([u8; 4]),
    V6([u8; 16]),
}

/// An IP address as mathematical values.
#[verifier::ext_equal]
pub enum IpView {
    V4(Seq<u8>),
    V6(Seq<u8>),
}

impl View for IpAddr {
    type V = IpView;

    open spec fn view(&self) -> IpView {
        match self {
            IpAddr::V4(o) => IpView::V4(o@),
            IpAddr::V6(o) => IpView::V6(o@),
        }
    }
}

/// An IP address and a port.
#[derive(Clone, Copy, Debug, PartialEq, Eq)]
pub struct SocketAddr {
    pub ip: IpAddr,
    pub port: u16,
}

/// A socket address as mathematical values.
#[verifier::ext_equal]
pub struct SocketView {
    pub ip: IpView,
    pub port: u16,
}

impl View for SocketAddr {
    type V = SocketView;

    open spec fn view(&self) -> SocketView {
        SocketView { ip: self.ip@, port: self.port }
    }
}

fn same_octets<const N: usize>(a: &[u8; N], b: &[u8; N]) -> (r: bool)
    ensures
        r == (a@ == b@),
{
    let mut i: usize = 0;
    while i < N
        invariant
            i <= N,
            forall|j: int| 0 <= j < i ==> a@[j] == b@[j],
        decreases N - i,
    {
        if a[i] != b[i] {
            return false;
        }
        i += 1;
    }
    assert(a@ =~= b@);
    true
}

impl IpAddr {
    /// Whether two addresses are the same.
    pub fn same(&self, other: &IpAddr) -> (r: bool)
        ensures
            r == (self@ == other@),
    {
        match (self, other) {
            (IpAddr::V4(a), IpAddr::V4(b)) => same_octets(a, b),
            (IpAddr::V6(a), IpAddr::V6(b)) => same_octets(a, b),
            _ => false,
        }
    }

    /// The unspecified address of the same family.
    pub fn unspecified(&self) -> (r: IpAddr)
        ensures
            r@ == match self@ {
                IpView::V4(_) => IpView::V4(Seq::new(4, |i: int| 0u8)),
                IpView::V6(_) => IpView::V6(Seq::new(16, |i: int| 0u8)),
            },
    {
        match self {
            IpAddr::V4(_) => {
                let zero: [u8; 4] = [0; 4];
                assert(zero@ =~= Seq::new(4, |i: int| 0u8));
                IpAddr::V4(zero)
            },
            IpAddr::V6(_) => {
                let zero: [u8; 16] = [0; 16];
                assert(zero@ =~= Seq::new(16, |i: int| 0u8));
                IpAddr::V6(zero)
            },
        }
    }
}

impl SocketAddr {
    /// A socket address.
    pub fn new(ip: IpAddr, port: u16) -> (r: Self)
        ensures
            r@ == (SocketView { ip: ip@, port }),
    {
        SocketAddr { ip, port }
    }

    /// Whether two socket addresses are the same.
    pub fn same(&self, other: &SocketAddr) -> (r: bool)
        ensures
            r == (self@ == other@),
    {
        self.port == other.port && self.ip.same(&other.ip)
    }
}

/// The host part of a destination.
#[derive(Debug, PartialEq, Eq)]
pub enum Host {
    Ip(IpAddr),
    Domain(String),
}

/// A host as mathematical values.
#[verifier::ext_equal]
pub enum HostView {
    Ip(IpView),
    Domain(Seq<char>),
}

impl View for Host {
    type V = HostView;

    open spec fn view(&self) -> HostView {
        match self {
            Host::Ip(ip) => HostView::Ip(ip@),
            Host::Domain(domain) => HostView::Domain(domain@),
        }
    }
}

impl Clone for Host {
    fn clone(&self) -> (r: Self)
        ensures
            r@ == self@,
    {
        match self {
            Host::Ip(ip) => Host::Ip(*ip),
            Host::Domain(domain) => Host::Domain(domain.clone()),
        }
    }
}

/// Where a session goes.
#[derive(Debug, PartialEq, Eq)]
pub struct Destination {
    pub host: Host,
    pub port: u16,
}

/// A destination as mathematical values.
#[verifier::ext_equal]
pub struct DestinationView {
    pub host: HostView,
    pub port: u16,
}

impl View for Destination {
    type V = DestinationView;

    open spec fn view(&self) -> DestinationView {
        DestinationView { host: self.host@, port: self.port }
    }
}

impl Clone for Destination {
    fn clone(&self) -> (r: Self)
        ensures
            r@ == self@,
    {
        Destination { host: self.host.clone(), port: self.port }
    }
}

impl Destination {
    /// A destination.
    pub fn new(host: Host, port: u16) -> (r: Self)
        ensures
            r@ == (DestinationView { host: host@, port }),
    {
        Destination { host, port }
    }
}

/// The views of addresses, hosts and destinations show all that these hold.
pub proof fn law_address_views_show_everything(
    ip: IpAddr,
    address: SocketAddr,
    host: Host,
    destination: Destination,
)
    ensures
        match ip {
            IpAddr::V4(octets) => ip@ == IpView::V4(octets@),
            IpAddr::V6(octets) => ip@ == IpView::V6(octets@),
        },
        address@.ip == address.ip@,
        address@.port == address.port,
        match host {
            Host::Ip(of_host) => host@ == HostView::Ip(of_host@),
            Host::Domain(domain) => host@ == HostView::Domain(domain@),
        },
        destination@.host == destination.host@,
        destination@.port == destination.port,
{
}

/// The label of a network is its usual name.
pub proof fn law_network_labels(network: Network)
    ensures
        network_label(network) == if network == Network::Tcp {
            "tcp"@
        } else {
            "udp"@
        },
{
}

} // verus!
