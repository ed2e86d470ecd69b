//! Network and socket addresses, and the addresses that peers announce.
use vstd::prelude::*;

verus! {

/// The Bitcoin network that the node runs on.
#[derive(Clone, Copy, Debug, PartialEq, Eq, Structural)]
pub enum Network {
    /// The main network.
    Bitcoin,
    /// The public test network.
    Testnet,
    /// A local regression test network.
    Regtest,
    /// The signed test network.
    Signet,
}

impl Network {
    /// The port on which nodes of a network listen.
    pub open spec fn spec_port(self) -> u16 {
        match self {
            Network::Bitcoin => 8333,
            Network::Testnet => 18333,
            Network::Regtest => 18444,
            Network::Signet => 38333,
        }
    }

    /// The port on which nodes of this network listen.
    pub fn port(self) -> (port: u16)
        ensures
            port == self.spec_port(),
    {
        match self {
            Network::Bitcoin => 8333,
            Network::Testnet => 18333,
            Network::Regtest => 18444,
            Network::Signet => 38333,
        }
    }
}

/// A position in the total order by which addresses are kept: version, ip, port, flow
/// information and scope. Being a tuple of integers, it is ordered by std alone, so that ordered
/// collections of such keys can be relied on.
pub type AddrKey = (u8, u128, u16, u32, u32);

/// The address of a peer: an ip address with a port.
#[derive(Clone, Copy, Debug, PartialEq, Eq, Structural)]
pub enum SocketAddr {
    /// An IPv4 address; the first octet is the most significant one.
    V4 { ipv4: u32, port: u16 },
    /// An IPv6 address; the first segment is the most significant one.
    V6 { ipv6: u128, port: u16, flowinfo: u32, scope_id: u32 },
}

impl SocketAddr {
    /// The key of an address. Distinct addresses have distinct keys.
    pub open spec fn spec_key(self) -> AddrKey {
        match self {
            SocketAddr::V4 { ipv4, port } => (4u8, ipv4 as u128, port, 0u32, 0u32),
            SocketAddr::V6 { ipv6, port, flowinfo, scope_id } => (
                6u8,
                ipv6,
                port,
                flowinfo,
                scope_id,
            ),
        }
    }

    /// The key under which this address is kept in an ordered collection.
    pub fn key(self) -> (key: AddrKey)
        ensures
            key == self.spec_key(),
    {
        match self {
            SocketAddr::V4 { ipv4, port } => (4u8, ipv4 as u128, port, 0u32, 0u32),
            SocketAddr::V6 { ipv6, port, flowinfo, scope_id } => (
                6u8,
                ipv6,
                port,
                flowinfo,
                scope_id,
            ),
        }
    }
}

/// The key of an address determines the address.
pub proof fn lemma_key_injective(a: SocketAddr, b: SocketAddr)
    requires
        a.spec_key() == b.spec_key(),
    ensures
        a == b,
{
}

/// The address that tells a worker to stop: 0.0.0.0, port 0.
pub open spec fn spec_stop_addr() -> SocketAddr {
    SocketAddr::V4 { ipv4: 0, port: 0 }
}

/// The address that is sent to a worker to tell it to stop. No peer listens there.
pub fn stop_addr() -> (addr: SocketAddr)
    ensures
        addr == spec_stop_addr(),
{
    SocketAddr::V4 { ipv4: 0, port: 0 }
}

/// An address as a peer announces it: the services of the node, its ip address as eight
/// segments (an IPv4 address in its IPv4-mapped form), and its port.
#[derive(Clone, Copy, Debug)]
pub struct NetAddress {
    /// The service flags of the node.
    pub services: u64,
    /// The segments of the ip address, the most significant one first.
    pub address: [u16; 8],
    /// The port of the node.
    pub port: u16,
}

/// Whether the segments are those of a Tor address (prefix fd87:d87e:eb43).
pub open spec fn is_onion(segments: Seq<u16>) -> bool {
    segments[0] == 0xFD87 && segments[1] == 0xD87E && segments[2] == 0xEB43
}

/// Whether the segments embed an IPv4 address: `::a.b.c.d` or `::ffff:a.b.c.d`.
pub open spec fn embeds_v4(segments: Seq<u16>) -> bool {
    &&& forall|i: int| 0 <= i < 5 ==> segments[i] == 0
    &&& segments[5] == 0 || segments[5] == 0xFFFF
}

/// The number that segments denote, the most significant one first.
pub open spec fn segments_value(segments: Seq<u16>) -> int
    decreases segments.len(),
{
    if segments.len() == 0 {
        0
    } else {
        segments_value(segments.drop_last()) * 0x10000 + segments.last()
    }
}

impl NetAddress {
    /// The socket address that an announced address stands for, if it is no Tor address.
    pub open spec fn spec_socket_addr(self) -> SocketAddr {
        if embeds_v4(self.address@) {
            SocketAddr::V4 {
                ipv4: segments_value(self.address@.subrange(6, 8)) as u32,
                port: self.port,
            }
        } else {
            SocketAddr::V6 {
                ipv6: segments_value(self.address@) as u128,
                port: self.port,
                flowinfo: 0,
                scope_id: 0,
            }
        }
    }

    /// The socket address that this announced address stands for: the IPv4 address that it
    /// embeds, else the IPv6 address, without flow information and scope. A Tor address stands
    /// for none and is an error.
    pub fn socket_addr(&self) -> (r: Result<SocketAddr, std::io::Error>)
        ensures
            r is Err <==> is_onion(self.address@),
            r matches Ok(addr) ==> addr == self.spec_socket_addr(),
            r matches Err(e) ==> e == tor_error(self.address@, self.port),
            r matches Ok(SocketAddr::V4 { ipv4, port }) ==> port == self.port && ipv4
                == self.address@[6] * 0x10000 + self.address@[7],
            r matches Ok(SocketAddr::V6 { ipv6, port, flowinfo, scope_id }) ==> port == self.port
                && ipv6 == segments_value(self.address@) && flowinfo == 0 && scope_id == 0,
    {
        match wire_socket_addr(self.address, self.port) {
            Ok((is_v4, segments, port)) => {
                if is_v4 {
                    let ipv4: u32 = v4_value(segments[6], segments[7]);
                    proof {
                        let s = self.address@.subrange(6, 8);
                        lemma_two_segments(s);
                    }
                    Ok(SocketAddr::V4 { ipv4, port })
                } else {
                    let ipv6: u128 = v6_value(segments);
                    Ok(SocketAddr::V6 { ipv6, port, flowinfo: 0, scope_id: 0 })
                }
            },
            Err(e) => Err(e),
        }
    }
}

proof fn lemma_two_segments(s: Seq<u16>)
    requires
        s.len() == 2,
    ensures
        segments_value(s) == s[0] * 0x10000 + s[1],
{
    reveal_with_fuel(segments_value, 3);
}

fn v4_value(high: u16, low: u16) -> (ip: u32)
    ensures
        ip == high * 0x10000 + low,
{
    (high as u32) * 0x10000 + (low as u32)
}

fn v6_value(segments: [u16; 8]) -> (ip: u128)
    ensures
        ip == segments_value(segments@),
{
    let mut ip: u128 = 0;
    let mut i: usize = 0;
    let ghost mut bound: int = 1;
    assert(segments@.take(0).len() == 0);
    while i < 8
        invariant
            i <= 8,
            segments@.len() == 8,
            ip == segments_value(segments@.take(i as int)),
            ip < bound,
            i == 0 ==> bound == 1,
            i == 1 ==> bound == 0x1_0000,
            i == 2 ==> bound == 0x1_0000_0000,
            i == 3 ==> bound == 0x1_0000_0000_0000,
            i == 4 ==> bound == 0x1_0000_0000_0000_0000,
            i == 5 ==> bound == 0x1_0000_0000_0000_0000_0000,
            i == 6 ==> bound == 0x1_0000_0000_0000_0000_0000_0000,
            i == 7 ==> bound == 0x1_0000_0000_0000_0000_0000_0000_0000,
            i == 8 ==> bound == 0x1_0000_0000_0000_0000_0000_0000_0000_0000,
        decreases 8 - i,
    {
        assert(segments@.take(i + 1).drop_last() =~= segments@.take(i as int));
        ip = ip * 0x10000 + (segments[i] as u128);
        proof {
            bound = bound * 0x10000;
        }
        i = i + 1;
    }
    assert(segments@.take(8) =~= segments@);
    ip
}

/// The error of `Address::socket_addr` of the `bitcoin` crate on a Tor address with the given
/// segments and port.
pub uninterp spec fn tor_error(address: Seq<u16>, port: u16) -> std::io::Error;

/// `Address::socket_addr` of the `bitcoin` crate, on an address with the given segments and
/// port. It fails on a Tor address alone. Otherwise the result tells whether the socket address
/// is an IPv4 one, its ip as segments (an IPv4 address in its IPv4-mapped form, as
/// `Address::new` of the same crate gives them) and its port: an address that embeds an IPv4
/// address yields that one, any other is kept as it is. The error depends on the address alone,
/// and is named `tor_error`. The flow information and the scope of
/// an IPv6 result, which the crate sets to 0, are not part of the result.
#[verifier::external_body]
fn wire_socket_addr(address: [u16; 8], port: u16) -> (r: Result<
    (bool, [u16; 8], u16),
    std::io::Error,
>)
    ensures
        r is Err <==> is_onion(address@),
        r matches Ok((is_v4, segments, p)) ==> {
            &&& is_v4 == embeds_v4(address@)
            &&& is_v4 ==> segments@ == seq![
                0u16,
                0u16,
                0u16,
                0u16,
                0u16,
                0xFFFFu16,
                address@[6],
                address@[7],
            ]
            &&& !is_v4 ==> segments@ == address@
            &&& p == port
        },
        r matches Err(e) ==> e == tor_error(address@, port),
{
    let services = bitcoin::network::constants::ServiceFlags::NONE;
    let wire = bitcoin::network::address::Address { services, address, port };
    match wire.socket_addr() {
        Ok(socket) => {
            let segments = bitcoin::network::address::Address::new(&socket, services).address;
            Ok((socket.is_ipv4(), segments, socket.port()))
        },
        Err(e) => Err(e),
    }
}

/// The error that the operating system and the address conversions of the `bitcoin` crate
/// report. Nothing is known of its contents.
#[verifier::external_type_specification]
#[verifier::external_body]
pub struct ExIoError(std::io::Error);

} // verus!
