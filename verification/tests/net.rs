use cbf_node::net::{stop_addr, NetAddress, Network, SocketAddr};

fn announced(address: [u16; 8], port: u16) -> NetAddress {
    NetAddress { services: 0, address, port }
}

#[test]
fn ports_of_the_networks() {
    assert_eq!(Network::Bitcoin.port(), 8333);
    assert_eq!(Network::Testnet.port(), 18333);
    assert_eq!(Network::Regtest.port(), 18444);
    assert_eq!(Network::Signet.port(), 38333);
}

#[test]
fn mapped_v4_address() {
    let addr = announced([0, 0, 0, 0, 0, 0xFFFF, 0x0102, 0x0304], 8333).socket_addr();
    assert_eq!(addr.unwrap(), SocketAddr::V4 { ipv4: 0x01020304, port: 8333 });
}

#[test]
fn compatible_v4_address() {
    let addr = announced([0, 0, 0, 0, 0, 0, 0xC0A8, 0x0001], 1).socket_addr();
    assert_eq!(addr.unwrap(), SocketAddr::V4 { ipv4: 0xC0A80001, port: 1 });
}

#[test]
fn v6_address_keeps_all_segments() {
    let addr = announced([0x2001, 0xDB8, 3, 4, 5, 6, 7, 0xFFFF], 18333).socket_addr();
    assert_eq!(
        addr.unwrap(),
        SocketAddr::V6 {
            ipv6: 0x2001_0DB8_0003_0004_0005_0006_0007_FFFF,
            port: 18333,
            flowinfo: 0,
            scope_id: 0,
        }
    );
}

#[test]
fn nearly_embedded_v4_is_v6() {
    let first = announced([0, 0, 0, 0, 0, 0xFFFE, 1, 2], 1).socket_addr();
    assert_eq!(
        first.unwrap(),
        SocketAddr::V6 { ipv6: 0xFFFE_0001_0002, port: 1, flowinfo: 0, scope_id: 0 }
    );
    let second = announced([0, 0, 0, 0, 1, 0xFFFF, 1, 2], 1).socket_addr();
    assert_eq!(
        second.unwrap(),
        SocketAddr::V6 { ipv6: 0x1_FFFF_0001_0002, port: 1, flowinfo: 0, scope_id: 0 }
    );
}

#[test]
fn tor_address_is_an_error() {
    let addr = announced([0xFD87, 0xD87E, 0xEB43, 0, 0, 0, 0, 1], 8333).socket_addr();
    assert_eq!(addr.unwrap_err().kind(), std::io::ErrorKind::AddrNotAvailable);
}

#[test]
fn nearly_tor_address_is_none() {
    assert!(announced([0xFD87, 0xD87E, 0xEB42, 0, 0, 0, 0, 1], 8333).socket_addr().is_ok());
}

#[test]
fn keys_tell_addresses_apart() {
    let v4 = SocketAddr::V4 { ipv4: 1, port: 2 };
    let v6 = SocketAddr::V6 { ipv6: 1, port: 2, flowinfo: 0, scope_id: 0 };
    assert_eq!(v4.key(), (4, 1, 2, 0, 0));
    assert_eq!(v6.key(), (6, 1, 2, 0, 0));
}

#[test]
fn stop_address() {
    assert_eq!(stop_addr(), SocketAddr::V4 { ipv4: 0, port: 0 });
}
