use cbf_node::net::SocketAddr;
use cbf_node::store::{AddrsEntry, AddrsStore};
use std::time::UNIX_EPOCH;

fn entry(ipv4: u32, service: u64) -> AddrsEntry {
    AddrsEntry {
        addr: SocketAddr::V4 { ipv4, port: 8333 },
        attempts: 1,
        last_attempts: UNIX_EPOCH,
        last_successful: UNIX_EPOCH,
        tried: true,
        service,
        rank: 0,
    }
}

#[test]
fn compact_filter_flag() {
    assert!(entry(1, 0x40).is_cbf());
    assert!(entry(1, 0x449).is_cbf());
    assert!(!entry(1, 0).is_cbf());
    assert!(!entry(1, 0x40F & !0x40).is_cbf());
    assert!(!entry(1, 0x80).is_cbf());
}

#[test]
fn new_store_is_empty() {
    let store = AddrsStore::new();
    assert_eq!(store.cbf_count(), 0);
    assert_eq!(store.non_cbf_count(), 0);
    assert!(store.iter_keys().is_empty());
    assert!(store.get_entry(&SocketAddr::V4 { ipv4: 1, port: 8333 }).is_none());
}

#[test]
fn put_adds_and_replaces() {
    let mut store = AddrsStore::new();
    store.put(&entry(1, 0x40));
    store.put(&entry(2, 0x1));
    assert_eq!((store.cbf_count(), store.non_cbf_count()), (1, 1));

    let mut replacement = entry(1, 0x1);
    replacement.rank = 9;
    store.put(&replacement);
    assert_eq!((store.cbf_count(), store.non_cbf_count()), (0, 2));
    assert_eq!(store.get_entry(&replacement.addr), Some(&replacement));
    assert_eq!(store.get_entry(&entry(2, 0x1).addr), Some(&entry(2, 0x1)));
}

#[test]
fn keys_come_once_each() {
    let mut store = AddrsStore::new();
    for ipv4 in 0..20u32 {
        store.put(&entry(ipv4 % 7, 0x40 * (ipv4 as u64 % 2)));
    }
    let keys = store.iter_keys();
    assert_eq!(keys.len(), 7);
    for ipv4 in 0..7u32 {
        assert!(keys.contains(&SocketAddr::V4 { ipv4, port: 8333 }));
    }
    assert_eq!(store.cbf_count() + store.non_cbf_count(), 7);
}

#[test]
fn same_number_in_both_versions_is_two_addresses() {
    let mut store = AddrsStore::new();
    store.put(&entry(1, 0));
    let mut v6 = entry(1, 0x40);
    v6.addr = SocketAddr::V6 { ipv6: 1, port: 8333, flowinfo: 0, scope_id: 0 };
    store.put(&v6);
    assert_eq!(store.iter_keys().len(), 2);
    assert_eq!(store.get_entry(&v6.addr), Some(&v6));
}
