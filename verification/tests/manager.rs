use cbf_node::discovery::DiscoveryData;
use cbf_node::errors::AddrsMngrError;
use cbf_node::fetcher::{AddrsFetcher, FetchAction, FetchEvent};
use cbf_node::manager::AddrsManager;
use cbf_node::net::{stop_addr, Network, SocketAddr};
use cbf_node::store::AddrsEntry;
use cbf_node::task::Lookup;
use std::time::UNIX_EPOCH;

fn addr(ipv4: u32) -> SocketAddr {
    SocketAddr::V4 { ipv4, port: 8333 }
}

fn entry(a: SocketAddr, service: u64) -> AddrsEntry {
    AddrsEntry {
        addr: a,
        attempts: 1,
        last_attempts: UNIX_EPOCH,
        last_successful: UNIX_EPOCH,
        tried: true,
        service,
        rank: 0,
    }
}

/// Peers that all answer: the peer at address n serves compact filters if n is a multiple of
/// three, and announces the five addresses after 5 n.
struct Crowd {
    asked: Vec<SocketAddr>,
    answered: usize,
    reports: Vec<DiscoveryData>,
}

impl Crowd {
    fn new() -> Self {
        Crowd { asked: vec![], answered: 0, reports: vec![] }
    }

    fn number(&self) -> u32 {
        match self.asked[self.answered] {
            SocketAddr::V4 { ipv4, .. } => ipv4,
            _ => panic!("all peers have IPv4 addresses"),
        }
    }

    fn answer(&mut self, action: &FetchAction) -> Option<FetchEvent> {
        match action {
            FetchAction::Report(data) => {
                self.reports.push(*data);
                Some(FetchEvent::Reported)
            }
            FetchAction::Connect { worker, addr } => {
                assert!(*worker < 5);
                self.asked.push(*addr);
                Some(FetchEvent::Sent)
            }
            FetchAction::RecvAddrs => {
                let n = self.number();
                Some(FetchEvent::Addrs((1..6).map(|i| addr(5 * n + i)).collect()))
            }
            FetchAction::RecvEntry => {
                let n = self.number();
                self.answered += 1;
                Some(FetchEvent::Entry(entry(addr(n), if n % 3 == 0 { 0x40 } else { 1 })))
            }
            FetchAction::Done(_) => None,
        }
    }
}

fn seeded() -> Vec<Lookup> {
    vec![Ok((1..6).map(addr).collect())]
}

fn filled(manager: &mut AddrsManager, crowd: &mut Crowd) -> Vec<AddrsEntry> {
    let mut action = manager.fill_up();
    loop {
        match crowd.answer(&action) {
            Some(event) => {
                assert!(manager.awaits(&event));
                action = manager.resume(event);
            }
            None => break,
        }
    }
    match action {
        FetchAction::Done(entries) => entries,
        _ => panic!("the fetch is complete"),
    }
}

#[test]
fn basic() {
    let mut manager = AddrsManager::new(seeded()).unwrap();
    filled(&mut manager, &mut Crowd::new());

    println!("CBF COUNT: {}", manager.store().cbf_count());
    assert_eq!(manager.store().cbf_count(), 10);
    assert_eq!(manager.store().non_cbf_count(), 50);
}

#[test]
fn filling_up_reaches_the_targets_once() {
    let mut manager = AddrsManager::new(seeded()).unwrap();
    let mut crowd = Crowd::new();
    let entries = filled(&mut manager, &mut crowd);
    assert_eq!(entries.len(), 60);
    for e in &entries {
        assert_eq!(manager.store().get_entry(&e.addr), Some(e));
    }
    let mut distinct: Vec<_> = crowd.asked.iter().map(|a| a.key()).collect();
    distinct.sort();
    distinct.dedup();
    assert_eq!(distinct.len(), crowd.asked.len());
    assert_eq!(crowd.reports[0], DiscoveryData::new(5, 0, 0, 0));
    assert_eq!(crowd.reports[1], DiscoveryData::new(25, 5, 1, 4));

    assert!(filled(&mut manager, &mut crowd).is_empty());
    assert_eq!(manager.store().iter_keys().len(), 60);
}

#[test]
fn failed_lookup_makes_no_manager() {
    let lookups: Vec<Lookup> = vec![Err(std::io::Error::from(std::io::ErrorKind::NotFound))];
    assert!(matches!(AddrsManager::new(lookups), Err(AddrsMngrError::IO(_))));
}

#[test]
fn excluded_and_surplus_entries_are_refused() {
    let mut fetcher = AddrsFetcher::setup(Network::Regtest, vec![]).unwrap();
    assert!(matches!(fetcher.fetch(1, 1, Some(vec![addr(1)])), FetchAction::Report(_)));
    assert!(matches!(fetcher.resume(FetchEvent::Reported), FetchAction::RecvAddrs));
    let mut action = FetchAction::RecvAddrs;
    for e in vec![
        entry(addr(1), 0x40),
        entry(addr(2), 0x40),
        entry(addr(3), 0x40),
        entry(addr(4), 0),
        entry(addr(5), 0),
    ] {
        assert!(matches!(action, FetchAction::RecvAddrs));
        assert!(matches!(
            fetcher.resume(FetchEvent::Addrs(vec![])),
            FetchAction::RecvEntry
        ));
        action = fetcher.resume(FetchEvent::Entry(e));
    }
    match action {
        FetchAction::Done(entries) => {
            assert_eq!(entries, vec![entry(addr(2), 0x40), entry(addr(4), 0)]);
        }
        _ => panic!("both targets are reached"),
    }
}

#[test]
fn no_filter_list_excludes_nothing() {
    let mut fetcher = AddrsFetcher::setup(Network::Regtest, vec![]).unwrap();
    fetcher.fetch(1, 0, None);
    fetcher.resume(FetchEvent::Reported);
    fetcher.resume(FetchEvent::Addrs(vec![]));
    fetcher.resume(FetchEvent::Entry(entry(addr(1), 0x40)));
    for i in 0..4 {
        fetcher.resume(FetchEvent::Addrs(vec![]));
        match fetcher.resume(FetchEvent::Entry(entry(addr(9), 0x40))) {
            FetchAction::Done(entries) => {
                assert_eq!(i, 3);
                assert_eq!(entries, vec![entry(addr(1), 0x40)]);
            }
            _ => assert!(i < 3),
        }
    }
}

#[test]
fn unmet_target_begins_another_round() {
    let mut fetcher = AddrsFetcher::setup(Network::Regtest, vec![]).unwrap();
    fetcher.fetch(1, 0, None);
    fetcher.resume(FetchEvent::Reported);
    for i in 0..5 {
        fetcher.resume(FetchEvent::Addrs(vec![addr(1), addr(2)]));
        match fetcher.resume(FetchEvent::Entry(entry(addr(9), 0))) {
            FetchAction::Report(data) => {
                assert_eq!(i, 4);
                assert_eq!(data, DiscoveryData::new(2, 0, 0, 0));
            }
            _ => assert!(i < 4),
        }
    }
    match fetcher.resume(FetchEvent::Reported) {
        FetchAction::Connect { worker, addr: a } => assert_eq!((worker, a), (0, addr(1))),
        _ => panic!("an address is pending"),
    }
}

#[test]
fn nothing_to_fetch_is_done_at_once() {
    let mut fetcher = AddrsFetcher::setup(Network::Bitcoin, seeded()).unwrap();
    match fetcher.fetch(0, 0, None) {
        FetchAction::Done(entries) => assert!(entries.is_empty()),
        _ => panic!("nothing is to be fetched"),
    }
    assert!(!fetcher.awaits(&FetchEvent::Reported));
}

#[test]
fn unfinished_fetch_is_given_up() {
    let mut fetcher = AddrsFetcher::setup(Network::Bitcoin, seeded()).unwrap();
    fetcher.fetch(1, 0, None);
    fetcher.resume(FetchEvent::Reported);
    match fetcher.fetch(0, 1, None) {
        FetchAction::Report(data) => assert_eq!(data, DiscoveryData::new(4, 1, 0, 0)),
        _ => panic!("a round begins"),
    }
}

#[test]
fn one_stop_request_per_worker() {
    let fetcher = AddrsFetcher::setup(Network::Testnet, seeded()).unwrap();
    assert_eq!(fetcher.workers(), 5);
    assert_eq!(fetcher.network(), Network::Testnet);
    assert_eq!(fetcher.stop_requests(), vec![stop_addr(); 5]);
}

#[test]
fn manager_works_on_the_main_network() {
    let manager = AddrsManager::new(vec![]).unwrap();
    assert_eq!(manager.fetcher().network(), Network::Bitcoin);
}

#[test]
fn a_round_gives_each_worker_one_address() {
    let lookups: Vec<Lookup> = vec![Ok((1..8).map(addr).collect())];
    let mut fetcher = AddrsFetcher::setup(Network::Bitcoin, lookups).unwrap();
    fetcher.fetch(1, 1, None);
    let mut action = fetcher.resume(FetchEvent::Reported);
    for i in 0..5 {
        match action {
            FetchAction::Connect { worker, addr: a } => {
                assert_eq!((worker, a), (i, addr(i as u32 + 1)));
            }
            _ => panic!("addresses are pending"),
        }
        action = fetcher.resume(FetchEvent::Sent);
    }
    assert!(matches!(action, FetchAction::RecvAddrs));
}

#[test]
fn failed_receive_ends_the_fetch() {
    let lookups: Vec<Lookup> = vec![Ok(vec![addr(1), addr(2)])];
    let mut fetcher = AddrsFetcher::setup(Network::Regtest, lookups).unwrap();
    fetcher.fetch(1, 1, None);
    for (i, event) in vec![FetchEvent::Reported, FetchEvent::Sent].into_iter().enumerate() {
        match fetcher.resume(event) {
            FetchAction::Connect { worker, addr: a } => {
                assert_eq!((worker, a), (i, addr(i as u32 + 1)));
            }
            _ => panic!("an address is pending"),
        }
    }
    assert!(matches!(fetcher.resume(FetchEvent::Sent), FetchAction::RecvAddrs));
    match fetcher.fail(AddrsMngrError::from(std::sync::mpsc::RecvError)) {
        Err(AddrsMngrError::Mpsc(text)) => assert_eq!(text, "receiving on a closed channel"),
        _ => panic!("the channel is closed"),
    }
    assert!(!fetcher.awaits(&FetchEvent::Addrs(vec![])));
    match fetcher.fetch(1, 1, None) {
        FetchAction::Report(data) => assert_eq!(data, DiscoveryData::new(0, 2, 0, 0)),
        _ => panic!("a round begins"),
    }
}

#[test]
fn failed_send_leaves_the_address_visited() {
    let mut fetcher = AddrsFetcher::setup(Network::Bitcoin, seeded()).unwrap();
    fetcher.fetch(1, 0, None);
    fetcher.resume(FetchEvent::Reported);
    match fetcher.fail(AddrsMngrError::from(std::sync::mpsc::SendError(addr(1)))) {
        Err(AddrsMngrError::Mpsc(text)) => assert_eq!(text, "sending on a closed channel"),
        _ => panic!("the channel is closed"),
    }
    match fetcher.fetch(1, 0, None) {
        FetchAction::Report(data) => assert_eq!(data, DiscoveryData::new(4, 1, 0, 0)),
        _ => panic!("a round begins"),
    }
}

#[test]
fn failed_fill_up_keeps_the_store() {
    let mut manager = AddrsManager::new(seeded()).unwrap();
    manager.fill_up();
    manager.resume(FetchEvent::Reported);
    for _ in 0..5 {
        manager.resume(FetchEvent::Sent);
    }
    manager.resume(FetchEvent::Addrs(vec![]));
    manager.resume(FetchEvent::Entry(entry(addr(1), 0x40)));
    match manager.fail(AddrsMngrError::Mpsc(String::from("closed"))) {
        Err(AddrsMngrError::Mpsc(text)) => assert_eq!(text, "closed"),
        _ => panic!("the channel is closed"),
    }
    assert!(manager.store().iter_keys().is_empty());
    assert!(matches!(manager.fill_up(), FetchAction::Report(_)));
}
