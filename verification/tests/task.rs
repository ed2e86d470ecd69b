use cbf_node::addr_set::AddrSet;
use cbf_node::errors::AddrsMngrError;
use cbf_node::net::{Network, SocketAddr};
use cbf_node::task::{FetchTask, Lookup};

fn addr(ipv4: u32) -> SocketAddr {
    SocketAddr::V4 { ipv4, port: 8333 }
}

fn drained(task: &mut FetchTask) -> Vec<SocketAddr> {
    let mut all = vec![];
    while let Some(next) = task.get_pending() {
        all.push(next);
    }
    all
}

#[test]
fn seed_hosts_of_the_networks() {
    let main = FetchTask::seed_hosts(Network::Bitcoin);
    assert_eq!(
        main,
        vec![
            ("seed.bitcoin.sipa.be", 8333),
            ("dnsseed.bluematt.me", 8333),
            ("dnsseed.bitcoin.dashjr.org", 8333),
            ("seed.bitcoinstats.com", 8333),
            ("seed.bitcoin.jonasschnelli.ch", 8333),
            ("seed.btc.petertodd.org", 8333),
            ("seed.bitcoin.sprovoost.nl", 8333),
            ("dnsseed.emzy.de", 8333),
            ("seed.bitcoin.wiz.biz", 8333),
        ]
    );
    let test = FetchTask::seed_hosts(Network::Testnet);
    assert_eq!(
        test,
        vec![
            ("testnet-seed.bitcoin.jonasschnelli.ch", 18333),
            ("seed.tbtc.petertodd.org", 18333),
            ("seed.testnet.bitcoin.sprovoost.nl", 18333),
            ("testnet-seed.bluematt.me", 18333),
        ]
    );
    assert!(FetchTask::seed_hosts(Network::Regtest).is_empty());
    assert!(FetchTask::seed_hosts(Network::Signet).is_empty());
}

#[test]
fn seeds_are_the_lookups_one_after_the_other() {
    let lookups: Vec<Lookup> = vec![Ok(vec![addr(3), addr(1)]), Ok(vec![]), Ok(vec![addr(3)])];
    assert_eq!(FetchTask::seeds(lookups).unwrap(), vec![addr(3), addr(1), addr(3)]);
}

#[test]
fn first_failed_lookup_decides() {
    let lookups: Vec<Lookup> = vec![
        Ok(vec![addr(3)]),
        Err(std::io::Error::from(std::io::ErrorKind::NotFound)),
        Err(std::io::Error::from(std::io::ErrorKind::TimedOut)),
    ];
    match FetchTask::new(Network::Bitcoin, lookups, vec![addr(1)]) {
        Err(AddrsMngrError::IO(e)) => assert_eq!(e.kind(), std::io::ErrorKind::NotFound),
        _ => panic!("the second lookup failed"),
    }
}

#[test]
fn network_seeds_come_before_the_others() {
    let lookups: Vec<Lookup> = vec![Ok(vec![addr(3)]), Ok(vec![addr(4)])];
    let mut task = FetchTask::new(Network::Signet, lookups, vec![addr(1), addr(2)]).unwrap();
    assert_eq!(task.network(), Network::Signet);
    assert_eq!((task.pending_len(), task.visited_len()), (4, 0));
    assert_eq!(drained(&mut task), vec![addr(3), addr(4), addr(1), addr(2)]);
    assert_eq!((task.pending_len(), task.visited_len()), (0, 4));
    assert_eq!(task.get_pending(), None);
}

#[test]
fn known_addresses_are_not_added() {
    let mut task = FetchTask::new(Network::Bitcoin, vec![], vec![addr(1), addr(2)]).unwrap();
    assert_eq!(task.get_pending(), Some(addr(1)));
    task.add_pendings(vec![addr(1), addr(5), addr(2), addr(5), addr(4)]);
    task.add_pendings(vec![addr(1), addr(5), addr(2), addr(5), addr(4)]);
    assert_eq!(drained(&mut task), vec![addr(2), addr(5), addr(4)]);
    task.add_pendings(vec![addr(4), addr(5)]);
    assert_eq!(task.get_pending(), None);
}

#[test]
fn repeated_seeds_are_handed_out_again() {
    let mut task = FetchTask::new(Network::Bitcoin, vec![], vec![addr(1), addr(1)]).unwrap();
    assert_eq!(drained(&mut task), vec![addr(1), addr(1)]);
    assert_eq!(task.visited_len(), 1);
}

#[test]
fn set_of_addresses() {
    let mut set = AddrSet::new();
    set.insert(addr(1));
    set.insert(addr(2));
    set.insert(addr(1));
    assert_eq!(set.len(), 2);
    assert!(set.contains(&addr(2)));
    assert!(!set.contains(&addr(3)));
}
