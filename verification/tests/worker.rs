use cbf_node::errors::{AddrsMngrError, PeerError};
use cbf_node::net::{stop_addr, NetAddress, Network, SocketAddr};
use cbf_node::store::AddrsEntry;
use cbf_node::worker::{announced_addrs, AddrsWorker, WorkerAction, WorkerEvent};
use std::time::{Duration, UNIX_EPOCH};

fn addr(ipv4: u32) -> SocketAddr {
    SocketAddr::V4 { ipv4, port: 8333 }
}

fn announced(low: u16) -> NetAddress {
    NetAddress { services: 1, address: [0, 0, 0, 0, 0, 0xFFFF, 0, low], port: 8333 }
}

fn tor() -> NetAddress {
    NetAddress { services: 1, address: [0xFD87, 0xD87E, 0xEB43, 0, 0, 0, 0, 1], port: 8333 }
}

fn asked_for_addrs() -> AddrsWorker {
    let mut worker = AddrsWorker::new(Network::Testnet);
    assert!(matches!(worker.work(), WorkerAction::RecvRequest));
    match worker.resume(WorkerEvent::Request(addr(7))) {
        WorkerAction::Connect { addr: a, network, timeout_secs } => {
            assert_eq!((a, network, timeout_secs), (addr(7), Network::Testnet, 1));
        }
        _ => panic!("a peer is to be connected to"),
    }
    assert!(matches!(worker.resume(WorkerEvent::Connected), WorkerAction::SendGetAddr));
    match worker.resume(WorkerEvent::GetAddrSent) {
        WorkerAction::RecvAddrs { timeout_secs } => assert_eq!(timeout_secs, 1),
        _ => panic!("addresses are to be received"),
    }
    worker
}

#[test]
fn full_visit() {
    let mut worker = asked_for_addrs();
    let list = vec![(5, announced(1)), (0, announced(2)), (9, announced(3))];
    match worker.resume(WorkerEvent::Addrs(list)) {
        WorkerAction::SendAddrs(addrs) => assert_eq!(addrs, vec![addr(1), addr(3)]),
        _ => panic!("addresses are to be sent"),
    }
    let event = WorkerEvent::AddrsSent {
        last_attempts: UNIX_EPOCH,
        last_successful: UNIX_EPOCH + Duration::from_secs(3),
        services: 0x449,
    };
    assert!(worker.awaits(&event));
    match worker.resume(event) {
        WorkerAction::SendEntry(entry) => assert_eq!(
            entry,
            AddrsEntry {
                addr: addr(7),
                attempts: 1,
                last_attempts: UNIX_EPOCH,
                last_successful: UNIX_EPOCH + Duration::from_secs(3),
                tried: true,
                service: 0x449,
                rank: 0,
            }
        ),
        _ => panic!("the entry is to be sent"),
    }
    assert!(matches!(worker.resume(WorkerEvent::EntrySent), WorkerAction::ClosePeer));
    assert!(matches!(worker.resume(WorkerEvent::PeerClosed), WorkerAction::RecvRequest));
    assert!(matches!(
        worker.resume(WorkerEvent::Request(stop_addr())),
        WorkerAction::Finish(Ok(()))
    ));
}

#[test]
fn bad_peers_do_not_end_the_worker() {
    let mut worker = asked_for_addrs();
    assert!(matches!(worker.resume(WorkerEvent::NoAddrs), WorkerAction::RecvRequest));
    worker.resume(WorkerEvent::Request(addr(8)));
    assert!(matches!(worker.resume(WorkerEvent::ConnectFailed), WorkerAction::RecvRequest));
    assert!(worker.awaits(&WorkerEvent::Request(addr(9))));
}

#[test]
fn tor_address_ends_the_worker() {
    let mut worker = asked_for_addrs();
    let list = vec![(5, announced(1)), (1, tor())];
    match worker.resume(WorkerEvent::Addrs(list)) {
        WorkerAction::Finish(Err(AddrsMngrError::IO(e))) => {
            assert_eq!(e.kind(), std::io::ErrorKind::AddrNotAvailable);
        }
        _ => panic!("the worker is to end"),
    }
    assert!(!worker.awaits(&WorkerEvent::Request(addr(9))));
}

#[test]
fn failures_end_the_worker() {
    let mut worker = AddrsWorker::new(Network::Bitcoin);
    worker.work();
    let closed = AddrsMngrError::Mpsc(String::from("closed"));
    match worker.resume(WorkerEvent::Failed(closed)) {
        WorkerAction::Finish(Err(AddrsMngrError::Mpsc(text))) => assert_eq!(text, "closed"),
        _ => panic!("the worker is to end"),
    }

    let mut asking = AddrsWorker::new(Network::Bitcoin);
    asking.work();
    asking.resume(WorkerEvent::Request(addr(1)));
    asking.resume(WorkerEvent::Connected);
    let lost = AddrsMngrError::from(PeerError { description: String::from("gone") });
    match asking.resume(WorkerEvent::Failed(lost)) {
        WorkerAction::Finish(Err(AddrsMngrError::Peer(e))) => assert_eq!(e.description, "gone"),
        _ => panic!("the worker is to end"),
    }
}

#[test]
fn unseen_tor_address_is_left_out() {
    let list = vec![(0, tor()), (1, announced(4))];
    assert_eq!(announced_addrs(&list).unwrap(), vec![addr(4)]);
    assert!(announced_addrs(&vec![(1, tor())]).is_err());
    assert!(announced_addrs(&vec![]).unwrap().is_empty());
}

#[test]
fn first_seen_tor_address_decides() {
    let mut other = tor();
    other.port = 9;
    match announced_addrs(&vec![(0, tor()), (1, announced(4)), (2, other), (3, tor())]) {
        Err(AddrsMngrError::IO(e)) => {
            assert_eq!(e.kind(), other.socket_addr().unwrap_err().kind());
        }
        _ => panic!("a Tor address was seen"),
    }
}

#[test]
fn only_fitting_events_are_awaited() {
    let mut worker = AddrsWorker::new(Network::Bitcoin);
    worker.work();
    assert!(worker.awaits(&WorkerEvent::Request(addr(1))));
    assert!(!worker.awaits(&WorkerEvent::Connected));
    worker.resume(WorkerEvent::Request(addr(1)));
    assert!(worker.awaits(&WorkerEvent::ConnectFailed));
    assert!(!worker.awaits(&WorkerEvent::Failed(AddrsMngrError::Mpsc(String::new()))));
}
