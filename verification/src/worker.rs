//! The worker, which visits peers and asks them for further addresses.
use crate::config::PEER_TIMEOUT_SECS;
use crate::errors::AddrsMngrError;
use crate::net::{
    is_onion, spec_stop_addr, stop_addr, tor_error, NetAddress, Network, SocketAddr,
};
use crate::store::AddrsEntry;
use std::time::SystemTime;
use vstd::prelude::*;

verus! {

/// Where a worker stands.
#[derive(Clone, Copy, Debug, PartialEq, Eq, Structural)]
pub enum WorkerPhase {
    /// It waits for an address to connect to.
    Waiting,
    /// It connects to the address.
    Connecting { addr: SocketAddr },
    /// It asks the peer at the address for further addresses.
    Requesting { addr: SocketAddr },
    /// It waits for the addresses from the peer at the address.
    AwaitingAddrs { addr: SocketAddr },
    /// It passes the addresses from the peer at the address on.
    SendingAddrs { addr: SocketAddr },
    /// It passes the entry of the peer on.
    SendingEntry,
    /// It closes the connection to the peer.
    Closing,
    /// It has ended.
    Finished,
}

/// What the surroundings are to do next for a worker.
#[derive(Debug)]
pub enum WorkerAction {
    /// Receive an address to connect to.
    RecvRequest,
    /// Connect to the peer at the address, within the timeout.
    Connect { addr: SocketAddr, network: Network, timeout_secs: u64 },
    /// Ask the peer for addresses.
    SendGetAddr,
    /// Receive the addresses from the peer, within the timeout.
    RecvAddrs { timeout_secs: u64 },
    /// Send the addresses to the fetcher; then read the clock and the services of the peer.
    SendAddrs(Vec<SocketAddr>),
    /// Send the entry of the peer to the fetcher.
    SendEntry(AddrsEntry),
    /// Close the connection to the peer.
    ClosePeer,
    /// Nothing: the worker has ended.
    Finish(Result<(), AddrsMngrError>),
}

/// How the last action went.
#[derive(Debug)]
pub enum WorkerEvent {
    /// An address was received.
    Request(SocketAddr),
    /// The peer is connected.
    Connected,
    /// The peer could not be connected to.
    ConnectFailed,
    /// The peer was asked for addresses.
    GetAddrSent,
    /// The peer announced these addresses, each with the time at which it was last seen.
    Addrs(Vec<(u32, NetAddress)>),
    /// The peer announced no addresses: it failed, was silent, or said something else.
    NoAddrs,
    /// The addresses were sent to the fetcher; the readings of the clock for the entry, and the
    /// services of the peer.
    AddrsSent { last_attempts: SystemTime, last_successful: SystemTime, services: u64 },
    /// The entry was sent to the fetcher.
    EntrySent,
    /// The connection is closed.
    PeerClosed,
    /// The channel or the connection that the action needs failed.
    Failed(AddrsMngrError),
}

/// The socket addresses of the announced addresses that were ever seen, in order.
pub open spec fn announced(list: Seq<(u32, NetAddress)>) -> Seq<SocketAddr>
    decreases list.len(),
{
    if list.len() == 0 {
        seq![]
    } else if list.last().0 > 0 {
        announced(list.drop_last()).push(list.last().1.spec_socket_addr())
    } else {
        announced(list.drop_last())
    }
}

/// Whether one of the announced addresses that were ever seen is a Tor address.
pub open spec fn announces_onion(list: Seq<(u32, NetAddress)>) -> bool {
    exists|i: int|
        0 <= i < list.len() && (#[trigger] list[i]).0 > 0 && is_onion(list[i].1.address@)
}

/// Whether an error is that of the first Tor address among the announced addresses that were
/// ever seen.
pub open spec fn first_onion_error(list: Seq<(u32, NetAddress)>, e: AddrsMngrError) -> bool {
    exists|i: int|
        0 <= i < list.len() && (#[trigger] list[i]).0 > 0 && is_onion(list[i].1.address@)
            && !announces_onion(list.take(i)) && e == AddrsMngrError::IO(
            tor_error(list[i].1.address@, list[i].1.port),
        )
}

/// The socket addresses of the announced addresses that were ever seen, in order. Fails if one
/// of these is a Tor address, with the error of the first such address.
pub fn announced_addrs(list: &Vec<(u32, NetAddress)>) -> (r: Result<
    Vec<SocketAddr>,
    AddrsMngrError,
>)
    ensures
        match r {
            Ok(addrs) => !announces_onion(list@) && addrs@ == announced(list@),
            Err(e) => announces_onion(list@) && first_onion_error(list@, e),
        },
{
    let mut addrs: Vec<SocketAddr> = Vec::new();
    let mut i: usize = 0;
    while i < list.len()
        invariant
            i <= list@.len(),
            !announces_onion(list@.take(i as int)),
            addrs@ == announced(list@.take(i as int)),
        decreases list@.len() - i,
    {
        let ghost n = i as int;
        proof {
            assert(list@.take(n + 1).drop_last() =~= list@.take(n));
            assert forall|j: int|
                0 <= j < n + 1 && (#[trigger] list@.take(n + 1)[j]).0 > 0 && is_onion(
                    list@.take(n + 1)[j].1.address@,
                ) implies j == n by {
                if j < n {
                    assert(list@.take(n)[j] == list@.take(n + 1)[j]);
                }
            }
        }
        if list[i].0 > 0 {
            match list[i].1.socket_addr() {
                Ok(addr) => {
                    addrs.push(addr);
                },
                Err(e) => {
                    assert(list@[n].0 > 0 && is_onion(list@[n].1.address@));
                    return Err(AddrsMngrError::from(e));
                },
            }
        }
        i = i + 1;
    }
    assert(list@.take(i as int) =~= list@);
    Ok(addrs)
}

/// What a worker holds.
pub ghost struct WorkerState {
    /// Where it stands.
    pub phase: WorkerPhase,
    /// The network that it connects to.
    pub network: Network,
}

impl WorkerState {
    /// Whether an event tells how the last action went.
    pub open spec fn awaits(self, event: WorkerEvent) -> bool {
        match event {
            WorkerEvent::Request(_) => self.phase is Waiting,
            WorkerEvent::Connected => self.phase is Connecting,
            WorkerEvent::ConnectFailed => self.phase is Connecting,
            WorkerEvent::GetAddrSent => self.phase is Requesting,
            WorkerEvent::Addrs(_) => self.phase is AwaitingAddrs,
            WorkerEvent::NoAddrs => self.phase is AwaitingAddrs,
            WorkerEvent::AddrsSent { .. } => self.phase is SendingAddrs,
            WorkerEvent::EntrySent => self.phase is SendingEntry,
            WorkerEvent::PeerClosed => self.phase is Closing,
            WorkerEvent::Failed(_) => match self.phase {
                WorkerPhase::Waiting => true,
                WorkerPhase::Requesting { .. } => true,
                WorkerPhase::SendingAddrs { .. } => true,
                WorkerPhase::SendingEntry => true,
                WorkerPhase::Closing => true,
                _ => false,
            },
        }
    }

    /// Where a worker stands after an event.
    pub open spec fn next_phase(self, event: WorkerEvent) -> WorkerPhase
        recommends
            self.awaits(event),
    {
        match event {
            WorkerEvent::Request(addr) => if addr == spec_stop_addr() {
                WorkerPhase::Finished
            } else {
                WorkerPhase::Connecting { addr }
            },
            WorkerEvent::Connected => WorkerPhase::Requesting {
                addr: self.phase->Connecting_addr,
            },
            WorkerEvent::ConnectFailed => WorkerPhase::Waiting,
            WorkerEvent::GetAddrSent => WorkerPhase::AwaitingAddrs {
                addr: self.phase->Requesting_addr,
            },
            WorkerEvent::Addrs(list) => if announces_onion(list@) {
                WorkerPhase::Finished
            } else {
                WorkerPhase::SendingAddrs { addr: self.phase->AwaitingAddrs_addr }
            },
            WorkerEvent::NoAddrs => WorkerPhase::Waiting,
            WorkerEvent::AddrsSent { .. } => WorkerPhase::SendingEntry,
            WorkerEvent::EntrySent => WorkerPhase::Closing,
            WorkerEvent::PeerClosed => WorkerPhase::Waiting,
            WorkerEvent::Failed(_) => WorkerPhase::Finished,
        }
    }

    /// A worker after an event.
    pub open spec fn resumed(self, event: WorkerEvent) -> WorkerState {
        WorkerState { phase: self.next_phase(event), ..self }
    }

    /// Whether an action is what a worker asks for after an event.
    pub open spec fn asks_for(self, event: WorkerEvent, action: WorkerAction) -> bool
        recommends
            self.awaits(event),
    {
        match event {
            WorkerEvent::Request(addr) => if addr == spec_stop_addr() {
                action == WorkerAction::Finish(Ok(()))
            } else {
                action == (WorkerAction::Connect {
                    addr,
                    network: self.network,
                    timeout_secs: PEER_TIMEOUT_SECS,
                })
            },
            WorkerEvent::Connected => action == WorkerAction::SendGetAddr,
            WorkerEvent::ConnectFailed => action == WorkerAction::RecvRequest,
            WorkerEvent::GetAddrSent => action == (WorkerAction::RecvAddrs {
                timeout_secs: PEER_TIMEOUT_SECS,
            }),
            WorkerEvent::Addrs(list) => if announces_onion(list@) {
                action matches WorkerAction::Finish(Err(e)) && first_onion_error(list@, e)
            } else {
                action matches WorkerAction::SendAddrs(addrs) && addrs@ == announced(list@)
            },
            WorkerEvent::NoAddrs => action == WorkerAction::RecvRequest,
            WorkerEvent::AddrsSent { last_attempts, last_successful, services } => action
                == WorkerAction::SendEntry(
                AddrsEntry {
                    addr: self.phase->SendingAddrs_addr,
                    attempts: 1,
                    last_attempts,
                    last_successful,
                    tried: true,
                    service: services,
                    rank: 0,
                },
            ),
            WorkerEvent::EntrySent => action == WorkerAction::ClosePeer,
            WorkerEvent::PeerClosed => action == WorkerAction::RecvRequest,
            WorkerEvent::Failed(e) => action == WorkerAction::Finish(Err(e)),
        }
    }
}

/// A worker crawls the network: it visits the peers that it is told to, asks each of them for
/// further addresses, and passes these and the entry of the peer back to the fetcher.
pub struct AddrsWorker {
    phase: WorkerPhase,
    network: Network,
}

impl View for AddrsWorker {
    type V = WorkerState;

    closed spec fn view(&self) -> WorkerState {
        WorkerState { phase: self.phase, network: self.network }
    }
}

impl AddrsWorker {
    /// A worker for the network.
    pub fn new(network: Network) -> (r: Self)
        ensures
            r@ == (WorkerState { phase: WorkerPhase::Waiting, network }),
    {
        AddrsWorker { phase: WorkerPhase::Waiting, network }
    }

    /// Begins to work: the worker waits for an address to connect to.
    pub fn work(&mut self) -> (action: WorkerAction)
        ensures
            final(self)@ == (WorkerState { phase: WorkerPhase::Waiting, ..old(self)@ }),
            action == WorkerAction::RecvRequest,
    {
        self.phase = WorkerPhase::Waiting;
        WorkerAction::RecvRequest
    }

    /// Goes on when the last action was done. The worker ends when it is told to stop, when a
    /// channel or the connection to a peer that it has asked for addresses fails, or when a peer
    /// announces a Tor address. It goes on to the next peer when a peer cannot be connected to
    /// or announces no addresses.
    pub fn resume(&mut self, event: WorkerEvent) -> (action: WorkerAction)
        requires
            old(self)@.awaits(event),
        ensures
            final(self)@ == old(self)@.resumed(event),
            old(self)@.asks_for(event, action),
            event matches WorkerEvent::AddrsSent { last_attempts, last_successful, services } ==> {
                &&& action matches WorkerAction::SendEntry(entry)
                &&& entry.service == services
                &&& entry.last_attempts == last_attempts
                &&& entry.last_successful == last_successful
                &&& entry.attempts == 1
                &&& entry.tried
                &&& entry.rank == 0
                &&& old(self)@.phase == (WorkerPhase::SendingAddrs { addr: entry.addr })
            },
    {
        match event {
            WorkerEvent::Request(addr) => {
                if addr == stop_addr() {
                    self.phase = WorkerPhase::Finished;
                    WorkerAction::Finish(Ok(()))
                } else {
                    self.phase = WorkerPhase::Connecting { addr };
                    WorkerAction::Connect {
                        addr,
                        network: self.network,
                        timeout_secs: PEER_TIMEOUT_SECS,
                    }
                }
            },
            WorkerEvent::Connected => {
                self.phase = WorkerPhase::Requesting { addr: self.visited() };
                WorkerAction::SendGetAddr
            },
            WorkerEvent::GetAddrSent => {
                self.phase = WorkerPhase::AwaitingAddrs { addr: self.visited() };
                WorkerAction::RecvAddrs { timeout_secs: PEER_TIMEOUT_SECS }
            },
            WorkerEvent::Addrs(list) => {
                match announced_addrs(&list) {
                    Ok(addrs) => {
                        self.phase = WorkerPhase::SendingAddrs { addr: self.visited() };
                        WorkerAction::SendAddrs(addrs)
                    },
                    Err(e) => {
                        self.phase = WorkerPhase::Finished;
                        WorkerAction::Finish(Err(e))
                    },
                }
            },
            WorkerEvent::AddrsSent { last_attempts, last_successful, services } => {
                let addr = self.visited();
                self.phase = WorkerPhase::SendingEntry;
                WorkerAction::SendEntry(
                    AddrsEntry {
                        addr,
                        attempts: 1,
                        last_attempts,
                        last_successful,
                        tried: true,
                        service: services,
                        rank: 0,
                    },
                )
            },
            WorkerEvent::EntrySent => {
                self.phase = WorkerPhase::Closing;
                WorkerAction::ClosePeer
            },
            WorkerEvent::ConnectFailed | WorkerEvent::NoAddrs | WorkerEvent::PeerClosed => {
                self.phase = WorkerPhase::Waiting;
                WorkerAction::RecvRequest
            },
            WorkerEvent::Failed(e) => {
                self.phase = WorkerPhase::Finished;
                WorkerAction::Finish(Err(e))
            },
        }
    }

    /// Whether the event tells how the last action went.
    pub fn awaits(&self, event: &WorkerEvent) -> (r: bool)
        ensures
            r == self@.awaits(*event),
    {
        match (event, self.phase) {
            (WorkerEvent::Request(_), WorkerPhase::Waiting) => true,
            (WorkerEvent::Connected, WorkerPhase::Connecting { .. }) => true,
            (WorkerEvent::ConnectFailed, WorkerPhase::Connecting { .. }) => true,
            (WorkerEvent::GetAddrSent, WorkerPhase::Requesting { .. }) => true,
            (WorkerEvent::Addrs(_), WorkerPhase::AwaitingAddrs { .. }) => true,
            (WorkerEvent::NoAddrs, WorkerPhase::AwaitingAddrs { .. }) => true,
            (WorkerEvent::AddrsSent { .. }, WorkerPhase::SendingAddrs { .. }) => true,
            (WorkerEvent::EntrySent, WorkerPhase::SendingEntry) => true,
            (WorkerEvent::PeerClosed, WorkerPhase::Closing) => true,
            (WorkerEvent::Failed(_), WorkerPhase::Waiting) => true,
            (WorkerEvent::Failed(_), WorkerPhase::Requesting { .. }) => true,
            (WorkerEvent::Failed(_), WorkerPhase::SendingAddrs { .. }) => true,
            (WorkerEvent::Failed(_), WorkerPhase::SendingEntry) => true,
            (WorkerEvent::Failed(_), WorkerPhase::Closing) => true,
            _ => false,
        }
    }

    /// The address of the peer that is being visited; the stop address if there is none.
    fn visited(&self) -> (r: SocketAddr)
        ensures
            match self@.phase {
                WorkerPhase::Connecting { addr } => r == addr,
                WorkerPhase::Requesting { addr } => r == addr,
                WorkerPhase::AwaitingAddrs { addr } => r == addr,
                WorkerPhase::SendingAddrs { addr } => r == addr,
                _ => r == spec_stop_addr(),
            },
    {
        match self.phase {
            WorkerPhase::Connecting { addr } => addr,
            WorkerPhase::Requesting { addr } => addr,
            WorkerPhase::AwaitingAddrs { addr } => addr,
            WorkerPhase::SendingAddrs { addr } => addr,
            _ => stop_addr(),
        }
    }
}

/// A worker ends without an error exactly when it is told to stop.
pub proof fn law_ends_when_told_to(s: WorkerState, event: WorkerEvent, action: WorkerAction)
    requires
        s.awaits(event),
        s.asks_for(event, action),
    ensures
        action == WorkerAction::Finish(Ok(())) <==> event == WorkerEvent::Request(spec_stop_addr()),
        action is Finish <==> s.resumed(event).phase is Finished,
{
}

/// A peer that announces a Tor address which was ever seen ends a worker with the error of the
/// first such address; neither addresses nor an entry are sent for that peer. A Tor address that
/// was never seen does not.
pub proof fn law_seen_tor_address_ends(
    s: WorkerState,
    list: Vec<(u32, NetAddress)>,
    action: WorkerAction,
)
    requires
        s.awaits(WorkerEvent::Addrs(list)),
        s.asks_for(WorkerEvent::Addrs(list), action),
    ensures
        announces_onion(list@) <==> action is Finish,
        announces_onion(list@) ==> s.resumed(WorkerEvent::Addrs(list)).phase is Finished,
        action matches WorkerAction::Finish(r) ==> (r matches Err(e) && first_onion_error(list@, e)),
        !announces_onion(list@) <==> action is SendAddrs,
{
}

/// A peer that cannot be connected to or announces no addresses does not end a worker: it waits
/// for the next address.
pub proof fn law_survives_bad_peers(s: WorkerState, event: WorkerEvent, action: WorkerAction)
    requires
        s.awaits(event),
        s.asks_for(event, action),
        event is ConnectFailed || event is NoAddrs,
    ensures
        action == WorkerAction::RecvRequest,
        s.resumed(event) == (WorkerState { phase: WorkerPhase::Waiting, ..s }),
{
}

/// A worker passes on an address exactly when it was announced and ever seen, and no more
/// addresses than were announced.
pub proof fn law_announced_if_seen(list: Seq<(u32, NetAddress)>)
    ensures
        announced(list).len() <= list.len(),
        forall|a: SocketAddr| #[trigger]
            announced(list).contains(a) <==> exists|i: int|
                0 <= i < list.len() && (#[trigger] list[i]).0 > 0 && list[i].1.spec_socket_addr()
                    == a,
    decreases list.len(),
{
    if list.len() > 0 {
        let rest = list.drop_last();
        let last = list.last();
        law_announced_if_seen(rest);
        assert forall|a: SocketAddr| #[trigger]
            announced(list).contains(a) <==> exists|i: int|
                0 <= i < list.len() && (#[trigger] list[i]).0 > 0 && list[i].1.spec_socket_addr()
                    == a by {
            if announced(list).contains(a) {
                let j = choose|j: int| 0 <= j < announced(list).len() && announced(list)[j] == a;
                if j < announced(rest).len() {
                    assert(announced(rest)[j] == a);
                    assert(announced(rest).contains(a));
                    let i = choose|i: int|
                        0 <= i < rest.len() && (#[trigger] rest[i]).0 > 0
                            && rest[i].1.spec_socket_addr() == a;
                    assert(list[i].0 > 0 && list[i].1.spec_socket_addr() == a);
                } else {
                    assert(list[list.len() - 1].0 > 0);
                }
            }
            if exists|i: int|
                0 <= i < list.len() && (#[trigger] list[i]).0 > 0 && list[i].1.spec_socket_addr()
                    == a {
                let i = choose|i: int|
                    0 <= i < list.len() && (#[trigger] list[i]).0 > 0
                        && list[i].1.spec_socket_addr() == a;
                if i < rest.len() {
                    assert(rest[i].0 > 0 && rest[i].1.spec_socket_addr() == a);
                    assert(announced(rest).contains(a));
                    let j = choose|j: int|
                        0 <= j < announced(rest).len() && announced(rest)[j] == a;
                    assert(announced(list)[j] == a);
                } else {
                    assert(announced(list).last() == a);
                }
            }
        }
    }
}

/// Where a worker stands after some events.
pub open spec fn run(start: WorkerState, events: Seq<WorkerEvent>) -> WorkerState
    decreases events.len(),
{
    if events.len() == 0 {
        start
    } else {
        run(start, events.drop_last()).resumed(events.last())
    }
}

/// Whether each of the events is one that is awaited when it comes.
pub open spec fn in_order(start: WorkerState, events: Seq<WorkerEvent>) -> bool
    decreases events.len(),
{
    events.len() > 0 ==> in_order(start, events.drop_last()) && run(
        start,
        events.drop_last(),
    ).awaits(events.last())
}

/// The address that was last received among some events.
pub open spec fn last_request(events: Seq<WorkerEvent>) -> Option<SocketAddr>
    decreases events.len(),
{
    if events.len() == 0 {
        None
    } else {
        match events.last() {
            WorkerEvent::Request(addr) => Some(addr),
            _ => last_request(events.drop_last()),
        }
    }
}

/// The peer that a worker visits, asks and reports on is always the one at the address that it
/// last received.
pub proof fn law_visits_what_was_requested(
    network: Network,
    events: Seq<WorkerEvent>,
    action: WorkerAction,
)
    requires
        events.len() > 0,
        in_order(WorkerState { phase: WorkerPhase::Waiting, network }, events),
        run(WorkerState { phase: WorkerPhase::Waiting, network }, events.drop_last()).asks_for(
            events.last(),
            action,
        ),
    ensures
        action matches WorkerAction::Connect { addr, network: n, .. } ==> Some(addr)
            == last_request(events) && n == network,
        action matches WorkerAction::SendEntry(entry) ==> Some(entry.addr) == last_request(events),
{
    lemma_phase_of_request(network, events.drop_last());
}

proof fn lemma_phase_of_request(network: Network, events: Seq<WorkerEvent>)
    requires
        in_order(WorkerState { phase: WorkerPhase::Waiting, network }, events),
    ensures
        ({
            let s = run(WorkerState { phase: WorkerPhase::Waiting, network }, events);
            &&& s.network == network
            &&& match s.phase {
                WorkerPhase::Connecting { addr } => Some(addr) == last_request(events),
                WorkerPhase::Requesting { addr } => Some(addr) == last_request(events),
                WorkerPhase::AwaitingAddrs { addr } => Some(addr) == last_request(events),
                WorkerPhase::SendingAddrs { addr } => Some(addr) == last_request(events),
                _ => true,
            }
        }),
    decreases events.len(),
{
    if events.len() > 0 {
        lemma_phase_of_request(network, events.drop_last());
    }
}

} // verus!
