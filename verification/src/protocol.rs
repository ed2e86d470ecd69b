//! What fetchers, workers and managers do on each event and over runs of events, stated on plain
//! values.
use crate::errors::AddrsMngrError;
use crate::fetcher::{
    connected, in_order, run, FetchAction, FetchEvent, FetchPhase, FetchStep, FetcherState,
};
use crate::laws::{
    ascending, filter_bit, law_cbf_is_one_bit, law_kinds_in_entries, law_offered_in_order,
};
use crate::manager::ManagerState;
use crate::net::{is_onion, tor_error, NetAddress, Network, SocketAddr};
use crate::store::{
    cbf_addrs, law_put_all_last_wins, lemma_cbf_in_bound, non_cbf_addrs, put_all, AddrsEntry,
};
use crate::task::{law_offered_keeps_and_adds, TaskState};
use crate::worker::{
    announced, announces_onion, first_onion_error, WorkerAction, WorkerEvent, WorkerPhase,
    WorkerState,
};
use vstd::prelude::*;

verus! {

/// How many entries have the bit for compact filters.
pub open spec fn with_bit(entries: Seq<AddrsEntry>) -> nat {
    entries.filter(|e: AddrsEntry| filter_bit(e)).len()
}

/// How many entries lack the bit for compact filters.
pub open spec fn without_bit(entries: Seq<AddrsEntry>) -> nat {
    entries.filter(|e: AddrsEntry| !filter_bit(e)).len()
}

/// Whether two states of a fetcher are of the same workers and of the same fetch: for the same
/// numbers of entries, and with the same addresses excluded.
pub open spec fn same_fetch(s: FetcherState, t: FetcherState) -> bool {
    &&& t.workers == s.workers
    &&& t.cbf_target == s.cbf_target
    &&& t.non_cbf_target == s.non_cbf_target
    &&& t.excluded == s.excluded
}

/// A fetcher has five workers, and before its first fetch all its seeds are pending and nothing
/// is visited, excluded or accepted.
pub proof fn law_new_fetcher(network: Network, pending: Seq<SocketAddr>)
    ensures
        ({
            let s = FetcherState::initial(network, pending);
            &&& s.task.pending == pending
            &&& s.task.visited.len() == 0
            &&& forall|a: SocketAddr| !#[trigger] s.task.visited.contains(a)
            &&& s.task.network == network
            &&& s.workers == 5
            &&& s.phase is Idle
            &&& s.cbf_target == 0
            &&& s.non_cbf_target == 0
            &&& forall|a: SocketAddr| !#[trigger] s.excluded.contains(a)
            &&& s.result.len() == 0
        }),
{
}

/// Each event belongs to one phase of a fetch, and an idle fetcher awaits none.
pub proof fn law_fetch_events_of_phases(s: FetcherState, event: FetchEvent)
    ensures
        s.awaits(event) <==> match s.phase {
            FetchPhase::Idle => false,
            FetchPhase::Reporting => event is Reported,
            FetchPhase::Connecting { .. } => event is Sent,
            FetchPhase::AwaitingAddrs { .. } => event is Addrs,
            FetchPhase::AwaitingEntry { .. } => event is Entry,
        },
{
}

/// What a fetcher asks for is what the step says, with the same contents.
pub proof fn law_action_contents(action: FetchAction)
    ensures
        match action {
            FetchAction::Report(data) => action@ == FetchStep::Report(data),
            FetchAction::Connect { worker, addr } => action@ == (FetchStep::Connect {
                worker,
                addr,
            }),
            FetchAction::RecvAddrs => action@ is RecvAddrs,
            FetchAction::RecvEntry => action@ is RecvEntry,
            FetchAction::Done(entries) => action@ matches FetchStep::Done(list) && list
                == entries@,
        },
{
}

/// A fetch begins with nothing accepted and leaves the addresses as they are. If it is for
/// nothing, it ends at once with nothing; otherwise it reports how many addresses are pending and
/// visited and that nothing was accepted yet.
pub proof fn law_fetch_begins(
    s: FetcherState,
    cbf_target: nat,
    non_cbf_target: nat,
    excluded: Set<SocketAddr>,
)
    requires
        s.task.pending.len() <= usize::MAX,
        s.task.visited.len() <= usize::MAX,
    ensures
        ({
            let (t, step) = s.started(cbf_target, non_cbf_target, excluded);
            &&& t.task == s.task
            &&& t.workers == s.workers
            &&& t.cbf_target == cbf_target
            &&& t.non_cbf_target == non_cbf_target
            &&& t.excluded == excluded
            &&& t.result.len() == 0
            &&& if cbf_target == 0 && non_cbf_target == 0 {
                &&& t.phase is Idle
                &&& step matches FetchStep::Done(entries) && entries.len() == 0
            } else {
                &&& t.phase is Reporting
                &&& step matches FetchStep::Report(data) && data.queued == s.task.pending.len()
                    && data.visited == s.task.visited.len() && data.cbf_count == 0
                    && data.non_cbf_count == 0
            }
        }),
{
}

/// Once the report is made, the first pending address goes to the first worker, and once an
/// address is sent to a worker, the next one goes to the next worker. That address, and no other,
/// leaves the pending ones and becomes visited. If no address is pending or no worker is left,
/// the first response is awaited and the addresses stay as they are.
pub proof fn law_next_address_goes_out(s: FetcherState, event: FetchEvent, worker: usize)
    requires
        event is Reported ==> s.phase is Reporting && worker == 0,
        event is Sent ==> worker > 0 && s.phase == (FetchPhase::Connecting {
            worker: (worker - 1) as usize,
        }),
        event is Reported || event is Sent,
    ensures
        ({
            let (t, step) = s.resumed(event);
            &&& same_fetch(s, t)
            &&& t.result == s.result
            &&& t.task.network == s.task.network
            &&& if worker < s.workers && s.task.pending.len() > 0 {
                &&& step == (FetchStep::Connect { worker, addr: s.task.pending[0] })
                &&& t.phase == (FetchPhase::Connecting { worker })
                &&& s.task.pending == seq![s.task.pending[0]] + t.task.pending
                &&& forall|a: SocketAddr| #[trigger]
                    t.task.visited.contains(a) <==> s.task.visited.contains(a) || a
                        == s.task.pending[0]
            } else {
                &&& step is RecvAddrs
                &&& t.phase == (FetchPhase::AwaitingAddrs { response: 0 })
                &&& t.task == s.task
            }
        }),
{
}

/// After addresses were received, a task knows an address, as pending or visited, exactly when it
/// knew it before or received it. The new ones, those that were neither pending nor visited,
/// follow the pending ones in the order of their first occurrence; the result gives their
/// positions. Nothing is visited or accepted by it, and the entry is awaited next.
pub proof fn law_received_addresses_are_known(
    s: FetcherState,
    addrs: Vec<SocketAddr>,
    response: usize,
) -> (ks: Seq<int>)
    requires
        s.phase == (FetchPhase::AwaitingAddrs { response }),
    ensures
        ({
            let (t, step) = s.resumed(FetchEvent::Addrs(addrs));
            &&& forall|a: SocketAddr|
                (#[trigger] t.task.pending.contains(a)) || t.task.visited.contains(a)
                    <==> s.task.pending.contains(a) || s.task.visited.contains(a)
                    || addrs@.contains(a)
            &&& ascending(ks)
            &&& forall|k: int| #[trigger]
                ks.contains(k) <==> 0 <= k < addrs@.len() && !s.task.pending.contains(addrs@[k])
                    && !s.task.visited.contains(addrs@[k]) && forall|j: int|
                    0 <= j < k ==> #[trigger] addrs@[j] != addrs@[k]
            &&& t.task.pending == s.task.pending + Seq::new(ks.len(), |p: int| addrs@[ks[p]])
            &&& t.task.visited == s.task.visited
            &&& t.task.network == s.task.network
            &&& same_fetch(s, t)
            &&& t.result == s.result
            &&& t.phase == (FetchPhase::AwaitingEntry { response })
            &&& step is RecvEntry
        }),
{
    law_offered_in_order(s.task, addrs@)
}

/// An entry is accepted exactly when its address is not excluded and fewer entries that agree
/// with it in the bit for compact filters were accepted than asked for. The fifth entry closes
/// the round: if as many entries of both kinds as asked for were accepted, the fetch ends with
/// them, otherwise the next round begins with a report of the counts. The addresses stay as they
/// are.
pub proof fn law_entry_is_judged(s: FetcherState, entry: AddrsEntry, response: usize)
    requires
        s.phase == (FetchPhase::AwaitingEntry { response }),
        response < 5,
        s.task.pending.len() <= usize::MAX,
        s.task.visited.len() <= usize::MAX,
        s.result.len() < usize::MAX,
    ensures
        ({
            let (t, step) = s.resumed(FetchEvent::Entry(entry));
            let accepted = !s.excluded.contains(entry.addr) && if filter_bit(entry) {
                with_bit(s.result) < s.cbf_target
            } else {
                without_bit(s.result) < s.non_cbf_target
            };
            let entries = if accepted {
                s.result.push(entry)
            } else {
                s.result
            };
            &&& same_fetch(s, t)
            &&& t.task == s.task
            &&& if response < 4 {
                &&& step is RecvAddrs
                &&& t.phase == (FetchPhase::AwaitingAddrs { response: (response + 1) as usize })
                &&& t.result == entries
            } else if with_bit(entries) >= s.cbf_target && without_bit(entries)
                >= s.non_cbf_target {
                &&& step == FetchStep::Done(entries)
                &&& t.phase is Idle
                &&& t.result.len() == 0
            } else {
                &&& step matches FetchStep::Report(data) && data.queued == s.task.pending.len()
                    && data.visited == s.task.visited.len() && data.cbf_count == with_bit(entries)
                    && data.non_cbf_count == without_bit(entries)
                &&& t.phase is Reporting
                &&& t.result == entries
            }
        }),
{
    law_kinds_in_entries(s.result);
    law_kinds_in_entries(s.result.push(entry));
    lemma_cbf_in_bound(s.result);
    lemma_cbf_in_bound(s.result.push(entry));
    law_cbf_is_one_bit(entry);
}

/// A fetch that fails ends with nothing accepted, and the addresses stay as they are.
pub proof fn law_failed_fetch(s: FetcherState)
    ensures
        s.failed().phase is Idle,
        s.failed().result.len() == 0,
        s.failed().task == s.task,
        same_fetch(s, s.failed()),
{
}

/// The addresses that some events brought, in the order of their arrival.
pub open spec fn received(events: Seq<FetchEvent>) -> Seq<SocketAddr>
    decreases events.len(),
{
    if events.len() == 0 {
        seq![]
    } else {
        match events.last() {
            FetchEvent::Addrs(addrs) => received(events.drop_last()) + addrs@,
            _ => received(events.drop_last()),
        }
    }
}

/// Over a run of events, a task knows, as pending or visited, exactly the addresses that it knew
/// at the start together with all that were received. The addresses that workers were told to
/// connect to, followed by those still pending, are those that were pending at the start,
/// followed by the new ones, neither pending nor visited at the start, in the order of their
/// arrival; the result gives their positions. Those that were visited at the start, and those
/// that workers were told to connect to since, are visited.
pub proof fn law_run_loses_no_address(
    start: (FetcherState, FetchStep),
    events: Seq<FetchEvent>,
) -> (ks: Seq<int>)
    requires
        in_order(start, events),
    ensures
        ({
            let s = start.0.task;
            let t = run(start, events).0.task;
            let list = received(events);
            &&& forall|a: SocketAddr|
                (#[trigger] t.pending.contains(a)) || t.visited.contains(a) <==> s.pending.contains(
                    a,
                ) || s.visited.contains(a) || list.contains(a)
            &&& ascending(ks)
            &&& forall|k: int| #[trigger]
                ks.contains(k) <==> 0 <= k < list.len() && !s.pending.contains(list[k])
                    && !s.visited.contains(list[k]) && forall|j: int|
                    0 <= j < k ==> #[trigger] list[j] != list[k]
            &&& connected(start, events) + t.pending == s.pending + Seq::new(
                ks.len(),
                |p: int| list[ks[p]],
            )
            &&& forall|a: SocketAddr| #[trigger]
                t.visited.contains(a) <==> s.visited.contains(a) || connected(
                    start,
                    events,
                ).contains(a)
            &&& t.network == s.network
        }),
{
    let s = start.0.task;
    let t = run(start, events).0.task;
    let list = received(events);
    let handed = connected(start, events);
    lemma_run_as_one_offer(start, events);
    law_offered_keeps_and_adds(s, list);
    let whole = s.offered(list);
    assert forall|a: SocketAddr|
        (#[trigger] t.pending.contains(a)) || t.visited.contains(a) <==> s.pending.contains(a)
            || s.visited.contains(a) || list.contains(a) by {
        lemma_in_either(handed, t.pending, a);
        assert(whole.knows(a) <==> s.knows(a) || list.contains(a));
    }
    law_offered_in_order(s, list)
}

/// A concatenation contains what either part contains.
proof fn lemma_in_either(x: Seq<SocketAddr>, y: Seq<SocketAddr>, a: SocketAddr)
    ensures
        (x + y).contains(a) <==> x.contains(a) || y.contains(a),
{
    if x.contains(a) {
        let i = choose|i: int| 0 <= i < x.len() && x[i] == a;
        assert((x + y)[i] == a);
    }
    if y.contains(a) {
        let i = choose|i: int| 0 <= i < y.len() && y[i] == a;
        assert((x + y)[x.len() + i] == a);
    }
    if (x + y).contains(a) {
        let i = choose|i: int| 0 <= i < (x + y).len() && (x + y)[i] == a;
        if i < x.len() {
            assert(x[i] == a);
        } else {
            assert(y[i - x.len()] == a);
        }
    }
}

/// As far as the order of addresses goes, a run is one offer of all that was received.
proof fn lemma_run_as_one_offer(start: (FetcherState, FetchStep), events: Seq<FetchEvent>)
    requires
        in_order(start, events),
    ensures
        ({
            let s = start.0.task;
            let t = run(start, events).0.task;
            let handed = connected(start, events);
            &&& handed + t.pending == s.offered(received(events)).pending
            &&& forall|a: SocketAddr| #[trigger]
                t.visited.contains(a) <==> s.visited.contains(a) || handed.contains(a)
            &&& t.network == s.network
        }),
    decreases events.len(),
{
    let s = start.0.task;
    let handed = connected(start, events);
    if events.len() == 0 {
        assert(handed + s.pending =~= s.pending);
    } else {
        let rest = events.drop_last();
        lemma_run_as_one_offer(start, rest);
        let t = run(start, rest).0;
        let u = run(start, events).0;
        let before = connected(start, rest);
        let whole = s.offered(received(rest));
        match events.last() {
            FetchEvent::Addrs(list) => {
                law_offered_keeps_and_adds(s, received(rest));
                law_offered_keeps_and_adds(t.task, list@);
                assert forall|a: SocketAddr| #[trigger] whole.knows(a) <==> t.task.knows(a) by {
                    lemma_in_either(before, t.task.pending, a);
                }
                lemma_same_news(whole, t.task, before, list@);
                lemma_offered_at_once(s, received(rest), list@);
            },
            FetchEvent::Entry(_) => {},
            _ => {
                if let FetchStep::Connect { worker: _, addr } = run(start, events).1 {
                    assert(addr == t.task.pending[0]);
                    assert(before.push(addr) + u.task.pending =~= before + t.task.pending);
                    assert forall|a: SocketAddr| #[trigger]
                        u.task.visited.contains(a) <==> s.visited.contains(a) || handed.contains(
                            a,
                        ) by {
                        lemma_in_either(before, seq![addr], a);
                        assert(seq![addr][0] == addr);
                        assert(handed =~= before + seq![addr]);
                        assert(t.task.visited.contains(a) <==> s.visited.contains(a)
                            || before.contains(a));
                    }
                }
            },
        }
    }
}

/// Two tasks that know the same addresses take the same new ones.
proof fn lemma_same_news(x: TaskState, t: TaskState, front: Seq<SocketAddr>, list: Seq<SocketAddr>)
    requires
        x.pending == front + t.pending,
        forall|a: SocketAddr| #[trigger] x.knows(a) <==> t.knows(a),
    ensures
        x.offered(list).pending == front + t.offered(list).pending,
    decreases list.len(),
{
    if list.len() > 0 {
        let rest = list.drop_last();
        lemma_same_news(x, t, front, rest);
        law_offered_keeps_and_adds(x, rest);
        law_offered_keeps_and_adds(t, rest);
        let a = list.last();
        assert(x.offered(rest).knows(a) <==> t.offered(rest).knows(a)) by {
            assert(x.knows(a) <==> t.knows(a));
        }
        assert(x.offered(list).pending =~= front + t.offered(list).pending);
    }
}

/// Two offers one after the other are one offer of both lists.
proof fn lemma_offered_at_once(s: TaskState, x: Seq<SocketAddr>, y: Seq<SocketAddr>)
    ensures
        s.offered(x).offered(y) == s.offered(x + y),
    decreases y.len(),
{
    if y.len() == 0 {
        assert(x + y =~= x);
    } else {
        lemma_offered_at_once(s, x, y.drop_last());
        assert((x + y).drop_last() =~= x + y.drop_last());
    }
}

/// Each event belongs to one phase of a worker. A failure can come wherever a channel or an open
/// connection is used, and a worker that has ended awaits nothing.
pub proof fn law_worker_events_of_phases(s: WorkerState, event: WorkerEvent)
    ensures
        s.awaits(event) <==> match s.phase {
            WorkerPhase::Waiting => event is Request || event is Failed,
            WorkerPhase::Connecting { .. } => event is Connected || event is ConnectFailed,
            WorkerPhase::Requesting { .. } => event is GetAddrSent || event is Failed,
            WorkerPhase::AwaitingAddrs { .. } => event is Addrs || event is NoAddrs,
            WorkerPhase::SendingAddrs { .. } => event is AddrsSent || event is Failed,
            WorkerPhase::SendingEntry => event is EntrySent || event is Failed,
            WorkerPhase::Closing => event is PeerClosed || event is Failed,
            WorkerPhase::Finished => false,
        },
{
}

/// The entry that a worker reports is that of the address that it visits, with the services and
/// the clock readings of the event before, all bits of them as they were read. It counts as
/// tried, with one attempt, and has rank 0. A worker reports an entry after that event and after
/// no other.
pub proof fn law_reported_entry(s: WorkerState, event: WorkerEvent, action: WorkerAction)
    requires
        s.awaits(event),
        s.asks_for(event, action),
    ensures
        action is SendEntry <==> event is AddrsSent,
        action matches WorkerAction::SendEntry(entry) ==> {
            &&& event matches WorkerEvent::AddrsSent { last_attempts, last_successful, services }
            &&& entry.service == services
            &&& entry.last_attempts == last_attempts
            &&& entry.last_successful == last_successful
            &&& s.phase == (WorkerPhase::SendingAddrs { addr: entry.addr })
            &&& entry.attempts == 1
            &&& entry.tried
            &&& entry.rank == 0
        },
        event is AddrsSent ==> s.resumed(event).phase is SendingEntry,
        s.resumed(event).network == s.network,
{
}

/// A worker ends without an error when it receives the address 0.0.0.0 with port 0. It connects
/// to any other address that it receives, on its own network and within one second.
pub proof fn law_request_is_visited(s: WorkerState, requested: SocketAddr, action: WorkerAction)
    requires
        s.phase is Waiting,
        s.asks_for(WorkerEvent::Request(requested), action),
    ensures
        ({
            let t = s.resumed(WorkerEvent::Request(requested));
            let stop = requested matches SocketAddr::V4 { ipv4, port } && ipv4 == 0 && port == 0;
            if stop {
                &&& action matches WorkerAction::Finish(r) && r is Ok
                &&& t.phase is Finished
            } else {
                &&& action matches WorkerAction::Connect { addr, network, timeout_secs } && addr
                    == requested && network == s.network && timeout_secs == 1
                &&& t.phase == (WorkerPhase::Connecting { addr: requested })
            }
        }),
{
}

/// A peer that is connected is asked for addresses, and then has one second to answer. The
/// address that is visited stays the same throughout.
pub proof fn law_peer_is_asked(s: WorkerState, event: WorkerEvent, action: WorkerAction)
    requires
        s.awaits(event),
        s.asks_for(event, action),
    ensures
        event is Connected ==> {
            &&& action is SendGetAddr
            &&& s.phase matches WorkerPhase::Connecting { addr } && s.resumed(event).phase == (
            WorkerPhase::Requesting { addr })
        },
        event is GetAddrSent ==> {
            &&& action matches WorkerAction::RecvAddrs { timeout_secs } && timeout_secs == 1
            &&& s.phase matches WorkerPhase::Requesting { addr } && s.resumed(event).phase == (
            WorkerPhase::AwaitingAddrs { addr })
        },
{
}

/// Once its entry is reported, the connection to a peer is closed. After that, and after a peer
/// that could not be connected to or announced nothing, the worker receives the next address.
/// Any failure ends the worker with the error of that failure.
pub proof fn law_peer_is_left(s: WorkerState, event: WorkerEvent, action: WorkerAction)
    requires
        s.awaits(event),
        s.asks_for(event, action),
    ensures
        event is EntrySent ==> action is ClosePeer && s.resumed(event).phase is Closing,
        event is PeerClosed || event is ConnectFailed || event is NoAddrs ==> action is RecvRequest
            && s.resumed(event).phase is Waiting,
        event matches WorkerEvent::Failed(e) ==> {
            &&& action matches WorkerAction::Finish(r) && r matches Err(x) && x == e
            &&& s.resumed(event).phase is Finished
        },
{
}

/// Whether an announced address was ever seen.
pub open spec fn seen(item: (u32, NetAddress)) -> bool {
    item.0 > 0
}

/// Whether an announced address was ever seen and is a Tor address.
pub open spec fn seen_tor(item: (u32, NetAddress)) -> bool {
    &&& seen(item)
    &&& item.1.address@[0] == 0xFD87
    &&& item.1.address@[1] == 0xD87E
    &&& item.1.address@[2] == 0xEB43
}

/// The addresses that a worker passes on are the announced ones that were ever seen, each
/// converted, in the order in which they were announced.
pub proof fn law_announced_in_order(list: Seq<(u32, NetAddress)>)
    ensures
        announced(list) == list.filter(|p: (u32, NetAddress)| seen(p)).map_values(
            |p: (u32, NetAddress)| p.1.spec_socket_addr(),
        ),
    decreases list.len(),
{
    reveal(Seq::filter);
    let shown = |p: (u32, NetAddress)| seen(p);
    let addr = |p: (u32, NetAddress)| p.1.spec_socket_addr();
    if list.len() > 0 {
        let rest = list.drop_last();
        law_announced_in_order(rest);
        assert(rest.filter(shown).push(list.last()).map_values(addr) =~= rest.filter(
            shown,
        ).map_values(addr).push(addr(list.last())));
    }
    assert(announced(list) =~= list.filter(shown).map_values(addr));
}

/// If a Tor address that was ever seen is announced, the worker ends with the error of the first
/// such address. Otherwise it passes on the announced addresses that were ever seen, each
/// converted, in order, and goes on with the peer.
pub proof fn law_announcement_is_passed_on(
    s: WorkerState,
    visited: SocketAddr,
    list: Vec<(u32, NetAddress)>,
    action: WorkerAction,
)
    requires
        s.phase == (WorkerPhase::AwaitingAddrs { addr: visited }),
        s.asks_for(WorkerEvent::Addrs(list), action),
    ensures
        ({
            let t = s.resumed(WorkerEvent::Addrs(list));
            if exists|i: int| 0 <= i < list@.len() && seen_tor(#[trigger] list@[i]) {
                &&& t.phase is Finished
                &&& action matches WorkerAction::Finish(r) && r matches Err(e) && exists|i: int|
                    0 <= i < list@.len() && seen_tor(#[trigger] list@[i]) && (forall|j: int|
                        0 <= j < i ==> !seen_tor(#[trigger] list@[j])) && e == AddrsMngrError::IO(
                        tor_error(list@[i].1.address@, list@[i].1.port),
                    )
            } else {
                &&& t.phase == (WorkerPhase::SendingAddrs { addr: visited })
                &&& action matches WorkerAction::SendAddrs(addrs) && addrs@ == list@.filter(
                    |p: (u32, NetAddress)| seen(p),
                ).map_values(|p: (u32, NetAddress)| p.1.spec_socket_addr())
            }
        }),
{
    lemma_seen_tor(list@);
    law_announced_in_order(list@);
    if announces_onion(list@) {
        if let WorkerAction::Finish(Err(e)) = action {
            assert(first_onion_error(list@, e));
            let i = choose|i: int|
                0 <= i < list@.len() && (#[trigger] list@[i]).0 > 0 && is_onion(
                    list@[i].1.address@,
                ) && !announces_onion(list@.take(i)) && e == AddrsMngrError::IO(
                    tor_error(list@[i].1.address@, list@[i].1.port),
                );
            assert(seen_tor(list@[i]));
            lemma_seen_tor(list@.take(i));
            assert forall|j: int| 0 <= j < i implies !seen_tor(#[trigger] list@[j]) by {
                assert(list@.take(i)[j] == list@[j]);
            }
        }
    }
}

proof fn lemma_seen_tor(list: Seq<(u32, NetAddress)>)
    ensures
        announces_onion(list) <==> exists|i: int|
            0 <= i < list.len() && seen_tor(#[trigger] list[i]),
{
    if announces_onion(list) {
        let i = choose|i: int|
            0 <= i < list.len() && (#[trigger] list[i]).0 > 0 && is_onion(
                list[i].1.address@,
            );
        assert(seen_tor(list[i]));
    }
}

/// Filling up asks for the peers that the store lacks to have ten with the bit for compact
/// filters and fifty without it, for none where it has as many or more, and for no address that
/// it holds. The store and the addresses stay as they are.
pub proof fn law_fill_up_asks_for_what_lacks(s: ManagerState)
    ensures
        ({
            let (t, step) = s.filling_up();
            let cbf = s.store.dom().filter(|a: SocketAddr| filter_bit(s.store[a])).len();
            let non_cbf = s.store.dom().filter(|a: SocketAddr| !filter_bit(s.store[a])).len();
            &&& t.store == s.store
            &&& t.fetcher.task == s.fetcher.task
            &&& t.fetcher.workers == s.fetcher.workers
            &&& t.fetcher.result.len() == 0
            &&& cbf < 10 ==> t.fetcher.cbf_target + cbf == 10
            &&& cbf >= 10 ==> t.fetcher.cbf_target == 0
            &&& non_cbf < 50 ==> t.fetcher.non_cbf_target + non_cbf == 50
            &&& non_cbf >= 50 ==> t.fetcher.non_cbf_target == 0
            &&& forall|a: SocketAddr| #[trigger]
                t.fetcher.excluded.contains(a) <==> s.store.contains_key(a)
            &&& if cbf >= 10 && non_cbf >= 50 {
                &&& step matches FetchStep::Done(entries) && entries.len() == 0
                &&& t.fetcher.phase is Idle
            } else {
                &&& step is Report
                &&& t.fetcher.phase is Reporting
            }
        }),
{
    assert forall|a: SocketAddr| true implies s.store[a].spec_is_cbf() == filter_bit(
        #[trigger] s.store[a],
    ) by {
        law_cbf_is_one_bit(s.store[a]);
    }
    assert(cbf_addrs(s.store) =~= s.store.dom().filter(
        |a: SocketAddr| filter_bit(s.store[a]),
    ));
    assert(non_cbf_addrs(s.store) =~= s.store.dom().filter(
        |a: SocketAddr| !filter_bit(s.store[a]),
    ));
}

/// A manager stores what a complete fetch brings, and nothing before that: then an address has
/// the last entry that was brought for it, if there is one, and what it had before otherwise. Its
/// fetcher goes on as a fetcher of its own would.
pub proof fn law_complete_fetch_is_stored(s: ManagerState, event: FetchEvent, a: SocketAddr)
    ensures
        ({
            let (t, step) = s.resumed(event);
            &&& (t.fetcher, step) == s.fetcher.resumed(event)
            &&& match step {
                FetchStep::Done(entries) => {
                    if exists|i: int| 0 <= i < entries.len() && (#[trigger] entries[i]).addr == a {
                        &&& t.store.contains_key(a)
                        &&& exists|i: int|
                            0 <= i < entries.len() && (#[trigger] entries[i]).addr == a
                                && t.store[a] == entries[i] && forall|j: int|
                                i < j < entries.len() ==> (#[trigger] entries[j]).addr != a
                    } else {
                        &&& t.store.contains_key(a) <==> s.store.contains_key(a)
                        &&& s.store.contains_key(a) ==> t.store[a] == s.store[a]
                    }
                },
                _ => t.store == s.store,
            }
        }),
{
    let (t, step) = s.resumed(event);
    if let FetchStep::Done(entries) = step {
        law_put_all_last_wins(s.store, entries);
        assert(put_all(s.store, entries).contains_key(a) <==> s.store.contains_key(a)
            || exists|i: int| 0 <= i < entries.len() && (#[trigger] entries[i]).addr == a);
        if exists|i: int| 0 <= i < entries.len() && (#[trigger] entries[i]).addr == a {
            let i = lemma_last_of(entries, a);
            assert(put_all(s.store, entries)[entries[i].addr] == entries[i]);
        }
    }
}

/// The position of the last entry for an address.
proof fn lemma_last_of(entries: Seq<AddrsEntry>, a: SocketAddr) -> (i: int)
    requires
        exists|i: int| 0 <= i < entries.len() && (#[trigger] entries[i]).addr == a,
    ensures
        0 <= i < entries.len(),
        entries[i].addr == a,
        forall|j: int| i < j < entries.len() ==> (#[trigger] entries[j]).addr != a,
    decreases entries.len(),
{
    let n = entries.len() - 1;
    if entries[n].addr == a {
        n
    } else {
        let rest = entries.drop_last();
        let k = choose|i: int| 0 <= i < entries.len() && (#[trigger] entries[i]).addr == a;
        assert(rest[k].addr == a);
        let i = lemma_last_of(rest, a);
        assert forall|j: int| i < j < entries.len() implies (#[trigger] entries[j]).addr != a by {
            if j < n {
                assert(rest[j].addr != a);
            }
        }
        i
    }
}

/// Filling up that fails leaves the store and the addresses as they are.
pub proof fn law_failed_filling_up(s: ManagerState)
    ensures
        s.failed().store == s.store,
        s.failed().fetcher.task == s.fetcher.task,
        s.failed().fetcher.phase is Idle,
        s.failed().fetcher.result.len() == 0,
        same_fetch(s.fetcher, s.failed().fetcher),
{
}

} // verus!
