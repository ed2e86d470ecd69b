//! The fetcher, which hands addresses to workers and collects the entries of good peers.
use crate::config::NUM_WORKER_THREADS;
use crate::discovery::DiscoveryData;
use crate::errors::AddrsMngrError;
use crate::net::{spec_stop_addr, stop_addr, Network, SocketAddr};
use crate::store::{cbf_in, distinct_addrs, lemma_cbf_in_bound, non_cbf_in, AddrsEntry};
use crate::task::{
    all_found, first_failure, found, law_offered_keeps_and_adds, law_offered_unrepeated,
    law_popped_unrepeated, FetchTask, Lookup, TaskState,
};
use vstd::prelude::*;

verus! {

/// Where a fetch stands.
#[derive(Clone, Copy, Debug, PartialEq, Eq, Structural)]
pub enum FetchPhase {
    /// No fetch is running.
    Idle,
    /// A round begins; its statistics are being reported.
    Reporting,
    /// A connection request is on its way to the worker.
    Connecting { worker: usize },
    /// The addresses that some worker fetched are awaited, as this response of the round.
    AwaitingAddrs { response: usize },
    /// The entry of the peer that some worker connected to is awaited, as this response of the
    /// round.
    AwaitingEntry { response: usize },
}

/// What the surroundings are to do next for a fetch.
#[derive(Debug)]
pub enum FetchAction {
    /// Report the statistics.
    Report(DiscoveryData),
    /// Send the address to the worker, for it to connect to.
    Connect { worker: usize, addr: SocketAddr },
    /// Receive addresses that a worker fetched.
    RecvAddrs,
    /// Receive the entry of a peer that a worker connected to.
    RecvEntry,
    /// Nothing: the fetch is complete, with these entries.
    Done(Vec<AddrsEntry>),
}

/// That the last action was done, with what it brought.
#[derive(Debug)]
pub enum FetchEvent {
    /// The statistics were reported.
    Reported,
    /// The address was sent to the worker.
    Sent,
    /// Addresses were received.
    Addrs(Vec<SocketAddr>),
    /// An entry was received.
    Entry(AddrsEntry),
}

/// An action of a fetch, by its contents.
pub ghost enum FetchStep {
    /// Report the statistics.
    Report(DiscoveryData),
    /// Send the address to the worker.
    Connect { worker: usize, addr: SocketAddr },
    /// Receive addresses.
    RecvAddrs,
    /// Receive an entry.
    RecvEntry,
    /// The fetch is complete.
    Done(Seq<AddrsEntry>),
}

impl View for FetchAction {
    type V = FetchStep;

    open spec fn view(&self) -> FetchStep {
        match self {
            FetchAction::Report(data) => FetchStep::Report(*data),
            FetchAction::Connect { worker, addr } => FetchStep::Connect {
                worker: *worker,
                addr: *addr,
            },
            FetchAction::RecvAddrs => FetchStep::RecvAddrs,
            FetchAction::RecvEntry => FetchStep::RecvEntry,
            FetchAction::Done(entries) => FetchStep::Done(entries@),
        }
    }
}

/// Whether an entry is wanted beside those already accepted: its address is not excluded, and
/// fewer entries of its kind than the target were accepted.
pub open spec fn wanted(
    excluded: Set<SocketAddr>,
    cbf_target: nat,
    non_cbf_target: nat,
    accepted: Seq<AddrsEntry>,
    entry: AddrsEntry,
) -> bool {
    &&& !excluded.contains(entry.addr)
    &&& if entry.spec_is_cbf() {
        cbf_in(accepted) < cbf_target
    } else {
        non_cbf_in(accepted) < non_cbf_target
    }
}

/// What a fetcher holds.
#[verifier::ext_equal]
pub ghost struct FetcherState {
    /// The addresses to visit.
    pub task: TaskState,
    /// How many workers there are.
    pub workers: nat,
    /// Where the running fetch stands.
    pub phase: FetchPhase,
    /// How many entries of peers that serve compact filters the running fetch is for.
    pub cbf_target: nat,
    /// How many entries of other peers the running fetch is for.
    pub non_cbf_target: nat,
    /// The addresses that the running fetch does not accept.
    pub excluded: Set<SocketAddr>,
    /// The entries that the running fetch accepted.
    pub result: Seq<AddrsEntry>,
}

impl FetcherState {
    /// A fetcher for a network that is to visit the given addresses, before its first fetch.
    pub open spec fn initial(network: Network, pending: Seq<SocketAddr>) -> FetcherState {
        FetcherState {
            task: TaskState { pending, visited: Set::empty(), network },
            workers: NUM_WORKER_THREADS as nat,
            phase: FetchPhase::Idle,
            cbf_target: 0,
            non_cbf_target: 0,
            excluded: Set::empty(),
            result: seq![],
        }
    }

    /// No more entries of either kind than their target are accepted, none of them is of an
    /// excluded address, and the running round stays within the workers.
    pub open spec fn valid(self) -> bool {
        &&& cbf_in(self.result) <= self.cbf_target
        &&& non_cbf_in(self.result) <= self.non_cbf_target
        &&& forall|i: int|
            0 <= i < self.result.len() ==> !self.excluded.contains((#[trigger] self.result[i]).addr)
        &&& self.workers == NUM_WORKER_THREADS
        &&& match self.phase {
            FetchPhase::Connecting { worker } => worker < self.workers,
            FetchPhase::AwaitingAddrs { response } => response < NUM_WORKER_THREADS,
            FetchPhase::AwaitingEntry { response } => response < NUM_WORKER_THREADS,
            _ => true,
        }
    }

    /// Whether a target is not reached yet.
    pub open spec fn unmet(self) -> bool {
        cbf_in(self.result) < self.cbf_target || non_cbf_in(self.result) < self.non_cbf_target
    }

    /// The statistics of the running fetch.
    pub open spec fn discovery(self) -> DiscoveryData {
        DiscoveryData {
            queued: self.task.pending.len() as usize,
            visited: self.task.visited.len() as usize,
            non_cbf_count: non_cbf_in(self.result) as usize,
            cbf_count: cbf_in(self.result) as usize,
        }
    }

    /// The beginning of a fetch.
    pub open spec fn started(
        self,
        cbf_target: nat,
        non_cbf_target: nat,
        excluded: Set<SocketAddr>,
    ) -> (FetcherState, FetchStep) {
        FetcherState { cbf_target, non_cbf_target, excluded, result: seq![], ..self }.next_round()
    }

    /// The beginning of the next round if a target is not reached, the end of the fetch
    /// otherwise.
    pub open spec fn next_round(self) -> (FetcherState, FetchStep) {
        if self.unmet() {
            (
                FetcherState { phase: FetchPhase::Reporting, ..self },
                FetchStep::Report(self.discovery()),
            )
        } else {
            (
                FetcherState { phase: FetchPhase::Idle, result: seq![], ..self },
                FetchStep::Done(self.result),
            )
        }
    }

    /// The next pending address goes to the given worker, if there are both; otherwise the
    /// responses of the round are awaited.
    pub open spec fn connect(self, worker: nat) -> (FetcherState, FetchStep) {
        if worker < self.workers && self.task.pending.len() > 0 {
            (
                FetcherState {
                    task: self.task.popped(),
                    phase: FetchPhase::Connecting { worker: worker as usize },
                    ..self
                },
                FetchStep::Connect { worker: worker as usize, addr: self.task.pending[0] },
            )
        } else {
            (
                FetcherState { phase: FetchPhase::AwaitingAddrs { response: 0 }, ..self },
                FetchStep::RecvAddrs,
            )
        }
    }

    /// The entry is accepted if it is wanted.
    pub open spec fn considered(self, entry: AddrsEntry) -> FetcherState {
        if wanted(self.excluded, self.cbf_target, self.non_cbf_target, self.result, entry) {
            FetcherState { result: self.result.push(entry), ..self }
        } else {
            self
        }
    }

    /// Whether an event is that the last action was done.
    pub open spec fn awaits(self, event: FetchEvent) -> bool {
        match event {
            FetchEvent::Reported => self.phase is Reporting,
            FetchEvent::Sent => self.phase is Connecting,
            FetchEvent::Addrs(_) => self.phase is AwaitingAddrs,
            FetchEvent::Entry(_) => self.phase is AwaitingEntry,
        }
    }

    /// What is left when an action of the running fetch failed: the fetch is given up with what
    /// it accepted. The addresses that were handed out stay visited.
    pub open spec fn failed(self) -> FetcherState {
        FetcherState { phase: FetchPhase::Idle, result: seq![], ..self }
    }

    /// What follows when the last action was done: the next state and action. In a round, the
    /// statistics are reported, then each worker gets an address as long as one is pending, then
    /// as many responses as there are workers are received: addresses, which are offered to the
    /// task, and an entry, which is accepted if it is wanted.
    pub open spec fn resumed(self, event: FetchEvent) -> (FetcherState, FetchStep)
        recommends
            self.awaits(event),
    {
        match event {
            FetchEvent::Reported => self.connect(0),
            FetchEvent::Sent => self.connect((self.phase->worker + 1) as nat),
            FetchEvent::Addrs(addrs) => (
                FetcherState {
                    task: self.task.offered(addrs@),
                    phase: FetchPhase::AwaitingEntry {
                        response: self.phase->AwaitingAddrs_response,
                    },
                    ..self
                },
                FetchStep::RecvEntry,
            ),
            FetchEvent::Entry(entry) => {
                let s = self.considered(entry);
                let next = self.phase->AwaitingEntry_response + 1;
                if next < NUM_WORKER_THREADS {
                    (
                        FetcherState {
                            phase: FetchPhase::AwaitingAddrs { response: next as usize },
                            ..s
                        },
                        FetchStep::RecvAddrs,
                    )
                } else {
                    s.next_round()
                }
            },
        }
    }
}

/// A fetcher hands out addresses to a number of workers and collects the entries of good peers,
/// for the manager to store.
pub struct AddrsFetcher {
    fetch_task: FetchTask,
    network: Network,
    workers: usize,
    phase: FetchPhase,
    cbf_target: usize,
    non_cbf_target: usize,
    filter_list: Vec<SocketAddr>,
    cbf_count: usize,
    non_cbf_count: usize,
    fetch_result: Vec<AddrsEntry>,
}

impl View for AddrsFetcher {
    type V = FetcherState;

    closed spec fn view(&self) -> FetcherState {
        FetcherState {
            task: self.fetch_task@,
            workers: self.workers as nat,
            phase: self.phase,
            cbf_target: self.cbf_target as nat,
            non_cbf_target: self.non_cbf_target as nat,
            excluded: self.filter_list@.to_set(),
            result: self.fetch_result@,
        }
    }
}

impl AddrsFetcher {
    /// The state is valid, and the counts are those of the accepted entries.
    pub closed spec fn wf(self) -> bool {
        &&& self.fetch_task.wf()
        &&& self.network == self.fetch_task@.network
        &&& self.cbf_count == cbf_in(self.fetch_result@)
        &&& self.non_cbf_count == non_cbf_in(self.fetch_result@)
        &&& self@.valid()
    }

    /// A well-formed fetcher is in a valid state.
    pub proof fn law_wf_valid(self)
        requires
            self.wf(),
        ensures
            self@.valid(),
    {
    }

    /// A fetcher for the network, with the addresses that the lookups of its seed hosts found.
    /// Fails with the error of the first lookup that failed.
    pub fn setup(network: Network, lookups: Vec<Lookup>) -> (r: Result<Self, AddrsMngrError>)
        ensures
            match r {
                Ok(fetcher) => {
                    &&& all_found(lookups@)
                    &&& fetcher.wf()
                    &&& fetcher@ == FetcherState::initial(network, found(lookups@))
                },
                Err(e) => first_failure(lookups@, e),
            },
    {
        let ghost all = lookups@;
        let fetch_task = match FetchTask::new(network, lookups, Vec::new()) {
            Ok(fetch_task) => fetch_task,
            Err(e) => {
                return Err(e);
            },
        };
        let fetcher = AddrsFetcher {
            fetch_task,
            network,
            workers: NUM_WORKER_THREADS,
            phase: FetchPhase::Idle,
            cbf_target: 0,
            non_cbf_target: 0,
            filter_list: Vec::new(),
            cbf_count: 0,
            non_cbf_count: 0,
            fetch_result: Vec::new(),
        };
        proof {
            assert(found(all) + Seq::<SocketAddr>::empty() =~= found(all));
            assert(fetcher.filter_list@.to_set() =~= Set::<SocketAddr>::empty());
        }
        Ok(fetcher)
    }

    /// Begins to fetch the given numbers of entries of peers that serve compact filters and of
    /// peers that do not, except those of the addresses in the filter list. A fetch that was
    /// left unfinished is given up; its addresses stay visited.
    pub fn fetch(
        &mut self,
        cbf_target: usize,
        non_cbf_target: usize,
        filter_list: Option<Vec<SocketAddr>>,
    ) -> (action: FetchAction)
        requires
            old(self).wf(),
        ensures
            final(self).wf(),
            (final(self)@, action@) == old(self)@.started(
                cbf_target as nat,
                non_cbf_target as nat,
                match filter_list {
                    Some(list) => list@.to_set(),
                    None => Set::empty(),
                },
            ),
    {
        self.phase = FetchPhase::Idle;
        self.cbf_target = cbf_target;
        self.non_cbf_target = non_cbf_target;
        self.filter_list = match filter_list {
            Some(list) => list,
            None => {
                assert(Seq::<SocketAddr>::empty().to_set() =~= Set::<SocketAddr>::empty());
                Vec::new()
            },
        };
        self.cbf_count = 0;
        self.non_cbf_count = 0;
        self.fetch_result = Vec::new();
        self.next_round()
    }

    /// Goes on with a fetch when the last action was done.
    pub fn resume(&mut self, event: FetchEvent) -> (action: FetchAction)
        requires
            old(self).wf(),
            old(self)@.awaits(event),
        ensures
            final(self).wf(),
            (final(self)@, action@) == old(self)@.resumed(event),
            event matches FetchEvent::Addrs(addrs) ==> forall|a: SocketAddr| #[trigger]
                final(self)@.task.knows(a) <==> old(self)@.task.knows(a) || addrs@.contains(a),
    {
        match event {
            FetchEvent::Reported => self.connect(0),
            FetchEvent::Sent => {
                let worker: usize = match self.phase {
                    FetchPhase::Connecting { worker } => worker,
                    _ => 0,
                };
                self.connect(worker + 1)
            },
            FetchEvent::Addrs(addrs) => {
                let response: usize = match self.phase {
                    FetchPhase::AwaitingAddrs { response } => response,
                    _ => 0,
                };
                self.fetch_task.add_pendings(addrs);
                proof {
                    law_offered_keeps_and_adds(old(self)@.task, addrs@);
                }
                self.phase = FetchPhase::AwaitingEntry { response };
                FetchAction::RecvEntry
            },
            FetchEvent::Entry(entry) => {
                let response: usize = match self.phase {
                    FetchPhase::AwaitingEntry { response } => response,
                    _ => 0,
                };
                self.consider(entry);
                if response + 1 < NUM_WORKER_THREADS {
                    self.phase = FetchPhase::AwaitingAddrs { response: response + 1 };
                    FetchAction::RecvAddrs
                } else {
                    self.next_round()
                }
            },
        }
    }

    /// Ends a fetch whose last action failed, with the error of that action.
    pub fn fail(&mut self, e: AddrsMngrError) -> (r: Result<Vec<AddrsEntry>, AddrsMngrError>)
        requires
            old(self).wf(),
        ensures
            final(self).wf(),
            r == Err::<Vec<AddrsEntry>, AddrsMngrError>(e),
            final(self)@ == old(self)@.failed(),
    {
        self.phase = FetchPhase::Idle;
        self.cbf_count = 0;
        self.non_cbf_count = 0;
        self.fetch_result = Vec::new();
        Err(e)
    }

    /// Whether the event is that the last action was done.
    pub fn awaits(&self, event: &FetchEvent) -> (r: bool)
        ensures
            r == self@.awaits(*event),
    {
        match (event, self.phase) {
            (FetchEvent::Reported, FetchPhase::Reporting) => true,
            (FetchEvent::Sent, FetchPhase::Connecting { .. }) => true,
            (FetchEvent::Addrs(_), FetchPhase::AwaitingAddrs { .. }) => true,
            (FetchEvent::Entry(_), FetchPhase::AwaitingEntry { .. }) => true,
            _ => false,
        }
    }

    /// What tells the workers to stop: one address per worker.
    pub fn stop_requests(&self) -> (requests: Vec<SocketAddr>)
        ensures
            requests@ == Seq::new(self@.workers, |i: int| spec_stop_addr()),
    {
        let mut requests: Vec<SocketAddr> = Vec::new();
        let mut i: usize = 0;
        while i < self.workers
            invariant
                i <= self.workers,
                requests@ == Seq::new(i as nat, |i: int| spec_stop_addr()),
            decreases self.workers - i,
        {
            requests.push(stop_addr());
            i = i + 1;
        }
        requests
    }

    /// How many workers there are.
    pub fn workers(&self) -> (n: usize)
        ensures
            n == self@.workers,
    {
        self.workers
    }

    /// The network that the workers connect to.
    pub fn network(&self) -> (network: Network)
        requires
            self.wf(),
        ensures
            network == self@.task.network,
    {
        self.network
    }

    fn next_round(&mut self) -> (action: FetchAction)
        requires
            old(self).wf(),
        ensures
            final(self).wf(),
            (final(self)@, action@) == old(self)@.next_round(),
    {
        if self.cbf_count < self.cbf_target || self.non_cbf_count < self.non_cbf_target {
            self.phase = FetchPhase::Reporting;
            FetchAction::Report(
                DiscoveryData::new(
                    self.fetch_task.pending_len(),
                    self.fetch_task.visited_len(),
                    self.cbf_count,
                    self.non_cbf_count,
                ),
            )
        } else {
            self.phase = FetchPhase::Idle;
            self.cbf_count = 0;
            self.non_cbf_count = 0;
            let mut entries: Vec<AddrsEntry> = Vec::new();
            std::mem::swap(&mut entries, &mut self.fetch_result);
            FetchAction::Done(entries)
        }
    }

    fn connect(&mut self, worker: usize) -> (action: FetchAction)
        requires
            old(self).wf(),
        ensures
            final(self).wf(),
            (final(self)@, action@) == old(self)@.connect(worker as nat),
    {
        if worker < self.workers {
            if let Some(addr) = self.fetch_task.get_pending() {
                self.phase = FetchPhase::Connecting { worker };
                return FetchAction::Connect { worker, addr };
            }
        }
        self.phase = FetchPhase::AwaitingAddrs { response: 0 };
        FetchAction::RecvAddrs
    }

    fn consider(&mut self, entry: AddrsEntry)
        requires
            old(self).wf(),
        ensures
            final(self).wf(),
            final(self)@ == old(self)@.considered(entry),
    {
        let ghost before = self.fetch_result@;
        proof {
            lemma_cbf_in_bound(before);
            assert(before.push(entry).drop_last() =~= before);
        }
        let is_cbf = entry.is_cbf();
        if is_cbf {
            if self.cbf_count < self.cbf_target && !contains(&self.filter_list, &entry.addr) {
                self.cbf_count = self.cbf_count + 1;
                self.fetch_result.push(entry);
            }
        } else {
            if self.non_cbf_count < self.non_cbf_target && !contains(
                &self.filter_list,
                &entry.addr,
            ) {
                self.non_cbf_count = self.non_cbf_count + 1;
                self.fetch_result.push(entry);
            }
        }
    }
}

/// Whether an address is in a list.
fn contains(list: &Vec<SocketAddr>, addr: &SocketAddr) -> (r: bool)
    ensures
        r == list@.to_set().contains(*addr),
{
    let mut i: usize = 0;
    while i < list.len()
        invariant
            i <= list@.len(),
            forall|j: int| 0 <= j < i ==> list@[j] != *addr,
        decreases list@.len() - i,
    {
        if list[i] == *addr {
            assert(list@.contains(*addr));
            return true;
        }
        i = i + 1;
    }
    false
}

/// A fetch keeps its state valid.
pub proof fn law_valid_kept(s: FetcherState, event: FetchEvent)
    requires
        s.valid(),
        s.awaits(event),
    ensures
        s.resumed(event).0.valid(),
{
    if let FetchEvent::Entry(entry) = event {
        lemma_cbf_in_bound(s.result);
        assert(s.result.push(entry).drop_last() =~= s.result);
    }
}

/// A fetch that failed leaves a valid state, the task as it was, and nothing to go on with.
pub proof fn law_failed_keeps_task(s: FetcherState, event: FetchEvent)
    requires
        s.valid(),
    ensures
        s.failed().valid(),
        s.failed().task == s.task,
        !s.failed().awaits(event),
{
}

/// If the first address of a round cannot be sent, it is visited all the same, and no other
/// address is handed out.
pub proof fn law_failed_send_visits(s: FetcherState)
    requires
        s.phase is Reporting,
        s.workers > 0,
        s.task.pending.len() > 0,
    ensures
        s.resumed(FetchEvent::Reported).1 == (FetchStep::Connect {
            worker: 0,
            addr: s.task.pending[0],
        }),
        s.resumed(FetchEvent::Reported).0.failed().task == s.task.popped(),
{
}

/// A complete fetch brings exactly the target numbers of entries of both kinds, and none of an
/// excluded address.
pub proof fn law_done_meets_targets(s: FetcherState, event: FetchEvent)
    requires
        s.valid(),
        s.awaits(event),
    ensures
        s.resumed(event).1 matches FetchStep::Done(entries) ==> {
            &&& cbf_in(entries) == s.cbf_target
            &&& non_cbf_in(entries) == s.non_cbf_target
            &&& forall|i: int|
                0 <= i < entries.len() ==> !s.excluded.contains((#[trigger] entries[i]).addr)
        },
{
    if let FetchEvent::Entry(entry) = event {
        lemma_cbf_in_bound(s.result);
        assert(s.result.push(entry).drop_last() =~= s.result);
    }
}

/// A fetch for nothing is complete at once, and any other begins with a report.
pub proof fn law_nothing_to_fetch(
    s: FetcherState,
    cbf_target: nat,
    non_cbf_target: nat,
    excluded: Set<SocketAddr>,
)
    ensures
        cbf_target == 0 && non_cbf_target == 0 <==> s.started(
            cbf_target,
            non_cbf_target,
            excluded,
        ).1 == FetchStep::Done(seq![]),
        cbf_target > 0 || non_cbf_target > 0 <==> s.started(
            cbf_target,
            non_cbf_target,
            excluded,
        ).1 is Report,
{
}

/// The entries among some that a fetch accepts, in the order in which they come.
pub open spec fn selected(
    excluded: Set<SocketAddr>,
    cbf_target: nat,
    non_cbf_target: nat,
    entries: Seq<AddrsEntry>,
) -> Seq<AddrsEntry>
    decreases entries.len(),
{
    if entries.len() == 0 {
        seq![]
    } else {
        let accepted = selected(excluded, cbf_target, non_cbf_target, entries.drop_last());
        if wanted(excluded, cbf_target, non_cbf_target, accepted, entries.last()) {
            accepted.push(entries.last())
        } else {
            accepted
        }
    }
}

/// The entries among some whose addresses are not excluded.
pub open spec fn eligible(excluded: Set<SocketAddr>, entries: Seq<AddrsEntry>) -> Seq<AddrsEntry>
    decreases entries.len(),
{
    if entries.len() == 0 {
        seq![]
    } else if excluded.contains(entries.last().addr) {
        eligible(excluded, entries.drop_last())
    } else {
        eligible(excluded, entries.drop_last()).push(entries.last())
    }
}

/// A fetch accepts as many of the eligible entries of each kind as the target asks for, and all
/// of them where there are fewer. Each accepted entry is one of those that came, of an address
/// that is not excluded.
pub proof fn law_selected_up_to_targets(
    excluded: Set<SocketAddr>,
    cbf_target: nat,
    non_cbf_target: nat,
    entries: Seq<AddrsEntry>,
)
    ensures
        cbf_in(selected(excluded, cbf_target, non_cbf_target, entries)) == min(
            cbf_target,
            cbf_in(eligible(excluded, entries)),
        ),
        non_cbf_in(selected(excluded, cbf_target, non_cbf_target, entries)) == min(
            non_cbf_target,
            non_cbf_in(eligible(excluded, entries)),
        ),
        forall|e: AddrsEntry| #[trigger]
            selected(excluded, cbf_target, non_cbf_target, entries).contains(e)
                ==> entries.contains(e) && !excluded.contains(e.addr),
    decreases entries.len(),
{
    let accepted = selected(excluded, cbf_target, non_cbf_target, entries);
    lemma_cbf_in_bound(accepted);
    lemma_cbf_in_bound(eligible(excluded, entries));
    if entries.len() > 0 {
        let rest = entries.drop_last();
        let last = entries.last();
        let before = selected(excluded, cbf_target, non_cbf_target, rest);
        law_selected_up_to_targets(excluded, cbf_target, non_cbf_target, rest);
        lemma_cbf_in_bound(before);
        lemma_cbf_in_bound(eligible(excluded, rest));
        assert(before.push(last).drop_last() =~= before);
        assert(eligible(excluded, rest).push(last).drop_last() =~= eligible(excluded, rest));
        assert forall|e: AddrsEntry| #[trigger] accepted.contains(e) implies entries.contains(e)
            && !excluded.contains(e.addr) by {
            let i = choose|i: int| 0 <= i < accepted.len() && accepted[i] == e;
            if i < before.len() {
                assert(before[i] == e);
                assert(before.contains(e));
                let j = choose|j: int| 0 <= j < rest.len() && rest[j] == e;
                assert(entries[j] == e);
            } else {
                assert(entries[entries.len() - 1] == e);
            }
        }
    }
}

/// The smaller of two numbers.
pub open spec fn min(a: nat, b: nat) -> nat {
    if a <= b {
        a
    } else {
        b
    }
}

/// What was accepted stays accepted: further entries only add to the selection.
pub proof fn law_selected_grows(
    excluded: Set<SocketAddr>,
    cbf_target: nat,
    non_cbf_target: nat,
    entries: Seq<AddrsEntry>,
    k: int,
)
    requires
        0 <= k <= entries.len(),
    ensures
        selected(excluded, cbf_target, non_cbf_target, entries.take(k)).is_prefix_of(
            selected(excluded, cbf_target, non_cbf_target, entries),
        ),
    decreases entries.len(),
{
    if k < entries.len() {
        law_selected_grows(excluded, cbf_target, non_cbf_target, entries.drop_last(), k);
        assert(entries.drop_last().take(k) =~= entries.take(k));
    } else {
        assert(entries.take(k) =~= entries);
    }
}

/// Entries of distinct addresses make a selection of distinct addresses.
pub proof fn law_selected_distinct(
    excluded: Set<SocketAddr>,
    cbf_target: nat,
    non_cbf_target: nat,
    entries: Seq<AddrsEntry>,
)
    requires
        distinct_addrs(entries),
    ensures
        distinct_addrs(selected(excluded, cbf_target, non_cbf_target, entries)),
    decreases entries.len(),
{
    if entries.len() > 0 {
        let rest = entries.drop_last();
        let before = selected(excluded, cbf_target, non_cbf_target, rest);
        let accepted = selected(excluded, cbf_target, non_cbf_target, entries);
        assert forall|i: int, j: int| 0 <= i < j < rest.len() implies (#[trigger] rest[i]).addr != (
        #[trigger] rest[j]).addr by {
            assert(entries[i].addr != entries[j].addr);
        }
        law_selected_distinct(excluded, cbf_target, non_cbf_target, rest);
        law_selected_up_to_targets(excluded, cbf_target, non_cbf_target, rest);
        assert forall|i: int, j: int| 0 <= i < j < accepted.len() implies (
        #[trigger] accepted[i]).addr != (#[trigger] accepted[j]).addr by {
            if j < before.len() {
                assert(before[i].addr != before[j].addr);
            } else {
                assert(before.contains(before[i]));
                let k = choose|k: int| 0 <= k < rest.len() && rest[k] == before[i];
                assert(entries[k].addr != entries[entries.len() - 1].addr);
            }
        }
    }
}

/// The entries that some events brought, in order.
pub open spec fn entries_in(events: Seq<FetchEvent>) -> Seq<AddrsEntry>
    decreases events.len(),
{
    if events.len() == 0 {
        seq![]
    } else {
        match events.last() {
            FetchEvent::Entry(entry) => entries_in(events.drop_last()).push(entry),
            _ => entries_in(events.drop_last()),
        }
    }
}

/// Where a fetch stands after some events, beginning with a state and an action.
pub open spec fn run(
    start: (FetcherState, FetchStep),
    events: Seq<FetchEvent>,
) -> (FetcherState, FetchStep)
    decreases events.len(),
{
    if events.len() == 0 {
        start
    } else {
        run(start, events.drop_last()).0.resumed(events.last())
    }
}

/// Whether each of the events is the one that is awaited when it comes.
pub open spec fn in_order(start: (FetcherState, FetchStep), events: Seq<FetchEvent>) -> bool
    decreases events.len(),
{
    events.len() > 0 ==> in_order(start, events.drop_last()) && run(
        start,
        events.drop_last(),
    ).0.awaits(events.last())
}

/// The addresses that workers were told to connect to, in order.
pub open spec fn connected(
    start: (FetcherState, FetchStep),
    events: Seq<FetchEvent>,
) -> Seq<SocketAddr>
    decreases events.len(),
{
    if events.len() == 0 {
        seq![]
    } else {
        match run(start, events).1 {
            FetchStep::Connect { worker: _, addr } => connected(start, events.drop_last()).push(
                addr,
            ),
            _ => connected(start, events.drop_last()),
        }
    }
}

/// The result of a fetch is the selection among all entries that came, whatever else happened:
/// while the fetch runs it holds the selection so far, and it hands out the whole when it is
/// complete. The targets and the excluded addresses stay the same.
pub proof fn law_result_is_selection(
    s: FetcherState,
    cbf_target: nat,
    non_cbf_target: nat,
    excluded: Set<SocketAddr>,
    events: Seq<FetchEvent>,
)
    requires
        in_order(s.started(cbf_target, non_cbf_target, excluded), events),
    ensures
        ({
            let (t, step) = run(s.started(cbf_target, non_cbf_target, excluded), events);
            let chosen = selected(excluded, cbf_target, non_cbf_target, entries_in(events));
            &&& t.cbf_target == cbf_target
            &&& t.non_cbf_target == non_cbf_target
            &&& t.excluded == excluded
            &&& t.phase is Idle <==> step is Done
            &&& match step {
                FetchStep::Done(entries) => entries == chosen,
                _ => t.result == chosen,
            }
        }),
    decreases events.len(),
{
    if events.len() > 0 {
        let start = s.started(cbf_target, non_cbf_target, excluded);
        let rest = events.drop_last();
        law_result_is_selection(s, cbf_target, non_cbf_target, excluded, rest);
        if let FetchEvent::Entry(entry) = events.last() {
            assert(entries_in(events).drop_last() =~= entries_in(rest));
        }
    }
}

/// A fetch is complete as soon as a round closes by which enough eligible entries of both kinds
/// came, and hands out the selection among all that came. A round that closes before that is
/// followed by another one.
pub proof fn law_complete_once_enough_came(
    s: FetcherState,
    cbf_target: nat,
    non_cbf_target: nat,
    excluded: Set<SocketAddr>,
    events: Seq<FetchEvent>,
)
    requires
        events.len() > 0,
        in_order(s.started(cbf_target, non_cbf_target, excluded), events),
        run(s.started(cbf_target, non_cbf_target, excluded), events.drop_last()).0.phase == (
        FetchPhase::AwaitingEntry { response: (NUM_WORKER_THREADS - 1) as usize }),
    ensures
        ({
            let step = run(s.started(cbf_target, non_cbf_target, excluded), events).1;
            let came = eligible(excluded, entries_in(events));
            if cbf_in(came) >= cbf_target && non_cbf_in(came) >= non_cbf_target {
                step == FetchStep::Done(
                    selected(excluded, cbf_target, non_cbf_target, entries_in(events)),
                )
            } else {
                step is Report
            }
        }),
{
    law_result_is_selection(s, cbf_target, non_cbf_target, excluded, events.drop_last());
    law_result_is_selection(s, cbf_target, non_cbf_target, excluded, events);
    law_selected_up_to_targets(excluded, cbf_target, non_cbf_target, entries_in(events));
    if let FetchEvent::Entry(entry) = events.last() {
        assert(entries_in(events).drop_last() =~= entries_in(events.drop_last()));
    }
}

/// No peer is connected to twice in a fetch, and none that was visited before, if no address was
/// repeated in the task when the fetch began.
pub proof fn law_connected_once(
    s: FetcherState,
    cbf_target: nat,
    non_cbf_target: nat,
    excluded: Set<SocketAddr>,
    events: Seq<FetchEvent>,
)
    requires
        s.task.unrepeated(),
        in_order(s.started(cbf_target, non_cbf_target, excluded), events),
    ensures
        ({
            let start = s.started(cbf_target, non_cbf_target, excluded);
            let addrs = connected(start, events);
            &&& addrs.no_duplicates()
            &&& s.task.visited.disjoint(addrs.to_set())
            &&& run(start, events).0.task.visited == s.task.visited.union(addrs.to_set())
            &&& run(start, events).0.task.unrepeated()
        }),
    decreases events.len(),
{
    let start = s.started(cbf_target, non_cbf_target, excluded);
    let addrs = connected(start, events);
    if events.len() == 0 {
        assert(s.task.visited.union(Seq::<SocketAddr>::empty().to_set()) =~= s.task.visited);
    } else {
        let rest = events.drop_last();
        law_connected_once(s, cbf_target, non_cbf_target, excluded, rest);
        let t = run(start, rest).0;
        let before = connected(start, rest);
        match run(start, events).1 {
            FetchStep::Connect { worker: _, addr } => {
                law_popped_unrepeated(t.task);
                assert(!before.to_set().contains(addr));
                assert(before.push(addr).to_set() =~= before.to_set().insert(addr)) by {
                    broadcast use vstd::seq_lib::group_seq_properties;

                }
                assert(run(start, events).0.task.visited =~= s.task.visited.union(
                    addrs.to_set(),
                ));
                assert forall|i: int, j: int| 0 <= i < j < addrs.len() implies addrs[i]
                    != addrs[j] by {
                    if j == before.len() {
                        assert(before.contains(before[i]));
                    }
                }
            },
            _ => {
                if let FetchEvent::Addrs(list) = events.last() {
                    law_offered_keeps_and_adds(t.task, list@);
                    law_offered_unrepeated(t.task, list@);
                }
            },
        }
    }
}

/// The events with which a round begins: the report was made, and then so many addresses were
/// sent to workers.
pub open spec fn round_events(sent: nat) -> Seq<FetchEvent> {
    seq![FetchEvent::Reported] + Seq::new(sent, |i: int| FetchEvent::Sent)
}

/// A round hands the next pending addresses out, in order, one to each worker, from the first
/// worker on, as long as there are both; then it awaits the responses.
pub proof fn law_round_connects(s: FetcherState, step: FetchStep, sent: nat)
    requires
        s.phase is Reporting,
        s.workers <= usize::MAX,
        sent <= s.workers,
        sent <= s.task.pending.len(),
    ensures
        in_order((s, step), round_events(sent)),
        ({
            let (t, next) = run((s, step), round_events(sent));
            if sent < s.workers && sent < s.task.pending.len() {
                &&& next == (FetchStep::Connect {
                    worker: sent as usize,
                    addr: s.task.pending[sent as int],
                })
                &&& t.phase == (FetchPhase::Connecting { worker: sent as usize })
                &&& t.task.pending == s.task.pending.skip(sent as int + 1)
            } else {
                &&& next == FetchStep::RecvAddrs
                &&& t.phase == (FetchPhase::AwaitingAddrs { response: 0 })
                &&& t.task.pending == s.task.pending.skip(sent as int)
            }
        }),
        run((s, step), round_events(sent)).0.workers == s.workers,
    decreases sent,
{
    let events = round_events(sent);
    if sent == 0 {
        assert(events.drop_last() =~= seq![]);
        assert(in_order((s, step), events.drop_last()));
        assert(run((s, step), events.drop_last()) == (s, step));
        assert(s.task.pending.skip(0) =~= s.task.pending);
        if s.task.pending.len() > 0 {
            assert(s.task.pending.drop_first() =~= s.task.pending.skip(1));
        }
    } else {
        let before = (sent - 1) as nat;
        law_round_connects(s, step, before);
        assert(events.drop_last() =~= round_events(before));
        assert(events.last() == FetchEvent::Sent);
        let t = run((s, step), round_events(before)).0;
        if sent < s.workers && sent < s.task.pending.len() {
            assert(t.task.pending[0] == s.task.pending[sent as int]);
            assert(t.task.pending.drop_first() =~= s.task.pending.skip(sent as int + 1));
        }
    }
}

} // verus!
