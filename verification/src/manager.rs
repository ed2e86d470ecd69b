//! The manager, which keeps the store of known peers filled up.
use crate::config::{CBF_ADDRS_TARGET, NETWORK, NON_CBF_TARGET};
use crate::errors::AddrsMngrError;
use crate::fetcher::{
    law_done_meets_targets, law_valid_kept, AddrsFetcher, FetchAction, FetchEvent, FetchStep,
    FetcherState,
};
use crate::net::SocketAddr;
use crate::store::{
    cbf_addrs, distinct_addrs, law_put_all_counts, law_put_all_last_wins, non_cbf_addrs, put_all,
    AddrsEntry, AddrsStore,
};
use crate::task::{all_found, first_failure, found, Lookup};
use vstd::prelude::*;

verus! {

/// How many are missing to reach a target.
pub open spec fn missing(target: nat, count: nat) -> nat {
    if count < target {
        (target - count) as nat
    } else {
        0
    }
}

/// The larger of two numbers.
pub open spec fn max(a: nat, b: nat) -> nat {
    if a >= b {
        a
    } else {
        b
    }
}

/// What a manager holds: the state of its fetcher, and the entries of known peers.
#[verifier::ext_equal]
pub ghost struct ManagerState {
    /// The fetcher.
    pub fetcher: FetcherState,
    /// The entries of known peers, by address.
    pub store: Map<SocketAddr, AddrsEntry>,
}

impl ManagerState {
    /// The fetcher is valid, each entry is stored under its own address, and a running fetch is
    /// for what the store is missing and for none of the addresses that it holds.
    pub open spec fn valid(self) -> bool {
        &&& self.fetcher.valid()
        &&& self.store.dom().finite()
        &&& forall|a: SocketAddr| #[trigger] self.store.contains_key(a) ==> self.store[a].addr == a
        &&& !(self.fetcher.phase is Idle) ==> {
            &&& self.fetcher.cbf_target == missing(
                CBF_ADDRS_TARGET as nat,
                cbf_addrs(self.store).len(),
            )
            &&& self.fetcher.non_cbf_target == missing(
                NON_CBF_TARGET as nat,
                non_cbf_addrs(self.store).len(),
            )
            &&& self.fetcher.excluded == self.store.dom()
        }
    }

    /// The beginning of a fetch for what the store is missing, except for the addresses that it
    /// holds.
    pub open spec fn filling_up(self) -> (ManagerState, FetchStep) {
        let (fetcher, step) = self.fetcher.started(
            missing(CBF_ADDRS_TARGET as nat, cbf_addrs(self.store).len()),
            missing(NON_CBF_TARGET as nat, non_cbf_addrs(self.store).len()),
            self.store.dom(),
        );
        (ManagerState { fetcher, ..self }, step)
    }

    /// What is left when an action of the running fetch failed: the fetch is given up, and the
    /// store is unchanged.
    pub open spec fn failed(self) -> ManagerState {
        ManagerState { fetcher: self.fetcher.failed(), ..self }
    }

    /// What follows when the last action was done. The entries of a complete fetch are stored.
    pub open spec fn resumed(self, event: FetchEvent) -> (ManagerState, FetchStep) {
        let (fetcher, step) = self.fetcher.resumed(event);
        let store = match step {
            FetchStep::Done(entries) => put_all(self.store, entries),
            _ => self.store,
        };
        (ManagerState { fetcher, store }, step)
    }
}

/// A manager keeps the store of known peers filled up by means of a fetcher.
pub struct AddrsManager {
    fetcher: AddrsFetcher,
    store: AddrsStore,
}

impl View for AddrsManager {
    type V = ManagerState;

    closed spec fn view(&self) -> ManagerState {
        ManagerState { fetcher: self.fetcher@, store: self.store@ }
    }
}

impl AddrsManager {
    /// The fetcher and the store are well-formed and fit together.
    pub closed spec fn wf(self) -> bool {
        &&& self.fetcher.wf()
        &&& self.store.wf()
        &&& self@.valid()
    }

    /// A well-formed manager is in a valid state.
    pub proof fn law_wf_valid(self)
        requires
            self.wf(),
        ensures
            self@.valid(),
    {
    }

    /// A manager with an empty store, whose fetcher starts with the addresses that the lookups
    /// of the seed hosts found. Fails with the error of the first lookup that failed.
    pub fn new(lookups: Vec<Lookup>) -> (r: Result<Self, AddrsMngrError>)
        ensures
            match r {
                Ok(manager) => {
                    &&& all_found(lookups@)
                    &&& manager.wf()
                    &&& manager@ == (ManagerState {
                        fetcher: FetcherState::initial(NETWORK, found(lookups@)),
                        store: Map::empty(),
                    })
                },
                Err(e) => first_failure(lookups@, e),
            },
    {
        let store = AddrsStore::new();
        match AddrsFetcher::setup(NETWORK, lookups) {
            Ok(fetcher) => Ok(AddrsManager { fetcher, store }),
            Err(e) => Err(e),
        }
    }

    /// Begins to fetch what the store is missing to reach the targets, except for the addresses
    /// that it holds.
    pub fn fill_up(&mut self) -> (action: FetchAction)
        requires
            old(self).wf(),
        ensures
            final(self).wf(),
            (final(self)@, action@) == old(self)@.filling_up(),
    {
        let required_cbf: usize = CBF_ADDRS_TARGET.saturating_sub(self.store.cbf_count());
        let required_non_cbf: usize = NON_CBF_TARGET.saturating_sub(self.store.non_cbf_count());
        let filter_list = self.store.iter_keys();
        self.fetcher.fetch(required_cbf, required_non_cbf, Some(filter_list))
    }

    /// Goes on when the last action was done. The entries of a complete fetch are stored.
    pub fn resume(&mut self, event: FetchEvent) -> (action: FetchAction)
        requires
            old(self).wf(),
            old(self)@.fetcher.awaits(event),
        ensures
            final(self).wf(),
            (final(self)@, action@) == old(self)@.resumed(event),
    {
        let action = self.fetcher.resume(event);
        if let FetchAction::Done(entries) = &action {
            store_all(&mut self.store, entries);
        }
        proof {
            self.store.law_own_address();
            law_valid_kept(old(self)@.fetcher, event);
        }
        action
    }

    /// Ends filling up when the last action failed, with the error of that action. The store is
    /// unchanged.
    pub fn fail(&mut self, e: AddrsMngrError) -> (r: Result<(), AddrsMngrError>)
        requires
            old(self).wf(),
        ensures
            final(self).wf(),
            r == Err::<(), AddrsMngrError>(e),
            final(self)@ == old(self)@.failed(),
    {
        let r = self.fetcher.fail(e);
        match r {
            Ok(_) => Ok(()),
            Err(e) => Err(e),
        }
    }

    /// Whether the event is that the last action was done.
    pub fn awaits(&self, event: &FetchEvent) -> (r: bool)
        ensures
            r == self@.fetcher.awaits(*event),
    {
        self.fetcher.awaits(event)
    }

    /// The store of known peers.
    pub fn store(&self) -> (store: &AddrsStore)
        requires
            self.wf(),
        ensures
            store.wf(),
            store@ == self@.store,
    {
        &self.store
    }

    /// The fetcher.
    pub fn fetcher(&self) -> (fetcher: &AddrsFetcher)
        requires
            self.wf(),
        ensures
            fetcher.wf(),
            fetcher@ == self@.fetcher,
    {
        &self.fetcher
    }
}

/// Puts entries into a store, in order.
fn store_all(store: &mut AddrsStore, entries: &Vec<AddrsEntry>)
    requires
        old(store).wf(),
    ensures
        final(store).wf(),
        final(store)@ == put_all(old(store)@, entries@),
{
    let mut i: usize = 0;
    while i < entries.len()
        invariant
            i <= entries.len(),
            store.wf(),
            store@ == put_all(old(store)@, entries@.take(i as int)),
        decreases entries.len() - i,
    {
        store.put(&entries[i]);
        assert(entries@.take(i + 1).drop_last() =~= entries@.take(i as int));
        i = i + 1;
    }
    assert(entries@.take(i as int) =~= entries@);
}

/// When a fetch is complete, the store has reached both targets, or keeps what it had beyond
/// them, and what it held before is unchanged. This is so if the fetched entries are of distinct
/// addresses.
pub proof fn law_filled_up(s: ManagerState, event: FetchEvent)
    requires
        s.valid(),
        s.fetcher.awaits(event),
    ensures
        s.resumed(event).1 matches FetchStep::Done(entries) ==> {
            let after = s.resumed(event).0.store;
            &&& forall|a: SocketAddr| #[trigger]
                s.store.contains_key(a) ==> after.contains_key(a) && after[a] == s.store[a]
            &&& distinct_addrs(entries) ==> {
                &&& cbf_addrs(after).len() == max(
                    CBF_ADDRS_TARGET as nat,
                    cbf_addrs(s.store).len(),
                )
                &&& non_cbf_addrs(after).len() == max(
                    NON_CBF_TARGET as nat,
                    non_cbf_addrs(s.store).len(),
                )
            }
        },
{
    law_done_meets_targets(s.fetcher, event);
    if let FetchStep::Done(entries) = s.resumed(event).1 {
        let after = s.resumed(event).0.store;
        law_put_all_last_wins(s.store, entries);
        assert forall|i: int| 0 <= i < entries.len() implies !s.store.contains_key(
            (#[trigger] entries[i]).addr,
        ) by {
            assert(!s.fetcher.excluded.contains(entries[i].addr));
        }
        assert forall|a: SocketAddr| #[trigger] s.store.contains_key(a) implies after.contains_key(
            a,
        ) && after[a] == s.store[a] by {
            assert(put_all(s.store, entries).contains_key(a));
        }
        if distinct_addrs(entries) {
            law_put_all_counts(s.store, entries);
        }
    }
}

/// A manager keeps its state valid.
pub proof fn law_state_kept_valid(s: ManagerState, event: FetchEvent)
    requires
        s.valid(),
        s.fetcher.awaits(event),
    ensures
        s.resumed(event).0.valid(),
{
    law_valid_kept(s.fetcher, event);
    if let FetchStep::Done(entries) = s.resumed(event).1 {
        lemma_put_all_own_address(s.store, entries);
    }
}

proof fn lemma_put_all_own_address(m: Map<SocketAddr, AddrsEntry>, entries: Seq<AddrsEntry>)
    requires
        m.dom().finite(),
        forall|a: SocketAddr| #[trigger] m.contains_key(a) ==> m[a].addr == a,
    ensures
        put_all(m, entries).dom().finite(),
        forall|a: SocketAddr| #[trigger]
            put_all(m, entries).contains_key(a) ==> put_all(m, entries)[a].addr == a,
    decreases entries.len(),
{
    if entries.len() > 0 {
        lemma_put_all_own_address(m, entries.drop_last());
    }
}

/// Where a manager stands after some events, beginning with a state and an action.
pub open spec fn run(
    start: (ManagerState, FetchStep),
    events: Seq<FetchEvent>,
) -> (ManagerState, FetchStep)
    decreases events.len(),
{
    if events.len() == 0 {
        start
    } else {
        run(start, events.drop_last()).0.resumed(events.last())
    }
}

/// Whether each of the events is the one that is awaited when it comes.
pub open spec fn in_order(start: (ManagerState, FetchStep), events: Seq<FetchEvent>) -> bool
    decreases events.len(),
{
    events.len() > 0 ==> in_order(start, events.drop_last()) && run(
        start,
        events.drop_last(),
    ).0.fetcher.awaits(events.last())
}

/// Filling up, from its beginning to its end, brings the store to both targets, or keeps what it
/// had beyond them, and leaves what it held unchanged, whatever the workers report on the way.
/// This is so if the fetched entries are of distinct addresses. Until then the store is
/// unchanged.
pub proof fn law_fill_up_reaches_targets(s: ManagerState, events: Seq<FetchEvent>)
    requires
        s.valid(),
        in_order(s.filling_up(), events),
    ensures
        ({
            let (t, step) = run(s.filling_up(), events);
            match step {
                FetchStep::Done(entries) => {
                    &&& t.store == put_all(s.store, entries)
                    &&& forall|a: SocketAddr| #[trigger]
                        s.store.contains_key(a) ==> t.store.contains_key(a) && t.store[a]
                            == s.store[a]
                    &&& distinct_addrs(entries) ==> {
                        &&& cbf_addrs(t.store).len() == max(
                            CBF_ADDRS_TARGET as nat,
                            cbf_addrs(s.store).len(),
                        )
                        &&& non_cbf_addrs(t.store).len() == max(
                            NON_CBF_TARGET as nat,
                            non_cbf_addrs(s.store).len(),
                        )
                    }
                },
                _ => t.store == s.store,
            }
        }),
{
    lemma_filling_up(s, events);
    if events.len() > 0 {
        lemma_filling_up(s, events.drop_last());
        law_filled_up(run(s.filling_up(), events.drop_last()).0, events.last());
    }
}

/// Filling up that fails on the way, after whatever events, leaves the store as it was before.
pub proof fn law_failed_fill_up_keeps_store(s: ManagerState, events: Seq<FetchEvent>)
    requires
        s.valid(),
        in_order(s.filling_up(), events),
        !(run(s.filling_up(), events).1 is Done),
    ensures
        run(s.filling_up(), events).0.failed().store == s.store,
        run(s.filling_up(), events).0.failed().valid(),
{
    lemma_filling_up(s, events);
}

proof fn lemma_filling_up(s: ManagerState, events: Seq<FetchEvent>)
    requires
        s.valid(),
        in_order(s.filling_up(), events),
    ensures
        ({
            let (t, step) = run(s.filling_up(), events);
            &&& t.valid()
            &&& t.fetcher.phase is Idle <==> step is Done
            &&& !(step is Done) ==> t.store == s.store
        }),
    decreases events.len(),
{
    if events.len() > 0 {
        let rest = events.drop_last();
        lemma_filling_up(s, rest);
        law_state_kept_valid(run(s.filling_up(), rest).0, events.last());
    }
}

} // verus!
