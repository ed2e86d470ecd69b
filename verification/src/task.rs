//! The running list of addresses that are still to be visited.
use crate::addr_set::AddrSet;
use crate::errors::AddrsMngrError;
use crate::net::{Network, SocketAddr};
use std::collections::VecDeque;
use vstd::prelude::*;

verus! {

/// What a fetch task holds: the addresses still to be visited, in order, those that were handed
/// out, and the network.
#[verifier::ext_equal]
pub ghost struct TaskState {
    /// The addresses still to be visited, the next one first.
    pub pending: Seq<SocketAddr>,
    /// The addresses that were handed out.
    pub visited: Set<SocketAddr>,
    /// The network.
    pub network: Network,
}

impl TaskState {
    /// The task after addresses were offered to it, in order: each of them that is neither
    /// pending nor visited by then is appended.
    pub open spec fn offered(self, addrs: Seq<SocketAddr>) -> TaskState
        decreases addrs.len(),
    {
        if addrs.len() == 0 {
            self
        } else {
            let before = self.offered(addrs.drop_last());
            if before.knows(addrs.last()) {
                before
            } else {
                TaskState { pending: before.pending.push(addrs.last()), ..before }
            }
        }
    }

    /// Whether an address is pending or visited.
    pub open spec fn knows(self, addr: SocketAddr) -> bool {
        self.pending.contains(addr) || self.visited.contains(addr)
    }

    /// The task after the next pending address was handed out.
    pub open spec fn popped(self) -> TaskState
        recommends
            self.pending.len() > 0,
    {
        TaskState {
            pending: self.pending.drop_first(),
            visited: self.visited.insert(self.pending[0]),
            ..self
        }
    }

    /// No address is pending twice, and none is both pending and visited.
    pub open spec fn unrepeated(self) -> bool {
        &&& self.pending.no_duplicates()
        &&& forall|a: SocketAddr| #[trigger] self.pending.contains(a) ==> !self.visited.contains(a)
    }
}

/// The names of the hosts that hand out addresses of nodes of a network.
pub open spec fn spec_seed_hosts(network: Network) -> Seq<Seq<char>> {
    match network {
        Network::Bitcoin => seq![
            "seed.bitcoin.sipa.be"@,
            "dnsseed.bluematt.me"@,
            "dnsseed.bitcoin.dashjr.org"@,
            "seed.bitcoinstats.com"@,
            "seed.bitcoin.jonasschnelli.ch"@,
            "seed.btc.petertodd.org"@,
            "seed.bitcoin.sprovoost.nl"@,
            "dnsseed.emzy.de"@,
            "seed.bitcoin.wiz.biz"@,
        ],
        Network::Testnet => seq![
            "testnet-seed.bitcoin.jonasschnelli.ch"@,
            "seed.tbtc.petertodd.org"@,
            "seed.testnet.bitcoin.sprovoost.nl"@,
            "testnet-seed.bluematt.me"@,
        ],
        Network::Regtest => seq![],
        Network::Signet => seq![],
    }
}

/// The addresses that a name lookup found, or the error with which it failed.
pub type Lookup = Result<Vec<SocketAddr>, std::io::Error>;

/// Whether all lookups succeeded.
pub open spec fn all_found(lookups: Seq<Lookup>) -> bool {
    forall|i: int| 0 <= i < lookups.len() ==> #[trigger] lookups[i] is Ok
}

/// The addresses that successful lookups found, one lookup after the other.
pub open spec fn found(lookups: Seq<Lookup>) -> Seq<SocketAddr>
    decreases lookups.len(),
{
    if lookups.len() == 0 {
        seq![]
    } else {
        found(lookups.drop_last()) + lookups.last()->Ok_0@
    }
}

/// Whether an error is that of the first lookup that failed.
pub open spec fn first_failure(lookups: Seq<Lookup>, e: AddrsMngrError) -> bool {
    exists|i: int|
        0 <= i < lookups.len() && (#[trigger] lookups[i]) is Err && all_found(lookups.take(i)) && e
            == AddrsMngrError::IO(lookups[i]->Err_0)
}

/// A running list of pending and visited addresses. Workers use this to fetch their next peer to
/// connect to.
pub struct FetchTask {
    pending: VecDeque<SocketAddr>,
    visited: AddrSet,
    network: Network,
}

impl View for FetchTask {
    type V = TaskState;

    closed spec fn view(&self) -> TaskState {
        TaskState { pending: self.pending@, visited: self.visited@, network: self.network }
    }
}

impl FetchTask {
    /// The set of visited addresses is well-formed.
    pub closed spec fn wf(self) -> bool {
        self.visited.wf()
    }

    /// A task that starts with what the lookups of the seed hosts of the network found, followed
    /// by the given seeds. Fails with the error of the first lookup that failed.
    pub fn new(network: Network, lookups: Vec<Lookup>, seeds: Vec<SocketAddr>) -> (r: Result<
        Self,
        AddrsMngrError,
    >)
        ensures
            match r {
                Ok(task) => {
                    &&& all_found(lookups@)
                    &&& task.wf()
                    &&& task@ == (TaskState {
                        pending: found(lookups@) + seeds@,
                        visited: Set::empty(),
                        network,
                    })
                },
                Err(e) => first_failure(lookups@, e),
            },
    {
        let network_seeds = match Self::seeds(lookups) {
            Ok(network_seeds) => network_seeds,
            Err(e) => {
                return Err(e);
            },
        };
        let mut pending: VecDeque<SocketAddr> = VecDeque::new();
        push_all(&mut pending, &network_seeds);
        push_all(&mut pending, &seeds);
        Ok(FetchTask { pending, visited: AddrSet::new(), network })
    }

    /// The host names to look up for addresses of nodes of the network, each with the port of
    /// the network.
    pub fn seed_hosts(network: Network) -> (hosts: Vec<(&'static str, u16)>)
        ensures
            hosts@.len() == spec_seed_hosts(network).len(),
            forall|i: int|
                0 <= i < hosts@.len() ==> (#[trigger] hosts@[i]).0@ == spec_seed_hosts(network)[i]
                    && hosts@[i].1 == network.spec_port(),
    {
        let port: u16 = network.port();
        match network {
            Network::Bitcoin => vec![
                ("seed.bitcoin.sipa.be", port),
                ("dnsseed.bluematt.me", port),
                ("dnsseed.bitcoin.dashjr.org", port),
                ("seed.bitcoinstats.com", port),
                ("seed.bitcoin.jonasschnelli.ch", port),
                ("seed.btc.petertodd.org", port),
                ("seed.bitcoin.sprovoost.nl", port),
                ("dnsseed.emzy.de", port),
                ("seed.bitcoin.wiz.biz", port),
            ],
            Network::Testnet => vec![
                ("testnet-seed.bitcoin.jonasschnelli.ch", port),
                ("seed.tbtc.petertodd.org", port),
                ("seed.testnet.bitcoin.sprovoost.nl", port),
                ("testnet-seed.bluematt.me", port),
            ],
            Network::Regtest => Vec::new(),
            Network::Signet => Vec::new(),
        }
    }

    /// All addresses that the lookups found, in order, or the error of the first that failed.
    pub fn seeds(lookups: Vec<Lookup>) -> (r: Result<Vec<SocketAddr>, AddrsMngrError>)
        ensures
            match r {
                Ok(addrs) => all_found(lookups@) && addrs@ == found(lookups@),
                Err(e) => first_failure(lookups@, e),
            },
    {
        let ghost all = lookups@;
        let mut addrs: Vec<SocketAddr> = Vec::new();
        for lookup in it: lookups
            invariant
                it.seq() == all,
                all == lookups@,
                all_found(all.take(it.index() as int)),
                addrs@ == found(all.take(it.index() as int)),
        {
            let ghost i = it.index() as int;
            assert(all.take(i + 1).drop_last() =~= all.take(i));
            match lookup {
                Ok(mut some) => {
                    addrs.append(&mut some);
                },
                Err(e) => {
                    return Err(AddrsMngrError::from(e));
                },
            }
        }
        assert(all.take(all.len() as int) =~= all);
        Ok(addrs)
    }

    /// Adds addresses to the pending list, in order, except those already pending or visited.
    pub fn add_pendings(&mut self, addresses: Vec<SocketAddr>)
        requires
            old(self).wf(),
        ensures
            final(self).wf(),
            final(self)@ == old(self)@.offered(addresses@),
    {
        let mut i: usize = 0;
        while i < addresses.len()
            invariant
                i <= addresses.len(),
                self.wf(),
                self@ == old(self)@.offered(addresses@.take(i as int)),
            decreases addresses.len() - i,
        {
            let addr = addresses[i];
            assert(addresses@.take(i + 1).drop_last() =~= addresses@.take(i as int));
            if !is_pending(&self.pending, &addr) && !self.visited.contains(&addr) {
                self.pending.push_back(addr);
            }
            i = i + 1;
        }
        assert(addresses@.take(i as int) =~= addresses@);
    }

    /// Takes the next pending address and adds it to the visited ones.
    pub fn get_pending(&mut self) -> (r: Option<SocketAddr>)
        requires
            old(self).wf(),
        ensures
            final(self).wf(),
            match r {
                Some(addr) => {
                    &&& old(self)@.pending.len() > 0
                    &&& addr == old(self)@.pending[0]
                    &&& final(self)@ == old(self)@.popped()
                },
                None => old(self)@.pending.len() == 0 && final(self)@ == old(self)@,
            },
    {
        match self.pending.pop_front() {
            Some(addr) => {
                self.visited.insert(addr);
                assert(self@ =~= old(self)@.popped());
                Some(addr)
            },
            None => None,
        }
    }

    /// How many addresses are pending.
    pub fn pending_len(&self) -> (n: usize)
        ensures
            n == self@.pending.len(),
    {
        self.pending.len()
    }

    /// How many addresses were handed out.
    pub fn visited_len(&self) -> (n: usize)
        requires
            self.wf(),
        ensures
            n == self@.visited.len(),
    {
        self.visited.len()
    }

    /// The network of the task.
    pub fn network(&self) -> (network: Network)
        ensures
            network == self@.network,
    {
        self.network
    }
}

/// Appends addresses to a queue.
fn push_all(queue: &mut VecDeque<SocketAddr>, addrs: &Vec<SocketAddr>)
    ensures
        final(queue)@ == old(queue)@ + addrs@,
{
    let mut i: usize = 0;
    while i < addrs.len()
        invariant
            i <= addrs.len(),
            queue@ == old(queue)@ + addrs@.take(i as int),
        decreases addrs.len() - i,
    {
        queue.push_back(addrs[i]);
        assert(addrs@.take(i + 1) =~= addrs@.take(i as int).push(addrs@[i as int]));
        i = i + 1;
    }
    assert(addrs@.take(i as int) =~= addrs@);
}

/// Whether an address is in a queue.
fn is_pending(queue: &VecDeque<SocketAddr>, addr: &SocketAddr) -> (r: bool)
    ensures
        r == queue@.contains(*addr),
{
    let mut i: usize = 0;
    while i < queue.len()
        invariant
            i <= queue@.len(),
            forall|j: int| 0 <= j < i ==> queue@[j] != *addr,
        decreases queue@.len() - i,
    {
        if queue[i] == *addr {
            return true;
        }
        i = i + 1;
    }
    false
}

/// Offering addresses to a task keeps what it holds: the pending addresses stay in front, in
/// order, and the visited ones stay as they are. Afterwards the task knows an address exactly
/// when it knew it before or the address was offered.
pub proof fn law_offered_keeps_and_adds(s: TaskState, addrs: Seq<SocketAddr>)
    ensures
        s.pending.is_prefix_of(s.offered(addrs).pending),
        s.offered(addrs).visited == s.visited,
        s.offered(addrs).network == s.network,
        forall|a: SocketAddr| #[trigger]
            s.offered(addrs).knows(a) <==> s.knows(a) || addrs.contains(a),
    decreases addrs.len(),
{
    if addrs.len() > 0 {
        let rest = addrs.drop_last();
        let last = addrs.last();
        let before = s.offered(rest);
        let after = s.offered(addrs);
        law_offered_keeps_and_adds(s, rest);
        assert(addrs =~= rest.push(last));
        assert forall|a: SocketAddr| #[trigger] after.knows(a) <==> s.knows(a) || addrs.contains(
            a,
        ) by {
            assert(before.knows(a) <==> s.knows(a) || rest.contains(a));
            assert(rest.contains(a) ==> addrs.contains(a)) by {
                if rest.contains(a) {
                    let i = choose|i: int| 0 <= i < rest.len() && rest[i] == a;
                    assert(addrs[i] == a);
                }
            }
            assert(addrs.contains(a) ==> rest.contains(a) || a == last) by {
                if addrs.contains(a) {
                    let i = choose|i: int| 0 <= i < addrs.len() && addrs[i] == a;
                    if i < rest.len() {
                        assert(rest[i] == a);
                    }
                }
            }
            assert(addrs[addrs.len() - 1] == last);
            if !before.knows(last) {
                lemma_push_contains(before.pending, last, a);
            }
        }
    }
}

/// A pushed sequence contains what it contained before, and what was pushed.
proof fn lemma_push_contains(s: Seq<SocketAddr>, x: SocketAddr, a: SocketAddr)
    ensures
        s.push(x).contains(a) <==> s.contains(a) || a == x,
{
    if s.contains(a) {
        let i = choose|i: int| 0 <= i < s.len() && s[i] == a;
        assert(s.push(x)[i] == a);
    }
    assert(s.push(x)[s.len() as int] == x);
    if s.push(x).contains(a) && a != x {
        let i = choose|i: int| 0 <= i < s.push(x).len() && s.push(x)[i] == a;
        assert(s[i] == a);
    }
}

/// Offering the same addresses once more changes nothing.
pub proof fn law_offered_twice(s: TaskState, addrs: Seq<SocketAddr>)
    ensures
        s.offered(addrs).offered(addrs) == s.offered(addrs),
{
    law_offered_keeps_and_adds(s, addrs);
    lemma_offered_known(s.offered(addrs), addrs);
}

/// Offering addresses that a task knows changes nothing.
proof fn lemma_offered_known(s: TaskState, addrs: Seq<SocketAddr>)
    requires
        forall|a: SocketAddr| #[trigger] addrs.contains(a) ==> s.knows(a),
    ensures
        s.offered(addrs) == s,
    decreases addrs.len(),
{
    if addrs.len() > 0 {
        let rest = addrs.drop_last();
        assert forall|a: SocketAddr| #[trigger] rest.contains(a) implies s.knows(a) by {
            let i = choose|i: int| 0 <= i < rest.len() && rest[i] == a;
            assert(addrs[i] == a);
            assert(addrs.contains(a));
        }
        lemma_offered_known(s, rest);
        assert(addrs.contains(addrs.last()));
    }
}

/// Offering addresses to a task in which no address is repeated repeats none.
pub proof fn law_offered_unrepeated(s: TaskState, addrs: Seq<SocketAddr>)
    requires
        s.unrepeated(),
    ensures
        s.offered(addrs).unrepeated(),
    decreases addrs.len(),
{
    if addrs.len() > 0 {
        let before = s.offered(addrs.drop_last());
        let last = addrs.last();
        law_offered_unrepeated(s, addrs.drop_last());
        if !before.knows(last) {
            let after = s.offered(addrs);
            assert forall|i: int, j: int|
                0 <= i < j < after.pending.len() implies after.pending[i] != after.pending[j] by {
                if j == before.pending.len() {
                    assert(before.pending.contains(before.pending[i]));
                }
            }
            assert forall|a: SocketAddr| #[trigger]
                after.pending.contains(a) implies !after.visited.contains(a) by {
                lemma_push_contains(before.pending, last, a);
            }
        }
    }
}

/// Handing out the next address of a task in which no address is repeated repeats none; that
/// address was not handed out before, and the task knows the same addresses as before.
pub proof fn law_popped_unrepeated(s: TaskState)
    requires
        s.unrepeated(),
        s.pending.len() > 0,
    ensures
        s.popped().unrepeated(),
        !s.visited.contains(s.pending[0]),
        s.popped().visited.contains(s.pending[0]),
        forall|a: SocketAddr| #[trigger] s.popped().knows(a) <==> s.knows(a),
{
    let rest = s.pending.drop_first();
    assert(s.pending.contains(s.pending[0]));
    assert forall|a: SocketAddr| #[trigger] rest.contains(a) implies s.pending.contains(a) && a
        != s.pending[0] by {
        let i = choose|i: int| 0 <= i < rest.len() && rest[i] == a;
        assert(s.pending[i + 1] == a);
    }
    assert forall|a: SocketAddr| #[trigger] s.popped().knows(a) <==> s.knows(a) by {
        if s.pending.contains(a) && a != s.pending[0] {
            let i = choose|i: int| 0 <= i < s.pending.len() && s.pending[i] == a;
            assert(rest[i - 1] == a);
        }
        if rest.contains(a) {
            assert(s.pending.contains(a));
        }
    }
}

/// Seeds that are all distinct make a task in which no address is repeated.
pub proof fn law_distinct_seeds_unrepeated(lookups: Seq<Lookup>, seeds: Seq<SocketAddr>, n: Network)
    requires
        (found(lookups) + seeds).no_duplicates(),
    ensures
        (TaskState {
            pending: found(lookups) + seeds,
            visited: Set::empty(),
            network: n,
        }).unrepeated(),
{
}

/// What can be done to a task.
pub ghost enum TaskOp {
    /// Addresses are offered to it.
    Offer(Seq<SocketAddr>),
    /// The next pending address, if there is one, is handed out.
    Pop,
}

impl TaskState {
    /// The task after some operations, and the addresses that they handed out, in order.
    pub open spec fn run(self, ops: Seq<TaskOp>) -> (TaskState, Seq<SocketAddr>)
        decreases ops.len(),
    {
        if ops.len() == 0 {
            (self, seq![])
        } else {
            let (s, handed) = self.run(ops.drop_last());
            match ops.last() {
                TaskOp::Offer(addrs) => (s.offered(addrs), handed),
                TaskOp::Pop => if s.pending.len() > 0 {
                    (s.popped(), handed.push(s.pending[0]))
                } else {
                    (s, handed)
                },
            }
        }
    }
}

/// No address is handed out twice, whatever is done to a task that starts without repeated
/// addresses, and the visited addresses are those of the start and those handed out since.
pub proof fn law_handed_out_once(s: TaskState, ops: Seq<TaskOp>)
    requires
        s.unrepeated(),
    ensures
        s.run(ops).0.unrepeated(),
        s.run(ops).1.no_duplicates(),
        s.run(ops).0.visited == s.visited.union(s.run(ops).1.to_set()),
        s.visited.disjoint(s.run(ops).1.to_set()),
    decreases ops.len(),
{
    if ops.len() == 0 {
        assert(s.visited.union(Seq::<SocketAddr>::empty().to_set()) =~= s.visited);
    } else {
        law_handed_out_once(s, ops.drop_last());
        let (t, handed) = s.run(ops.drop_last());
        match ops.last() {
            TaskOp::Offer(addrs) => {
                law_offered_unrepeated(t, addrs);
                law_offered_keeps_and_adds(t, addrs);
            },
            TaskOp::Pop => {
                if t.pending.len() > 0 {
                    let next = t.pending[0];
                    law_popped_unrepeated(t);
                    assert(!handed.to_set().contains(next));
                    assert(handed.push(next).to_set() =~= handed.to_set().insert(next)) by {
                        assert forall|a: SocketAddr| handed.push(next).to_set().contains(
                            a,
                        ) <==> handed.to_set().insert(next).contains(a) by {
                            lemma_push_contains(handed, next, a);
                        }
                    }
                    assert(t.popped().visited =~= s.visited.union(handed.push(next).to_set()));
                    assert forall|i: int, j: int|
                        0 <= i < j < handed.push(next).len() implies handed.push(next)[i]
                        != handed.push(next)[j] by {
                        if j == handed.len() {
                            assert(handed.contains(handed[i]));
                        }
                    }
                }
            },
        }
    }
}

} // verus!
