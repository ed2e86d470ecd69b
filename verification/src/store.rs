//! The store of known peers.
use crate::net::{lemma_key_injective, AddrKey, SocketAddr};
use std::collections::BTreeMap;
use vstd::prelude::*;

verus! {

/// A reading of the system clock. Nothing is known of its contents: it is only carried along.
#[verifier::external_type_specification]
#[verifier::external_body]
pub struct ExSystemTime(std::time::SystemTime);

/// The service flag of a node that serves compact block filters.
pub const COMPACT_FILTERS: u64 = 0x40;

/// Whether service flags say that a node serves compact block filters.
pub open spec fn spec_serves_filters(services: u64) -> bool {
    services | COMPACT_FILTERS == services
}

/// `ServiceFlags::has` of the `bitcoin` crate, asked for its flag `COMPACT_FILTERS`: whether the
/// flags include the bit of that flag, which is the seventh.
#[verifier::external_body]
pub(crate) fn serves_filters(services: u64) -> (r: bool)
    ensures
        r == spec_serves_filters(services),
{
    bitcoin::network::constants::ServiceFlags::from(services).has(
        bitcoin::network::constants::ServiceFlags::COMPACT_FILTERS,
    )
}

/// The fully fetched information about an address.
#[derive(Clone, Copy, Debug, PartialEq)]
pub struct AddrsEntry {
    /// The address of the peer.
    pub addr: SocketAddr,
    /// How often a connection was attempted.
    pub attempts: u32,
    /// When a connection was last attempted.
    pub last_attempts: std::time::SystemTime,
    /// When a connection last succeeded.
    pub last_successful: std::time::SystemTime,
    /// Whether a connection was attempted at all.
    pub tried: bool,
    /// The service flags of the peer.
    pub service: u64,
    /// The rank of the peer.
    pub rank: u32,
}

impl AddrsEntry {
    /// Whether the peer of an entry serves compact block filters.
    pub open spec fn spec_is_cbf(self) -> bool {
        spec_serves_filters(self.service)
    }

    /// Whether the peer of this entry serves compact block filters.
    pub fn is_cbf(&self) -> (r: bool)
        ensures
            r == self.spec_is_cbf(),
            r <==> self.service & 0x40 != 0,
    {
        proof {
            let services: u64 = self.service;
            assert((services | 0x40 == services) == (services & 0x40 != 0)) by (bit_vector);
        }
        serves_filters(self.service)
    }
}

/// The addresses of a map whose peers serve compact block filters.
pub open spec fn cbf_addrs(m: Map<SocketAddr, AddrsEntry>) -> Set<SocketAddr> {
    m.dom().filter(|a: SocketAddr| m[a].spec_is_cbf())
}

/// The addresses of a map whose peers do not serve compact block filters.
pub open spec fn non_cbf_addrs(m: Map<SocketAddr, AddrsEntry>) -> Set<SocketAddr> {
    m.dom().filter(|a: SocketAddr| !m[a].spec_is_cbf())
}

/// The addresses of the first `n` entries whose peers do, or do not, serve compact block filters.
spec fn addrs_where(entries: Seq<AddrsEntry>, n: int, cbf: bool) -> Set<SocketAddr> {
    Set::new(
        |a: SocketAddr|
            exists|i: int|
                0 <= i < n && (#[trigger] entries[i]).addr == a && entries[i].spec_is_cbf() == cbf,
    )
}

/// The main address store: one entry per address.
pub struct AddrsStore(BTreeMap<AddrKey, AddrsEntry>);

impl View for AddrsStore {
    type V = Map<SocketAddr, AddrsEntry>;

    closed spec fn view(&self) -> Map<SocketAddr, AddrsEntry> {
        Map::new(
            |a: SocketAddr| self.0@.contains_key(a.spec_key()),
            |a: SocketAddr| self.0@[a.spec_key()],
        )
    }
}

impl AddrsStore {
    /// Every entry is kept under the key of its own address.
    pub closed spec fn wf(self) -> bool {
        forall|k: AddrKey| #[trigger]
            self.0@.contains_key(k) ==> self.0@[k].addr.spec_key() == k
    }

    /// A well-formed store is finite, and each of its entries is that of its own address.
    pub proof fn law_own_address(self)
        requires
            self.wf(),
        ensures
            self@.dom().finite(),
            forall|a: SocketAddr| #[trigger] self@.contains_key(a) ==> self@[a].addr == a,
    {
        assert forall|a: SocketAddr| #[trigger] self@.contains_key(a) implies self@[a].addr
            == a by {
            assert(self.0@.contains_key(a.spec_key()));
            lemma_key_injective(self@[a].addr, a);
        }
        let f = |k: AddrKey| self.0@[k].addr;
        let image = self.0@.dom().map(f);
        self.0@.dom().lemma_map_finite(f);
        assert forall|a: SocketAddr| self@.dom().contains(a) implies image.contains(a) by {
            assert(self@.contains_key(a));
            assert(self.0@.dom().contains(a.spec_key()) && f(a.spec_key()) == a);
        }
        vstd::set_lib::lemma_set_subset_finite(image, self@.dom());
    }

    /// An empty store.
    pub fn new() -> (r: Self)
        ensures
            r.wf(),
            r@ == Map::<SocketAddr, AddrsEntry>::empty(),
    {
        AddrsStore(BTreeMap::new())
    }

    /// The entry of the given address, if there is one.
    pub fn get_entry(&self, addr: &SocketAddr) -> (r: Option<&AddrsEntry>)
        ensures
            match r {
                Some(entry) => self@.contains_key(*addr) && self@[*addr] == *entry,
                None => !self@.contains_key(*addr),
            },
    {
        self.0.get(&addr.key())
    }

    /// Replaces the entry of the address, or adds one.
    pub fn put(&mut self, entry: &AddrsEntry)
        requires
            old(self).wf(),
        ensures
            final(self).wf(),
            final(self)@ == old(self)@.insert(entry.addr, *entry),
    {
        self.0.insert(entry.addr.key(), *entry);
        proof {
            assert forall|a: SocketAddr| #[trigger] a.spec_key() == entry.addr.spec_key() implies a
                == entry.addr by {
                lemma_key_injective(a, entry.addr);
            }
            assert(self@ =~= old(self)@.insert(entry.addr, *entry));
        }
    }

    /// The entries of a store, listed: each of them once.
    spec fn listed_by(self, entries: Seq<AddrsEntry>) -> bool {
        &&& forall|i: int| 0 <= i < entries.len() ==> self@.contains_key(#[trigger] entries[i].addr)
            && self@[entries[i].addr] == entries[i]
        &&& forall|i: int, j: int|
            0 <= i < j < entries.len() ==> #[trigger] entries[i].addr != #[trigger] entries[j].addr
        &&& forall|a: SocketAddr| #[trigger]
            self@.contains_key(a) ==> exists|i: int|
                0 <= i < entries.len() && (#[trigger] entries[i]).addr == a
        &&& entries.len() <= usize::MAX
    }

    proof fn lemma_listed(self, keys: Seq<AddrKey>)
        requires
            self.wf(),
            keys.to_set() == self.0@.dom(),
            keys.no_duplicates(),
        ensures
            self.listed_by(keys.map_values(|k: AddrKey| self.0@[k])),
    {
        let entries = keys.map_values(|k: AddrKey| self.0@[k]);
        assert forall|i: int| 0 <= i < entries.len() implies self@.contains_key(
            #[trigger] entries[i].addr,
        ) && self@[entries[i].addr] == entries[i] && entries[i].addr.spec_key() == keys[i] by {
            assert(keys.to_set().contains(keys[i]));
            assert(self.0@.contains_key(keys[i]));
        }
        assert forall|a: SocketAddr| #[trigger] self@.contains_key(a) implies exists|i: int|
            0 <= i < entries.len() && (#[trigger] entries[i]).addr == a by {
            let k = a.spec_key();
            assert(self.0@.contains_key(k));
            assert(keys.to_set().contains(k));
            let i = choose|i: int| 0 <= i < keys.len() && keys[i] == k;
            lemma_key_injective(entries[i].addr, a);
        }
        keys.unique_seq_to_set();
        assert(self.0.len() == self.0@.len());
    }

    /// The entries that an iteration over the values goes through: all of the store.
    proof fn listing(self, remaining: Seq<&AddrsEntry>) -> (entries: Seq<AddrsEntry>)
        requires
            self.wf(),
            exists|order: Seq<AddrKey>|
                {
                    &&& vstd::std_specs::btree::increasing_seq(order)
                    &&& order.to_set() == self.0@.dom()
                    &&& order.no_duplicates()
                    &&& remaining == order.map(|i: int, k| &self.0@[k])
                },
        ensures
            self.listed_by(entries),
            entries.len() == remaining.len(),
            forall|i: int| 0 <= i < entries.len() ==> *remaining[i] == #[trigger] entries[i],
    {
        let order = choose|order: Seq<AddrKey>|
            {
                &&& vstd::std_specs::btree::increasing_seq(order)
                &&& order.to_set() == self.0@.dom()
                &&& order.no_duplicates()
                &&& remaining == order.map(|i: int, k| &self.0@[k])
            };
        self.lemma_listed(order);
        order.map_values(|k: AddrKey| self.0@[k])
    }

    /// The addresses in the store, each of them once.
    pub fn iter_keys(&self) -> (keys: Vec<SocketAddr>)
        requires
            self.wf(),
        ensures
            keys@.no_duplicates(),
            keys@.to_set() == self@.dom(),
    {
        let mut keys: Vec<SocketAddr> = Vec::new();
        let values = self.0.values();
        let ghost entries = self.listing(vstd::std_specs::iter::IteratorSpec::remaining(&values));
        for entry in it: values
            invariant
                it.seq().len() == entries.len(),
                forall|i: int| 0 <= i < entries.len() ==> *it.seq()[i] == #[trigger] entries[i],
                keys@.len() == it.index(),
                forall|i: int| 0 <= i < keys@.len() ==> keys@[i] == #[trigger] entries[i].addr,
        {
            keys.push(entry.addr);
        }
        proof {
            assert(keys@.len() == entries.len());
            assert forall|i: int, j: int| 0 <= i < j < keys@.len() implies keys@[i] != keys@[j] by {
                assert(entries[i].addr != entries[j].addr);
            }
            assert forall|a: SocketAddr| self@.contains_key(a) implies keys@.contains(a) by {
                let i = choose|i: int| 0 <= i < entries.len() && (#[trigger] entries[i]).addr == a;
                assert(keys@[i] == a);
            }
            assert forall|a: SocketAddr| keys@.contains(a) implies self@.contains_key(a) by {
                let i = choose|i: int| 0 <= i < keys@.len() && keys@[i] == a;
                assert(entries[i].addr == a);
            }
            assert(keys@.to_set() =~= self@.dom());
        }
        keys
    }

    /// How many entries there are whose peers do, or do not, serve compact block filters.
    fn count(&self, cbf: bool) -> (n: usize)
        requires
            self.wf(),
        ensures
            n == (if cbf {
                cbf_addrs(self@)
            } else {
                non_cbf_addrs(self@)
            }).len(),
    {
        let mut n: usize = 0;
        let values = self.0.values();
        let ghost entries = self.listing(vstd::std_specs::iter::IteratorSpec::remaining(&values));
        proof {
            assert(addrs_where(entries, 0, cbf) =~= Set::<SocketAddr>::empty());
        }
        for entry in it: values
            invariant
                self.listed_by(entries),
                it.seq().len() == entries.len(),
                forall|i: int| 0 <= i < entries.len() ==> *it.seq()[i] == #[trigger] entries[i],
                n <= it.index(),
                addrs_where(entries, it.index() as int, cbf).finite(),
                n == addrs_where(entries, it.index() as int, cbf).len(),
        {
            let ghost i = it.index() as int;
            let ghost before = addrs_where(entries, i, cbf);
            proof {
                assert(*it.seq()[i] == entries[i]);
                assert(addrs_where(entries, i + 1, cbf) =~= if entries[i].spec_is_cbf() == cbf {
                    before.insert(entries[i].addr)
                } else {
                    before
                });
                assert(!before.contains(entries[i].addr));
            }
            if entry.is_cbf() == cbf {
                n = n + 1;
            }
        }
        proof {
            let found = addrs_where(entries, entries.len() as int, cbf);
            assert forall|a: SocketAddr| self@.contains_key(a) && self@[a].spec_is_cbf() == cbf implies
                found.contains(a) by {
                let i = choose|i: int| 0 <= i < entries.len() && (#[trigger] entries[i]).addr == a;
                assert(entries[i].addr == a);
            }
            if cbf {
                assert(found =~= cbf_addrs(self@));
            } else {
                assert(found =~= non_cbf_addrs(self@));
            }
        }
        n
    }

    /// How many peers in the store serve compact block filters.
    pub fn cbf_count(&self) -> (n: usize)
        requires
            self.wf(),
        ensures
            n == cbf_addrs(self@).len(),
    {
        self.count(true)
    }

    /// How many peers in the store do not serve compact block filters.
    pub fn non_cbf_count(&self) -> (n: usize)
        requires
            self.wf(),
        ensures
            n == non_cbf_addrs(self@).len(),
    {
        self.count(false)
    }
}

/// Every peer in a store either serves compact block filters or does not: the two counts add up
/// to the number of entries.
pub proof fn law_counts_add_up(m: Map<SocketAddr, AddrsEntry>)
    requires
        m.dom().finite(),
    ensures
        cbf_addrs(m).len() + non_cbf_addrs(m).len() == m.dom().len(),
{
    assert(cbf_addrs(m).disjoint(non_cbf_addrs(m)));
    assert(cbf_addrs(m).union(non_cbf_addrs(m)) =~= m.dom());
    vstd::set_lib::lemma_set_disjoint_lens(cbf_addrs(m), non_cbf_addrs(m));
}

/// The map after entries were put into it, in order.
pub open spec fn put_all(
    m: Map<SocketAddr, AddrsEntry>,
    entries: Seq<AddrsEntry>,
) -> Map<SocketAddr, AddrsEntry>
    decreases entries.len(),
{
    if entries.len() == 0 {
        m
    } else {
        put_all(m, entries.drop_last()).insert(entries.last().addr, entries.last())
    }
}

/// How many of the entries are of peers that serve compact block filters.
pub open spec fn cbf_in(entries: Seq<AddrsEntry>) -> nat
    decreases entries.len(),
{
    if entries.len() == 0 {
        0
    } else {
        cbf_in(entries.drop_last()) + if entries.last().spec_is_cbf() {
            1nat
        } else {
            0nat
        }
    }
}

/// How many of the entries are of peers that do not serve compact block filters.
pub open spec fn non_cbf_in(entries: Seq<AddrsEntry>) -> nat {
    (entries.len() - cbf_in(entries)) as nat
}

/// Whether the entries are of distinct addresses.
pub open spec fn distinct_addrs(entries: Seq<AddrsEntry>) -> bool {
    forall|i: int, j: int|
        0 <= i < j < entries.len() ==> (#[trigger] entries[i]).addr != (
        #[trigger] entries[j]).addr
}

/// There are no more entries of one kind than entries.
pub proof fn lemma_cbf_in_bound(entries: Seq<AddrsEntry>)
    ensures
        cbf_in(entries) <= entries.len(),
    decreases entries.len(),
{
    if entries.len() > 0 {
        lemma_cbf_in_bound(entries.drop_last());
    }
}

/// After entries were put into a store, an address has the last of them for that address, if
/// there is one, and its former entry otherwise.
pub proof fn law_put_all_last_wins(m: Map<SocketAddr, AddrsEntry>, entries: Seq<AddrsEntry>)
    ensures
        forall|a: SocketAddr| #[trigger]
            put_all(m, entries).contains_key(a) <==> m.contains_key(a) || exists|i: int|
                0 <= i < entries.len() && (#[trigger] entries[i]).addr == a,
        forall|a: SocketAddr|
            (forall|i: int| 0 <= i < entries.len() ==> (#[trigger] entries[i]).addr != a)
                && m.contains_key(a) ==> #[trigger] put_all(m, entries)[a] == m[a],
        forall|i: int|
            0 <= i < entries.len() && (forall|j: int|
                i < j < entries.len() ==> (#[trigger] entries[j]).addr != entries[i].addr)
                ==> put_all(m, entries)[(#[trigger] entries[i]).addr] == entries[i],
    decreases entries.len(),
{
    if entries.len() > 0 {
        let rest = entries.drop_last();
        law_put_all_last_wins(m, rest);
        assert forall|a: SocketAddr| #[trigger]
            put_all(m, entries).contains_key(a) <==> m.contains_key(a) || exists|i: int|
                0 <= i < entries.len() && (#[trigger] entries[i]).addr == a by {
            assert(put_all(m, rest).contains_key(a) <==> m.contains_key(a) || exists|i: int|
                0 <= i < rest.len() && (#[trigger] rest[i]).addr == a);
            if exists|i: int| 0 <= i < rest.len() && (#[trigger] rest[i]).addr == a {
                let i = choose|i: int| 0 <= i < rest.len() && (#[trigger] rest[i]).addr == a;
                assert(entries[i].addr == a);
            }
            if exists|i: int| 0 <= i < entries.len() && (#[trigger] entries[i]).addr == a {
                let i = choose|i: int| 0 <= i < entries.len() && (#[trigger] entries[i]).addr == a;
                if i < rest.len() {
                    assert(rest[i].addr == a);
                }
            }
            if a == entries.last().addr {
                assert(entries[entries.len() - 1].addr == a);
            }
        }
        assert forall|a: SocketAddr|
            (forall|i: int| 0 <= i < entries.len() ==> (#[trigger] entries[i]).addr != a)
                && m.contains_key(a) implies #[trigger] put_all(m, entries)[a] == m[a] by {
            assert(entries[entries.len() - 1].addr != a);
            assert forall|i: int| 0 <= i < rest.len() implies (#[trigger] rest[i]).addr != a by {
                assert(entries[i].addr != a);
            }
            assert(put_all(m, rest)[a] == m[a]);
        }
        assert forall|i: int|
            0 <= i < entries.len() && (forall|j: int|
                i < j < entries.len() ==> (#[trigger] entries[j]).addr
                    != entries[i].addr) implies put_all(m, entries)[(#[trigger] entries[i]).addr]
            == entries[i] by {
            if i < rest.len() {
                assert forall|j: int| i < j < rest.len() implies (#[trigger] rest[j]).addr
                    != rest[i].addr by {
                    assert(entries[j].addr != entries[i].addr);
                }
                assert(put_all(m, rest)[rest[i].addr] == rest[i]);
                assert(entries[entries.len() - 1].addr != entries[i].addr);
            }
        }
    }
}

/// Putting entries of distinct addresses that a store does not hold adds them to the counts.
pub proof fn law_put_all_counts(m: Map<SocketAddr, AddrsEntry>, entries: Seq<AddrsEntry>)
    requires
        m.dom().finite(),
        distinct_addrs(entries),
        forall|i: int| 0 <= i < entries.len() ==> !m.contains_key((#[trigger] entries[i]).addr),
    ensures
        put_all(m, entries).dom().finite(),
        cbf_addrs(put_all(m, entries)).len() == cbf_addrs(m).len() + cbf_in(entries),
        non_cbf_addrs(put_all(m, entries)).len() == non_cbf_addrs(m).len() + non_cbf_in(entries),
    decreases entries.len(),
{
    lemma_cbf_in_bound(entries);
    if entries.len() > 0 {
        let rest = entries.drop_last();
        let last = entries.last();
        assert(last == entries[entries.len() - 1]);
        assert forall|i: int| 0 <= i < rest.len() implies !m.contains_key(
            (#[trigger] rest[i]).addr,
        ) && rest[i].addr != last.addr by {
            assert(rest[i] == entries[i]);
        }
        assert(distinct_addrs(rest)) by {
            assert forall|i: int, j: int| 0 <= i < j < rest.len() implies (
            #[trigger] rest[i]).addr != (#[trigger] rest[j]).addr by {
                assert(entries[i].addr != entries[j].addr);
            }
        }
        law_put_all_counts(m, rest);
        law_put_all_last_wins(m, rest);
        lemma_cbf_in_bound(rest);
        let before = put_all(m, rest);
        let after = put_all(m, entries);
        assert(!before.contains_key(last.addr));
        if last.spec_is_cbf() {
            assert(cbf_addrs(after) =~= cbf_addrs(before).insert(last.addr));
            assert(non_cbf_addrs(after) =~= non_cbf_addrs(before));
        } else {
            assert(cbf_addrs(after) =~= cbf_addrs(before));
            assert(non_cbf_addrs(after) =~= non_cbf_addrs(before).insert(last.addr));
        }
    }
}

} // verus!
