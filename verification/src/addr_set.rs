//! A set of addresses.
use crate::net::{lemma_key_injective, AddrKey, SocketAddr};
use std::collections::BTreeSet;
use vstd::prelude::*;

verus! {

/// A set of addresses.
pub struct AddrSet(BTreeSet<AddrKey>);

impl View for AddrSet {
    type V = Set<SocketAddr>;

    closed spec fn view(&self) -> Set<SocketAddr> {
        Set::new(|a: SocketAddr| self.0@.contains(a.spec_key()))
    }
}

impl AddrSet {
    /// The set is finite, and all that is kept is the keys of addresses.
    pub closed spec fn wf(self) -> bool {
        &&& self@.finite()
        &&& self.0@ == self@.map(|a: SocketAddr| a.spec_key())
    }

    /// The empty set.
    pub fn new() -> (r: Self)
        ensures
            r.wf(),
            r@ == Set::<SocketAddr>::empty(),
    {
        let r = AddrSet(BTreeSet::new());
        assert(r@ =~= Set::<SocketAddr>::empty());
        assert(r.0@ =~= r@.map(|a: SocketAddr| a.spec_key()));
        r
    }

    /// Whether the address is in the set.
    pub fn contains(&self, addr: &SocketAddr) -> (r: bool)
        ensures
            r == self@.contains(*addr),
    {
        self.0.contains(&addr.key())
    }

    /// Puts the address in the set.
    pub fn insert(&mut self, addr: SocketAddr)
        requires
            old(self).wf(),
        ensures
            final(self).wf(),
            final(self)@ == old(self)@.insert(addr),
    {
        self.0.insert(addr.key());
        proof {
            assert forall|a: SocketAddr| #[trigger]
                a.spec_key() == addr.spec_key() implies a == addr by {
                lemma_key_injective(a, addr);
            }
            assert(self@ =~= old(self)@.insert(addr));
            let f = |a: SocketAddr| a.spec_key();
            assert(self.0@ =~= self@.map(f)) by {
                assert forall|k: AddrKey| self.0@.contains(k) implies self@.map(f).contains(k) by {
                    if k == addr.spec_key() {
                        assert(self@.contains(addr) && f(addr) == k);
                    } else {
                        let a = choose|a: SocketAddr| old(self)@.contains(a) && f(a) == k;
                        assert(self@.contains(a));
                    }
                }
            }
        }
    }

    /// How many addresses the set holds.
    pub fn len(&self) -> (n: usize)
        requires
            self.wf(),
        ensures
            n == self@.len(),
    {
        proof {
            let f = |a: SocketAddr| a.spec_key();
            assert forall|a: SocketAddr, b: SocketAddr| 
                #[trigger] f(a) == #[trigger] f(b) implies a == b by {
                lemma_key_injective(a, b);
            }
            vstd::set_lib::lemma_map_size(self@, self.0@, f);
        }
        self.0.len()
    }
}

} // verus!
