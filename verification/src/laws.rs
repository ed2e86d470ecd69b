//! What the library is for, stated on plain values: bits, segments, positions and counts.
use crate::discovery::{decimal, digit, DiscoveryData};
use crate::errors::{AddrsMngrError, CompactFiltersError, PeerError};
use crate::fetcher::{eligible, law_selected_up_to_targets, selected, wanted};
use crate::net::{
    embeds_v4, is_onion, segments_value, spec_stop_addr, NetAddress, Network, SocketAddr,
};
use crate::store::{
    cbf_addrs, cbf_in, lemma_cbf_in_bound, non_cbf_addrs, non_cbf_in, AddrsEntry,
};
use crate::task::{all_found, first_failure, found, Lookup, TaskState};
use vstd::prelude::*;
use vstd::std_specs::convert::FromSpec;
use vstd::string::to_string_from_display_ensures;

verus! {

/// Whether the bit of an entry's service flags that stands for compact filters is set.
pub open spec fn filter_bit(entry: AddrsEntry) -> bool {
    entry.service & 0x40 != 0
}

/// Whether an index sequence goes up.
pub open spec fn ascending(ks: Seq<int>) -> bool {
    forall|p: int, q: int| 0 <= p < q < ks.len() ==> #[trigger] ks[p] < #[trigger] ks[q]
}

/// Each network has its own well-known port.
pub proof fn law_ports(network: Network)
    ensures
        network is Bitcoin ==> network.spec_port() == 8333,
        network is Testnet ==> network.spec_port() == 18333,
        network is Regtest ==> network.spec_port() == 18444,
        network is Signet ==> network.spec_port() == 38333,
{
}

/// The stop address is the IPv4 address 0.0.0.0 with port 0, and no other.
pub proof fn law_stop_address(addr: SocketAddr)
    ensures
        addr == spec_stop_addr() <==> (addr matches SocketAddr::V4 { ipv4, port } && ipv4 == 0
            && port == 0),
{
}

/// An announced address is a Tor address exactly when it begins with fd87:d87e:eb43.
pub proof fn law_tor_prefix(a: NetAddress)
    ensures
        is_onion(a.address@) <==> a.address@[0] == 0xFD87 && a.address@[1] == 0xD87E
            && a.address@[2] == 0xEB43,
{
}

/// A converted address has the announced port. If the announced segments embed an IPv4 address,
/// its ip is that of the last two segments, otherwise that of all eight, without flow
/// information and scope.
pub proof fn law_conversion_keeps_ip_and_port(a: NetAddress)
    ensures
        ({
            let s = a.address@;
            let v4 = s[0] == 0 && s[1] == 0 && s[2] == 0 && s[3] == 0 && s[4] == 0 && (s[5] == 0
                || s[5] == 0xFFFF);
            match a.spec_socket_addr() {
                SocketAddr::V4 { ipv4, port } => v4 && port == a.port && ipv4 == s[6] * 0x1_0000
                    + s[7],
                SocketAddr::V6 { ipv6, port, flowinfo, scope_id } => !v4 && port == a.port
                    && flowinfo == 0 && scope_id == 0 && ipv6 == s[0]
                    * 0x1_0000_0000_0000_0000_0000_0000_0000 + s[1]
                    * 0x1_0000_0000_0000_0000_0000_0000 + s[2] * 0x1_0000_0000_0000_0000_0000
                    + s[3] * 0x1_0000_0000_0000_0000 + s[4] * 0x1_0000_0000_0000 + s[5]
                    * 0x1_0000_0000 + s[6] * 0x1_0000 + s[7],
            }
        }),
{
    let s = a.address@;
    reveal_with_fuel(segments_value, 9);
    if embeds_v4(s) {
        assert(s[0] == 0 && s[1] == 0 && s[2] == 0 && s[3] == 0 && s[4] == 0);
        assert(s.subrange(6, 8).drop_last().drop_last().len() == 0);
    } else {
        let s7 = s.drop_last();
        let s6 = s7.drop_last();
        let s5 = s6.drop_last();
        let s4 = s5.drop_last();
        let s3 = s4.drop_last();
        let s2 = s3.drop_last();
        let s1 = s2.drop_last();
        assert(s1.drop_last().len() == 0);
        assert(segments_value(s1) == s[0]);
        assert(segments_value(s2) == segments_value(s1) * 0x1_0000 + s[1]);
        assert(segments_value(s3) == segments_value(s2) * 0x1_0000 + s[2]);
        assert(segments_value(s4) == segments_value(s3) * 0x1_0000 + s[3]);
        assert(segments_value(s5) == segments_value(s4) * 0x1_0000 + s[4]);
        assert(segments_value(s6) == segments_value(s5) * 0x1_0000 + s[5]);
        assert(segments_value(s7) == segments_value(s6) * 0x1_0000 + s[6]);
        assert(segments_value(s) == segments_value(s7) * 0x1_0000 + s[7]);
    }
}

/// A peer serves compact filters exactly when the seventh bit of its service flags is set,
/// whatever the other bits and the rest of its entry are.
pub proof fn law_cbf_is_one_bit(entry: AddrsEntry)
    ensures
        entry.spec_is_cbf() <==> filter_bit(entry),
        entry.spec_is_cbf() <==> (entry.service >> 6) & 1 == 1,
{
    let x = entry.service;
    assert((x | 0x40 == x) == (x & 0x40 != 0)) by (bit_vector);
    assert((x | 0x40 == x) == ((x >> 6) & 1 == 1)) by (bit_vector);
}

/// The addresses that are counted as serving compact filters are those with an entry that has
/// the bit, and those counted as not serving them are those with an entry that lacks it.
pub proof fn law_counted_by_the_bit(m: Map<SocketAddr, AddrsEntry>, a: SocketAddr)
    ensures
        cbf_addrs(m).contains(a) <==> m.contains_key(a) && filter_bit(m[a]),
        non_cbf_addrs(m).contains(a) <==> m.contains_key(a) && !filter_bit(m[a]),
{
    law_cbf_is_one_bit(m[a]);
}

/// Of some entries, as many serve compact filters as have the bit, and as many do not as lack it.
pub proof fn law_kinds_in_entries(entries: Seq<AddrsEntry>)
    ensures
        cbf_in(entries) == entries.filter(|e: AddrsEntry| filter_bit(e)).len(),
        non_cbf_in(entries) == entries.filter(|e: AddrsEntry| !filter_bit(e)).len(),
    decreases entries.len(),
{
    reveal(Seq::filter);
    lemma_cbf_in_bound(entries);
    if entries.len() > 0 {
        law_kinds_in_entries(entries.drop_last());
        lemma_cbf_in_bound(entries.drop_last());
        law_cbf_is_one_bit(entries.last());
    }
}

/// How many addresses the first `n` lookups found together.
pub open spec fn found_before(lookups: Seq<Lookup>, n: int) -> int
    decreases n,
{
    if n <= 0 {
        0
    } else {
        found_before(lookups, n - 1) + lookups[n - 1]->Ok_0@.len()
    }
}

/// If all lookups succeeded, there are as many seeds as the lookups found together, and the j-th
/// address of the i-th lookup stands behind all those of the lookups before it, as the j-th of
/// its own.
pub proof fn law_seeds_hold_every_address(lookups: Seq<Lookup>, i: int, j: int)
    requires
        forall|k: int| 0 <= k < lookups.len() ==> (#[trigger] lookups[k]) is Ok,
    ensures
        found(lookups).len() == found_before(lookups, lookups.len() as int),
        0 <= i < lookups.len() && 0 <= j < lookups[i]->Ok_0@.len() ==> {
            &&& 0 <= found_before(lookups, i) + j < found(lookups).len()
            &&& found(lookups)[found_before(lookups, i) + j] == lookups[i]->Ok_0@[j]
        },
    decreases lookups.len(),
{
    if lookups.len() > 0 {
        let rest = lookups.drop_last();
        let n = rest.len() as int;
        assert forall|k: int| 0 <= k < rest.len() implies (#[trigger] rest[k]) is Ok by {
            assert(lookups[k] is Ok);
        }
        law_seeds_hold_every_address(rest, i, j);
        lemma_found_before_prefix(lookups, n);
        if 0 <= i <= n {
            lemma_found_before_prefix(lookups, i);
        }
        if 0 <= i < n {
            assert(rest[i] == lookups[i]);
        }
    }
}

proof fn lemma_found_before_prefix(lookups: Seq<Lookup>, n: int)
    requires
        lookups.len() > 0,
        n < lookups.len(),
    ensures
        found_before(lookups.drop_last(), n) == found_before(lookups, n),
        found_before(lookups, n) >= 0,
    decreases n,
{
    if n > 0 {
        lemma_found_before_prefix(lookups, n - 1);
    }
}

/// Lookups count as successful exactly when each of them found something or nothing without an
/// error. Otherwise the failure is the error of the one that failed before all others, as it is.
pub proof fn law_first_error_decides(lookups: Seq<Lookup>, e: AddrsMngrError)
    ensures
        all_found(lookups) <==> forall|i: int|
            0 <= i < lookups.len() ==> !((#[trigger] lookups[i]) is Err),
        first_failure(lookups, e) <==> exists|i: int|
            0 <= i < lookups.len() && (#[trigger] lookups[i]) is Err && e == AddrsMngrError::IO(
                lookups[i]->Err_0,
            ) && forall|j: int| 0 <= j < i ==> (#[trigger] lookups[j]) is Ok,
{
    if first_failure(lookups, e) {
        let i = choose|i: int|
            0 <= i < lookups.len() && (#[trigger] lookups[i]) is Err && all_found(lookups.take(i))
                && e == AddrsMngrError::IO(lookups[i]->Err_0);
        assert forall|j: int| 0 <= j < i implies (#[trigger] lookups[j]) is Ok by {
            assert(lookups.take(i)[j] is Ok);
        }
    }
    if exists|i: int|
        0 <= i < lookups.len() && (#[trigger] lookups[i]) is Err && e == AddrsMngrError::IO(
            lookups[i]->Err_0,
        ) && forall|j: int| 0 <= j < i ==> (#[trigger] lookups[j]) is Ok {
        let i = choose|i: int|
            0 <= i < lookups.len() && (#[trigger] lookups[i]) is Err && e == AddrsMngrError::IO(
                lookups[i]->Err_0,
            ) && forall|j: int| 0 <= j < i ==> (#[trigger] lookups[j]) is Ok;
        assert(all_found(lookups.take(i)));
    }
}

/// Offering addresses appends those, and only those, that are neither pending nor visited, each
/// at its first occurrence, in the order in which they were offered. The result gives their
/// positions. What was pending before stays in front, and nothing else changes.
pub proof fn law_offered_in_order(s: TaskState, addrs: Seq<SocketAddr>) -> (ks: Seq<int>)
    ensures
        ascending(ks),
        forall|k: int| #[trigger]
            ks.contains(k) <==> 0 <= k < addrs.len() && !s.pending.contains(addrs[k])
                && !s.visited.contains(addrs[k]) && forall|j: int|
                0 <= j < k ==> #[trigger] addrs[j] != addrs[k],
        s.offered(addrs).pending == s.pending + Seq::new(ks.len(), |p: int| addrs[ks[p]]),
        s.offered(addrs).visited == s.visited,
        s.offered(addrs).network == s.network,
        forall|a: SocketAddr|
            (#[trigger] s.offered(addrs).pending.contains(a)) <==> s.pending.contains(a) || (
            addrs.contains(a) && !s.visited.contains(a)),
    decreases addrs.len(),
{
    if addrs.len() == 0 {
        let ks = Seq::<int>::empty();
        assert(s.pending + Seq::new(ks.len(), |p: int| addrs[ks[p]]) =~= s.pending);
        ks
    } else {
        let rest = addrs.drop_last();
        let last = addrs.last();
        let n = rest.len() as int;
        let before = law_offered_in_order(s, rest);
        let t = s.offered(rest);
        assert forall|k: int| #[trigger] before.contains(k) <==> 0 <= k < n && !s.pending.contains(
            addrs[k],
        ) && !s.visited.contains(addrs[k]) && forall|j: int|
            0 <= j < k ==> #[trigger] addrs[j] != addrs[k] by {
            if 0 <= k < n {
                assert(rest[k] == addrs[k]);
                if forall|j: int| 0 <= j < k ==> #[trigger] rest[j] != rest[k] {
                    assert forall|j: int| 0 <= j < k implies #[trigger] addrs[j] != addrs[k] by {
                        assert(rest[j] == addrs[j]);
                    }
                }
                if forall|j: int| 0 <= j < k ==> #[trigger] addrs[j] != addrs[k] {
                    assert forall|j: int| 0 <= j < k implies #[trigger] rest[j] != rest[k] by {
                        assert(rest[j] == addrs[j]);
                    }
                }
            }
        }
        assert forall|p: int| 0 <= p < before.len() implies 0 <= #[trigger] before[p] < n by {
            assert(before.contains(before[p]));
        }
        let first = forall|j: int| 0 <= j < n ==> #[trigger] addrs[j] != addrs[n];
        assert(first <==> !rest.contains(last)) by {
            if rest.contains(last) {
                let j = choose|j: int| 0 <= j < rest.len() && rest[j] == last;
                assert(addrs[j] == addrs[n]);
            }
            if !first {
                let j = choose|j: int| 0 <= j < n && #[trigger] addrs[j] == addrs[n];
                assert(rest[j] == last);
            }
        }
        let fresh = !s.pending.contains(last) && !s.visited.contains(last) && first;
        assert(t.pending.contains(last) <==> s.pending.contains(last) || (rest.contains(last)
            && !s.visited.contains(last)));
        let ks = if fresh {
            before.push(n)
        } else {
            before
        };
        let after = s.offered(addrs);
        assert forall|k: int| #[trigger] ks.contains(k) <==> before.contains(k) || (fresh && k
            == n) by {
            if before.contains(k) {
                let p = choose|p: int| 0 <= p < before.len() && before[p] == k;
                assert(ks[p] == k);
            }
            if fresh && k == n {
                assert(ks[before.len() as int] == k);
            }
            if ks.contains(k) {
                let p = choose|p: int| 0 <= p < ks.len() && ks[p] == k;
                if p < before.len() {
                    assert(before[p] == k);
                }
            }
        }
        assert(after.pending =~= s.pending + Seq::new(ks.len(), |p: int| addrs[ks[p]]));
        assert forall|a: SocketAddr| (#[trigger] after.pending.contains(a)) <==> s.pending.contains(
            a,
        ) || (addrs.contains(a) && !s.visited.contains(a)) by {
            assert(t.pending.contains(a) <==> s.pending.contains(a) || (rest.contains(a)
                && !s.visited.contains(a)));
            if rest.contains(a) {
                let j = choose|j: int| 0 <= j < rest.len() && rest[j] == a;
                assert(addrs[j] == a);
            }
            if addrs.contains(a) {
                let j = choose|j: int| 0 <= j < addrs.len() && addrs[j] == a;
                if j < n {
                    assert(rest[j] == a);
                }
            }
            assert(addrs[n] == last);
            if t.pending.contains(a) {
                let j = choose|j: int| 0 <= j < t.pending.len() && t.pending[j] == a;
                assert(after.pending[j] == a);
            }
            if fresh {
                assert(after.pending[t.pending.len() as int] == last);
            }
            if after.pending.contains(a) {
                let j = choose|j: int| 0 <= j < after.pending.len() && after.pending[j] == a;
                if j < t.pending.len() {
                    assert(t.pending[j] == a);
                }
            }
        }
        ks
    }
}

/// Handing out the next address takes it, and it alone, from the front of the pending ones and
/// makes it, and it alone, visited.
pub proof fn law_handing_out(s: TaskState)
    requires
        s.pending.len() > 0,
    ensures
        s.popped().pending.len() == s.pending.len() - 1,
        forall|i: int|
            0 <= i < s.popped().pending.len() ==> #[trigger] s.popped().pending[i] == s.pending[i
                + 1],
        forall|a: SocketAddr| #[trigger]
            s.popped().visited.contains(a) <==> s.visited.contains(a) || a == s.pending[0],
        s.popped().network == s.network,
{
}

/// The eligible entries are those whose addresses are not excluded, in order.
pub proof fn law_eligible_are_not_excluded(
    excluded: Set<SocketAddr>,
    entries: Seq<AddrsEntry>,
)
    ensures
        eligible(excluded, entries) == entries.filter(
            |e: AddrsEntry| !excluded.contains(e.addr),
        ),
    decreases entries.len(),
{
    reveal(Seq::filter);
    if entries.len() > 0 {
        law_eligible_are_not_excluded(excluded, entries.drop_last());
    }
}

/// An entry is wanted exactly when its address is not excluded and fewer accepted entries than
/// the target agree with it in the bit for compact filters.
pub proof fn law_wanted_by_kind(
    excluded: Set<SocketAddr>,
    cbf_target: nat,
    non_cbf_target: nat,
    accepted: Seq<AddrsEntry>,
    entry: AddrsEntry,
)
    ensures
        wanted(excluded, cbf_target, non_cbf_target, accepted, entry) <==> !excluded.contains(
            entry.addr,
        ) && (if filter_bit(entry) {
            accepted.filter(|e: AddrsEntry| filter_bit(e)).len() < cbf_target
        } else {
            accepted.filter(|e: AddrsEntry| !filter_bit(e)).len() < non_cbf_target
        }),
{
    law_kinds_in_entries(accepted);
    law_cbf_is_one_bit(entry);
}

/// How many of the first `k` entries are not excluded and agree with the given one in the bit
/// for compact filters.
pub open spec fn rivals(
    excluded: Set<SocketAddr>,
    entries: Seq<AddrsEntry>,
    k: int,
    bit: bool,
) -> nat {
    entries.take(k).filter(
        |e: AddrsEntry| !excluded.contains(e.addr) && filter_bit(e) == bit,
    ).len()
}

/// Of the entries that come, a fetch accepts those, and only those, that are not excluded and
/// that fewer entries of their kind than the target preceded, in the order in which they come.
/// The result gives their positions.
pub proof fn law_selected_are_the_first_of_their_kind(
    excluded: Set<SocketAddr>,
    cbf_target: nat,
    non_cbf_target: nat,
    entries: Seq<AddrsEntry>,
) -> (ks: Seq<int>)
    ensures
        ascending(ks),
        forall|k: int| #[trigger]
            ks.contains(k) <==> 0 <= k < entries.len() && !excluded.contains(entries[k].addr)
                && rivals(excluded, entries, k, filter_bit(entries[k])) < (if filter_bit(
                entries[k],
            ) {
                cbf_target
            } else {
                non_cbf_target
            }),
        selected(excluded, cbf_target, non_cbf_target, entries) == Seq::new(
            ks.len(),
            |p: int| entries[ks[p]],
        ),
    decreases entries.len(),
{
    if entries.len() == 0 {
        let ks = Seq::<int>::empty();
        assert(Seq::new(ks.len(), |p: int| entries[ks[p]]) =~= seq![]);
        ks
    } else {
        let rest = entries.drop_last();
        let last = entries.last();
        let n = rest.len() as int;
        let before = law_selected_are_the_first_of_their_kind(
            excluded,
            cbf_target,
            non_cbf_target,
            rest,
        );
        let accepted = selected(excluded, cbf_target, non_cbf_target, rest);
        assert forall|k: int| 0 <= k <= n implies #[trigger] entries.take(k) == rest.take(k) by {
            assert(entries.take(k) =~= rest.take(k));
        }
        assert forall|p: int| 0 <= p < before.len() implies 0 <= #[trigger] before[p] < n by {
            assert(before.contains(before[p]));
        }
        law_selected_up_to_targets(excluded, cbf_target, non_cbf_target, rest);
        lemma_eligible_kinds(excluded, rest);
        assert(entries.take(n) =~= rest);
        law_cbf_is_one_bit(last);
        let take = wanted(excluded, cbf_target, non_cbf_target, accepted, last);
        let ks = if take {
            before.push(n)
        } else {
            before
        };
        assert forall|k: int| #[trigger] ks.contains(k) <==> before.contains(k) || (take && k
            == n) by {
            if before.contains(k) {
                let p = choose|p: int| 0 <= p < before.len() && before[p] == k;
                assert(ks[p] == k);
            }
            if take && k == n {
                assert(ks[before.len() as int] == k);
            }
            if ks.contains(k) {
                let p = choose|p: int| 0 <= p < ks.len() && ks[p] == k;
                if p < before.len() {
                    assert(before[p] == k);
                }
            }
        }
        assert forall|k: int| #[trigger] ks.contains(k) <==> 0 <= k < entries.len()
            && !excluded.contains(entries[k].addr) && rivals(
            excluded,
            entries,
            k,
            filter_bit(entries[k]),
        ) < (if filter_bit(entries[k]) {
            cbf_target
        } else {
            non_cbf_target
        }) by {
            if 0 <= k < n {
                assert(rest[k] == entries[k]);
                assert(rest.take(k) == entries.take(k));
            }
        }
        assert(selected(excluded, cbf_target, non_cbf_target, entries) =~= Seq::new(
            ks.len(),
            |p: int| entries[ks[p]],
        ));
        ks
    }
}

proof fn lemma_eligible_kinds(excluded: Set<SocketAddr>, entries: Seq<AddrsEntry>)
    ensures
        cbf_in(eligible(excluded, entries)) == entries.filter(
            |e: AddrsEntry| !excluded.contains(e.addr) && filter_bit(e) == true,
        ).len(),
        non_cbf_in(eligible(excluded, entries)) == entries.filter(
            |e: AddrsEntry| !excluded.contains(e.addr) && filter_bit(e) == false,
        ).len(),
    decreases entries.len(),
{
    reveal(Seq::filter);
    lemma_cbf_in_bound(eligible(excluded, entries));
    if entries.len() > 0 {
        let rest = entries.drop_last();
        lemma_eligible_kinds(excluded, rest);
        lemma_cbf_in_bound(eligible(excluded, rest));
        law_cbf_is_one_bit(entries.last());
        assert(eligible(excluded, rest).push(entries.last()).drop_last() =~= eligible(
            excluded,
            rest,
        ));
    }
}

/// The key of an address tells the version of the address, its ip and port, and for IPv6 its flow
/// information and scope.
pub proof fn law_key_holds_the_address(addr: SocketAddr)
    ensures
        ({
            let key = addr.spec_key();
            match addr {
                SocketAddr::V4 { ipv4, port } => key.0 == 4 && key.1 == ipv4 && key.2 == port
                    && key.3 == 0 && key.4 == 0,
                SocketAddr::V6 { ipv6, port, flowinfo, scope_id } => key.0 == 6 && key.1 == ipv6
                    && key.2 == port && key.3 == flowinfo && key.4 == scope_id,
            }
        }),
{
}

/// The number that a text of decimal digits denotes.
pub open spec fn numeral_value(text: Seq<char>) -> int
    decreases text.len(),
{
    if text.len() == 0 {
        0
    } else {
        numeral_value(text.drop_last()) * 10 + (text.last() as int - 0x30)
    }
}

/// Whether a text is a decimal number without leading zeros.
pub open spec fn is_numeral(text: Seq<char>) -> bool {
    &&& text.len() > 0
    &&& forall|i: int| 0 <= i < text.len() ==> 0x30 <= (#[trigger] text[i]) as int <= 0x39
    &&& text.len() > 1 ==> text[0] as int != 0x30
}

/// The decimal digits of a number are a numeral that denotes the number.
pub proof fn law_decimal_denotes(n: nat)
    ensures
        is_numeral(decimal(n)),
        numeral_value(decimal(n)) == n,
        n > 0 ==> decimal(n)[0] as int != 0x30,
    decreases n,
{
    let text = decimal(n);
    lemma_digit(n % 10);
    if n < 10 {
        assert(text.drop_last().len() == 0);
        assert(numeral_value(text.drop_last()) == 0);
    } else {
        law_decimal_denotes(n / 10);
        assert(text.drop_last() =~= decimal(n / 10));
    }
}

proof fn lemma_digit(n: nat)
    requires
        n < 10,
    ensures
        digit(n) as int == 0x30 + n,
{
}

/// The line that reports statistics names the number of pending addresses, then that of visited
/// ones, then those of the peers found with and without compact filters, each as a numeral that
/// denotes it. The result gives the four numerals.
pub proof fn law_statistics_line(data: DiscoveryData) -> (parts: (
    Seq<char>,
    Seq<char>,
    Seq<char>,
    Seq<char>,
))
    ensures
        data.spec_text() == "pending: "@ + parts.0 + ", visited: "@ + parts.1 + ", cbf_count: "@
            + parts.2 + ", non_cbf_count: "@ + parts.3,
        is_numeral(parts.0) && numeral_value(parts.0) == data.queued,
        is_numeral(parts.1) && numeral_value(parts.1) == data.visited,
        is_numeral(parts.2) && numeral_value(parts.2) == data.cbf_count,
        is_numeral(parts.3) && numeral_value(parts.3) == data.non_cbf_count,
{
    law_decimal_denotes(data.queued as nat);
    law_decimal_denotes(data.visited as nat);
    law_decimal_denotes(data.cbf_count as nat);
    law_decimal_denotes(data.non_cbf_count as nat);
    (
        decimal(data.queued as nat),
        decimal(data.visited as nat),
        decimal(data.cbf_count as nat),
        decimal(data.non_cbf_count as nat),
    )
}

/// The message on a closed channel is a fixed label, followed by the whole detail as it is.
pub proof fn law_channel_message_ends_in_detail(detail: String)
    ensures
        ({
            let text = AddrsMngrError::Mpsc(detail).spec_message();
            &&& text.len() == 21 + detail@.len()
            &&& text.take(21) == "Internal MPSC Error: "@
            &&& text.skip(21) == detail@
        }),
{
    reveal_strlit("Internal MPSC Error: ");
    let text = AddrsMngrError::Mpsc(detail).spec_message();
    assert(text.take(21) =~= "Internal MPSC Error: "@);
    assert(text.skip(21) =~= detail@);
}

/// The message on an I/O error or on a failed connection does not depend on the error.
pub proof fn law_messages_without_detail(io: std::io::Error, peer: PeerError)
    ensures
        AddrsMngrError::IO(io).spec_message() == "std IO Error"@,
        AddrsMngrError::Peer(peer).spec_message() == "P2P Network Error"@,
        forall|text: Seq<char>| #[trigger]
            CompactFiltersError::Peer(peer).described_by(text) <==> text == "Internal Peer Error"@,
{
}

/// The message on a database error is a fixed label, followed by the whole detail as it is.
pub proof fn law_database_message_ends_in_detail(detail: String, text: Seq<char>)
    ensures
        CompactFiltersError::Db(detail).described_by(text) <==> {
            &&& text.len() == 26 + detail@.len()
            &&& text.take(26) == "Internal database error : "@
            &&& text.skip(26) == detail@
        },
{
    reveal_strlit("Internal database error : ");
    let whole = "Internal database error : "@ + detail@;
    assert(whole.take(26) =~= "Internal database error : "@);
    assert(whole.skip(26) =~= detail@);
    if text.len() == 26 + detail@.len() && text.take(26) == "Internal database error : "@
        && text.skip(26) == detail@ {
        assert(text =~= text.take(26) + text.skip(26));
    }
}

/// The message on an I/O error, a filter error or a clock error is a label of its own, followed
/// by the whole text that the error displays as.
pub proof fn law_messages_end_in_displayed_error(
    io: std::io::Error,
    filter: bitcoin::util::bip158::Error,
    time: std::time::SystemTimeError,
    text: Seq<char>,
)
    ensures
        CompactFiltersError::Io(io).described_by(text) ==> exists|d: String| #[trigger]
            to_string_from_display_ensures(&io, d) && text == "Internal I/O error : "@ + d@,
        CompactFiltersError::Bip158(filter).described_by(text) ==> exists|d: String| #[trigger]
            to_string_from_display_ensures(&filter, d) && text == "Invalid BIP158 filter : "@ + d@,
        CompactFiltersError::Time(time).described_by(text) ==> exists|d: String| #[trigger]
            to_string_from_display_ensures(&time, d) && text == "Internal system time error : "@
                + d@,
{
    if CompactFiltersError::Io(io).described_by(text) {
        let d = choose|d: String| #[trigger]
            to_string_from_display_ensures(&io, d) && text == "Internal I/O error : "@
                + d@;
        assert(to_string_from_display_ensures(&io, d));
        assert(text =~= "Internal I/O error : "@ + d@);
    }
    if CompactFiltersError::Bip158(filter).described_by(text) {
        let d = choose|d: String| #[trigger]
            to_string_from_display_ensures(&filter, d) && text == "Invalid BIP158 filter : "@
                + d@;
        assert(to_string_from_display_ensures(&filter, d));
        assert(text =~= "Invalid BIP158 filter : "@ + d@);
    }
    if CompactFiltersError::Time(time).described_by(text) {
        let d = choose|d: String| #[trigger]
            to_string_from_display_ensures(&time, d) && text == "Internal system time error : "@
                + d@;
        assert(to_string_from_display_ensures(&time, d));
        assert(text =~= "Internal system time error : "@ + d@);
    }
}

/// An error that is turned into one of the address manager or of the node is kept as it is.
pub proof fn law_wrapped_errors_are_kept(
    io: std::io::Error,
    peer: PeerError,
    filter: bitcoin::util::bip158::Error,
    time: std::time::SystemTimeError,
)
    ensures
        <AddrsMngrError as FromSpec<std::io::Error>>::from_spec(io) == AddrsMngrError::IO(io),
        <AddrsMngrError as FromSpec<PeerError>>::from_spec(peer) == AddrsMngrError::Peer(peer),
        <CompactFiltersError as FromSpec<std::io::Error>>::from_spec(io)
            == CompactFiltersError::Io(io),
        <CompactFiltersError as FromSpec<PeerError>>::from_spec(peer)
            == CompactFiltersError::Peer(peer),
        <CompactFiltersError as FromSpec<bitcoin::util::bip158::Error>>::from_spec(filter)
            == CompactFiltersError::Bip158(filter),
        <CompactFiltersError as FromSpec<std::time::SystemTimeError>>::from_spec(time)
            == CompactFiltersError::Time(time),
{
}

} // verus!
