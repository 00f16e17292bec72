//! Known relays with measured latencies, the fastest first.
use vstd::prelude::*;

use crate::net::SocketAddr;
use crate::proto::{clone_opt, opt_text};
use crate::text::{chars_of, copy_range, index_of_from_exec, string_of};
use crate::time::Duration;

verus! {

broadcast use vstd::string::group_string_axioms;

/// A known relay endpoint with its measured latency.
#[derive(Debug, Clone)]
pub struct RelayEntry {
    pub name: String,
    pub addr: SocketAddr,
    pub region: Option<String>,
    /// Last measured round-trip time, in milliseconds.
    pub rtt_ms: Option<u32>,
    /// When the relay was last probed, in nanoseconds of a running clock.
    pub last_probed: Option<u64>,
    pub reachable: bool,
}

/// [`RelayEntry`] with its texts as character sequences.
pub struct EntryView {
    pub name: Seq<char>,
    pub addr: SocketAddr,
    pub region: Option<Seq<char>>,
    pub rtt_ms: Option<u32>,
    pub last_probed: Option<u64>,
    pub reachable: bool,
}

impl View for RelayEntry {
    type V = EntryView;

    open spec fn view(&self) -> EntryView {
        EntryView {
            name: self.name@,
            addr: self.addr,
            region: opt_text(self.region),
            rtt_ms: self.rtt_ms,
            last_probed: self.last_probed,
            reachable: self.reachable,
        }
    }
}

/// What entries are ordered by: the latency of a reachable relay; one without
/// a latency, or not reachable, comes last.
pub open spec fn key(e: EntryView) -> u32 {
    if e.reachable {
        match e.rtt_ms {
            Some(rtt) => rtt,
            None => u32::MAX,
        }
    } else {
        u32::MAX
    }
}

/// The order of entries.
pub open spec fn by_key() -> spec_fn(EntryView) -> u32 {
    |e: EntryView| key(e)
}

/// The entries in order of their keys; equal keys keep their order.
pub open spec fn stable_sort(s: Seq<EntryView>) -> Seq<EntryView> {
    crate::order::stable_sort(s, by_key())
}

pub open spec fn sorted(s: Seq<EntryView>) -> bool {
    crate::order::sorted(s, by_key())
}

pub open spec fn distinct(s: Seq<EntryView>) -> bool {
    forall|i: int, j: int|
        0 <= i < j < s.len() ==> (#[trigger] s[i]).addr != (#[trigger] s[j]).addr
}

/// The index of the first entry for `addr`, or the length.
pub open spec fn index_of(s: Seq<EntryView>, addr: SocketAddr) -> int
    decreases s.len(),
{
    if s.len() == 0 {
        0
    } else if s[0].addr == addr {
        0
    } else {
        1 + index_of(s.skip(1), addr)
    }
}

/// Adds a relay, or renames it; a region is only ever replaced by another.
pub open spec fn upserted(
    s: Seq<EntryView>,
    name: Seq<char>,
    addr: SocketAddr,
    region: Option<Seq<char>>,
) -> Seq<EntryView> {
    let i = index_of(s, addr);
    if i < s.len() {
        s.update(
            i,
            EntryView {
                name,
                region: if region is Some {
                    region
                } else {
                    s[i].region
                },
                ..s[i]
            },
        )
    } else {
        s.push(
            EntryView {
                name,
                addr,
                region,
                rtt_ms: None,
                last_probed: None,
                reachable: false,
            },
        )
    }
}

/// Records a round-trip time for the entry of `addr`.
pub open spec fn measured(s: Seq<EntryView>, addr: SocketAddr, rtt_ms: u32, now: u64) -> Seq<
    EntryView,
> {
    let i = index_of(s, addr);
    if i < s.len() {
        s.update(
            i,
            EntryView {
                rtt_ms: Some(rtt_ms),
                last_probed: Some(now),
                reachable: true,
                ..s[i]
            },
        )
    } else {
        s
    }
}

/// Records that the relay at `addr` did not answer.
pub open spec fn lost(s: Seq<EntryView>, addr: SocketAddr, now: u64) -> Seq<EntryView> {
    let i = index_of(s, addr);
    if i < s.len() {
        s.update(i, EntryView { last_probed: Some(now), reachable: false, ..s[i] })
    } else {
        s
    }
}

/// The relay that `name|address` names.
pub open spec fn ack_entry(t: Seq<char>) -> Option<(Seq<char>, SocketAddr)> {
    let k = crate::text::index_of_from(t, 0, '|');
    if k < t.len() {
        match crate::net::parse_socket(t.skip(k + 1)) {
            Some(a) => Some((t.take(k), a)),
            None => None,
        }
    } else {
        None
    }
}

/// Takes over every relay of a list that is well formed.
pub open spec fn populated(s: Seq<EntryView>, relays: Seq<Seq<char>>) -> Seq<EntryView>
    decreases relays.len(),
{
    if relays.len() == 0 {
        s
    } else {
        let before = populated(s, relays.drop_last());
        match ack_entry(relays.last()) {
            Some((name, addr)) => upserted(before, name, addr, None),
            None => before,
        }
    }
}

/// The entry has not been probed for longer than `max_age`.
pub open spec fn stale(e: EntryView, max_age: Duration, now: u64) -> bool {
    match e.last_probed {
        None => true,
        Some(t) => now - t > max_age.nanos,
    }
}

// ---------------------------------------------------------------------------
// Laws of the order
// ---------------------------------------------------------------------------

/// Sorting orders the entries by key and keeps each of them.
pub proof fn lemma_stable_sort(s: Seq<EntryView>)
    ensures
        sorted(stable_sort(s)),
        forall|i: int, j: int|
            0 <= i < j < s.len() ==> key(#[trigger] stable_sort(s)[i]) <= key(
                #[trigger] stable_sort(s)[j],
            ),
        stable_sort(s).to_multiset() == s.to_multiset(),
        stable_sort(s).len() == s.len(),
{
    crate::order::lemma_stable_sort(s, by_key());
}

pub open spec fn has_key(k: u32) -> spec_fn(EntryView) -> bool {
    |e: EntryView| key(e) == k
}

/// The entries with key `k`, in the order in which they stand.
pub open spec fn with_key(s: Seq<EntryView>, k: u32) -> Seq<EntryView> {
    s.filter(has_key(k))
}

/// An entry keeps its place among the entries with its key: those with one
/// key are the same, in the same order, before and after sorting.
pub proof fn lemma_equal_keys_keep_order(s: Seq<EntryView>, k: u32)
    ensures
        with_key(stable_sort(s), k) == with_key(s, k),
{
    crate::order::lemma_equal_keys_keep_order(s, by_key(), k);
    assert(has_key(k) =~= crate::order::has_key(by_key(), k));
}

/// What is sorted already stays as it is.
pub proof fn lemma_sorted_unchanged(s: Seq<EntryView>)
    requires
        sorted(s),
    ensures
        stable_sort(s) == s,
{
    crate::order::lemma_sorted_unchanged(s, by_key());
}

proof fn lemma_sort_addrs(s: Seq<EntryView>, addr: SocketAddr)
    ensures
        (exists|i: int| 0 <= i < stable_sort(s).len() && (#[trigger] stable_sort(s)[i]).addr == addr)
            <==> (exists|i: int| 0 <= i < s.len() && (#[trigger] s[i]).addr == addr),
        stable_sort(s).len() == s.len(),
    decreases s.len(),
{
    if s.len() > 0 {
        let t = s.drop_last();
        let front = stable_sort(t);
        lemma_sort_addrs(t, addr);
        crate::order::lemma_place(front, by_key(), key(s.last()));
        let p = crate::order::place(front, by_key(), key(s.last()));
        let r = stable_sort(s);
        assert(r[p] == s.last());
        if exists|i: int| 0 <= i < r.len() && (#[trigger] r[i]).addr == addr {
            let i = choose|i: int| 0 <= i < r.len() && (#[trigger] r[i]).addr == addr;
            if i == p {
                assert(s[s.len() - 1].addr == addr);
            } else {
                let o = if i < p {
                    i
                } else {
                    i - 1
                };
                assert(front[o].addr == addr);
                let j = choose|j: int| 0 <= j < t.len() && (#[trigger] t[j]).addr == addr;
                assert(s[j].addr == addr);
            }
        }
        if exists|i: int| 0 <= i < s.len() && (#[trigger] s[i]).addr == addr {
            let i = choose|i: int| 0 <= i < s.len() && (#[trigger] s[i]).addr == addr;
            if i == s.len() - 1 {
                assert(r[p].addr == addr);
            } else {
                assert(t[i].addr == addr);
                let j = choose|j: int| 0 <= j < front.len() && (#[trigger] front[j]).addr == addr;
                let n = if j < p {
                    j
                } else {
                    j + 1
                };
                assert(r[n].addr == addr);
            }
        }
    }
}

proof fn lemma_sort_distinct(s: Seq<EntryView>)
    requires
        distinct(s),
    ensures
        distinct(stable_sort(s)),
    decreases s.len(),
{
    if s.len() > 0 {
        let t = s.drop_last();
        assert forall|i: int, j: int| 0 <= i < j < t.len() implies (#[trigger] t[i]).addr != (
        #[trigger] t[j]).addr by {
            assert(t[i] == s[i] && t[j] == s[j]);
        }
        lemma_sort_distinct(t);
        let front = stable_sort(t);
        crate::order::lemma_place(front, by_key(), key(s.last()));
        let p = crate::order::place(front, by_key(), key(s.last()));
        let r = stable_sort(s);
        lemma_sort_addrs(t, s.last().addr);
        assert forall|i: int| 0 <= i < front.len() implies (#[trigger] front[i]).addr
            != s.last().addr by {
            if front[i].addr == s.last().addr {
                let j = choose|j: int| 0 <= j < t.len() && (#[trigger] t[j]).addr == s.last().addr;
                assert(s[j].addr == s[s.len() - 1].addr);
            }
        }
        assert forall|i: int, j: int| 0 <= i < j < r.len() implies (#[trigger] r[i]).addr != (
        #[trigger] r[j]).addr by {
            let oi = if i < p {
                i
            } else {
                i - 1
            };
            let oj = if j < p {
                j
            } else {
                j - 1
            };
            if i != p {
                assert(r[i] == front[oi]);
            }
            if j != p {
                assert(r[j] == front[oj]);
            }
        }
    }
}

proof fn lemma_index_of(s: Seq<EntryView>, addr: SocketAddr)
    ensures
        0 <= index_of(s, addr) <= s.len(),
        index_of(s, addr) < s.len() ==> s[index_of(s, addr)].addr == addr,
        forall|i: int| 0 <= i < index_of(s, addr) ==> (#[trigger] s[i]).addr != addr,
    decreases s.len(),
{
    if s.len() > 0 && s[0].addr != addr {
        lemma_index_of(s.skip(1), addr);
        assert forall|i: int| 0 <= i < index_of(s, addr) implies (#[trigger] s[i]).addr != addr by {
            if i > 0 {
                assert(s[i] == s.skip(1)[i - 1]);
            }
        }
    }
}

/// Adding or renaming a relay keeps the order and does not make two entries
/// for one address.
pub proof fn lemma_upserted(
    s: Seq<EntryView>,
    name: Seq<char>,
    addr: SocketAddr,
    region: Option<Seq<char>>,
)
    requires
        sorted(s),
        distinct(s),
    ensures
        sorted(upserted(s, name, addr, region)),
        distinct(upserted(s, name, addr, region)),
{
    lemma_index_of(s, addr);
    let t = upserted(s, name, addr, region);
    assert forall|i: int, j: int| 0 <= i < j < t.len() implies key(#[trigger] t[i]) <= key(
        #[trigger] t[j],
    ) && t[i].addr != t[j].addr by {
        if j < s.len() {
            assert(key(s[i]) <= key(s[j]));
        }
    }
}

/// The relay that comes first among the reachable ones with a latency has the
/// lowest latency of them all.
pub proof fn lemma_preferred_is_fastest(s: Seq<EntryView>, i: int, j: int)
    requires
        sorted(s),
        0 <= i < s.len(),
        0 <= j < s.len(),
        s[i].reachable && s[i].rtt_ms is Some,
        s[j].reachable && s[j].rtt_ms is Some,
        forall|k: int|
            0 <= k < i ==> !((#[trigger] s[k]).reachable && s[k].rtt_ms is Some),
    ensures
        s[i].rtt_ms->0 <= s[j].rtt_ms->0,
{
    if i < j {
        assert(key(s[i]) <= key(s[j]));
    }
}

/// Of two relays that answer, the faster one is ordered first; one that does
/// not answer, or was never measured, is never ordered before one that does.
pub proof fn lemma_key_order(a: EntryView, b: EntryView)
    ensures
        a.reachable && b.reachable && a.rtt_ms is Some && b.rtt_ms is Some ==> (key(a) < key(b)
            <==> a.rtt_ms->0 < b.rtt_ms->0),
        !(a.reachable && a.rtt_ms is Some) ==> key(b) <= key(a),
{
}

/// `e` is one of `s`.
pub open spec fn holds(s: Seq<EntryView>, e: EntryView) -> bool {
    s.contains(e)
}

proof fn lemma_sort_holds(s: Seq<EntryView>, e: EntryView)
    ensures
        holds(stable_sort(s), e) <==> holds(s, e),
{
    broadcast use vstd::seq_lib::group_to_multiset_ensures;

    lemma_stable_sort(s);
    assert(stable_sort(s).contains(e) <==> stable_sort(s).to_multiset().count(e) > 0);
    assert(s.contains(e) <==> s.to_multiset().count(e) > 0);
}

/// Replacing the entry of an address replaces that one alone.
proof fn lemma_replaced(s: Seq<EntryView>, addr: SocketAddr, e: EntryView, other: EntryView)
    requires
        distinct(s),
        index_of(s, addr) < s.len(),
        e.addr == addr,
    ensures
        holds(s.update(index_of(s, addr), e), e),
        other.addr != addr ==> (holds(s.update(index_of(s, addr), e), other) <==> holds(s, other)),
        other.addr == addr && holds(s.update(index_of(s, addr), e), other) ==> other == e,
{
    lemma_index_of(s, addr);
    let i = index_of(s, addr);
    let t = s.update(i, e);
    assert(t[i] == e);
    if holds(t, other) {
        let j = choose|j: int| 0 <= j < t.len() && t[j] == other;
        if j != i {
            assert(s[j] == other);
        }
    }
    if holds(s, other) && other.addr != addr {
        let j = choose|j: int| 0 <= j < s.len() && s[j] == other;
        assert(t[j] == other);
    }
}

/// A measurement is kept: the entry of the address has the time that was
/// measured and when, and counts as reachable, under its name and in its
/// region; every other entry stays as it was, and none is added.
pub proof fn lemma_measurement_kept(
    s: Seq<EntryView>,
    before: EntryView,
    rtt_ms: u32,
    now: u64,
    other: EntryView,
)
    requires
        distinct(s),
        holds(s, before),
    ensures
        ({
            let after = stable_sort(measured(s, before.addr, rtt_ms, now));
            &&& holds(
                after,
                EntryView {
                    name: before.name,
                    addr: before.addr,
                    region: before.region,
                    rtt_ms: Some(rtt_ms),
                    last_probed: Some(now),
                    reachable: true,
                },
            )
            &&& other.addr != before.addr ==> (holds(after, other) <==> holds(s, other))
            &&& after.len() == s.len()
        }),
{
    let i = choose|i: int| 0 <= i < s.len() && s[i] == before;
    lemma_index_of(s, before.addr);
    assert(index_of(s, before.addr) == i);
    let e = EntryView {
        name: before.name,
        addr: before.addr,
        region: before.region,
        rtt_ms: Some(rtt_ms),
        last_probed: Some(now),
        reachable: true,
    };
    lemma_replaced(s, before.addr, e, other);
    let t = measured(s, before.addr, rtt_ms, now);
    assert(t == s.update(i, e));
    lemma_sort_holds(t, e);
    lemma_sort_holds(t, other);
    lemma_stable_sort(t);
}

/// So is a failure: the entry is no longer reachable and was probed now, but
/// keeps the last time measured.
pub proof fn lemma_failure_kept(
    s: Seq<EntryView>,
    before: EntryView,
    now: u64,
    other: EntryView,
)
    requires
        distinct(s),
        holds(s, before),
    ensures
        ({
            let after = stable_sort(lost(s, before.addr, now));
            &&& holds(
                after,
                EntryView {
                    name: before.name,
                    addr: before.addr,
                    region: before.region,
                    rtt_ms: before.rtt_ms,
                    last_probed: Some(now),
                    reachable: false,
                },
            )
            &&& other.addr != before.addr ==> (holds(after, other) <==> holds(s, other))
            &&& after.len() == s.len()
        }),
{
    let i = choose|i: int| 0 <= i < s.len() && s[i] == before;
    lemma_index_of(s, before.addr);
    assert(index_of(s, before.addr) == i);
    let e = EntryView {
        name: before.name,
        addr: before.addr,
        region: before.region,
        rtt_ms: before.rtt_ms,
        last_probed: Some(now),
        reachable: false,
    };
    lemma_replaced(s, before.addr, e, other);
    let t = lost(s, before.addr, now);
    assert(t == s.update(i, e));
    lemma_sort_holds(t, e);
    lemma_sort_holds(t, other);
    lemma_stable_sort(t);
}

/// An address that is not in the map is neither measured nor lost.
pub proof fn lemma_unknown_address(s: Seq<EntryView>, addr: SocketAddr, rtt_ms: u32, now: u64)
    requires
        forall|i: int| 0 <= i < s.len() ==> (#[trigger] s[i]).addr != addr,
    ensures
        measured(s, addr, rtt_ms, now) == s,
        lost(s, addr, now) == s,
{
    lemma_index_of(s, addr);
}

/// A relay that is put in is in the map under its name: as a new entry
/// without a measurement, or with the measurements that it had; a region
/// that is not given is not taken away. Every other entry stays.
pub proof fn lemma_upsert_kept(
    s: Seq<EntryView>,
    name: Seq<char>,
    addr: SocketAddr,
    region: Option<Seq<char>>,
    other: EntryView,
)
    requires
        distinct(s),
    ensures
        ({
            let after = upserted(s, name, addr, region);
            &&& other.addr != addr ==> (holds(after, other) <==> holds(s, other))
            &&& forall|e: EntryView| #[trigger]
                holds(s, e) && e.addr == addr ==> after.len() == s.len() && holds(
                    after,
                    EntryView {
                        name,
                        region: if region is None {
                            e.region
                        } else {
                            region
                        },
                        ..e
                    },
                )
            &&& (forall|e: EntryView| #[trigger] holds(s, e) ==> e.addr != addr) ==> after
                == s.push(
                EntryView {
                    name,
                    addr,
                    region,
                    rtt_ms: None,
                    last_probed: None,
                    reachable: false,
                },
            )
        }),
{
    let after = upserted(s, name, addr, region);
    let i = index_of(s, addr);
    lemma_index_of(s, addr);
    if i < s.len() {
        assert(holds(s, s[i]));
        lemma_replaced(s, addr, after[i], other);
        assert forall|e: EntryView| #[trigger] holds(s, e) && e.addr == addr implies after.len()
            == s.len() && holds(
            after,
            EntryView {
                name,
                region: if region is None {
                    e.region
                } else {
                    region
                },
                ..e
            },
        ) by {
            let j = choose|j: int| 0 <= j < s.len() && s[j] == e;
            assert(j == i);
            assert(after[i] == (EntryView {
                name,
                region: if region is None {
                    e.region
                } else {
                    region
                },
                ..e
            }));
        }
    } else {
        assert forall|e: EntryView| #[trigger] holds(s, e) implies e.addr != addr by {
            let j = choose|j: int| 0 <= j < s.len() && s[j] == e;
        }
        if holds(after, other) && other.addr != addr {
            let j = choose|j: int| 0 <= j < after.len() && after[j] == other;
            assert(s[j] == other);
        }
        if holds(s, other) {
            let j = choose|j: int| 0 <= j < s.len() && s[j] == other;
            assert(after[j] == other);
        }
    }
}

/// Some entry has the address.
pub open spec fn knows(s: Seq<EntryView>, addr: SocketAddr) -> bool {
    exists|i: int| 0 <= i < s.len() && (#[trigger] s[i]).addr == addr
}

/// After an acknowledgement the map knows the relays that it knew before and
/// those that are listed, and no others; what is not well formed is passed
/// over.
pub proof fn lemma_populated_knows(s: Seq<EntryView>, relays: Seq<Seq<char>>, addr: SocketAddr)
    ensures
        knows(populated(s, relays), addr) <==> knows(s, addr) || exists|i: int|
            0 <= i < relays.len() && (#[trigger] ack_entry(relays[i]) matches Some((_, a)) && a
                == addr),
    decreases relays.len(),
{
    if relays.len() > 0 {
        let shorter = relays.drop_last();
        let before = populated(s, shorter);
        let after = populated(s, relays);
        let last = relays[relays.len() - 1];
        lemma_populated_knows(s, shorter, addr);
        assert forall|i: int| 0 <= i < shorter.len() implies #[trigger] shorter[i]
            == relays[i] by {}
        if let Some((name, a)) = ack_entry(last) {
            lemma_index_of(before, a);
            let k = index_of(before, a);
            if knows(before, addr) {
                let i = choose|i: int| 0 <= i < before.len() && (#[trigger] before[i]).addr == addr;
                assert(after[i].addr == addr);
            }
            if a == addr {
                assert(after[k].addr == addr);
            }
            if knows(after, addr) && a != addr {
                let i = choose|i: int| 0 <= i < after.len() && (#[trigger] after[i]).addr == addr;
                assert(before[i].addr == addr);
            }
        }
        if exists|i: int|
            0 <= i < shorter.len() && (#[trigger] ack_entry(shorter[i]) matches Some((_, a)) && a
                == addr) {
            let i = choose|i: int|
                0 <= i < shorter.len() && (#[trigger] ack_entry(shorter[i]) matches Some((_, a))
                    && a == addr);
            assert(ack_entry(relays[i]) matches Some((_, a)) && a == addr);
        }
        if exists|i: int|
            0 <= i < relays.len() && (#[trigger] ack_entry(relays[i]) matches Some((_, a)) && a
                == addr) {
            let i = choose|i: int|
                0 <= i < relays.len() && (#[trigger] ack_entry(relays[i]) matches Some((_, a)) && a
                    == addr);
            if i < shorter.len() {
                assert(ack_entry(shorter[i]) matches Some((_, a)) && a == addr);
            }
        }
    }
}

/// A probe is good for exactly `max_age`: at its end the entry need not be
/// probed again, a nanosecond later it must be. What was never probed always
/// must.
pub proof fn lemma_probe_lasts(e: EntryView, max_age: Duration, probed: u64, now: u64)
    requires
        e.last_probed == Some(probed),
    ensures
        now <= probed + max_age.nanos ==> !stale(e, max_age, now),
        now > probed + max_age.nanos ==> stale(e, max_age, now),
        stale(EntryView { last_probed: None, ..e }, max_age, now),
{
}

/// The way that a relay is listed in an acknowledgement.
pub open spec fn ack_text(name: Seq<char>, addr: SocketAddr) -> Seq<char> {
    name + seq!['|'] + crate::net::socket_text(addr)
}

/// A relay that is listed is read back, given that its name has no bar.
pub proof fn lemma_ack_round_trip(name: Seq<char>, addr: SocketAddr)
    requires
        !name.contains('|'),
    ensures
        ack_entry(ack_text(name, addr)) == Some((name, addr)),
{
    let t = ack_text(name, addr);
    let n = name.len() as int;
    crate::text::lemma_index_of_from(t, 0, '|');
    let k = crate::text::index_of_from(t, 0, '|');
    assert(t[n] == '|');
    if k < n {
        assert(t[k] == name[k]);
        assert(name.contains(name[k]));
    }
    assert(k == n);
    assert(t.take(k) =~= name);
    assert(t.skip(k + 1) =~= crate::net::socket_text(addr));
    crate::net::lemma_socket_round_trip(addr);
}

// ---------------------------------------------------------------------------
// The map
// ---------------------------------------------------------------------------

/// Relays by address, in order of latency.
#[derive(Debug, Clone)]
pub struct RelayMap {
    entries: Vec<RelayEntry>,
}

pub open spec fn entries_view(v: Seq<RelayEntry>) -> Seq<EntryView> {
    v.map_values(|e: RelayEntry| e@)
}

impl View for RelayMap {
    type V = Seq<EntryView>;

    closed spec fn view(&self) -> Seq<EntryView> {
        entries_view(self.entries@)
    }
}

impl crate::order::Keyed for RelayEntry {
    open spec fn by_key() -> spec_fn(EntryView) -> u32 {
        by_key()
    }

    fn sort_key(&self) -> (r: u32) {
        if self.reachable {
            match self.rtt_ms {
                Some(rtt) => rtt,
                None => u32::MAX,
            }
        } else {
            u32::MAX
        }
    }
}

impl Default for RelayMap {
    fn default() -> (r: Self)
        ensures
            r.wf(),
            r@ == Seq::<EntryView>::empty(),
    {
        RelayMap::new()
    }
}

impl RelayMap {
    /// Entries are in order, and no address has two.
    pub open spec fn wf(&self) -> bool {
        sorted(self@) && distinct(self@)
    }

    pub fn new() -> (r: Self)
        ensures
            r.wf(),
            r@ == Seq::<EntryView>::empty(),
    {
        let r = RelayMap { entries: Vec::new() };
        assert(r@ =~= Seq::<EntryView>::empty());
        r
    }

    fn find(&self, addr: SocketAddr) -> (r: usize)
        ensures
            r == index_of(self@, addr),
            r <= self.entries@.len(),
    {
        let mut i: usize = 0;
        assert(self@.skip(0) =~= self@);
        while i < self.entries.len() && self.entries[i].addr != addr
            invariant
                i <= self.entries@.len(),
                self@.len() == self.entries@.len(),
                index_of(self@, addr) == i + index_of(self@.skip(i as int), addr),
            decreases self.entries.len() - i,
        {
            assert(self@.skip(i as int)[0] == self.entries@[i as int]@);
            assert(self@.skip(i as int).skip(1) =~= self@.skip(i + 1));
            i += 1;
        }
        if i < self.entries.len() {
            assert(self@.skip(i as int)[0] == self.entries@[i as int]@);
        }
        i
    }

    /// Adds or updates a relay entry.
    pub fn upsert(&mut self, name: &str, addr: SocketAddr, region: Option<String>)
        requires
            old(self).wf(),
        ensures
            final(self).wf(),
            final(self)@ == upserted(old(self)@, name@, addr, opt_text(region)),
    {
        let ghost start = self@;
        proof {
            lemma_upserted(start, name@, addr, opt_text(region));
        }
        let i: usize = self.find(addr);
        if i < self.entries.len() {
            let mut e = self.entries.remove(i);
            e.name = crate::text::string_of(chars_of(name).as_slice());
            if region.is_some() {
                e.region = region;
            }
            self.entries.insert(i, e);
            assert(self@ =~= upserted(start, name@, addr, opt_text(region)));
        } else {
            let e = RelayEntry {
                name: string_of(chars_of(name).as_slice()),
                addr,
                region,
                rtt_ms: None,
                last_probed: None,
                reachable: false,
            };
            self.entries.push(e);
            assert(self@ =~= upserted(start, name@, addr, opt_text(region)));
        }
    }

    fn sort(&mut self)
        ensures
            final(self)@ == stable_sort(old(self)@),
    {
        let mut rows: Vec<RelayEntry> = Vec::new();
        std::mem::swap(&mut rows, &mut self.entries);
        let ghost before = rows@;
        self.entries = crate::order::sort_rows(rows);
        proof {
            assert(crate::order::views(before) =~= entries_view(before));
            assert(crate::order::views(self.entries@) =~= self@);
        }
    }

    /// Records a round-trip time, measured at `now`.
    pub fn update_rtt(&mut self, addr: SocketAddr, rtt_ms: u32, now: u64)
        requires
            old(self).wf(),
        ensures
            final(self).wf(),
            final(self)@ == stable_sort(measured(old(self)@, addr, rtt_ms, now)),
    {
        let ghost start = self@;
        let i: usize = self.find(addr);
        proof {
            lemma_index_of(start, addr);
        }
        if i < self.entries.len() {
            let mut e = self.entries.remove(i);
            e.rtt_ms = Some(rtt_ms);
            e.last_probed = Some(now);
            e.reachable = true;
            self.entries.insert(i, e);
        }
        proof {
            assert(self@ =~= measured(start, addr, rtt_ms, now));
            let t = measured(start, addr, rtt_ms, now);
            assert forall|a: int, b: int| 0 <= a < b < t.len() implies (#[trigger] t[a]).addr != (
            #[trigger] t[b]).addr by {
                assert(start[a].addr != start[b].addr);
            }
            lemma_stable_sort(t);
            lemma_sort_distinct(t);
        }
        self.sort();
    }

    /// Records that a relay did not answer at `now`.
    pub fn mark_unreachable(&mut self, addr: SocketAddr, now: u64)
        requires
            old(self).wf(),
        ensures
            final(self).wf(),
            final(self)@ == stable_sort(lost(old(self)@, addr, now)),
    {
        let ghost start = self@;
        let i: usize = self.find(addr);
        proof {
            lemma_index_of(start, addr);
        }
        if i < self.entries.len() {
            let mut e = self.entries.remove(i);
            e.reachable = false;
            e.last_probed = Some(now);
            self.entries.insert(i, e);
        }
        proof {
            assert(self@ =~= lost(start, addr, now));
            let t = lost(start, addr, now);
            assert forall|a: int, b: int| 0 <= a < b < t.len() implies (#[trigger] t[a]).addr != (
            #[trigger] t[b]).addr by {
                assert(start[a].addr != start[b].addr);
            }
            lemma_stable_sort(t);
            lemma_sort_distinct(t);
        }
        self.sort();
    }

    /// The reachable relay with the lowest latency.
    pub fn preferred(&self) -> (r: Option<&RelayEntry>)
        requires
            self.wf(),
        ensures
            match r {
                Some(e) => {
                    &&& e@.reachable && e@.rtt_ms is Some
                    &&& exists|i: int|
                        0 <= i < self@.len() && #[trigger] self@[i] == e@ && forall|k: int|
                            0 <= k < i ==> !((#[trigger] self@[k]).reachable && self@[k].rtt_ms is Some)
                    &&& forall|j: int|
                        0 <= j < self@.len() && (#[trigger] self@[j]).reachable && self@[j].rtt_ms is Some
                            ==> e@.rtt_ms->0 <= self@[j].rtt_ms->0
                },
                None => forall|j: int|
                    0 <= j < self@.len() ==> !((#[trigger] self@[j]).reachable && self@[j].rtt_ms is Some),
            },
    {
        let mut i: usize = 0;
        while i < self.entries.len()
            invariant
                i <= self.entries@.len(),
                self.wf(),
                self@.len() == self.entries@.len(),
                forall|k: int|
                    0 <= k < i ==> !((#[trigger] self@[k]).reachable && self@[k].rtt_ms is Some),
            decreases self.entries.len() - i,
        {
            assert(self@[i as int] == self.entries@[i as int]@);
            if self.entries[i].reachable && self.entries[i].rtt_ms.is_some() {
                proof {
                    assert forall|j: int|
                        0 <= j < self@.len() && (#[trigger] self@[j]).reachable && self@[j].rtt_ms is Some
                        implies self@[i as int].rtt_ms->0 <= self@[j].rtt_ms->0 by {
                        lemma_preferred_is_fastest(self@, i as int, j);
                    }
                }
                return Some(&self.entries[i]);
            }
            i += 1;
        }
        None
    }

    /// All entries, in order of latency.
    pub fn entries(&self) -> (r: &[RelayEntry])
        ensures
            entries_view(r@) == self@,
    {
        self.entries.as_slice()
    }

    /// Takes over the relays of a presence acknowledgement, each given as
    /// `name|address`; the region of the current relay is not used.
    pub fn populate_from_ack(&mut self, relays: &[String], relay_region: Option<&str>)
        requires
            old(self).wf(),
        ensures
            final(self).wf(),
            final(self)@ == populated(old(self)@, crate::stun::texts(relays@)),
    {
        let ghost start = self@;
        let ghost all = crate::stun::texts(relays@);
        let mut i: usize = 0;
        assert(all.take(0) =~= Seq::empty());
        while i < relays.len()
            invariant
                i <= relays@.len(),
                all == crate::stun::texts(relays@),
                self.wf(),
                self@ == populated(start, all.take(i as int)),
            decreases relays.len() - i,
        {
            proof {
                assert(all.take(i + 1).drop_last() =~= all.take(i as int));
                assert(all.take(i + 1).last() == relays@[i as int]@);
            }
            let t = chars_of(relays[i].as_str());
            let k: usize = index_of_from_exec(t.as_slice(), 0, '|');
            if k < t.len() {
                let name = copy_range(t.as_slice(), 0, k);
                let addr_text = copy_range(t.as_slice(), k + 1, t.len());
                assert(name@ =~= t@.take(k as int));
                assert(addr_text@ =~= t@.skip(k + 1));
                if let Some(addr) = crate::net::parse_socket_exec(addr_text.as_slice()) {
                    self.upsert(string_of(name.as_slice()).as_str(), addr, None);
                }
            }
            i += 1;
        }
        assert(all.take(i as int) =~= all);
    }

    /// Whether any entry was never probed or not within `max_age` of `now`.
    pub fn needs_reprobe(&self, max_age: Duration, now: u64) -> (r: bool)
        ensures
            r == exists|i: int| 0 <= i < self@.len() && stale(#[trigger] self@[i], max_age, now),
    {
        let mut i: usize = 0;
        while i < self.entries.len()
            invariant
                i <= self.entries@.len(),
                self@.len() == self.entries@.len(),
                forall|k: int| 0 <= k < i ==> !stale(#[trigger] self@[k], max_age, now),
            decreases self.entries.len() - i,
        {
            assert(self@[i as int] == self.entries@[i as int]@);
            if entry_stale(&self.entries[i], max_age, now) {
                return true;
            }
            i += 1;
        }
        false
    }

    /// Name and address of every entry that needs a probe, in order.
    pub fn stale_entries(&self, max_age: Duration, now: u64) -> (r: Vec<(String, SocketAddr)>)
        ensures
            r@.map_values(|e: (String, SocketAddr)| (e.0@, e.1)) == self@.filter(
                |e: EntryView| stale(e, max_age, now),
            ).map_values(|e: EntryView| (e.name, e.addr)),
    {
        broadcast use vstd::seq_lib::group_filter_ensures;

        let ghost pred = |e: EntryView| stale(e, max_age, now);
        let ghost short = |e: EntryView| (e.name, e.addr);
        let mut r: Vec<(String, SocketAddr)> = Vec::new();
        let mut i: usize = 0;
        proof {
            reveal(Seq::filter);
            assert(self@.take(0) =~= Seq::empty());
            assert(r@.map_values(|e: (String, SocketAddr)| (e.0@, e.1)) =~= self@.take(0).filter(
                pred,
            ).map_values(short));
        }
        while i < self.entries.len()
            invariant
                i <= self.entries@.len(),
                self@.len() == self.entries@.len(),
                pred == (|e: EntryView| stale(e, max_age, now)),
                short == (|e: EntryView| (e.name, e.addr)),
                r@.map_values(|e: (String, SocketAddr)| (e.0@, e.1)) == self@.take(i as int).filter(
                    pred,
                ).map_values(short),
            decreases self.entries.len() - i,
        {
            proof {
                reveal(Seq::filter);
                assert(self@[i as int] == self.entries@[i as int]@);
                assert(self@.take(i + 1).drop_last() =~= self@.take(i as int));
                assert(self@.take(i + 1).last() == self@[i as int]);
            }
            if entry_stale(&self.entries[i], max_age, now) {
                let ghost before = r@;
                r.push((self.entries[i].name.clone(), self.entries[i].addr));
                proof {
                    assert(r@.map_values(|e: (String, SocketAddr)| (e.0@, e.1)) =~= before.map_values(
                        |e: (String, SocketAddr)| (e.0@, e.1),
                    ).push((self@[i as int].name, self@[i as int].addr)));
                    assert(self@.take(i + 1).filter(pred) =~= self@.take(i as int).filter(pred).push(
                        self@[i as int],
                    ));
                    assert(self@.take(i + 1).filter(pred).map_values(short) =~= self@.take(
                        i as int,
                    ).filter(pred).map_values(short).push(
                        (self@[i as int].name, self@[i as int].addr),
                    ));
                }
            }
            i += 1;
        }
        assert(self@.take(i as int) =~= self@);
        r
    }
}

fn entry_stale(e: &RelayEntry, max_age: Duration, now: u64) -> (r: bool)
    ensures
        r == stale(e@, max_age, now),
{
    match e.last_probed {
        None => true,
        Some(t) => now > t && (now - t) as u128 > max_age.nanos,
    }
}

} // verus!
