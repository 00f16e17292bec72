//! Racing a direct path against a relay: which addresses are dialed, and what
//! the outcomes amount to.
use vstd::prelude::*;
use vstd::string::StringExecFns;

use crate::net::{IpAddr, Ipv4Addr, Ipv6Addr, SocketAddr};
use crate::text::push_decimal;

verus! {

broadcast use vstd::string::group_string_axioms;

/// Milliseconds that the direct path is ahead of the relay.
pub const DIRECT_HEAD_START_MS: u64 = 500;

/// Milliseconds that the direct path is given.
pub const DIRECT_TIMEOUT_MS: u64 = 2000;

/// Milliseconds that the relay is given, once its dial has begun.
pub const RELAY_TIMEOUT_MS: u64 = 10_000;

/// Milliseconds that the slower path is still waited for.
pub const GRACE_MS: u64 = 1000;

/// Stale connections after which accepting is given up.
pub const MAX_STALE: usize = 3;

/// The path that finished first.
#[derive(Debug, Clone, Copy, PartialEq, Eq, Structural)]
pub enum WinningPath {
    Direct,
    Relay,
}

/// What became of one candidate.
#[derive(Debug, Clone)]
pub struct CandidateDiag {
    pub index: usize,
    pub addr: String,
    /// `ok`, `skipped:ipv6`, `timeout:2s` or `error:` with a text.
    pub result: String,
    pub elapsed_ms: Option<u32>,
}

pub struct DiagView {
    pub index: usize,
    pub addr: Seq<char>,
    pub result: Seq<char>,
    pub elapsed_ms: Option<u32>,
}

impl View for CandidateDiag {
    type V = DiagView;

    open spec fn view(&self) -> DiagView {
        DiagView {
            index: self.index,
            addr: self.addr@,
            result: self.result@,
            elapsed_ms: self.elapsed_ms,
        }
    }
}

pub open spec fn diags_view(v: Seq<CandidateDiag>) -> Seq<DiagView> {
    v.map_values(|d: CandidateDiag| d@)
}

/// The addresses at which a peer may be reached.
#[derive(Debug, Clone)]
pub struct PeerCandidates {
    /// Server-reflexive address.
    pub reflexive: Option<SocketAddr>,
    /// Addresses on the peer's own network.
    pub local: Vec<SocketAddr>,
    /// Address of a port mapping on the peer's gateway.
    pub mapped: Option<SocketAddr>,
}

/// Appends an address unless it is there already.
pub open spec fn push_new(s: Seq<SocketAddr>, a: Option<SocketAddr>) -> Seq<SocketAddr> {
    match a {
        Some(a) => if s.contains(a) {
            s
        } else {
            s.push(a)
        },
        None => s,
    }
}

/// The address, if it is IPv4.
pub open spec fn only_v4(a: Option<SocketAddr>) -> Option<SocketAddr> {
    match a {
        Some(x) => if x is V4 {
            a
        } else {
            None
        },
        None => None,
    }
}

pub open spec fn v4_only(s: Seq<SocketAddr>) -> Seq<SocketAddr> {
    s.filter(|a: SocketAddr| a is V4)
}

impl PeerCandidates {
    /// All candidates: local ones first, then the mapped one, then the
    /// reflexive one, the last two only where they are new.
    pub open spec fn order(&self) -> Seq<SocketAddr> {
        push_new(push_new(self.local@, self.mapped), self.reflexive)
    }

    /// The peer sits behind the same public address as we do.
    pub open spec fn same_network(&self, own_reflexive: Option<SocketAddr>) -> bool {
        match (own_reflexive, self.reflexive) {
            (Some(own), Some(peer)) => own.spec_ip() == peer.spec_ip(),
            _ => false,
        }
    }

    /// The candidates worth dialing: no IPv6, and local ones only on the same
    /// network.
    pub open spec fn smart_order(&self, own_reflexive: Option<SocketAddr>) -> Seq<SocketAddr> {
        let local = if self.same_network(own_reflexive) {
            v4_only(self.local@)
        } else {
            Seq::empty()
        };
        push_new(push_new(local, only_v4(self.mapped)), only_v4(self.reflexive))
    }

    pub fn dial_order(&self) -> (r: Vec<SocketAddr>)
        ensures
            r@ == self.order(),
    {
        let mut out: Vec<SocketAddr> = Vec::new();
        let mut i: usize = 0;
        while i < self.local.len()
            invariant
                i <= self.local@.len(),
                out@ == self.local@.take(i as int),
            decreases self.local.len() - i,
        {
            out.push(self.local[i]);
            i += 1;
            assert(out@ =~= self.local@.take(i as int));
        }
        assert(self.local@.take(i as int) =~= self.local@);
        push_if_new(&mut out, self.mapped);
        push_if_new(&mut out, self.reflexive);
        out
    }

    pub fn smart_dial_order(&self, own_reflexive: Option<&SocketAddr>) -> (r: Vec<SocketAddr>)
        ensures
            r@ == self.smart_order(
                match own_reflexive {
                    Some(a) => Some(*a),
                    None => None,
                },
            ),
    {
        let same_network = match (own_reflexive, self.reflexive) {
            (Some(own), Some(peer)) => own.ip() == peer.ip(),
            _ => false,
        };
        let mut out: Vec<SocketAddr> = Vec::new();
        if same_network {
            let ghost pred = |a: SocketAddr| a is V4;
            let mut i: usize = 0;
            proof {
                reveal(Seq::filter);
                assert(self.local@.take(0) =~= Seq::empty());
                assert(out@ =~= self.local@.take(0).filter(pred));
            }
            while i < self.local.len()
                invariant
                    i <= self.local@.len(),
                    pred == (|a: SocketAddr| a is V4),
                    out@ == self.local@.take(i as int).filter(pred),
                decreases self.local.len() - i,
            {
                proof {
                    reveal(Seq::filter);
                    assert(self.local@.take(i + 1).drop_last() =~= self.local@.take(i as int));
                    assert(self.local@.take(i + 1).last() == self.local@[i as int]);
                }
                if !self.local[i].is_ipv6() {
                    out.push(self.local[i]);
                }
                i += 1;
            }
            assert(self.local@.take(i as int) =~= self.local@);
        } else {
            assert(out@ =~= Seq::empty());
        }
        push_if_new(&mut out, v4_or_none(self.mapped));
        push_if_new(&mut out, v4_or_none(self.reflexive));
        out
    }

    pub fn is_empty(&self) -> (r: bool)
        ensures
            r == (self.order().len() == 0),
    {
        self.reflexive.is_none() && self.local.is_empty() && self.mapped.is_none()
    }
}

impl Default for PeerCandidates {
    fn default() -> (r: Self)
        ensures
            r.reflexive is None,
            r.local@.len() == 0,
            r.mapped is None,
    {
        PeerCandidates { reflexive: None, local: Vec::new(), mapped: None }
    }
}

fn v4_or_none(a: Option<SocketAddr>) -> (r: Option<SocketAddr>)
    ensures
        r == only_v4(a),
{
    match a {
        Some(x) => if x.is_ipv6() {
            None
        } else {
            Some(x)
        },
        None => None,
    }
}

fn push_if_new(out: &mut Vec<SocketAddr>, a: Option<SocketAddr>)
    ensures
        final(out)@ == push_new(old(out)@, a),
{
    if let Some(x) = a {
        let mut i: usize = 0;
        while i < out.len()
            invariant
                i <= out@.len(),
                a == Some(x),
                out@ == old(out)@,
                forall|k: int| 0 <= k < i ==> #[trigger] out@[k] != x,
            decreases out.len() - i,
        {
            if out[i] == x {
                assert(out@[i as int] == x);
                return ;
            }
            i += 1;
        }
        out.push(x);
    }
}

/// Every candidate is in the full order, and nothing else is.
pub proof fn lemma_dial_order_complete(c: PeerCandidates, a: SocketAddr)
    ensures
        c.order().contains(a) <==> c.local@.contains(a) || c.mapped == Some(a) || c.reflexive
            == Some(a),
{
    let s = push_new(c.local@, c.mapped);
    lemma_push_new_contains(c.local@, c.mapped, a);
    lemma_push_new_contains(s, c.reflexive, a);
}

proof fn lemma_push_new_contains(s: Seq<SocketAddr>, x: Option<SocketAddr>, a: SocketAddr)
    ensures
        push_new(s, x).contains(a) <==> s.contains(a) || x == Some(a),
{
    if let Some(y) = x {
        let t = s.push(y);
        assert(t[s.len() as int] == y);
        if s.contains(a) {
            let i = choose|i: int| 0 <= i < s.len() && s[i] == a;
            assert(t[i] == a);
        }
    }
}

proof fn lemma_push_new_distinct(s: Seq<SocketAddr>, x: Option<SocketAddr>)
    requires
        s.no_duplicates(),
    ensures
        push_new(s, x).no_duplicates(),
{
}

proof fn lemma_v4_only_subset(s: Seq<SocketAddr>, a: SocketAddr)
    requires
        v4_only(s).contains(a),
    ensures
        s.contains(a),
    decreases s.len(),
{
    reveal(Seq::filter);
    if s.len() > 0 {
        let front = v4_only(s.drop_last());
        let j = choose|j: int| 0 <= j < v4_only(s).len() && v4_only(s)[j] == a;
        if s.last() is V4 && j == front.len() {
            assert(s[s.len() - 1] == a);
        } else {
            assert(front[j] == a);
            lemma_v4_only_subset(s.drop_last(), a);
            let i = choose|i: int| 0 <= i < s.drop_last().len() && s.drop_last()[i] == a;
            assert(s[i] == a);
        }
    }
}

/// What is dialed is an IPv4 candidate of the peer, and one of its local
/// addresses only where both share a public address.
pub proof fn lemma_smart_order_filters(c: PeerCandidates, own: Option<SocketAddr>, a: SocketAddr)
    ensures
        c.smart_order(own).contains(a) <==> a is V4 && ((c.same_network(own) && c.local@.contains(a))
            || c.mapped == Some(a) || c.reflexive == Some(a)),
{
    broadcast use vstd::seq_lib::group_filter_ensures;

    let local = if c.same_network(own) {
        v4_only(c.local@)
    } else {
        Seq::empty()
    };
    lemma_push_new_contains(local, only_v4(c.mapped), a);
    lemma_push_new_contains(push_new(local, only_v4(c.mapped)), only_v4(c.reflexive), a);
    let pred = |x: SocketAddr| x is V4;
    if c.local@.contains(a) && a is V4 {
        let i = choose|i: int| 0 <= i < c.local@.len() && c.local@[i] == a;
        assert(pred(c.local@[i]));
        assert(v4_only(c.local@).contains(a));
    }
    if v4_only(c.local@).contains(a) {
        let j = choose|j: int| 0 <= j < v4_only(c.local@).len() && v4_only(c.local@)[j] == a;
        assert(pred(v4_only(c.local@)[j]));
        lemma_v4_only_subset(c.local@, a);
    }
}

/// No address is dialed twice, given that a peer lists each local address
/// once.
pub proof fn lemma_dial_order_distinct(c: PeerCandidates)
    requires
        c.local@.no_duplicates(),
    ensures
        c.order().no_duplicates(),
{
    lemma_push_new_distinct(c.local@, c.mapped);
    lemma_push_new_distinct(push_new(c.local@, c.mapped), c.reflexive);
}

proof fn lemma_v4_only_distinct(s: Seq<SocketAddr>)
    requires
        s.no_duplicates(),
    ensures
        v4_only(s).no_duplicates(),
    decreases s.len(),
{
    reveal(Seq::filter);
    if s.len() > 0 {
        let front = s.drop_last();
        lemma_v4_only_distinct(front);
        if v4_only(front).contains(s.last()) {
            lemma_v4_only_subset(front, s.last());
        }
    }
}

/// Nor among the addresses worth dialing.
pub proof fn lemma_smart_order_distinct(c: PeerCandidates, own: Option<SocketAddr>)
    requires
        c.local@.no_duplicates(),
    ensures
        c.smart_order(own).no_duplicates(),
{
    lemma_v4_only_distinct(c.local@);
    let local = if c.same_network(own) {
        v4_only(c.local@)
    } else {
        Seq::empty()
    };
    lemma_push_new_distinct(local, only_v4(c.mapped));
    lemma_push_new_distinct(push_new(local, only_v4(c.mapped)), only_v4(c.reflexive));
}

/// The addresses of the peer's own network come first, as the peer lists
/// them; then the mapped address, then the reflexive one, where they are not
/// among those before.
pub proof fn lemma_dial_order_priority(c: PeerCandidates)
    ensures
        ({
            let order = c.order();
            let n = c.local@.len() as int;
            &&& order.len() >= n
            &&& forall|i: int| 0 <= i < n ==> #[trigger] order[i] == c.local@[i]
            &&& c.mapped matches Some(m) ==> !c.local@.contains(m) ==> order.len() > n && order[n]
                == m
            &&& c.reflexive matches Some(x) ==> !c.local@.contains(x) && c.mapped != Some(x)
                ==> order.len() > n && order.last() == x
            &&& order.len() <= n + 2
        }),
{
}

/// Dialing only what is worth it changes no priorities: the local addresses
/// of IPv4, on the same network, in the order in which they are listed, then
/// the mapped address, then the reflexive one.
pub proof fn lemma_smart_order_priority(c: PeerCandidates, own: Option<SocketAddr>)
    ensures
        ({
            let order = c.smart_order(own);
            let local = if c.same_network(own) {
                v4_only(c.local@)
            } else {
                Seq::empty()
            };
            let n = local.len() as int;
            &&& order.len() >= n
            &&& forall|i: int| 0 <= i < n ==> #[trigger] order[i] == local[i]
            &&& c.mapped matches Some(m) ==> m is V4 && !local.contains(m) ==> order.len() > n
                && order[n] == m
            &&& c.reflexive matches Some(x) ==> x is V4 && !local.contains(x) && c.mapped != Some(x)
                ==> order.len() > n && order.last() == x
        }),
{
}

/// Two of the peer's IPv4 addresses keep the order in which the peer lists
/// them.
pub proof fn lemma_v4_only_keeps_order(s: Seq<SocketAddr>, t: Seq<SocketAddr>, a: SocketAddr)
    ensures
        v4_only(s + t) == v4_only(s) + v4_only(t),
        v4_only(seq![a]) == if a is V4 {
            seq![a]
        } else {
            Seq::<SocketAddr>::empty()
        },
{
    Seq::filter_distributes_over_add(s, t, |x: SocketAddr| x is V4);
    reveal(Seq::filter);
    assert(seq![a].drop_last() =~= Seq::<SocketAddr>::empty());
    assert(v4_only(Seq::<SocketAddr>::empty()) =~= Seq::<SocketAddr>::empty());
}

/// Two hosts are on the same network where their public addresses are the
/// same, whatever their ports; without both addresses they are not taken to
/// be.
pub proof fn lemma_same_network_by_address(c: PeerCandidates, own: SocketAddr, other: SocketAddr)
    requires
        own.spec_ip() == other.spec_ip(),
    ensures
        c.same_network(Some(own)) == c.same_network(Some(other)),
        c.reflexive == Some(own) ==> c.same_network(Some(other)),
        c.reflexive matches Some(peer) ==> c.same_network(Some(own)) ==> peer.spec_ip()
            == own.spec_ip(),
        c.reflexive is None ==> !c.same_network(Some(own)),
        !c.same_network(None),
{
}

// ---------------------------------------------------------------------------
// Accepting
// ---------------------------------------------------------------------------

pub open spec fn ticklable(a: SocketAddr) -> bool {
    match a.spec_ip() {
        IpAddr::V4(ip) => !ip.loopback() && !ip.unspecified(),
        IpAddr::V6(ip) => !ip.loopback() && !ip.unspecified(),
    }
}

fn ticklable_exec(a: &SocketAddr) -> (r: bool)
    ensures
        r == ticklable(*a),
{
    match a.ip() {
        IpAddr::V4(ip) => !ip.is_loopback() && !ip.is_unspecified(),
        IpAddr::V6(ip) => !ip.is_loopback() && !ip.is_unspecified(),
    }
}

/// A packet is sent to any address but those of the machine itself and the
/// one that stands for none: 127.0.0.0 to 127.255.255.255 and 0.0.0.0, `::1`
/// and `::`.
pub proof fn lemma_ticklable(ip: Ipv4Addr, ip6: Ipv6Addr, port: u16, scope_id: u32)
    ensures
        ({
            let n = crate::reflect::v4_number(ip);
            ticklable(SocketAddr::V4 { ip, port }) <==> n != 0 && !(0x7f00_0000 <= n <= 0x7fff_ffff)
        }),
        ticklable(SocketAddr::V6 { ip: ip6, port, scope_id }) <==> !(ip6.g0 == 0 && ip6.g1 == 0
            && ip6.g2 == 0 && ip6.g3 == 0 && ip6.g4 == 0 && ip6.g5 == 0 && ip6.g6 == 0 && ip6.g7
            <= 1),
{
    let g = ip6.groups();
    if ip6.loopback() {
        assert(g[0] == 0 && g[1] == 0 && g[2] == 0 && g[3] == 0 && g[4] == 0 && g[5] == 0 && g[6]
            == 0 && g[7] == 1);
    }
    if ip6.unspecified() {
        assert(g[0] == 0 && g[1] == 0 && g[2] == 0 && g[3] == 0 && g[4] == 0 && g[5] == 0 && g[6]
            == 0 && g[7] == 0);
    }
    if ip6.g0 == 0 && ip6.g1 == 0 && ip6.g2 == 0 && ip6.g3 == 0 && ip6.g4 == 0 && ip6.g5 == 0
        && ip6.g6 == 0 {
        if ip6.g7 == 0 {
            assert(g =~= seq![0u16, 0, 0, 0, 0, 0, 0, 0]);
        }
        if ip6.g7 == 1 {
            assert(g =~= seq![0u16, 0, 0, 0, 0, 0, 0, 1]);
        }
    }
}

/// The addresses to which the acceptor sends a packet to open its own NAT:
/// those worth dialing that are real addresses.
pub fn tickle_addrs(candidates: &PeerCandidates, own_reflexive: Option<&SocketAddr>) -> (r: Vec<
    SocketAddr,
>)
    ensures
        r@ == candidates.smart_order(
            match own_reflexive {
                Some(a) => Some(*a),
                None => None,
            },
        ).filter(|a: SocketAddr| ticklable(a)),
{
    let order = candidates.smart_dial_order(own_reflexive);
    let ghost pred = |a: SocketAddr| ticklable(a);
    let mut out: Vec<SocketAddr> = Vec::new();
    let mut i: usize = 0;
    proof {
        reveal(Seq::filter);
        assert(order@.take(0) =~= Seq::empty());
        assert(out@ =~= order@.take(0).filter(pred));
    }
    while i < order.len()
        invariant
            i <= order@.len(),
            pred == (|a: SocketAddr| ticklable(a)),
            out@ == order@.take(i as int).filter(pred),
        decreases order.len() - i,
    {
        proof {
            reveal(Seq::filter);
            assert(order@.take(i + 1).drop_last() =~= order@.take(i as int));
            assert(order@.take(i + 1).last() == order@[i as int]);
        }
        if ticklable_exec(&order[i]) {
            out.push(order[i]);
        }
        i += 1;
    }
    assert(order@.take(i as int) =~= order@);
    out
}

/// What the acceptor does with a connection that has come in.
pub enum AcceptStep {
    /// It is live: use it.
    Take,
    /// It was closed already: wait for another; so many have been stale.
    Skip(usize),
    /// Too many were stale.
    Abort(String),
}

/// Decides on an incoming connection after `stale_count` stale ones.
pub fn on_accept(stale_count: usize, closed: bool) -> (r: AcceptStep)
    requires
        stale_count < MAX_STALE,
    ensures
        match r {
            AcceptStep::Take => !closed,
            AcceptStep::Skip(n) => closed && n == stale_count + 1 && n < MAX_STALE,
            AcceptStep::Abort(m) => closed && stale_count + 1 == MAX_STALE && m@ == "A-role: "@
                + crate::text::decimal((stale_count + 1) as nat)
                + " stale connections, aborting"@,
        },
        r is Abort <==> closed && stale_count == 2,
        r matches AcceptStep::Skip(n) ==> 1 <= n <= 2,
{
    if !closed {
        return AcceptStep::Take;
    }
    let n: usize = stale_count + 1;
    if n >= MAX_STALE {
        let mut m = String::from_str("A-role: ");
        push_decimal(&mut m, n as u64);
        m.append(" stale connections, aborting");
        return AcceptStep::Abort(m);
    }
    AcceptStep::Skip(n)
}

// ---------------------------------------------------------------------------
// Dialing
// ---------------------------------------------------------------------------

/// The note for a candidate that was dialed.
pub fn dialed_diag(index: usize, candidate: SocketAddr, failure: Option<&str>, elapsed_ms: u32) -> (r:
    CandidateDiag)
    ensures
        r@ == (DiagView {
            index,
            addr: crate::net::socket_text(candidate),
            result: match failure {
                None => "ok"@,
                Some(e) => "error:"@ + e@,
            },
            elapsed_ms: Some(elapsed_ms),
        }),
{
    let result = match failure {
        None => String::from_str("ok"),
        Some(e) => {
            let mut m = String::from_str("error:");
            m.append(e);
            m
        },
    };
    CandidateDiag { index, addr: candidate.text(), result, elapsed_ms: Some(elapsed_ms) }
}

/// The note for an IPv6 candidate, which is not dialed.
pub fn skipped_diag(index: usize, candidate: SocketAddr) -> (r: CandidateDiag)
    ensures
        r@ == (DiagView {
            index,
            addr: crate::net::socket_text(candidate),
            result: "skipped:ipv6"@,
            elapsed_ms: None,
        }),
{
    CandidateDiag {
        index,
        addr: candidate.text(),
        result: String::from_str("skipped:ipv6"),
        elapsed_ms: None,
    }
}

/// What is done with a candidate.
pub enum CandidateStep {
    Dial,
    Skip(CandidateDiag),
}

/// Whether a candidate is dialed: those of IPv4 are, those of IPv6 are noted
/// as skipped.
pub fn candidate_step(index: usize, candidate: SocketAddr) -> (r: CandidateStep)
    ensures
        match r {
            CandidateStep::Dial => candidate is V4,
            CandidateStep::Skip(d) => candidate is V6 && d@ == (DiagView {
                index,
                addr: crate::net::socket_text(candidate),
                result: "skipped:ipv6"@,
                elapsed_ms: None,
            }),
        },
{
    if candidate.is_ipv6() {
        CandidateStep::Skip(skipped_diag(index, candidate))
    } else {
        CandidateStep::Dial
    }
}

/// How a dial of one candidate ended without a connection.
pub enum DialFailure {
    Refused { candidate: SocketAddr, error: String },
    Lost(String),
}

pub open spec fn dial_failure_text(f: DialFailure) -> Seq<char> {
    match f {
        DialFailure::Refused { candidate, error } => "candidate "@ + crate::net::socket_text(
            candidate,
        ) + ": "@ + error@,
        DialFailure::Lost(e) => "join "@ + e@,
    }
}

pub open spec fn dial_error_text(candidates: usize, last: Option<DialFailure>) -> Seq<char> {
    "all "@ + crate::text::decimal(candidates as nat) + " direct candidates failed; last: "@ + (
    match last {
        Some(f) => dial_failure_text(f),
        None => "n/a"@,
    })
}

/// What is reported when none of `candidates` dials succeeded; `last` is the
/// failure that came last.
pub fn dial_error(candidates: usize, last: Option<DialFailure>) -> (r: String)
    ensures
        r@ == dial_error_text(candidates, last),
{
    let mut m = String::from_str("all ");
    push_decimal(&mut m, candidates as u64);
    m.append(" direct candidates failed; last: ");
    match &last {
        Some(DialFailure::Refused { candidate, error }) => {
            m.append("candidate ");
            candidate.push_text(&mut m);
            m.append(": ");
            m.append(error.as_str());
        },
        Some(DialFailure::Lost(e)) => {
            m.append("join ");
            m.append(e.as_str());
        },
        None => m.append("n/a"),
    }
    assert(m@ =~= dial_error_text(candidates, last));
    m
}

/// How the dial of one candidate ended.
pub enum DialEnd {
    /// Candidate number so and so is connected.
    Connected(usize),
    Failed(DialFailure),
}

/// The candidate that connected first, in the order in which the dials ended.
pub open spec fn first_connected(ends: Seq<DialEnd>) -> Option<usize>
    decreases ends.len(),
{
    if ends.len() == 0 {
        None
    } else {
        match ends[0] {
            DialEnd::Connected(index) => Some(index),
            DialEnd::Failed(_) => first_connected(ends.skip(1)),
        }
    }
}

/// The failure that came last.
pub open spec fn last_failure(ends: Seq<DialEnd>) -> Option<DialFailure> {
    if ends.len() > 0 {
        match ends.last() {
            DialEnd::Failed(f) => Some(f),
            DialEnd::Connected(_) => None,
        }
    } else {
        None
    }
}

/// What dialing `candidates` candidates came to, given how the dials ended:
/// the first one that connected, or an error once all have failed.
pub fn dial_result(candidates: usize, ends: Vec<DialEnd>) -> (r: Result<usize, String>)
    ensures
        match first_connected(ends@) {
            Some(index) => r == Ok::<usize, String>(index),
            None => r matches Err(e) && e@ == dial_error_text(candidates, last_failure(ends@)),
        },
{
    let mut rest = ends;
    let mut last: Option<DialFailure> = None;
    let ghost mut done: int = 0;
    assert(ends@.skip(0) =~= ends@);
    assert(ends@.take(0) =~= Seq::<DialEnd>::empty());
    while rest.len() > 0
        invariant
            0 <= done <= ends@.len(),
            rest@ == ends@.skip(done),
            first_connected(rest@) == first_connected(ends@),
            last == last_failure(ends@.take(done)),
        decreases rest.len(),
    {
        let ghost before = rest@;
        let end = rest.remove(0);
        proof {
            assert(end == before[0]);
            assert(rest@ =~= before.skip(1));
            assert(before.skip(1) =~= ends@.skip(done + 1));
            assert(ends@.take(done + 1).last() == end);
            done = done + 1;
        }
        match end {
            DialEnd::Connected(index) => {
                return Ok(index);
            },
            DialEnd::Failed(f) => {
                last = Some(f);
            },
        }
    }
    assert(ends@.take(done) =~= ends@);
    Err(dial_error(candidates, last))
}

pub open spec fn recorded(diags: Seq<DiagView>, index: int) -> bool {
    exists|i: int| 0 <= i < diags.len() && (#[trigger] diags[i]).index == index
}

pub open spec fn timeout_diag(index: int, addr: SocketAddr) -> DiagView {
    DiagView {
        index: index as usize,
        addr: crate::net::socket_text(addr),
        result: "timeout:2s"@,
        elapsed_ms: Some(2000),
    }
}

/// Notes for the first `n` candidates that have none yet.
pub open spec fn timeout_diags(diags: Seq<DiagView>, order: Seq<SocketAddr>, n: int) -> Seq<DiagView>
    decreases n,
{
    if n <= 0 {
        Seq::empty()
    } else if recorded(diags, n - 1) {
        timeout_diags(diags, order, n - 1)
    } else {
        timeout_diags(diags, order, n - 1).push(timeout_diag(n - 1, order[n - 1]))
    }
}

/// When the direct path has timed out: a note for each candidate that has
/// none.
pub fn fill_timeouts(diags: &mut Vec<CandidateDiag>, order: &[SocketAddr])
    ensures
        diags_view(final(diags)@) == diags_view(old(diags)@) + timeout_diags(
            diags_view(old(diags)@),
            order@,
            order@.len() as int,
        ),
{
    let ghost start = diags_view(diags@);
    let known: usize = diags.len();
    let mut i: usize = 0;
    assert(diags_view(diags@) =~= start + timeout_diags(start, order@, 0));
    while i < order.len()
        invariant
            i <= order@.len(),
            known == start.len(),
            known <= diags@.len(),
            diags_view(diags@) == start + timeout_diags(start, order@, i as int),
        decreases order.len() - i,
    {
        let mut found = false;
        let mut k: usize = 0;
        while k < known
            invariant
                k <= known,
                known == start.len(),
                known <= diags@.len(),
                diags_view(diags@) == start + timeout_diags(start, order@, i as int),
                found == exists|j: int| 0 <= j < k && (#[trigger] start[j]).index == i,
            decreases known - k,
        {
            assert(diags_view(diags@)[k as int] == diags@[k as int]@);
            assert(start[k as int] == diags@[k as int]@);
            if diags[k].index == i {
                found = true;
            }
            k += 1;
        }
        if !found {
            let ghost before = diags_view(diags@);
            diags.push(
                CandidateDiag {
                    index: i,
                    addr: order[i].text(),
                    result: String::from_str("timeout:2s"),
                    elapsed_ms: Some(2000),
                },
            );
            proof {
                assert(diags_view(diags@) =~= before.push(timeout_diag(i as int, order@[i as int])));
                assert(diags_view(diags@) =~= start + timeout_diags(start, order@, i + 1));
            }
        }
        i += 1;
    }
}

/// The connection that is used is the first that came about: every dial that
/// ended before it failed. There is none only where all dials failed.
pub proof fn lemma_first_connected(ends: Seq<DialEnd>)
    ensures
        match first_connected(ends) {
            Some(index) => exists|i: int|
                0 <= i < ends.len() && #[trigger] ends[i] == DialEnd::Connected(index) && (
                forall|j: int| 0 <= j < i ==> (#[trigger] ends[j]) is Failed),
            None => forall|j: int| 0 <= j < ends.len() ==> (#[trigger] ends[j]) is Failed,
        },
    decreases ends.len(),
{
    if ends.len() > 0 {
        match ends[0] {
            DialEnd::Connected(index) => {
                assert(ends[0] == DialEnd::Connected(index));
            },
            DialEnd::Failed(_) => {
                let rest = ends.skip(1);
                lemma_first_connected(rest);
                match first_connected(rest) {
                    Some(index) => {
                        let i = choose|i: int|
                            0 <= i < rest.len() && #[trigger] rest[i] == DialEnd::Connected(index)
                                && (forall|j: int| 0 <= j < i ==> (#[trigger] rest[j]) is Failed);
                        assert(ends[i + 1] == DialEnd::Connected(index));
                        assert forall|j: int| 0 <= j < i + 1 implies (
                        #[trigger] ends[j]) is Failed by {
                            if j > 0 {
                                assert(rest[j - 1] is Failed);
                            }
                        }
                    },
                    None => {
                        assert forall|j: int| 0 <= j < ends.len() implies (
                        #[trigger] ends[j]) is Failed by {
                            if j > 0 {
                                assert(rest[j - 1] is Failed);
                            }
                        }
                    },
                }
            },
        }
    }
}

/// After a timeout every candidate has a note: those that had one keep it,
/// and each of the others is noted, once, with its own address, as timed out
/// after the time that the direct path is given.
pub proof fn lemma_every_candidate_noted(diags: Seq<DiagView>, order: Seq<SocketAddr>, n: int)
    requires
        0 <= n <= order.len() <= usize::MAX,
    ensures
        ({
            let new = timeout_diags(diags, order, n);
            &&& forall|k: int| 0 <= k < n ==> #[trigger] recorded(diags + new, k)
            &&& forall|i: int|
                0 <= i < new.len() ==> {
                    let d = #[trigger] new[i];
                    &&& d.index < n
                    &&& !recorded(diags, d.index as int)
                    &&& d.addr == crate::net::socket_text(order[d.index as int])
                    &&& d.result == "timeout:2s"@
                    &&& d.elapsed_ms == Some(2000u32)
                }
            &&& forall|i: int, j: int|
                0 <= i < j < new.len() ==> (#[trigger] new[i]).index < (#[trigger] new[j]).index
        }),
    decreases n,
{
    if n > 0 {
        lemma_every_candidate_noted(diags, order, n - 1);
        let before = timeout_diags(diags, order, n - 1);
        let new = timeout_diags(diags, order, n);
        assert forall|k: int| 0 <= k < n implies #[trigger] recorded(diags + new, k) by {
            if k < n - 1 {
                assert(recorded(diags + before, k));
                let i = choose|i: int|
                    0 <= i < (diags + before).len() && (#[trigger] (diags + before)[i]).index == k;
                assert((diags + new)[i] == (diags + before)[i]);
            } else if recorded(diags, k) {
                let i = choose|i: int|
                    0 <= i < diags.len() && (#[trigger] diags[i]).index == k;
                assert((diags + new)[i] == diags[i]);
            } else {
                assert((diags + new)[diags.len() + new.len() - 1].index == k);
            }
        }
    }
}

// ---------------------------------------------------------------------------
// The race
// ---------------------------------------------------------------------------

/// How the attempt on one path ended.
pub enum PathEnd {
    Connected,
    Failed(String),
    TimedOut,
    Panicked(String),
}

/// Which attempt ended first, and how.
pub enum FirstEnd {
    Direct(PathEnd),
    Relay(PathEnd),
}

/// How the slower attempt stands at the end of the grace period.
pub enum GraceEnd {
    Connected,
    Failed(String),
    NoResult,
}

/// What is known of the two paths: connected, failed with a text, or not
/// ended yet.
pub struct RaceState {
    pub direct: Option<Result<(), String>>,
    pub relay: Option<Result<(), String>>,
    pub local_winner: WinningPath,
}

/// The state in the terms of its texts.
pub open spec fn path_view(p: Option<Result<(), String>>) -> Option<Result<(), Seq<char>>> {
    match p {
        Some(Ok(())) => Some(Ok(())),
        Some(Err(e)) => Some(Err(e@)),
        None => None,
    }
}

pub open spec fn end_view(relay: bool, end: PathEnd) -> Result<(), Seq<char>> {
    match end {
        PathEnd::Connected => Ok(()),
        PathEnd::Failed(e) => Err(e@),
        PathEnd::TimedOut => if relay {
            Err("relay timeout"@)
        } else {
            Err("direct timeout"@)
        },
        PathEnd::Panicked(e) => if relay {
            Err("relay task panic: "@ + e@)
        } else {
            Err("direct task panic"@)
        },
    }
}

fn end_result(relay: bool, end: PathEnd) -> (r: Result<(), String>)
    ensures
        path_view(Some(r)) == Some(end_view(relay, end)),
{
    match end {
        PathEnd::Connected => Ok(()),
        PathEnd::Failed(e) => Err(e),
        PathEnd::TimedOut => if relay {
            Err(String::from_str("relay timeout"))
        } else {
            Err(String::from_str("direct timeout"))
        },
        PathEnd::Panicked(e) => if relay {
            let mut m = String::from_str("relay task panic: ");
            m.append(e.as_str());
            Err(m)
        } else {
            Err(String::from_str("direct task panic"))
        },
    }
}

/// The path that ends first wins if it is connected, and the other one wins
/// if it is not.
pub fn first_ended(first: FirstEnd) -> (r: RaceState)
    ensures
        match first {
            FirstEnd::Direct(end) => {
                &&& path_view(r.direct) == Some(end_view(false, end))
                &&& r.relay is None
                &&& r.local_winner == if end is Connected {
                    WinningPath::Direct
                } else {
                    WinningPath::Relay
                }
            },
            FirstEnd::Relay(end) => {
                &&& path_view(r.relay) == Some(end_view(true, end))
                &&& r.direct is None
                &&& r.local_winner == if end is Connected {
                    WinningPath::Relay
                } else {
                    WinningPath::Direct
                }
            },
        },
{
    match first {
        FirstEnd::Direct(end) => {
            let res = end_result(false, end);
            let local_winner = if res.is_ok() {
                WinningPath::Direct
            } else {
                WinningPath::Relay
            };
            RaceState { direct: Some(res), relay: None, local_winner }
        },
        FirstEnd::Relay(end) => {
            let res = end_result(true, end);
            let local_winner = if res.is_ok() {
                WinningPath::Relay
            } else {
                WinningPath::Direct
            };
            RaceState { direct: None, relay: Some(res), local_winner }
        },
    }
}

pub open spec fn grace_view(relay: bool, end: GraceEnd) -> Result<(), Seq<char>> {
    match end {
        GraceEnd::Connected => Ok(()),
        GraceEnd::Failed(e) => Err(e@),
        GraceEnd::NoResult => if relay {
            Err("relay: no result in grace period"@)
        } else {
            Err("direct: no result in grace period"@)
        },
    }
}

fn grace_result(relay: bool, end: GraceEnd) -> (r: Result<(), String>)
    ensures
        path_view(Some(r)) == Some(grace_view(relay, end)),
{
    match end {
        GraceEnd::Connected => Ok(()),
        GraceEnd::Failed(e) => Err(e),
        GraceEnd::NoResult => if relay {
            Err(String::from_str("relay: no result in grace period"))
        } else {
            Err(String::from_str("direct: no result in grace period"))
        },
    }
}

/// How long the slower path is waited for.
#[derive(Debug, Clone, Copy, PartialEq, Eq, Structural)]
pub enum OtherWait {
    /// So many milliseconds.
    Grace(u64),
    /// For as long as the path itself takes.
    UntilItEnds,
}

/// With a transport at hand the slower path only has a grace period; without
/// one the call depends on it, so it has all of its time.
pub fn other_wait(state: &RaceState) -> (r: OtherWait)
    ensures
        r == if path_ok(state.direct) || path_ok(state.relay) {
            OtherWait::Grace(GRACE_MS)
        } else {
            OtherWait::UntilItEnds
        },
        r matches OtherWait::Grace(ms) ==> ms == 1000,
        path_ok(state.direct) ==> r is Grace,
        path_ok(state.relay) ==> r is Grace,
{
    let connected = match (&state.direct, &state.relay) {
        (Some(Ok(_)), _) => true,
        (_, Some(Ok(_))) => true,
        _ => false,
    };
    if connected {
        OtherWait::Grace(GRACE_MS)
    } else {
        OtherWait::UntilItEnds
    }
}

/// Takes in how the slower path stands when it is no longer waited for.
pub fn after_grace(state: RaceState, other: GraceEnd) -> (r: RaceState)
    ensures
        r.local_winner == state.local_winner,
        path_view(r.direct) == if state.direct is None {
            Some(grace_view(false, other))
        } else {
            path_view(state.direct)
        },
        path_view(r.relay) == if state.direct is Some && state.relay is None {
            Some(grace_view(true, other))
        } else {
            path_view(state.relay)
        },
{
    match state.direct {
        None => RaceState {
            direct: Some(grace_result(false, other)),
            relay: state.relay,
            local_winner: state.local_winner,
        },
        Some(d) => match state.relay {
            None => RaceState {
                direct: Some(d),
                relay: Some(grace_result(true, other)),
                local_winner: state.local_winner,
            },
            Some(x) => RaceState {
                direct: Some(d),
                relay: Some(x),
                local_winner: state.local_winner,
            },
        },
    }
}

/// Which transports a finished race has.
#[derive(Debug, Clone, Copy, PartialEq, Eq, Structural)]
pub struct RaceOutcome {
    pub direct_ok: bool,
    pub relay_ok: bool,
    pub local_winner: WinningPath,
}

pub open spec fn path_ok(p: Option<Result<(), String>>) -> bool {
    p matches Some(Ok(_))
}

/// The race fails only when both paths did.
pub fn finish_race(state: &RaceState) -> (r: Result<RaceOutcome, String>)
    ensures
        match r {
            Ok(o) => {
                &&& o.direct_ok || o.relay_ok
                &&& o.direct_ok == path_ok(state.direct)
                &&& o.relay_ok == path_ok(state.relay)
                &&& o.local_winner == state.local_winner
            },
            Err(e) => !path_ok(state.direct) && !path_ok(state.relay) && e@
                == "both paths failed: no media transport available"@,
        },
{
    let direct_ok = match &state.direct {
        Some(Ok(_)) => true,
        _ => false,
    };
    let relay_ok = match &state.relay {
        Some(Ok(_)) => true,
        _ => false,
    };
    if !direct_ok && !relay_ok {
        return Err(String::from_str("both paths failed: no media transport available"));
    }
    Ok(RaceOutcome { direct_ok, relay_ok, local_winner: state.local_winner })
}

/// How the direct path stands at the end.
pub open spec fn final_direct(first: FirstEnd, other: GraceEnd) -> Result<(), Seq<char>> {
    match first {
        FirstEnd::Direct(end) => end_view(false, end),
        FirstEnd::Relay(_) => grace_view(false, other),
    }
}

/// How the relay path stands at the end.
pub open spec fn final_relay(first: FirstEnd, other: GraceEnd) -> Result<(), Seq<char>> {
    match first {
        FirstEnd::Direct(_) => grace_view(true, other),
        FirstEnd::Relay(end) => end_view(true, end),
    }
}

pub open spec fn winner(first: FirstEnd) -> WinningPath {
    match first {
        FirstEnd::Direct(end) => if end is Connected {
            WinningPath::Direct
        } else {
            WinningPath::Relay
        },
        FirstEnd::Relay(end) => if end is Connected {
            WinningPath::Relay
        } else {
            WinningPath::Direct
        },
    }
}

/// Runs the decisions of a whole race, from the path that ended first to how
/// the other one stood when it was no longer waited for.
pub fn decide_race(first: FirstEnd, other: GraceEnd) -> (r: Result<RaceOutcome, String>)
    ensures
        match r {
            Ok(o) => {
                &&& o.direct_ok || o.relay_ok
                &&& o.direct_ok == (final_direct(first, other) is Ok)
                &&& o.relay_ok == (final_relay(first, other) is Ok)
                &&& o.local_winner == winner(first)
            },
            Err(e) => final_direct(first, other) is Err && final_relay(first, other) is Err && e@
                == "both paths failed: no media transport available"@,
        },
{
    let state = after_grace(first_ended(first), other);
    finish_race(&state)
}

/// A path that fails first does not decide the race: the other one is waited
/// for until it ends, and the race has a transport if that one does.
pub proof fn lemma_failure_leaves_the_other(first: FirstEnd, other: GraceEnd)
    requires
        first matches FirstEnd::Direct(end) ==> !(end is Connected),
        first matches FirstEnd::Relay(end) ==> !(end is Connected),
        other is Connected,
    ensures
        first is Direct ==> final_relay(first, other) is Ok && winner(first) == WinningPath::Relay,
        first is Relay ==> final_direct(first, other) is Ok && winner(first)
            == WinningPath::Direct,
{
}

/// A race that does not fail has a transport on the path that it names as the
/// winner.
pub proof fn lemma_winner_is_connected(first: FirstEnd, other: GraceEnd)
    requires
        final_direct(first, other) is Ok || final_relay(first, other) is Ok,
    ensures
        winner(first) == WinningPath::Direct ==> final_direct(first, other) is Ok,
        winner(first) == WinningPath::Relay ==> final_relay(first, other) is Ok,
{
}

/// Where both paths connect, the one that ended first wins.
pub proof fn lemma_first_to_connect_wins(first: FirstEnd, other: GraceEnd)
    requires
        final_direct(first, other) is Ok,
        final_relay(first, other) is Ok,
    ensures
        first is Direct <==> winner(first) == WinningPath::Direct,
{
}

/// A path that never connected has no transport at the end, and one that did
/// has one.
pub proof fn lemma_transports(first: FirstEnd, other: GraceEnd)
    ensures
        first matches FirstEnd::Direct(end) ==> (final_direct(first, other) is Ok
            <==> end is Connected) && (final_relay(first, other) is Ok <==> other is Connected),
        first matches FirstEnd::Relay(end) ==> (final_relay(first, other) is Ok
            <==> end is Connected) && (final_direct(first, other) is Ok <==> other is Connected),
{
}

/// The direct path has a quarter of its time before the relay is dialed, the
/// slower path is waited for twice as long as that, and a candidate that
/// never answers is noted with all of the time that the direct path has.
pub proof fn lemma_race_times(index: int, addr: SocketAddr)
    ensures
        4 * DIRECT_HEAD_START_MS == DIRECT_TIMEOUT_MS,
        2 * DIRECT_HEAD_START_MS == GRACE_MS,
        5 * DIRECT_TIMEOUT_MS == RELAY_TIMEOUT_MS,
        timeout_diag(index, addr).elapsed_ms == Some(DIRECT_TIMEOUT_MS as u32),
{
}

} // verus!
