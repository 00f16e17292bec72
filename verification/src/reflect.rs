//! What several observers say of one client's address: the kind of NAT in
//! front of it, and which peer dials.
use vstd::prelude::*;
use vstd::string::StringExecFns;

use crate::net::{IpAddr, Ipv4Addr, SocketAddr};
use crate::proto::{opt_text, SignalMessage};
use crate::text::chars_of;

verus! {

broadcast use vstd::string::group_string_axioms;

/// Result of one probe against one observer, failed probes included.
#[derive(Debug, Clone)]
pub struct NatProbeResult {
    pub relay_name: String,
    pub relay_addr: String,
    /// `Some` on success.
    pub observed_addr: Option<String>,
    /// Milliseconds from connect to response; `Some` on success.
    pub latency_ms: Option<u32>,
    /// `Some` on failure.
    pub error: Option<String>,
}

/// [`NatProbeResult`] with its texts as character sequences.
pub struct ProbeView {
    pub relay_name: Seq<char>,
    pub relay_addr: Seq<char>,
    pub observed_addr: Option<Seq<char>>,
    pub latency_ms: Option<u32>,
    pub error: Option<Seq<char>>,
}

impl View for NatProbeResult {
    type V = ProbeView;

    open spec fn view(&self) -> ProbeView {
        ProbeView {
            relay_name: self.relay_name@,
            relay_addr: self.relay_addr@,
            observed_addr: opt_text(self.observed_addr),
            latency_ms: self.latency_ms,
            error: opt_text(self.error),
        }
    }
}

/// NAT classification.
#[derive(Debug, Clone, Copy, PartialEq, Eq, Structural)]
pub enum NatType {
    /// All observers agree on address and port.
    Cone,
    /// The address is the same, the port is not.
    SymmetricPort,
    /// Different addresses.
    Multiple,
    /// Fewer than two usable observations.
    Unknown,
}

/// Probes and what they amount to.
#[derive(Debug, Clone)]
pub struct NatDetection {
    pub probes: Vec<NatProbeResult>,
    pub nat_type: NatType,
    /// The one address that all observers agree on, for a cone NAT.
    pub consensus_addr: Option<String>,
}

/// Who does what in the race for a direct path.
#[derive(Debug, Clone, Copy, PartialEq, Eq, Structural)]
pub enum Role {
    /// This peer listens for the direct incoming connection.
    Acceptor,
    /// This peer dials the other's direct address.
    Dialer,
}

// ---------------------------------------------------------------------------
// Roles
// ---------------------------------------------------------------------------

/// Lexicographic order of texts.
pub open spec fn text_less(a: Seq<char>, b: Seq<char>) -> bool
    decreases a.len(),
{
    if b.len() == 0 {
        false
    } else if a.len() == 0 {
        true
    } else if a[0] != b[0] {
        a[0] < b[0]
    } else {
        text_less(a.skip(1), b.skip(1))
    }
}

/// The role of the peer with the address `own`: the smaller text accepts, the
/// larger dials, and without two different addresses there is no role.
pub open spec fn role(own: Option<Seq<char>>, peer: Option<Seq<char>>) -> Option<Role> {
    match (own, peer) {
        (Some(o), Some(p)) => if text_less(o, p) {
            Some(Role::Acceptor)
        } else if text_less(p, o) {
            Some(Role::Dialer)
        } else {
            None
        },
        _ => None,
    }
}

/// Of two texts, exactly one is smaller, unless they are equal.
pub proof fn lemma_text_order(a: Seq<char>, b: Seq<char>)
    ensures
        !(text_less(a, b) && text_less(b, a)),
        !text_less(a, b) && !text_less(b, a) <==> a == b,
    decreases a.len(),
{
    if a.len() > 0 && b.len() > 0 && a[0] == b[0] {
        lemma_text_order(a.skip(1), b.skip(1));
        if a.skip(1) == b.skip(1) {
            assert forall|i: int| 0 <= i < a.len() implies a[i] == b[i] by {
                if i > 0 {
                    assert(a[i] == a.skip(1)[i - 1]);
                    assert(b[i] == b.skip(1)[i - 1]);
                }
            }
            assert(a.len() == a.skip(1).len() + 1);
            assert(b.len() == b.skip(1).len() + 1);
            assert(a =~= b);
        }
    } else if a.len() == 0 && b.len() == 0 {
        assert(a =~= b);
    } else if a == b {
        assert(a.len() == b.len());
    }
}

/// Two peers with different addresses get opposite roles; with one address
/// for both, or without one, neither gets a role.
pub proof fn lemma_roles_opposite(a: Option<Seq<char>>, b: Option<Seq<char>>)
    ensures
        match role(a, b) {
            Some(Role::Acceptor) => role(b, a) == Some(Role::Dialer),
            Some(Role::Dialer) => role(b, a) == Some(Role::Acceptor),
            None => role(b, a) is None,
        },
        role(a, b) is Some <==> a is Some && b is Some && a != b,
{
    if a is Some && b is Some {
        lemma_text_order(a->0, b->0);
    }
}

/// The first character in which two texts differ decides which is smaller,
/// whatever follows it; a text is smaller than one that goes on after it.
pub proof fn lemma_first_difference_decides(
    common: Seq<char>,
    c: char,
    rest: Seq<char>,
    d: char,
    other_rest: Seq<char>,
)
    requires
        c != d,
    ensures
        text_less(common + seq![c] + rest, common + seq![d] + other_rest) <==> c < d,
        text_less(common, common + seq![c] + rest),
    decreases common.len(),
{
    let a = common + seq![c] + rest;
    let b = common + seq![d] + other_rest;
    if common.len() > 0 {
        let shorter = common.skip(1);
        assert(a[0] == common[0] && b[0] == common[0]);
        assert(a.skip(1) =~= shorter + seq![c] + rest);
        assert(b.skip(1) =~= shorter + seq![d] + other_rest);
        lemma_first_difference_decides(shorter, c, rest, d, other_rest);
    } else {
        assert(a[0] == c && b[0] == d);
    }
}

/// The peer whose address is the smaller text accepts, and the other dials.
pub proof fn lemma_smaller_accepts(
    common: Seq<char>,
    c: char,
    rest: Seq<char>,
    d: char,
    other_rest: Seq<char>,
)
    requires
        c < d,
    ensures
        ({
            let small = common + seq![c] + rest;
            let large = common + seq![d] + other_rest;
            &&& role(Some(small), Some(large)) == Some(Role::Acceptor)
            &&& role(Some(large), Some(small)) == Some(Role::Dialer)
            &&& role(Some(common), Some(large)) == Some(Role::Acceptor)
            &&& role(Some(large), Some(common)) == Some(Role::Dialer)
        }),
{
    let small = common + seq![c] + rest;
    let large = common + seq![d] + other_rest;
    lemma_first_difference_decides(common, c, rest, d, other_rest);
    lemma_first_difference_decides(common, d, other_rest, c, rest);
    lemma_text_order(small, large);
    lemma_text_order(common, large);
}

fn text_less_exec(a: &Vec<char>, b: &Vec<char>) -> (r: bool)
    ensures
        r == text_less(a@, b@),
{
    let mut i: usize = 0;
    assert(a@.skip(0) =~= a@);
    assert(b@.skip(0) =~= b@);
    loop
        invariant
            i <= a@.len(),
            i <= b@.len(),
            text_less(a@, b@) == text_less(a@.skip(i as int), b@.skip(i as int)),
        decreases a@.len() - i,
    {
        if i >= b.len() {
            return false;
        }
        if i >= a.len() {
            return true;
        }
        assert(a@.skip(i as int)[0] == a@[i as int]);
        assert(b@.skip(i as int)[0] == b@[i as int]);
        if a[i] != b[i] {
            return a[i] < b[i];
        }
        assert(a@.skip(i as int).skip(1) =~= a@.skip(i + 1));
        assert(b@.skip(i as int).skip(1) =~= b@.skip(i + 1));
        i += 1;
    }
}

pub open spec fn opt_str(s: Option<&str>) -> Option<Seq<char>> {
    match s {
        Some(t) => Some(t@),
        None => None,
    }
}

/// This peer's role, from its own reflexive address and the other's.
pub fn determine_role(own_reflex_addr: Option<&str>, peer_reflex_addr: Option<&str>) -> (r: Option<
    Role,
>)
    ensures
        r == role(opt_str(own_reflex_addr), opt_str(peer_reflex_addr)),
{
    match (own_reflex_addr, peer_reflex_addr) {
        (Some(o), Some(p)) => {
            let own = chars_of(o);
            let peer = chars_of(p);
            if text_less_exec(&own, &peer) {
                Some(Role::Acceptor)
            } else if text_less_exec(&peer, &own) {
                Some(Role::Dialer)
            } else {
                None
            }
        },
        _ => None,
    }
}

// ---------------------------------------------------------------------------
// Classification
// ---------------------------------------------------------------------------

/// An address that no observer on the public internet can see: loopback,
/// private, link-local, carrier-shared, or unspecified IPv6.
pub open spec fn private_or_loopback(addr: SocketAddr) -> bool {
    match addr.spec_ip() {
        IpAddr::V4(ip) => ip.loopback() || ip.private() || ip.link_local() || ip.carrier_shared(),
        IpAddr::V6(ip) => ip.loopback() || ip.unspecified() || ip.link_local(),
    }
}

/// The public address that a probe observed, if it did.
pub open spec fn public_addr(p: ProbeView) -> Option<SocketAddr> {
    match p.observed_addr {
        Some(t) => match crate::net::parse_socket(t) {
            Some(a) => if private_or_loopback(a) {
                None
            } else {
                Some(a)
            },
            None => None,
        },
        None => None,
    }
}

/// The public addresses that the probes observed, in order.
pub open spec fn public_addrs(probes: Seq<ProbeView>) -> Seq<SocketAddr>
    decreases probes.len(),
{
    if probes.len() == 0 {
        Seq::empty()
    } else {
        match public_addr(probes.last()) {
            Some(a) => public_addrs(probes.drop_last()).push(a),
            None => public_addrs(probes.drop_last()),
        }
    }
}

/// What observed public addresses say of the NAT, and the address that they
/// agree on.
pub open spec fn nat_class(addrs: Seq<SocketAddr>) -> (NatType, Option<Seq<char>>) {
    if addrs.len() < 2 {
        (NatType::Unknown, None)
    } else if exists|i: int|
        0 <= i < addrs.len() && (#[trigger] addrs[i]).spec_ip() != addrs[0].spec_ip() {
        (NatType::Multiple, None)
    } else if exists|i: int|
        0 <= i < addrs.len() && (#[trigger] addrs[i]).spec_port() != addrs[0].spec_port() {
        (NatType::SymmetricPort, None)
    } else {
        (NatType::Cone, Some(crate::net::socket_text(addrs[0])))
    }
}

pub open spec fn probes_view(v: Seq<NatProbeResult>) -> Seq<ProbeView> {
    v.map_values(|p: NatProbeResult| p@)
}

/// A probe that failed, or that only saw a private address, changes nothing.
pub proof fn lemma_private_probe_ignored(before: Seq<ProbeView>, p: ProbeView, after: Seq<ProbeView>)
    requires
        public_addr(p) is None,
    ensures
        public_addrs(before + seq![p] + after) == public_addrs(before + after),
    decreases after.len(),
{
    if after.len() == 0 {
        assert((before + seq![p] + after).drop_last() =~= before);
        assert((before + seq![p] + after).last() == p);
        assert(before + after =~= before);
    } else {
        let with = before + seq![p] + after;
        let without = before + after;
        assert(with.drop_last() =~= before + seq![p] + after.drop_last());
        assert(without.drop_last() =~= before + after.drop_last());
        assert(with.last() == after.last() && without.last() == after.last());
        lemma_private_probe_ignored(before, p, after.drop_last());
    }
}

/// There is an agreed address exactly for a cone NAT, and it is the text of
/// what every public observer saw.
pub proof fn lemma_consensus_is_cone(addrs: Seq<SocketAddr>)
    ensures
        nat_class(addrs).1 is Some <==> nat_class(addrs).0 == NatType::Cone,
        nat_class(addrs).0 == NatType::Cone ==> forall|i: int|
            0 <= i < addrs.len() ==> (#[trigger] addrs[i]).spec_ip() == addrs[0].spec_ip()
                && addrs[i].spec_port() == addrs[0].spec_port(),
{
}

/// What is made of the observations goes by all pairs of them, not by their
/// order: a cone NAT where all agree, a symmetric one where all agree on the
/// address and some two differ in the port, several where some two differ in
/// the address, and nothing can be said of fewer than two.
pub proof fn lemma_class_by_pairs(addrs: Seq<SocketAddr>)
    ensures
        ({
            let class = nat_class(addrs).0;
            let same_ip = forall|i: int, j: int|
                0 <= i < addrs.len() && 0 <= j < addrs.len() ==> (#[trigger] addrs[i]).spec_ip()
                    == (#[trigger] addrs[j]).spec_ip();
            let same_port = forall|i: int, j: int|
                0 <= i < addrs.len() && 0 <= j < addrs.len() ==> (#[trigger] addrs[i]).spec_port()
                    == (#[trigger] addrs[j]).spec_port();
            &&& class is Unknown <==> addrs.len() < 2
            &&& class is Multiple <==> addrs.len() >= 2 && !same_ip
            &&& class is SymmetricPort <==> addrs.len() >= 2 && same_ip && !same_port
            &&& class is Cone <==> addrs.len() >= 2 && same_ip && same_port
        }),
{
    if addrs.len() >= 2 {
        assert(addrs[0].spec_ip() == addrs[0].spec_ip());
    }
}

/// For a cone NAT the agreed address is the text of any of the observations
/// (but for a scope, which a public address does not have).
pub proof fn lemma_consensus_is_observed(addrs: Seq<SocketAddr>, i: int)
    requires
        nat_class(addrs).0 is Cone,
        0 <= i < addrs.len(),
        addrs[i] is V4,
    ensures
        nat_class(addrs).1 == Some(crate::net::socket_text(addrs[i])),
{
    lemma_consensus_is_cone(addrs);
    assert(addrs[i].spec_ip() == addrs[0].spec_ip());
}

/// An IPv4 address as a number.
pub open spec fn v4_number(ip: Ipv4Addr) -> int {
    ip.a * 0x100_0000 + ip.b * 0x1_0000 + ip.c * 0x100 + ip.d
}

/// Of IPv4 the addresses that no public observer sees are those from
/// 10.0.0.0 to 10.255.255.255, 100.64.0.0 to 100.127.255.255, 127.0.0.0 to
/// 127.255.255.255, 169.254.0.0 to 169.254.255.255, 172.16.0.0 to
/// 172.31.255.255 and 192.168.0.0 to 192.168.255.255; the port does not
/// count.
pub proof fn lemma_private_ranges(ip: Ipv4Addr, port: u16)
    ensures
        ({
            let n = v4_number(ip);
            private_or_loopback(SocketAddr::V4 { ip, port }) <==> {
                ||| 0x0a00_0000 <= n <= 0x0aff_ffff
                ||| 0x6440_0000 <= n <= 0x647f_ffff
                ||| 0x7f00_0000 <= n <= 0x7fff_ffff
                ||| 0xa9fe_0000 <= n <= 0xa9fe_ffff
                ||| 0xac10_0000 <= n <= 0xac1f_ffff
                ||| 0xc0a8_0000 <= n <= 0xc0a8_ffff
            }
        }),
{
}

/// Those for private use alone, of which a host's own address is picked, are
/// the first and the last two of these ranges.
pub proof fn lemma_private_use_ranges(ip: Ipv4Addr)
    ensures
        ({
            let n = v4_number(ip);
            &&& ip.private() <==> {
                ||| 0x0a00_0000 <= n <= 0x0aff_ffff
                ||| 0xac10_0000 <= n <= 0xac1f_ffff
                ||| 0xc0a8_0000 <= n <= 0xc0a8_ffff
            }
            &&& ip.loopback() <==> 0x7f00_0000 <= n <= 0x7fff_ffff
            &&& ip.link_local() <==> 0xa9fe_0000 <= n <= 0xa9fe_ffff
            &&& ip.unspecified() <==> n == 0
        }),
{
}

/// Of IPv6 they are `::`, `::1` and what has the first ten bits of `fe80`.
pub proof fn lemma_private_v6(ip: crate::net::Ipv6Addr, port: u16, scope_id: u32)
    ensures
        private_or_loopback(SocketAddr::V6 { ip, port, scope_id }) <==> {
            ||| ip.g0 / 64 == 0xfe80u16 / 64
            ||| ip.g0 == 0 && ip.g1 == 0 && ip.g2 == 0 && ip.g3 == 0 && ip.g4 == 0 && ip.g5 == 0
                && ip.g6 == 0 && ip.g7 <= 1
        },
{
    let g = ip.groups();
    if ip.g0 == 0 && ip.g1 == 0 && ip.g2 == 0 && ip.g3 == 0 && ip.g4 == 0 && ip.g5 == 0 && ip.g6
        == 0 && ip.g7 == 0 {
        assert(g =~= seq![0u16, 0, 0, 0, 0, 0, 0, 0]);
    }
    if ip.g0 == 0 && ip.g1 == 0 && ip.g2 == 0 && ip.g3 == 0 && ip.g4 == 0 && ip.g5 == 0 && ip.g6
        == 0 && ip.g7 == 1 {
        assert(g =~= seq![0u16, 0, 0, 0, 0, 0, 0, 1]);
    }
    if ip.loopback() {
        assert(g[0] == 0 && g[1] == 0 && g[2] == 0 && g[3] == 0 && g[4] == 0 && g[5] == 0 && g[6]
            == 0 && g[7] == 1);
    }
    if ip.unspecified() {
        assert(g[0] == 0 && g[1] == 0 && g[2] == 0 && g[3] == 0 && g[4] == 0 && g[5] == 0 && g[6]
            == 0 && g[7] == 0);
    }
}

/// What an observer saw is what counts: a probe that tells of an address
/// stands for that address where it is public, and for nothing where not.
pub proof fn lemma_observed_addr_counts(p: ProbeView, a: SocketAddr)
    requires
        p.observed_addr == Some(crate::net::socket_text(a)),
    ensures
        public_addr(p) == if private_or_loopback(a) {
            None
        } else {
            Some(a)
        },
        public_addrs(seq![p]) == if private_or_loopback(a) {
            Seq::empty()
        } else {
            seq![a]
        },
{
    crate::net::lemma_socket_round_trip(a);
    assert(seq![p].drop_last() =~= Seq::<ProbeView>::empty());
    assert(seq![p].last() == p);
    assert(public_addrs(Seq::<ProbeView>::empty()) =~= Seq::<SocketAddr>::empty());
    assert(Seq::<SocketAddr>::empty().push(a) =~= seq![a]);
}

pub fn is_private_or_loopback(addr: &SocketAddr) -> (r: bool)
    ensures
        r == private_or_loopback(*addr),
{
    match addr.ip() {
        IpAddr::V4(v4) => v4.is_loopback() || v4.is_private() || v4.is_link_local() || (v4.a == 100
            && 64 <= v4.b && v4.b <= 127),
        IpAddr::V6(v6) => v6.is_loopback() || v6.is_unspecified() || (0xfe80 <= v6.g0 && v6.g0
            <= 0xfebf),
    }
}

/// Rows one after the other give their public addresses one after the other.
pub proof fn lemma_public_addrs_of_both(first: Seq<ProbeView>, second: Seq<ProbeView>)
    ensures
        public_addrs(first + second) == public_addrs(first) + public_addrs(second),
    decreases second.len(),
{
    let both = first + second;
    if second.len() == 0 {
        assert(both =~= first);
        assert(public_addrs(first) + public_addrs(second) =~= public_addrs(first));
    } else {
        assert(both.drop_last() =~= first + second.drop_last());
        assert(both.last() == second.last());
        lemma_public_addrs_of_both(first, second.drop_last());
        assert(public_addrs(both) =~= public_addrs(first) + public_addrs(second));
    }
}

/// The public addresses that the probes saw.
fn seen_addrs(probes: &[NatProbeResult]) -> (r: Vec<SocketAddr>)
    ensures
        r@ == public_addrs(probes_view(probes@)),
{
    let ghost view = probes_view(probes@);
    let mut addrs: Vec<SocketAddr> = Vec::new();
    let mut i: usize = 0;
    assert(view.take(0) =~= Seq::empty());
    while i < probes.len()
        invariant
            i <= probes@.len(),
            view == probes_view(probes@),
            addrs@ == public_addrs(view.take(i as int)),
        decreases probes.len() - i,
    {
        proof {
            assert(view.take(i + 1).drop_last() =~= view.take(i as int));
            assert(view.take(i + 1).last() == probes@[i as int]@);
        }
        if let Some(t) = &probes[i].observed_addr {
            if let Some(a) = SocketAddr::parse(t.as_str()) {
                if !is_private_or_loopback(&a) {
                    addrs.push(a);
                }
            }
        }
        i += 1;
    }
    assert(view.take(i as int) =~= view);
    addrs
}

/// The kind of NAT that public addresses tell of, and the address that they
/// agree on.
fn classify_addrs(addrs: &[SocketAddr]) -> (r: (NatType, Option<String>))
    ensures
        (r.0, opt_text(r.1)) == nat_class(addrs@),
{
    if addrs.len() < 2 {
        return (NatType::Unknown, None);
    }
    let first = addrs[0];
    let mut same_ip = true;
    let mut same_port = true;
    let mut k: usize = 0;
    while k < addrs.len()
        invariant
            k <= addrs@.len(),
            addrs@.len() >= 2,
            first == addrs@[0],
            same_ip == forall|j: int|
                0 <= j < k ==> (#[trigger] addrs@[j]).spec_ip() == addrs@[0].spec_ip(),
            same_port == forall|j: int|
                0 <= j < k ==> (#[trigger] addrs@[j]).spec_port() == addrs@[0].spec_port(),
        decreases addrs.len() - k,
    {
        if addrs[k].ip() != first.ip() {
            same_ip = false;
        }
        if addrs[k].port() != first.port() {
            same_port = false;
        }
        k += 1;
    }
    if !same_ip {
        (NatType::Multiple, None)
    } else if same_port {
        (NatType::Cone, Some(first.text()))
    } else {
        (NatType::SymmetricPort, None)
    }
}

/// The kind of NAT that the probes tell of, and the address that they agree
/// on. Only public addresses count.
pub fn classify_nat(probes: &[NatProbeResult]) -> (r: (NatType, Option<String>))
    ensures
        (r.0, opt_text(r.1)) == nat_class(public_addrs(probes_view(probes@))),
{
    let addrs = seen_addrs(probes);
    classify_addrs(addrs.as_slice())
}

/// As [`classify_nat`], from the probes of two kinds of servers together.
pub fn classify_nat_of_both(first: &[NatProbeResult], second: &[NatProbeResult]) -> (r: (
    NatType,
    Option<String>,
))
    ensures
        (r.0, opt_text(r.1)) == nat_class(
            public_addrs(probes_view(first@) + probes_view(second@)),
        ),
{
    let mut addrs = seen_addrs(first);
    let mut more = seen_addrs(second);
    addrs.append(&mut more);
    proof {
        lemma_public_addrs_of_both(probes_view(first@), probes_view(second@));
    }
    classify_addrs(addrs.as_slice())
}

/// Probes with their classification.
pub fn detection(probes: Vec<NatProbeResult>) -> (r: NatDetection)
    ensures
        r.probes == probes,
        (r.nat_type, opt_text(r.consensus_addr)) == nat_class(public_addrs(probes_view(probes@))),
{
    let (nat_type, consensus_addr) = classify_nat(probes.as_slice());
    NatDetection { probes, nat_type, consensus_addr }
}

// ---------------------------------------------------------------------------
// Rows of a detection
// ---------------------------------------------------------------------------

/// The row for a probe of the relay `name` at `addr`.
pub fn relay_probe_row(name: String, addr: SocketAddr, result: Result<(SocketAddr, u32), String>) -> (r:
    NatProbeResult)
    ensures
        r@ == (match result {
            Ok((observed, latency_ms)) => ProbeView {
                relay_name: name@,
                relay_addr: crate::net::socket_text(addr),
                observed_addr: Some(crate::net::socket_text(observed)),
                latency_ms: Some(latency_ms),
                error: None,
            },
            Err(e) => ProbeView {
                relay_name: name@,
                relay_addr: crate::net::socket_text(addr),
                observed_addr: None,
                latency_ms: None,
                error: Some(e@),
            },
        }),
{
    match result {
        Ok((observed, latency_ms)) => NatProbeResult {
            relay_name: name,
            relay_addr: addr.text(),
            observed_addr: Some(observed.text()),
            latency_ms: Some(latency_ms),
            error: None,
        },
        Err(e) => NatProbeResult {
            relay_name: name,
            relay_addr: addr.text(),
            observed_addr: None,
            latency_ms: None,
            error: Some(e),
        },
    }
}

/// The row for a probe that ended without a result.
pub fn lost_probe_row(why: &str) -> (r: NatProbeResult)
    ensures
        r@ == (ProbeView {
            relay_name: "<panicked>"@,
            relay_addr: "unknown"@,
            observed_addr: None,
            latency_ms: None,
            error: Some("probe task panicked: "@ + why@),
        }),
{
    let mut e = String::from_str("probe task panicked: ");
    e.append(why);
    NatProbeResult {
        relay_name: String::from_str("<panicked>"),
        relay_addr: String::from_str("unknown"),
        observed_addr: None,
        latency_ms: None,
        error: Some(e),
    }
}

/// The row for a probe of the STUN server `server`, once resolved to
/// `resolved`.
pub fn stun_probe_row(
    server: &str,
    resolved: Option<SocketAddr>,
    outcome: Result<SocketAddr, String>,
    latency_ms: u32,
) -> (r: NatProbeResult)
    ensures
        r@.relay_name == "stun:"@ + server@,
        r@.relay_addr == (match resolved {
            Some(a) => crate::net::socket_text(a),
            None => server@,
        }),
        match outcome {
            Ok(a) => r@.observed_addr == Some(crate::net::socket_text(a)) && r@.latency_ms == Some(
                latency_ms,
            ) && r@.error is None,
            Err(e) => r@.observed_addr is None && r@.latency_ms is None && r@.error == Some(e@),
        },
{
    let mut relay_name = String::from_str("stun:");
    relay_name.append(server);
    let relay_addr = match resolved {
        Some(a) => a.text(),
        None => String::from_str(server),
    };
    match outcome {
        Ok(a) => NatProbeResult {
            relay_name,
            relay_addr,
            observed_addr: Some(a.text()),
            latency_ms: Some(latency_ms),
            error: None,
        },
        Err(e) => NatProbeResult {
            relay_name,
            relay_addr,
            observed_addr: None,
            latency_ms: None,
            error: Some(e),
        },
    }
}

/// The row for a STUN probe that ended without a result.
pub fn lost_stun_row() -> (r: NatProbeResult)
    ensures
        r@ == (ProbeView {
            relay_name: "stun:<panicked>"@,
            relay_addr: "unknown"@,
            observed_addr: None,
            latency_ms: None,
            error: Some("STUN probe task panicked"@),
        }),
{
    NatProbeResult {
        relay_name: String::from_str("stun:<panicked>"),
        relay_addr: String::from_str("unknown"),
        observed_addr: None,
        latency_ms: None,
        error: Some(String::from_str("STUN probe task panicked")),
    }
}

// ---------------------------------------------------------------------------
// The exchange of one relay probe
// ---------------------------------------------------------------------------

/// What went wrong in a probe of a relay.
#[derive(Debug, Clone)]
pub enum ProbeError {
    /// The connection closed before the registration was acknowledged.
    ClosedBeforeAck,
    /// Something other than a positive acknowledgement came.
    UnexpectedBeforeReflect,
    /// Reading the acknowledgement failed.
    RecvAck(String),
    /// The connection closed before the answer.
    ClosedBeforeResponse,
    /// Something other than the answer came.
    UnexpectedResponse,
    /// Reading the answer failed.
    RecvResponse(String),
    /// The answer holds no address.
    BadAddress(String),
}

/// What is said of an answer that holds no address, given in quotes.
pub fn bad_address_text(quoted_addr: &str) -> (r: String)
    ensures
        r@ == "parse observed_addr "@ + quoted_addr@ + ": invalid socket address syntax"@,
{
    let mut m = String::from_str("parse observed_addr ");
    m.append(quoted_addr);
    m.append(": invalid socket address syntax");
    m
}

impl ProbeError {
    /// What is told of the failure. Which signal came in place of the one
    /// that was waited for is not said.
    pub open spec fn message(self) -> Seq<char> {
        match self {
            ProbeError::ClosedBeforeAck => "connection closed before RegisterPresenceAck"@,
            ProbeError::UnexpectedBeforeReflect => "unexpected pre-reflect signal"@,
            ProbeError::RecvAck(e) => "recv RegisterPresenceAck: "@ + e@,
            ProbeError::ClosedBeforeResponse => "connection closed before ReflectResponse"@,
            ProbeError::UnexpectedResponse => "expected ReflectResponse, got another signal"@,
            ProbeError::RecvResponse(e) => "recv ReflectResponse: "@ + e@,
            ProbeError::BadAddress(t) => "parse observed_addr "@ + crate::text::quoted(t@)
                + ": invalid socket address syntax"@,
        }
    }

    pub fn to_string(&self) -> (r: String)
        ensures
            r@ == self.message(),
    {
        match self {
            ProbeError::ClosedBeforeAck => String::from_str(
                "connection closed before RegisterPresenceAck",
            ),
            ProbeError::UnexpectedBeforeReflect => String::from_str("unexpected pre-reflect signal"),
            ProbeError::RecvAck(e) => {
                let mut m = String::from_str("recv RegisterPresenceAck: ");
                m.append(e.as_str());
                m
            },
            ProbeError::ClosedBeforeResponse => String::from_str(
                "connection closed before ReflectResponse",
            ),
            ProbeError::UnexpectedResponse => String::from_str(
                "expected ReflectResponse, got another signal",
            ),
            ProbeError::RecvResponse(e) => {
                let mut m = String::from_str("recv ReflectResponse: ");
                m.append(e.as_str());
                m
            },
            ProbeError::BadAddress(t) => {
                let quoted_addr = crate::text::quote(t.as_str());
                bad_address_text(quoted_addr.as_str())
            },
        }
    }
}

/// After registering with an empty identity, only a positive acknowledgement
/// lets the probe go on.
pub fn after_register(reply: Result<Option<SignalMessage>, String>) -> (r: Result<(), ProbeError>)
    ensures
        match reply {
            Ok(Some(SignalMessage::RegisterPresenceAck { success: true, .. })) => r is Ok,
            Ok(Some(_)) => r == Err::<(), ProbeError>(ProbeError::UnexpectedBeforeReflect),
            Ok(None) => r == Err::<(), ProbeError>(ProbeError::ClosedBeforeAck),
            Err(e) => r == Err::<(), ProbeError>(ProbeError::RecvAck(e)),
        },
{
    match reply {
        Ok(Some(m)) => match m {
            SignalMessage::RegisterPresenceAck { success, .. } => if success {
                Ok(())
            } else {
                Err(ProbeError::UnexpectedBeforeReflect)
            },
            _ => Err(ProbeError::UnexpectedBeforeReflect),
        },
        Ok(None) => Err(ProbeError::ClosedBeforeAck),
        Err(e) => Err(ProbeError::RecvAck(e)),
    }
}

/// The address in the answer to a reflection request.
pub fn after_reflect(reply: Result<Option<SignalMessage>, String>) -> (r: Result<
    SocketAddr,
    ProbeError,
>)
    ensures
        match reply {
            Ok(Some(SignalMessage::ReflectResponse { observed_addr })) => match crate::net::parse_socket(
                observed_addr@,
            ) {
                Some(a) => r == Ok::<SocketAddr, ProbeError>(a),
                None => r == Err::<SocketAddr, ProbeError>(ProbeError::BadAddress(observed_addr)),
            },
            Ok(Some(_)) => r == Err::<SocketAddr, ProbeError>(ProbeError::UnexpectedResponse),
            Ok(None) => r == Err::<SocketAddr, ProbeError>(ProbeError::ClosedBeforeResponse),
            Err(e) => r == Err::<SocketAddr, ProbeError>(ProbeError::RecvResponse(e)),
        },
{
    match reply {
        Ok(Some(m)) => match m {
            SignalMessage::ReflectResponse { observed_addr } => {
                match SocketAddr::parse(observed_addr.as_str()) {
                    Some(a) => Ok(a),
                    None => Err(ProbeError::BadAddress(observed_addr)),
                }
            },
            _ => Err(ProbeError::UnexpectedResponse),
        },
        Ok(None) => Err(ProbeError::ClosedBeforeResponse),
        Err(e) => Err(ProbeError::RecvResponse(e)),
    }
}

} // verus!
